//! Packets of MQTT 5.0, as far as a session reads or writes them.

use vstd::prelude::*;
use vstd::utf8::encode_utf8;

use crate::types::{
    fits_string, four_bytes, lemma_variable_length_size, size_of_variable_length, string_fits,
    two_bytes, variable_length, variable_length_size, Publish, PublishView, QoS, MAX_FIELD_BYTES, MAX_VARIABLE_LENGTH,
};

verus! {

/// The reason code of an acknowledgement without complaint.
pub const SUCCESS: u8 = 0x00;

/// The reason code of a PUBREL or PUBCOMP for an unknown packet identifier.
pub const PACKET_ID_NOT_FOUND: u8 = 0x92;

/// How many bytes of properties the content of a PUBREL packet may have before
/// the codec leaves some of them out.
pub const MAX_ACK_PROPERTIES: u32 = 1_048_565;

/// The properties of a version 5 PUBLISH packet.
#[derive(Clone, Debug)]
pub struct PublishProperties {
    pub topic_alias: Option<u16>,
    pub correlation_data: Option<Vec<u8>>,
    pub message_expiry_interval: Option<u32>,
    pub content_type: Option<String>,
    pub user_properties: Vec<(String, String)>,
    pub is_utf8_payload: bool,
    pub response_topic: Option<String>,
    pub subscription_ids: Vec<u32>,
}

/// Mathematical counterpart of [`PublishProperties`].
#[verifier::ext_equal]
pub struct PublishPropertiesView {
    pub topic_alias: Option<u16>,
    pub correlation_data: Option<Seq<u8>>,
    pub message_expiry_interval: Option<u32>,
    pub content_type: Option<Seq<char>>,
    pub user_properties: Seq<(Seq<char>, Seq<char>)>,
    pub is_utf8_payload: bool,
    pub response_topic: Option<Seq<char>>,
    pub subscription_ids: Seq<u32>,
}

/// The texts of a list of user properties.
pub open spec fn user_properties_view(properties: Seq<(String, String)>) -> Seq<
    (Seq<char>, Seq<char>),
> {
    properties.map_values(|p: (String, String)| (p.0@, p.1@))
}

/// The text of an optional string.
pub open spec fn text_view(text: Option<String>) -> Option<Seq<char>> {
    match text {
        Some(text) => Some(text@),
        None => None,
    }
}

impl View for PublishProperties {
    type V = PublishPropertiesView;

    open spec fn view(&self) -> PublishPropertiesView {
        PublishPropertiesView {
            topic_alias: self.topic_alias,
            correlation_data: match self.correlation_data {
                Some(data) => Some(data@),
                None => None,
            },
            message_expiry_interval: self.message_expiry_interval,
            content_type: text_view(self.content_type),
            user_properties: user_properties_view(self.user_properties@),
            is_utf8_payload: self.is_utf8_payload,
            response_topic: text_view(self.response_topic),
            subscription_ids: self.subscription_ids@,
        }
    }
}

/// Encoded size of an optional string or binary property: its type byte, its
/// length prefix and its bytes.
pub open spec fn field_property_size(bytes: Option<Seq<u8>>) -> nat {
    match bytes {
        Some(bytes) => 3 + bytes.len(),
        None => 0,
    }
}

/// The bytes of an optional string.
pub open spec fn text_bytes(text: Option<Seq<char>>) -> Option<Seq<u8>> {
    match text {
        Some(text) => Some(encode_utf8(text)),
        None => None,
    }
}

/// An optional string or binary property: its type byte, its length prefix and
/// its bytes.
pub open spec fn field_property(kind: u8, bytes: Option<Seq<u8>>) -> Seq<u8> {
    match bytes {
        Some(bytes) => seq![kind] + two_bytes(bytes.len()) + bytes,
        None => Seq::empty(),
    }
}

/// One user property.
pub open spec fn user_property_bytes(property: (Seq<char>, Seq<char>)) -> Seq<u8> {
    seq![0x26u8] + two_bytes(encode_utf8(property.0).len()) + encode_utf8(property.0) + two_bytes(
        encode_utf8(property.1).len(),
    ) + encode_utf8(property.1)
}

/// A list of user properties.
pub open spec fn user_properties_bytes(properties: Seq<(Seq<char>, Seq<char>)>) -> Seq<u8>
    decreases properties.len(),
{
    if properties.len() == 0 {
        Seq::empty()
    } else {
        user_properties_bytes(properties.drop_last()) + user_property_bytes(properties.last())
    }
}

/// A list of subscription identifiers.
pub open spec fn subscription_ids_bytes(ids: Seq<u32>) -> Seq<u8>
    decreases ids.len(),
{
    if ids.len() == 0 {
        Seq::empty()
    } else {
        subscription_ids_bytes(ids.drop_last()) + (seq![0x0Bu8] + variable_length(
            ids.last() as nat,
        ))
    }
}

/// Encoded size of one user property.
pub open spec fn user_property_size(property: (Seq<char>, Seq<char>)) -> nat {
    5 + encode_utf8(property.0).len() + encode_utf8(property.1).len()
}

/// Encoded size of a list of user properties.
pub open spec fn user_properties_size(properties: Seq<(Seq<char>, Seq<char>)>) -> nat
    decreases properties.len(),
{
    if properties.len() == 0 {
        0
    } else {
        user_properties_size(properties.drop_last()) + user_property_size(properties.last())
    }
}

/// How many user properties fit into a number of bytes, from the first on.
pub open spec fn fitting(properties: Seq<(Seq<char>, Seq<char>)>, room: int) -> nat
    decreases properties.len(),
{
    if properties.len() == 0 || user_property_size(properties[0]) > room {
        0
    } else {
        1 + fitting(properties.skip(1), room - user_property_size(properties[0]))
    }
}

/// Encoded size of a list of subscription identifiers.
pub open spec fn subscription_ids_size(ids: Seq<u32>) -> nat
    decreases ids.len(),
{
    if ids.len() == 0 {
        0
    } else {
        subscription_ids_size(ids.drop_last()) + 1 + variable_length_size(ids.last() as nat)
    }
}

/// Whether both texts of a user property fit an MQTT string.
pub open spec fn fits_user_property(property: (Seq<char>, Seq<char>)) -> bool {
    fits_string(property.0) && fits_string(property.1)
}

impl PublishPropertiesView {
    /// Numbers that must not be zero are not, and every field fits its
    /// encoding.
    pub open spec fn wf(self) -> bool {
        &&& self.topic_alias != Some(0u16)
        &&& self.message_expiry_interval != Some(0u32)
        &&& self.correlation_data matches Some(data) ==> data.len() <= MAX_FIELD_BYTES
        &&& self.content_type matches Some(text) ==> fits_string(text)
        &&& self.response_topic matches Some(text) ==> fits_string(text)
        &&& forall|i: int|
            0 <= i < self.user_properties.len() ==> fits_user_property(
                #[trigger] self.user_properties[i],
            )
        &&& forall|i: int|
            0 <= i < self.subscription_ids.len() ==> 0 < #[trigger] self.subscription_ids[i]
                <= MAX_VARIABLE_LENGTH
    }

    /// Encoded size of the properties that are neither lists.
    pub open spec fn scalar_size(self) -> nat {
        (if self.topic_alias is Some {
            3nat
        } else {
            0nat
        }) + field_property_size(self.correlation_data) + (if self.message_expiry_interval is Some {
            5nat
        } else {
            0nat
        }) + field_property_size(text_bytes(self.content_type)) + (if self.is_utf8_payload {
            2nat
        } else {
            0nat
        }) + field_property_size(text_bytes(self.response_topic))
    }

    /// The properties that are neither lists: topic alias, correlation data,
    /// message expiry interval, content type, payload format and response topic,
    /// as far as they are there.
    pub open spec fn scalar_bytes(self) -> Seq<u8> {
        (match self.topic_alias {
            Some(alias) => seq![0x23u8] + two_bytes(alias as nat),
            None => Seq::empty(),
        }) + field_property(0x09, self.correlation_data) + (match self.message_expiry_interval {
            Some(secs) => seq![0x02u8] + four_bytes(secs as nat),
            None => Seq::empty(),
        }) + field_property(0x03, text_bytes(self.content_type)) + (if self.is_utf8_payload {
            seq![0x01u8, 1u8]
        } else {
            Seq::empty()
        }) + field_property(0x08, text_bytes(self.response_topic))
    }

    /// The encoding, without the length prefix of the property section.
    pub open spec fn bytes(self) -> Seq<u8> {
        self.scalar_bytes() + subscription_ids_bytes(self.subscription_ids) + user_properties_bytes(
            self.user_properties,
        )
    }

    /// Encoded size, without the length prefix of the property section.
    pub open spec fn size(self) -> nat {
        self.scalar_size() + subscription_ids_size(self.subscription_ids) + user_properties_size(
            self.user_properties,
        )
    }
}

proof fn lemma_user_properties_size_monotonic(properties: Seq<(Seq<char>, Seq<char>)>, n: int)
    requires
        0 <= n <= properties.len(),
    ensures
        user_properties_size(properties.take(n)) <= user_properties_size(properties),
    decreases properties.len(),
{
    if n < properties.len() {
        lemma_user_properties_size_monotonic(properties.drop_last(), n);
        assert(properties.drop_last().take(n) =~= properties.take(n));
    } else {
        assert(properties.take(n) =~= properties);
    }
}

proof fn lemma_subscription_ids_size_monotonic(ids: Seq<u32>, n: int)
    requires
        0 <= n <= ids.len(),
    ensures
        subscription_ids_size(ids.take(n)) <= subscription_ids_size(ids),
    decreases ids.len(),
{
    if n < ids.len() {
        lemma_subscription_ids_size_monotonic(ids.drop_last(), n);
        assert(ids.drop_last().take(n) =~= ids.take(n));
    } else {
        assert(ids.take(n) =~= ids);
    }
}

/// The encoded size of an optional string property, or `None` if it does not
/// fit.
fn checked_text_size(text: &Option<String>) -> (size: Option<usize>)
    ensures
        size is Some <==> (text matches Some(text) ==> fits_string(text@)),
        size matches Some(size) ==> size == field_property_size(text_bytes(text_view(*text)))
            && size <= 65_538,
{
    match text {
        Some(text) => {
            if string_fits(text) {
                Some(3 + text.as_str().as_bytes().len())
            } else {
                None
            }
        },
        None => Some(0),
    }
}

impl PublishProperties {
    fn checked_scalar_size(&self) -> (size: Option<usize>)
        ensures
            size is Some <==> {
                &&& self@.topic_alias != Some(0u16)
                &&& self@.message_expiry_interval != Some(0u32)
                &&& self@.correlation_data matches Some(data) ==> data.len() <= MAX_FIELD_BYTES
                &&& self@.content_type matches Some(text) ==> fits_string(text)
                &&& self@.response_topic matches Some(text) ==> fits_string(text)
            },
            size matches Some(size) ==> size == self@.scalar_size() && size <= 200_000,
    {
        let alias: usize = match self.topic_alias {
            Some(alias) => if alias == 0 {
                return None;
            } else {
                3
            },
            None => 0,
        };
        let expiry: usize = match self.message_expiry_interval {
            Some(expiry) => if expiry == 0 {
                return None;
            } else {
                5
            },
            None => 0,
        };
        let correlation: usize = match &self.correlation_data {
            Some(data) => if data.len() > MAX_FIELD_BYTES {
                return None;
            } else {
                3 + data.len()
            },
            None => 0,
        };
        let content_type: usize = match checked_text_size(&self.content_type) {
            Some(size) => size,
            None => return None,
        };
        let response_topic: usize = match checked_text_size(&self.response_topic) {
            Some(size) => size,
            None => return None,
        };
        let utf8: usize = if self.is_utf8_payload {
            2
        } else {
            0
        };
        Some(alias + correlation + expiry + content_type + utf8 + response_topic)
    }

    fn checked_ids_size(&self, limit: usize) -> (size: Option<usize>)
        requires
            limit <= 1_048_576,
        ensures
            size matches Some(size) ==> {
                &&& size == subscription_ids_size(self@.subscription_ids)
                &&& size <= limit
                &&& forall|i: int|
                    0 <= i < self@.subscription_ids.len() ==> 0
                        < #[trigger] self@.subscription_ids[i] <= MAX_VARIABLE_LENGTH
            },
            size is None ==> {
                ||| subscription_ids_size(self@.subscription_ids) > limit
                ||| exists|i: int|
                    0 <= i < self@.subscription_ids.len() && !(0
                        < #[trigger] self@.subscription_ids[i] <= MAX_VARIABLE_LENGTH)
            },
    {
        let ghost ids = self.subscription_ids@;
        let mut size: usize = 0;
        let mut i: usize = 0;
        while i < self.subscription_ids.len()
            invariant
                limit <= 1_048_576,
                i <= self.subscription_ids.len(),
                ids == self.subscription_ids@,
                size == subscription_ids_size(ids.take(i as int)),
                size <= limit,
                forall|j: int| 0 <= j < i ==> 0 < #[trigger] ids[j] <= MAX_VARIABLE_LENGTH,
            decreases self.subscription_ids.len() - i,
        {
            let id: u32 = self.subscription_ids[i];
            if id == 0 || id > MAX_VARIABLE_LENGTH {
                assert(!(0 < ids[i as int] <= MAX_VARIABLE_LENGTH));
                return None;
            }
            size = size + 1 + size_of_variable_length(id as usize);
            proof {
                assert(ids.take(i + 1).drop_last() =~= ids.take(i as int));
                lemma_subscription_ids_size_monotonic(ids, i + 1);
            }
            if size > limit {
                return None;
            }
            i = i + 1;
        }
        assert(ids.take(i as int) =~= ids);
        Some(size)
    }

    fn checked_user_size(&self, limit: usize) -> (size: Option<usize>)
        requires
            limit <= 1_048_576,
        ensures
            size matches Some(size) ==> {
                &&& size == user_properties_size(self@.user_properties)
                &&& size <= limit
                &&& forall|i: int|
                    0 <= i < self@.user_properties.len() ==> fits_user_property(
                        #[trigger] self@.user_properties[i],
                    )
            },
            size is None ==> {
                ||| user_properties_size(self@.user_properties) > limit
                ||| exists|i: int|
                    0 <= i < self@.user_properties.len() && !fits_user_property(
                        #[trigger] self@.user_properties[i],
                    )
            },
    {
        let ghost properties = self@.user_properties;
        let mut size: usize = 0;
        let mut i: usize = 0;
        while i < self.user_properties.len()
            invariant
                limit <= 1_048_576,
                i <= self.user_properties.len(),
                properties == self@.user_properties,
                size == user_properties_size(properties.take(i as int)),
                size <= limit,
                forall|j: int| 0 <= j < i ==> fits_user_property(#[trigger] properties[j]),
            decreases self.user_properties.len() - i,
        {
            let property = &self.user_properties[i];
            assert(properties[i as int] == (property.0@, property.1@));
            if !string_fits(&property.0) || !string_fits(&property.1) {
                assert(!fits_user_property(properties[i as int]));
                return None;
            }
            size = size + 5 + property.0.as_str().as_bytes().len()
                + property.1.as_str().as_bytes().len();
            proof {
                assert(properties.take(i + 1).drop_last() =~= properties.take(i as int));
                lemma_user_properties_size_monotonic(properties, i + 1);
            }
            if size > limit {
                return None;
            }
            i = i + 1;
        }
        assert(properties.take(i as int) =~= properties);
        Some(size)
    }

    /// The encoded size of well-formed properties that take at most `limit`
    /// bytes, or `None`.
    pub fn checked_size(&self, limit: usize) -> (size: Option<usize>)
        requires
            limit <= 1_048_576,
        ensures
            size is Some <==> self@.wf() && self@.size() <= limit,
            size matches Some(size) ==> size == self@.size(),
    {
        let scalar: usize = match self.checked_scalar_size() {
            Some(size) => size,
            None => return None,
        };
        let ids: usize = match self.checked_ids_size(limit) {
            Some(size) => size,
            None => return None,
        };
        let user: usize = match self.checked_user_size(limit) {
            Some(size) => size,
            None => return None,
        };
        let size: usize = scalar + ids + user;
        if size <= limit {
            Some(size)
        } else {
            None
        }
    }
}

/// How retained messages are sent when a subscription is made.
#[derive(Clone, Copy, Debug, PartialEq, Eq, Structural)]
pub enum RetainHandling {
    AtSubscribe,
    AtSubscribeNew,
    NoAtSubscribe,
}

impl RetainHandling {
    /// The option's number on the wire.
    pub open spec fn level(self) -> u8 {
        match self {
            RetainHandling::AtSubscribe => 0,
            RetainHandling::AtSubscribeNew => 1,
            RetainHandling::NoAtSubscribe => 2,
        }
    }

    /// The option that a number stands for; numbers above two stand for none.
    pub open spec fn of_level(level: u8) -> Option<RetainHandling> {
        if level == 0 {
            Some(RetainHandling::AtSubscribe)
        } else if level == 1 {
            Some(RetainHandling::AtSubscribeNew)
        } else if level == 2 {
            Some(RetainHandling::NoAtSubscribe)
        } else {
            None
        }
    }

    /// The option's number on the wire.
    pub fn value(self) -> (level: u8)
        ensures
            level == self.level(),
    {
        match self {
            RetainHandling::AtSubscribe => 0,
            RetainHandling::AtSubscribeNew => 1,
            RetainHandling::NoAtSubscribe => 2,
        }
    }

    /// The option that a number stands for.
    pub fn from_value(level: u8) -> (handling: Option<RetainHandling>)
        ensures
            handling == RetainHandling::of_level(level),
    {
        if level == 0 {
            Some(RetainHandling::AtSubscribe)
        } else if level == 1 {
            Some(RetainHandling::AtSubscribeNew)
        } else if level == 2 {
            Some(RetainHandling::NoAtSubscribe)
        } else {
            None
        }
    }
}

/// Options of one topic filter of a SUBSCRIBE packet.
#[derive(Clone, Copy, Debug, PartialEq, Eq, Structural)]
pub struct SubscriptionOptions {
    pub qos: QoS,
    pub no_local: bool,
    pub retain_as_published: bool,
    pub retain_handling: RetainHandling,
}

/// Outcome of one topic filter of a SUBSCRIBE packet.
#[derive(Clone, Copy, Debug, PartialEq, Eq, Structural)]
pub enum SubscribeAckReason {
    GrantedQos0,
    GrantedQos1,
    GrantedQos2,
    /// A refusal, by its reason code.
    Refused(u8),
}

/// PUBACK, PUBREC, PUBREL and PUBCOMP content.
#[derive(Clone, Debug)]
pub struct PublishAck {
    pub packet_id: u16,
    pub reason_code: u8,
    pub properties: Vec<(String, String)>,
    pub reason_string: Option<String>,
}

/// Mathematical counterpart of [`PublishAck`].
#[verifier::ext_equal]
pub struct PublishAckView {
    pub packet_id: u16,
    pub reason_code: u8,
    pub properties: Seq<(Seq<char>, Seq<char>)>,
    pub reason_string: Option<Seq<char>>,
}

impl View for PublishAck {
    type V = PublishAckView;

    open spec fn view(&self) -> PublishAckView {
        PublishAckView {
            packet_id: self.packet_id,
            reason_code: self.reason_code,
            properties: user_properties_view(self.properties@),
            reason_string: text_view(self.reason_string),
        }
    }
}

impl PublishAckView {
    /// The acknowledgement of a packet without complaint.
    pub open spec fn success(packet_id: u16) -> PublishAckView {
        PublishAckView {
            packet_id,
            reason_code: SUCCESS,
            properties: Seq::empty(),
            reason_string: None,
        }
    }

    /// The identifier is not zero and every text fits an MQTT string.
    pub open spec fn wf(self) -> bool {
        &&& self.packet_id != 0
        &&& forall|i: int|
            0 <= i < self.properties.len() ==> fits_user_property(#[trigger] self.properties[i])
        &&& self.reason_string matches Some(text) ==> fits_string(text)
    }

    /// The encoding of the properties.
    pub open spec fn property_bytes(self) -> Seq<u8> {
        user_properties_bytes(self.properties) + field_property(
            0x1F,
            text_bytes(self.reason_string),
        )
    }

    /// Encoded size of the properties.
    pub open spec fn property_size(self) -> nat {
        user_properties_size(self.properties) + field_property_size(text_bytes(self.reason_string))
    }

    /// What of the acknowledgement is encoded: user properties up to the first
    /// that does not fit, and the reason string if it fits behind all of them.
    pub open spec fn cut(self) -> PublishAckView {
        let kept = fitting(self.properties, MAX_ACK_PROPERTIES as int);
        PublishAckView {
            properties: self.properties.take(kept as int),
            reason_string: if kept == self.properties.len() && self.property_size()
                <= MAX_ACK_PROPERTIES {
                self.reason_string
            } else {
                None
            },
            ..self
        }
    }

    /// The content of a PUBREL packet that has an encoding.
    pub open spec fn is_release(self) -> bool {
        &&& self.wf()
        &&& self.reason_code == SUCCESS || self.reason_code == PACKET_ID_NOT_FOUND
    }
}

impl PublishAck {
    /// The acknowledgement of a packet without complaint.
    pub fn success(packet_id: u16) -> (ack: PublishAck)
        ensures
            ack@ == PublishAckView::success(packet_id),
    {
        let ack = PublishAck {
            packet_id,
            reason_code: SUCCESS,
            properties: Vec::new(),
            reason_string: None,
        };
        assert(ack@ =~= PublishAckView::success(packet_id));
        ack
    }

    /// Whether this is the content of a PUBREL packet that has an encoding.
    pub fn is_valid_release(&self) -> (valid: bool)
        ensures
            valid == self@.is_release(),
    {
        if self.packet_id == 0 {
            return false;
        }
        if self.reason_code != SUCCESS && self.reason_code != PACKET_ID_NOT_FOUND {
            return false;
        }
        match &self.reason_string {
            Some(text) => if !string_fits(text) {
                return false;
            },
            None => {},
        }
        let mut i: usize = 0;
        while i < self.properties.len()
            invariant
                i <= self.properties.len(),
                forall|j: int| 0 <= j < i ==> fits_user_property(#[trigger] self@.properties[j]),
            decreases self.properties.len() - i,
        {
            let property = &self.properties[i];
            assert(self@.properties[i as int] == (property.0@, property.1@));
            if !string_fits(&property.0) || !string_fits(&property.1) {
                assert(!fits_user_property(self@.properties[i as int]));
                return false;
            }
            i = i + 1;
        }
        true
    }
}

/// A SUBSCRIBE packet.
#[derive(Clone, Debug)]
pub struct Subscribe {
    pub packet_id: u16,
    pub id: Option<u32>,
    pub user_properties: Vec<(String, String)>,
    pub topic_filters: Vec<(String, SubscriptionOptions)>,
}

/// Mathematical counterpart of [`Subscribe`].
#[verifier::ext_equal]
pub struct SubscribeView {
    pub packet_id: u16,
    pub id: Option<u32>,
    pub user_properties: Seq<(Seq<char>, Seq<char>)>,
    pub topic_filters: Seq<(Seq<char>, SubscriptionOptions)>,
}

impl View for Subscribe {
    type V = SubscribeView;

    open spec fn view(&self) -> SubscribeView {
        SubscribeView {
            packet_id: self.packet_id,
            id: self.id,
            user_properties: user_properties_view(self.user_properties@),
            topic_filters: self.topic_filters@.map_values(
                |f: (String, SubscriptionOptions)| (f.0@, f.1),
            ),
        }
    }
}

/// A control packet.
#[derive(Clone, Debug)]
pub enum Packet {
    Connect { keep_alive: u16 },
    ConnectAck { reason_code: u8, server_keepalive_sec: Option<u16> },
    Publish(Publish),
    PublishAck(PublishAck),
    PublishReceived(PublishAck),
    PublishRelease(PublishAck),
    PublishComplete(PublishAck),
    Subscribe(Subscribe),
    SubscribeAck { packet_id: u16, status: Vec<SubscribeAckReason> },
    Unsubscribe { packet_id: u16, topic_filters: Vec<String> },
    UnsubscribeAck { packet_id: u16, status: Vec<u8> },
    PingRequest,
    PingResponse,
    Disconnect { reason_code: u8 },
    Auth,
}

/// Mathematical counterpart of [`Packet`].
#[verifier::ext_equal]
pub enum PacketView {
    Connect { keep_alive: u16 },
    ConnectAck { reason_code: u8, server_keepalive_sec: Option<u16> },
    Publish(PublishView),
    PublishAck(PublishAckView),
    PublishReceived(PublishAckView),
    PublishRelease(PublishAckView),
    PublishComplete(PublishAckView),
    Subscribe(SubscribeView),
    SubscribeAck { packet_id: u16, status: Seq<SubscribeAckReason> },
    Unsubscribe { packet_id: u16, topic_filters: Seq<Seq<char>> },
    UnsubscribeAck { packet_id: u16, status: Seq<u8> },
    PingRequest,
    PingResponse,
    Disconnect { reason_code: u8 },
    Auth,
}

impl View for Packet {
    type V = PacketView;

    open spec fn view(&self) -> PacketView {
        match *self {
            Packet::Connect { keep_alive } => PacketView::Connect { keep_alive },
            Packet::ConnectAck { reason_code, server_keepalive_sec } => PacketView::ConnectAck {
                reason_code,
                server_keepalive_sec,
            },
            Packet::Publish(publish) => PacketView::Publish(publish@),
            Packet::PublishAck(ack) => PacketView::PublishAck(ack@),
            Packet::PublishReceived(ack) => PacketView::PublishReceived(ack@),
            Packet::PublishRelease(ack) => PacketView::PublishRelease(ack@),
            Packet::PublishComplete(ack) => PacketView::PublishComplete(ack@),
            Packet::Subscribe(subscribe) => PacketView::Subscribe(subscribe@),
            Packet::SubscribeAck { packet_id, status } => PacketView::SubscribeAck {
                packet_id,
                status: status@,
            },
            Packet::Unsubscribe { packet_id, topic_filters } => PacketView::Unsubscribe {
                packet_id,
                topic_filters: topic_filters@.map_values(|f: String| f@),
            },
            Packet::UnsubscribeAck { packet_id, status } => PacketView::UnsubscribeAck {
                packet_id,
                status: status@,
            },
            Packet::PingRequest => PacketView::PingRequest,
            Packet::PingResponse => PacketView::PingResponse,
            Packet::Disconnect { reason_code } => PacketView::Disconnect { reason_code },
            Packet::Auth => PacketView::Auth,
        }
    }
}

proof fn lemma_user_properties_length(properties: Seq<(Seq<char>, Seq<char>)>)
    ensures
        user_properties_bytes(properties).len() == user_properties_size(properties),
    decreases properties.len(),
{
    if properties.len() > 0 {
        lemma_user_properties_length(properties.drop_last());
    }
}

proof fn lemma_subscription_ids_length(ids: Seq<u32>)
    requires
        forall|i: int| 0 <= i < ids.len() ==> #[trigger] ids[i] <= MAX_VARIABLE_LENGTH,
    ensures
        subscription_ids_bytes(ids).len() == subscription_ids_size(ids),
    decreases ids.len(),
{
    if ids.len() > 0 {
        let head = ids.drop_last();
        assert forall|i: int| 0 <= i < head.len() implies #[trigger] head[i]
            <= MAX_VARIABLE_LENGTH by {
            assert(head[i] == ids[i]);
        }
        lemma_subscription_ids_length(head);
        assert(ids[ids.len() - 1] <= MAX_VARIABLE_LENGTH);
        lemma_variable_length_size(ids.last() as nat);
    }
}

/// The size of the properties of a PUBLISH packet is the length of their
/// encoding.
pub proof fn law_publish_property_size_is_length(properties: PublishPropertiesView)
    requires
        properties.wf(),
    ensures
        properties.bytes().len() == properties.size(),
{
    lemma_user_properties_length(properties.user_properties);
    lemma_subscription_ids_length(properties.subscription_ids);
}

/// The size of the properties of an acknowledgement is the length of their
/// encoding.
pub proof fn law_ack_property_size_is_length(ack: PublishAckView)
    ensures
        ack.property_bytes().len() == ack.property_size(),
{
    lemma_user_properties_length(ack.properties);
}

proof fn lemma_user_properties_size_front(properties: Seq<(Seq<char>, Seq<char>)>)
    requires
        properties.len() > 0,
    ensures
        user_properties_size(properties) == user_property_size(properties[0])
            + user_properties_size(properties.skip(1)),
    decreases properties.len(),
{
    let head = properties.drop_last();
    if head.len() > 0 {
        lemma_user_properties_size_front(head);
        assert(properties.skip(1).drop_last() =~= head.skip(1));
    } else {
        assert(properties.skip(1) =~= Seq::empty());
        assert(user_properties_size(head) == 0);
    }
}

proof fn lemma_fitting(properties: Seq<(Seq<char>, Seq<char>)>, room: int)
    requires
        room >= 0,
    ensures
        fitting(properties, room) <= properties.len(),
        user_properties_size(properties.take(fitting(properties, room) as int)) <= room,
        user_properties_size(properties) <= room ==> fitting(properties, room) == properties.len(),
        fitting(properties, room) < properties.len() ==> user_properties_size(
            properties.take(fitting(properties, room) as int + 1),
        ) > room,
    decreases properties.len(),
{
    let kept = fitting(properties, room);
    if properties.len() == 0 || user_property_size(properties[0]) > room {
        assert(properties.take(0) =~= Seq::empty());
        if properties.len() > 0 {
            lemma_user_properties_size_front(properties);
            lemma_user_properties_size_front(properties.take(1));
        }
    } else {
        let rest = properties.skip(1);
        lemma_fitting(rest, room - user_property_size(properties[0]));
        lemma_user_properties_size_front(properties);
        lemma_user_properties_size_front(properties.take(kept as int));
        assert(properties.take(kept as int).skip(1) =~= rest.take(kept - 1));
        if kept < properties.len() {
            lemma_user_properties_size_front(properties.take(kept as int + 1));
            assert(properties.take(kept as int + 1).skip(1) =~= rest.take(kept as int));
        }
    }
}

/// What is encoded of an acknowledgement never takes more room than there is.
/// One that fits is encoded whole; of one that does not, the longest start of
/// its user properties that fits is kept.
pub proof fn law_acks_are_cut_to_fit(ack: PublishAckView)
    ensures
        ack.cut().property_size() <= MAX_ACK_PROPERTIES,
        ack.property_size() <= MAX_ACK_PROPERTIES ==> ack.cut() == ack,
        ack.cut().properties.is_prefix_of(ack.properties),
        ack.cut().properties.len() < ack.properties.len() ==> user_properties_size(
            ack.properties.take(ack.cut().properties.len() as int + 1),
        ) > MAX_ACK_PROPERTIES,
{
    lemma_fitting(ack.properties, MAX_ACK_PROPERTIES as int);
    if ack.property_size() <= MAX_ACK_PROPERTIES {
        assert(ack.properties.take(ack.properties.len() as int) =~= ack.properties);
    }
    if ack.cut().properties.len() == ack.properties.len() {
        assert(ack.cut().properties =~= ack.properties);
    }
}

/// The ways to handle retained messages are numbered as the wire numbers them, and no
/// other number stands for one.
pub proof fn law_retain_handling_levels(handling: RetainHandling, level: u8)
    ensures
        RetainHandling::of_level(handling.level()) == Some(handling),
        RetainHandling::of_level(level) is Some <==> level <= 2,
        RetainHandling::of_level(level) matches Some(found) ==> found.level() == level,
        handling == RetainHandling::AtSubscribe <==> handling.level() == 0,
        handling == RetainHandling::AtSubscribeNew <==> handling.level() == 1,
        handling == RetainHandling::NoAtSubscribe <==> handling.level() == 2,
{
}

/// Which properties have an encoding: those whose numbers are not zero and whose fields
/// fit a length of two bytes; identifiers of subscriptions also have a largest value.
pub proof fn law_which_properties_have_an_encoding(properties: PublishPropertiesView)
    ensures
        properties.wf() <==> {
            &&& properties.topic_alias matches Some(alias) ==> alias > 0
            &&& properties.message_expiry_interval matches Some(secs) ==> secs > 0
            &&& properties.correlation_data matches Some(data) ==> data.len() <= 65_535
            &&& properties.content_type matches Some(text) ==> encode_utf8(text).len() <= 65_535
            &&& properties.response_topic matches Some(text) ==> encode_utf8(text).len() <= 65_535
            &&& forall|i: int|
                0 <= i < properties.user_properties.len() ==> encode_utf8(
                    (#[trigger] properties.user_properties[i]).0,
                ).len() <= 65_535 && encode_utf8(properties.user_properties[i].1).len() <= 65_535
            &&& forall|i: int|
                0 <= i < properties.subscription_ids.len() ==> 1
                    <= #[trigger] properties.subscription_ids[i] <= 268_435_455
        },
{
    let all = properties.user_properties;
    assert(forall|i: int|
        0 <= i < all.len() ==> (fits_user_property(#[trigger] all[i]) <==> encode_utf8(
            all[i].0,
        ).len() <= 65_535 && encode_utf8(all[i].1).len() <= 65_535));
}

/// Which PUBREL packets have an encoding: those with an identifier, texts that fit a
/// length of two bytes, and a reason that a PUBREL packet can have.
pub proof fn law_which_releases_have_an_encoding(ack: PublishAckView)
    ensures
        ack.is_release() <==> {
            &&& ack.packet_id > 0
            &&& ack.reason_code == 0x00 || ack.reason_code == 0x92
            &&& ack.reason_string matches Some(text) ==> encode_utf8(text).len() <= 65_535
            &&& forall|i: int|
                0 <= i < ack.properties.len() ==> encode_utf8(
                    (#[trigger] ack.properties[i]).0,
                ).len() <= 65_535 && encode_utf8(ack.properties[i].1).len() <= 65_535
        },
        ack.packet_id > 0 ==> PublishAckView::success(ack.packet_id).is_release(),
{
    let all = ack.properties;
    assert(forall|i: int|
        0 <= i < all.len() ==> (fits_user_property(#[trigger] all[i]) <==> encode_utf8(
            all[i].0,
        ).len() <= 65_535 && encode_utf8(all[i].1).len() <= 65_535));
}

/// What is cut off an acknowledgement: never the identifier nor the reason code; the
/// reason string only together with user properties, or where all of them leave no room
/// for it in the 1048565 bytes that there are.
pub proof fn law_what_is_cut_off_acks(ack: PublishAckView)
    ensures
        ack.cut().packet_id == ack.packet_id,
        ack.cut().reason_code == ack.reason_code,
        ack.cut().reason_string == (if ack.property_bytes().len() <= 1_048_565 {
            ack.reason_string
        } else {
            None
        }),
        ack.cut().property_bytes().len() <= 1_048_565,
{
    law_acks_are_cut_to_fit(ack);
    law_ack_property_size_is_length(ack);
    law_ack_property_size_is_length(ack.cut());
}

/// An acknowledgement without complaint names its packet, and says nothing else.
pub proof fn law_acks_without_complaint(packet_id: u16)
    ensures
        ({
            let ack = PublishAckView::success(packet_id);
            &&& ack.packet_id == packet_id && ack.reason_code == 0
            &&& ack.properties.len() == 0 && ack.reason_string is None
            &&& ack.property_bytes().len() == 0
        }),
{
}

/// How properties are written: a list one behind the other, each user property as its type
/// and two strings, each subscription identifier as its type and a number; behind the
/// properties that are no lists come the identifiers, and behind those the user properties.
pub proof fn law_how_lists_are_written(
    properties: PublishPropertiesView,
    users: Seq<(Seq<char>, Seq<char>)>,
    user: (Seq<char>, Seq<char>),
    ids: Seq<u32>,
    id: u32,
)
    ensures
        user_properties_bytes(Seq::empty()).len() == 0 && subscription_ids_bytes(Seq::empty()).len()
            == 0,
        user_properties_bytes(users.push(user)) == user_properties_bytes(users) + (seq![0x26u8]
            + two_bytes(encode_utf8(user.0).len()) + encode_utf8(user.0) + two_bytes(
            encode_utf8(user.1).len(),
        ) + encode_utf8(user.1)),
        subscription_ids_bytes(ids.push(id)) == subscription_ids_bytes(ids) + (seq![0x0Bu8]
            + variable_length(id as nat)),
        properties.bytes() == properties.scalar_bytes() + subscription_ids_bytes(
            properties.subscription_ids,
        ) + user_properties_bytes(properties.user_properties),
{
    assert(users.push(user).drop_last() =~= users);
    assert(ids.push(id).drop_last() =~= ids);
}

} // verus!
