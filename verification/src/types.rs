//! Packet vocabulary shared by both protocol versions.

use vstd::prelude::*;
use vstd::utf8::encode_utf8;

use crate::v5;

verus! {

/// Protocol level of MQTT 3.1.
pub const MQTT_LEVEL_31: u8 = 3;

/// Protocol level of MQTT 3.1.1, as it stands in a CONNECT packet.
pub const MQTT_LEVEL_311: u8 = 4;

/// Protocol level of MQTT 5.0, as it stands in a CONNECT packet.
pub const MQTT_LEVEL_5: u8 = 5;

/// The largest frame either codec accepts, without its fixed header.
pub const MAX_PACKET_SIZE: u32 = 1_048_576;

/// The largest value that a variable-length integer can carry.
pub const MAX_VARIABLE_LENGTH: u32 = 268_435_455;

/// The longest string or binary field, in bytes.
pub const MAX_FIELD_BYTES: usize = 65_535;

/// Protocol family of a connection.
#[derive(Clone, Copy, Debug, PartialEq, Eq, Structural)]
pub enum ProtocolVersion {
    /// MQTT 3.1 and 3.1.1.
    MQTT3,
    /// MQTT 5.0.
    MQTT5,
}

/// Delivery guarantee of a message.
#[derive(Clone, Copy, Debug, PartialEq, Eq, Structural)]
pub enum QoS {
    /// Fire and forget.
    AtMostOnce,
    /// Acknowledged by PUBACK.
    AtLeastOnce,
    /// Acknowledged by the PUBREC, PUBREL, PUBCOMP exchange.
    ExactlyOnce,
}

impl QoS {
    /// The level's number on the wire.
    pub open spec fn level(self) -> u8 {
        match self {
            QoS::AtMostOnce => 0,
            QoS::AtLeastOnce => 1,
            QoS::ExactlyOnce => 2,
        }
    }

    /// The level that a number stands for; numbers above two stand for none.
    pub open spec fn of_level(level: u8) -> Option<QoS> {
        if level == 0 {
            Some(QoS::AtMostOnce)
        } else if level == 1 {
            Some(QoS::AtLeastOnce)
        } else if level == 2 {
            Some(QoS::ExactlyOnce)
        } else {
            None
        }
    }

    /// The level's number on the wire.
    pub fn value(self) -> (level: u8)
        ensures
            level == self.level(),
    {
        match self {
            QoS::AtMostOnce => 0,
            QoS::AtLeastOnce => 1,
            QoS::ExactlyOnce => 2,
        }
    }

    /// The level that a number stands for.
    pub fn from_value(level: u8) -> (qos: Option<QoS>)
        ensures
            qos == QoS::of_level(level),
    {
        if level == 0 {
            Some(QoS::AtMostOnce)
        } else if level == 1 {
            Some(QoS::AtLeastOnce)
        } else if level == 2 {
            Some(QoS::ExactlyOnce)
        } else {
            None
        }
    }
}

/// A PUBLISH packet. `properties` is `None` for a version 3 packet.
#[derive(Clone, Debug)]
pub struct Publish {
    pub dup: bool,
    pub retain: bool,
    pub qos: QoS,
    pub topic: String,
    pub packet_id: Option<u16>,
    pub payload: Vec<u8>,
    pub properties: Option<v5::PublishProperties>,
}

/// Mathematical counterpart of [`Publish`].
#[verifier::ext_equal]
pub struct PublishView {
    pub dup: bool,
    pub retain: bool,
    pub qos: QoS,
    pub topic: Seq<char>,
    pub packet_id: Option<u16>,
    pub payload: Seq<u8>,
    pub properties: Option<v5::PublishPropertiesView>,
}

impl View for Publish {
    type V = PublishView;

    open spec fn view(&self) -> PublishView {
        PublishView {
            dup: self.dup,
            retain: self.retain,
            qos: self.qos,
            topic: self.topic@,
            packet_id: self.packet_id,
            payload: self.payload@,
            properties: match self.properties {
                Some(properties) => Some(properties@),
                None => None,
            },
        }
    }
}

/// Whether a text fits the two-byte length prefix of an MQTT string.
pub open spec fn fits_string(text: Seq<char>) -> bool {
    encode_utf8(text).len() <= MAX_FIELD_BYTES
}

/// Number of bytes that a variable-length integer takes.
pub open spec fn variable_length_size(value: nat) -> nat {
    if value < 128 {
        1
    } else if value < 16_384 {
        2
    } else if value < 2_097_152 {
        3
    } else {
        4
    }
}

/// A variable-length integer: seven bits to a byte, low bits first, the high
/// bit set on every byte but the last.
pub open spec fn variable_length(value: nat) -> Seq<u8>
    decreases value,
{
    if value < 128 {
        seq![value as u8]
    } else {
        seq![(value % 128 + 128) as u8] + variable_length(value / 128)
    }
}

/// A number as two bytes, high byte first.
pub open spec fn two_bytes(value: nat) -> Seq<u8> {
    seq![(value / 256) as u8, (value % 256) as u8]
}

/// A number as four bytes, high byte first.
pub open spec fn four_bytes(value: nat) -> Seq<u8> {
    two_bytes(value / 65_536) + two_bytes(value % 65_536)
}

/// The packet type and flags byte of a PUBLISH packet.
pub open spec fn publish_first_byte(dup: bool, qos: QoS, retain: bool) -> u8 {
    (0x30 + 2 * qos.level() + (if dup {
        8int
    } else {
        0
    }) + (if retain {
        1int
    } else {
        0
    })) as u8
}

impl PublishView {
    /// The packet identifier goes with a delivery guarantee: it is there, and
    /// not zero, exactly for the acknowledged levels.
    pub open spec fn id_matches_qos(self) -> bool {
        match self.packet_id {
            Some(id) => id != 0 && self.qos != QoS::AtMostOnce,
            None => self.qos == QoS::AtMostOnce,
        }
    }

    /// Size of a version 3 frame after its fixed header.
    pub open spec fn v3_size(self) -> nat {
        2 + encode_utf8(self.topic).len() + (if self.qos == QoS::AtMostOnce {
            0nat
        } else {
            2nat
        }) + self.payload.len()
    }

    /// Whether the packet has a version 3 encoding.
    pub open spec fn v3_encodable(self) -> bool {
        &&& self.id_matches_qos()
        &&& fits_string(self.topic)
        &&& self.v3_size() <= MAX_VARIABLE_LENGTH
    }

    /// Size of a version 5 frame after its fixed header.
    pub open spec fn v5_size(self) -> nat {
        let properties = match self.properties {
            Some(properties) => properties.size(),
            None => 0,
        };
        self.v3_size() + variable_length_size(properties) + properties
    }

    /// Whether the packet has a version 5 encoding.
    pub open spec fn v5_encodable(self) -> bool {
        &&& self.id_matches_qos()
        &&& fits_string(self.topic)
        &&& self.properties matches Some(properties) ==> properties.wf()
        &&& self.v5_size() <= MAX_PACKET_SIZE
    }
}

/// Whether a text fits the two-byte length prefix of an MQTT string.
pub fn string_fits(text: &String) -> (fits: bool)
    ensures
        fits == fits_string(text@),
{
    text.as_str().as_bytes().len() <= MAX_FIELD_BYTES
}

/// Number of bytes that a variable-length integer takes.
pub fn size_of_variable_length(value: usize) -> (size: usize)
    ensures
        size == variable_length_size(value as nat),
{
    if value < 128 {
        1
    } else if value < 16_384 {
        2
    } else if value < 2_097_152 {
        3
    } else {
        4
    }
}

impl Publish {
    fn has_matching_id(&self) -> (matching: bool)
        ensures
            matching == self@.id_matches_qos(),
    {
        match self.packet_id {
            Some(id) => id != 0 && self.qos != QoS::AtMostOnce,
            None => self.qos == QoS::AtMostOnce,
        }
    }

    /// Whether the packet has a version 3 encoding.
    pub fn is_v3_encodable(&self) -> (encodable: bool)
        ensures
            encodable == self@.v3_encodable(),
    {
        if !self.has_matching_id() || !string_fits(&self.topic) {
            return false;
        }
        let limit: usize = 268_435_455;
        let head: usize = 2 + self.topic.as_str().as_bytes().len() + (if self.qos
            == QoS::AtMostOnce {
            0
        } else {
            2
        });
        self.payload.len() <= limit - head
    }

    /// Whether the packet has a version 5 encoding.
    pub fn is_v5_encodable(&self) -> (encodable: bool)
        ensures
            encodable == self@.v5_encodable(),
    {
        if !self.has_matching_id() || !string_fits(&self.topic) {
            return false;
        }
        let limit: usize = 1_048_576;
        let properties: usize = match &self.properties {
            Some(properties) => match properties.checked_size(limit) {
                Some(size) => size,
                None => return false,
            },
            None => 0,
        };
        let head: usize = 2 + self.topic.as_str().as_bytes().len() + (if self.qos
            == QoS::AtMostOnce {
            0
        } else {
            2
        });
        let rest: usize = limit - head;
        let section: usize = size_of_variable_length(properties) + properties;
        section <= rest && self.payload.len() <= rest - section
    }
}

/// The first byte of a CONNECT packet.
pub const CONNECT_FIRST_BYTE: u8 = 0x10;

/// What is known of a decoded frame.
#[derive(Clone, Copy, Debug)]
pub struct DecodedFrame {
    /// The keepalive in seconds, if the packet is a CONNECT.
    pub keep_alive: Option<u16>,
    /// Number of bytes behind the frame.
    pub rest: usize,
}

/// The encoding of a number that fits is as long as its size says.
pub proof fn lemma_variable_length_size(value: nat)
    requires
        value <= MAX_VARIABLE_LENGTH,
    ensures
        variable_length(value).len() == variable_length_size(value),
{
    reveal_with_fuel(variable_length, 4);
}

/// The levels are numbered as the wire numbers them, and no other number stands for
/// one.
pub proof fn law_qos_levels(qos: QoS, level: u8)
    ensures
        QoS::of_level(qos.level()) == Some(qos),
        QoS::of_level(level) is Some <==> level <= 2,
        QoS::of_level(level) matches Some(found) ==> found.level() == level,
        qos == QoS::AtMostOnce <==> qos.level() == 0,
        qos == QoS::AtLeastOnce <==> qos.level() == 1,
        qos == QoS::ExactlyOnce <==> qos.level() == 2,
{
}

/// Which messages have an encoding: those with a packet identifier exactly where there is
/// something to acknowledge, a topic that fits its length, and no more behind the fixed
/// header than a frame of the version can hold. What stands there is the topic with its
/// length, the identifier, in version 5 the properties with theirs, and the payload.
pub proof fn law_which_messages_have_an_encoding(publish: PublishView)
    ensures
        ({
            let topic = encode_utf8(publish.topic).len();
            let id_size = if publish.packet_id is Some {
                2nat
            } else {
                0nat
            };
            let properties = match publish.properties {
                Some(properties) => properties.size(),
                None => 0,
            };
            let plain = 2 + topic + id_size + publish.payload.len();
            let identified = match publish.qos {
                QoS::AtMostOnce => publish.packet_id is None,
                _ => publish.packet_id matches Some(id) && id != 0,
            };
            &&& publish.v3_encodable() <==> identified && topic <= 65_535 && plain <= 268_435_455
            &&& publish.v5_encodable() <==> identified && topic <= 65_535 && (
            publish.properties matches Some(properties) ==> properties.wf()) && plain
                + variable_length_size(properties) + properties <= 1_048_576
        }),
{
}

/// A number of two bytes reads back from them.
pub proof fn law_two_bytes_read_back(value: nat)
    requires
        value <= 65_535,
    ensures
        two_bytes(value).len() == 2,
        two_bytes(value)[0] * 256 + two_bytes(value)[1] == value,
{
}

} // verus!
