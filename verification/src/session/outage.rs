//! Broker-outage handling: while the broker is unreachable the client stays
//! serviced — local acks with bounded buffering, local keepalives and sub
//! management — until the reconnect replay flushes everything.

use std::collections::HashSet;

use vstd::prelude::*;

use crate::error::{SessionError, SessionErrorView};
use crate::packet::{Delivery, MqttPacket, MqttPacketView};
use crate::registry::{buffered_view, BufferedPublish, BufferedView};
use crate::session::subscriptions::{after_packet, Subscriptions};
use crate::types::{Publish, QoS};
use crate::v3;
use crate::v3::SubscribeReturnCode;
use crate::v5;
use crate::v5::{PublishAck, PublishAckView, SubscribeAckReason, SubscriptionOptions};
use crate::window::encode_raw;

verus! {

broadcast use vstd::std_specs::hash::group_hash_axioms;

/// Time until a failed connection attempt is first repeated, in milliseconds.
pub const BROKER_RETRY_INITIAL_MS: u64 = 100;

/// Longest time between two connection attempts, in milliseconds.
pub const BROKER_RETRY_MAX_MS: u64 = 5_000;

/// How much is buffered for a client during an outage, in bytes.
pub const OUTAGE_BUFFER_MAX_BYTES: usize = 1_048_576;

/// Publishes received from the client while the broker was unreachable,
/// already acked locally and awaiting delivery after reconnect.
#[derive(Debug)]
pub struct OutageBuffer {
    entries: Vec<BufferedPublish>,
    bytes: usize,
}

/// Number of bytes in buffered messages.
pub open spec fn total_bytes(entries: Seq<BufferedView>) -> nat
    decreases entries.len(),
{
    if entries.len() == 0 {
        0
    } else {
        total_bytes(entries.drop_last()) + entries.last().raw.len()
    }
}

/// Whether another message may be buffered.
pub open spec fn has_room(entries: Seq<BufferedView>, entry: BufferedView) -> bool {
    total_bytes(entries) + entry.raw.len() <= OUTAGE_BUFFER_MAX_BYTES
}

impl View for OutageBuffer {
    type V = Seq<BufferedView>;

    closed spec fn view(&self) -> Seq<BufferedView> {
        buffered_view(self.entries@)
    }
}

impl OutageBuffer {
    /// The byte count is that of the messages, as far as it can be counted.
    pub closed spec fn wf(&self) -> bool {
        self.bytes == if total_bytes(self@) <= usize::MAX {
            total_bytes(self@)
        } else {
            usize::MAX as nat
        }
    }

    /// A buffer without messages.
    pub fn new() -> (buffer: Self)
        ensures
            buffer.wf(),
            buffer@ == Seq::<BufferedView>::empty(),
    {
        let buffer = OutageBuffer { entries: Vec::new(), bytes: 0 };
        assert(buffer@ =~= Seq::<BufferedView>::empty());
        buffer
    }

    /// The buffer of a snapshot.
    pub fn from_entries(entries: Vec<BufferedPublish>) -> (buffer: Self)
        ensures
            buffer.wf(),
            buffer@ == buffered_view(entries@),
    {
        let ghost all = buffered_view(entries@);
        let mut bytes: usize = 0;
        let mut i: usize = 0;
        assert(all.take(0) =~= Seq::empty());
        while i < entries.len()
            invariant
                i <= entries.len(),
                all == buffered_view(entries@),
                bytes == if total_bytes(all.take(i as int)) <= usize::MAX {
                    total_bytes(all.take(i as int))
                } else {
                    usize::MAX as nat
                },
            decreases entries.len() - i,
        {
            assert(all.take(i + 1).drop_last() =~= all.take(i as int));
            let entry = &entries[i];
            assert(all[i as int] == entry@);
            bytes = bytes.saturating_add(entry.raw.len());
            i = i + 1;
        }
        assert(all.take(i as int) =~= all);
        OutageBuffer { entries, bytes }
    }

    /// The buffered messages, oldest first.
    pub fn entries(&self) -> (entries: &Vec<BufferedPublish>)
        ensures
            buffered_view(entries@) == self@,
    {
        &self.entries
    }

    /// Keep a message for later, unless the buffer would grow beyond its
    /// limit.
    pub fn push(&mut self, packet_id: u16, raw: Vec<u8>, qos: QoS) -> (result: Result<
        (),
        SessionError,
    >)
        requires
            old(self).wf(),
        ensures
            final(self).wf(),
            ({
                let entry = BufferedView { packet_id, raw: raw@, qos: qos.level() };
                match result {
                    Ok(()) => has_room(old(self)@, entry) && final(self)@ == old(self)@.push(entry),
                    Err(error) => !has_room(old(self)@, entry) && final(self)@ == old(self)@
                        && error@ == SessionErrorView::OutageBufferFull,
                }
            }),
    {
        let size: usize = raw.len();
        if size > OUTAGE_BUFFER_MAX_BYTES || self.bytes > OUTAGE_BUFFER_MAX_BYTES - size {
            return Err(SessionError::OutageBufferFull);
        }
        let ghost before = self@;
        let entry = BufferedPublish { packet_id, raw, qos: qos.value() };
        self.bytes = self.bytes + size;
        self.entries.push(entry);
        assert(self@ =~= before.push(entry@));
        assert(self@.drop_last() =~= before);
        Ok(())
    }

    /// Forget all messages.
    pub fn clear(&mut self)
        ensures
            final(self).wf(),
            final(self)@ == Seq::<BufferedView>::empty(),
    {
        self.entries = Vec::new();
        self.bytes = 0;
        assert(self@ =~= Seq::<BufferedView>::empty());
    }
}

/// Broker ack packet ids that must NOT be forwarded to the client: the
/// client was already acked locally during the outage.
#[derive(Debug)]
pub struct LocalAcks {
    qos1: HashSet<u16>,
    qos2: HashSet<u16>,
}

/// Mathematical counterpart of [`LocalAcks`].
#[verifier::ext_equal]
pub struct LocalAcksView {
    pub qos1: Set<u16>,
    pub qos2: Set<u16>,
}

impl View for LocalAcks {
    type V = LocalAcksView;

    closed spec fn view(&self) -> LocalAcksView {
        LocalAcksView { qos1: self.qos1@, qos2: self.qos2@ }
    }
}

impl LocalAcksView {
    /// No ack belongs to the proxy.
    pub open spec fn empty() -> LocalAcksView {
        LocalAcksView { qos1: Set::empty(), qos2: Set::empty() }
    }

    /// The acks of a message belong to the proxy.
    pub open spec fn marked(self, packet_id: u16, qos: u8) -> LocalAcksView {
        if qos == 1 {
            LocalAcksView { qos1: self.qos1.insert(packet_id), ..self }
        } else if qos == 2 {
            LocalAcksView { qos2: self.qos2.insert(packet_id), ..self }
        } else {
            self
        }
    }

    /// The acks of several messages belong to the proxy.
    pub open spec fn all_marked(self, entries: Seq<BufferedView>) -> LocalAcksView
        decreases entries.len(),
    {
        if entries.len() == 0 {
            self
        } else {
            self.all_marked(entries.drop_last()).marked(
                entries.last().packet_id,
                entries.last().qos,
            )
        }
    }

    /// One PUBACK has come.
    pub open spec fn without_qos1(self, packet_id: u16) -> LocalAcksView {
        LocalAcksView { qos1: self.qos1.remove(packet_id), ..self }
    }

    /// One PUBCOMP has come.
    pub open spec fn without_qos2(self, packet_id: u16) -> LocalAcksView {
        LocalAcksView { qos2: self.qos2.remove(packet_id), ..self }
    }
}

impl LocalAcks {
    /// No ack belongs to the proxy.
    pub fn new() -> (acks: Self)
        ensures
            acks@ == LocalAcksView::empty(),
    {
        let acks = LocalAcks { qos1: HashSet::new(), qos2: HashSet::new() };
        assert(acks@ =~= LocalAcksView::empty());
        acks
    }

    /// Let the acks of a message belong to the proxy.
    pub fn mark(&mut self, packet_id: u16, qos: u8)
        ensures
            final(self)@ == old(self)@.marked(packet_id, qos),
    {
        if qos == 1 {
            let _ = self.qos1.insert(packet_id);
        } else if qos == 2 {
            let _ = self.qos2.insert(packet_id);
        }
    }

    /// Take the PUBACK of a message; whether it belongs to the proxy.
    pub fn take_qos1(&mut self, packet_id: u16) -> (taken: bool)
        ensures
            taken == old(self)@.qos1.contains(packet_id),
            final(self)@ == old(self)@.without_qos1(packet_id),
    {
        let taken = self.qos1.remove(&packet_id);
        assert(self@ =~= old(self)@.without_qos1(packet_id));
        taken
    }

    /// Whether the PUBREC of a message belongs to the proxy.
    pub fn has_qos2(&self, packet_id: u16) -> (found: bool)
        ensures
            found == self@.qos2.contains(packet_id),
    {
        self.qos2.contains(&packet_id)
    }

    /// Take the PUBCOMP of a message; whether it belongs to the proxy.
    pub fn take_qos2(&mut self, packet_id: u16) -> (taken: bool)
        ensures
            taken == old(self)@.qos2.contains(packet_id),
            final(self)@ == old(self)@.without_qos2(packet_id),
    {
        let taken = self.qos2.remove(&packet_id);
        assert(self@ =~= old(self)@.without_qos2(packet_id));
        taken
    }
}

/// What is buffered of a client packet during an outage: a PUBLISH, unless it
/// is at-most-once.
pub open spec fn outage_buffered(packet: MqttPacketView) -> Option<BufferedView> {
    match packet.delivery() {
        Delivery::Publish(publish) => if publish.qos == QoS::AtMostOnce {
            None
        } else {
            Some(
                BufferedView {
                    packet_id: publish.packet_id->0,
                    raw: packet.frame(),
                    qos: publish.qos.level(),
                },
            )
        },
        _ => None,
    }
}

/// The grant for a subscription.
pub open spec fn granted(qos: QoS) -> SubscribeAckReason {
    match qos {
        QoS::AtMostOnce => SubscribeAckReason::GrantedQos0,
        QoS::AtLeastOnce => SubscribeAckReason::GrantedQos1,
        QoS::ExactlyOnce => SubscribeAckReason::GrantedQos2,
    }
}

/// What a client is answered during an outage.
pub open spec fn outage_reply(packet: MqttPacketView) -> Option<MqttPacketView> {
    match packet {
        MqttPacketView::V3(packet) => match v3_outage_reply(packet) {
            Some(reply) => Some(MqttPacketView::V3(reply)),
            None => None,
        },
        MqttPacketView::V5(packet) => match v5_outage_reply(packet) {
            Some(reply) => Some(MqttPacketView::V5(reply)),
            None => None,
        },
    }
}

/// What a version 3 client is answered during an outage.
pub open spec fn v3_outage_reply(packet: v3::PacketView) -> Option<v3::PacketView> {
    match packet {
        v3::PacketView::Publish(publish) => match publish.qos {
            QoS::AtMostOnce => None,
            QoS::AtLeastOnce => Some(
                v3::PacketView::PublishAck { packet_id: publish.packet_id->0 },
            ),
            QoS::ExactlyOnce => Some(
                v3::PacketView::PublishReceived { packet_id: publish.packet_id->0 },
            ),
        },
        v3::PacketView::PublishRelease { packet_id } => Some(
            v3::PacketView::PublishComplete { packet_id },
        ),
        v3::PacketView::PingRequest => Some(v3::PacketView::PingResponse),
        v3::PacketView::Subscribe { packet_id, topic_filters } => Some(
            v3::PacketView::SubscribeAck {
                packet_id,
                status: topic_filters.map_values(
                    |f: (Seq<char>, QoS)| SubscribeReturnCode::Success(f.1),
                ),
            },
        ),
        v3::PacketView::Unsubscribe { packet_id, .. } => Some(
            v3::PacketView::UnsubscribeAck { packet_id },
        ),
        _ => None,
    }
}

/// What a version 5 client is answered during an outage.
pub open spec fn v5_outage_reply(packet: v5::PacketView) -> Option<v5::PacketView> {
    match packet {
        v5::PacketView::Publish(publish) => match publish.qos {
            QoS::AtMostOnce => None,
            QoS::AtLeastOnce => Some(
                v5::PacketView::PublishAck(PublishAckView::success(publish.packet_id->0)),
            ),
            QoS::ExactlyOnce => Some(
                v5::PacketView::PublishReceived(PublishAckView::success(publish.packet_id->0)),
            ),
        },
        v5::PacketView::PublishRelease(ack) => Some(
            v5::PacketView::PublishComplete(PublishAckView::success(ack.packet_id)),
        ),
        v5::PacketView::PingRequest => Some(v5::PacketView::PingResponse),
        v5::PacketView::Subscribe(subscribe) => Some(
            v5::PacketView::SubscribeAck {
                packet_id: subscribe.packet_id,
                status: subscribe.topic_filters.map_values(
                    |f: (Seq<char>, SubscriptionOptions)| granted(f.1.qos),
                ),
            },
        ),
        v5::PacketView::Unsubscribe { packet_id, .. } => Some(
            v5::PacketView::UnsubscribeAck { packet_id, status: Seq::empty() },
        ),
        _ => None,
    }
}

/// Why a client packet ends a session during an outage, if it does.
pub open spec fn outage_error(
    buffer: Seq<BufferedView>,
    packet: MqttPacketView,
) -> Option<SessionErrorView> {
    if packet.is_disconnect() {
        Some(SessionErrorView::ClientDisconnected)
    } else {
        match outage_buffered(packet) {
            Some(entry) => if has_room(buffer, entry) {
                None
            } else {
                Some(SessionErrorView::OutageBufferFull)
            },
            None => None,
        }
    }
}

/// The buffer after a client packet that does not end the session.
pub open spec fn outage_buffer_after(
    buffer: Seq<BufferedView>,
    packet: MqttPacketView,
) -> Seq<BufferedView> {
    match outage_buffered(packet) {
        Some(entry) => buffer.push(entry),
        None => buffer,
    }
}

fn buffer_publish(
    packet: &MqttPacket,
    publish: &Publish,
    buffer: &mut OutageBuffer,
) -> (result: Result<(), SessionError>)
    requires
        old(buffer).wf(),
        packet@.wf(),
        packet@.delivery() == Delivery::Publish(publish@),
    ensures
        final(buffer).wf(),
        match result {
            Ok(()) => outage_error(old(buffer)@, packet@) is None && final(buffer)@
                == outage_buffer_after(old(buffer)@, packet@),
            Err(error) => outage_error(old(buffer)@, packet@) == Some(error@) && final(buffer)@
                == old(buffer)@,
        },
{
    if publish.qos == QoS::AtMostOnce {
        return Ok(());  // at-most-once: may be dropped
    }
    match publish.packet_id {
        Some(packet_id) => buffer.push(packet_id, encode_raw(packet), publish.qos),
        None => Ok(()),
    }
}

fn service_v3_packet(packet: &v3::Packet) -> (reply: Option<v3::Packet>)
    requires
        MqttPacketView::V3(packet@).wf(),
    ensures
        match reply {
            Some(reply) => v3_outage_reply(packet@) == Some(reply@),
            None => v3_outage_reply(packet@) is None,
        },
{
    match packet {
        v3::Packet::Publish(publish) => match (publish.qos, publish.packet_id) {
            (QoS::AtLeastOnce, Some(packet_id)) => Some(v3::Packet::PublishAck { packet_id }),
            (QoS::ExactlyOnce, Some(packet_id)) => Some(v3::Packet::PublishReceived { packet_id }),
            _ => None,
        },
        v3::Packet::PublishRelease { packet_id } => Some(
            v3::Packet::PublishComplete { packet_id: *packet_id },
        ),
        v3::Packet::PingRequest => Some(v3::Packet::PingResponse),
        v3::Packet::Subscribe { packet_id, topic_filters } => {
            let mut status: Vec<SubscribeReturnCode> = Vec::new();
            let mut i: usize = 0;
            while i < topic_filters.len()
                invariant
                    i <= topic_filters.len(),
                    status.len() == i,
                    forall|j: int|
                        0 <= j < i ==> status@[j] == SubscribeReturnCode::Success(
                            (#[trigger] topic_filters@[j]).1,
                        ),
                decreases topic_filters.len() - i,
            {
                status.push(SubscribeReturnCode::Success(topic_filters[i].1));
                i = i + 1;
            }
            let reply = v3::Packet::SubscribeAck { packet_id: *packet_id, status };
            assert(reply@ =~~= v3_outage_reply(packet@)->0);
            Some(reply)
        },
        v3::Packet::Unsubscribe { packet_id, .. } => Some(
            v3::Packet::UnsubscribeAck { packet_id: *packet_id },
        ),
        _ => None,
    }
}

fn service_v5_packet(packet: &v5::Packet) -> (reply: Option<v5::Packet>)
    requires
        MqttPacketView::V5(packet@).wf(),
    ensures
        match reply {
            Some(reply) => v5_outage_reply(packet@) == Some(reply@),
            None => v5_outage_reply(packet@) is None,
        },
{
    match packet {
        v5::Packet::Publish(publish) => match (publish.qos, publish.packet_id) {
            (QoS::AtLeastOnce, Some(packet_id)) => Some(
                v5::Packet::PublishAck(PublishAck::success(packet_id)),
            ),
            (QoS::ExactlyOnce, Some(packet_id)) => Some(
                v5::Packet::PublishReceived(PublishAck::success(packet_id)),
            ),
            _ => None,
        },
        v5::Packet::PublishRelease(ack) => Some(
            v5::Packet::PublishComplete(PublishAck::success(ack.packet_id)),
        ),
        v5::Packet::PingRequest => Some(v5::Packet::PingResponse),
        v5::Packet::Subscribe(subscribe) => {
            let mut status: Vec<SubscribeAckReason> = Vec::new();
            let mut i: usize = 0;
            while i < subscribe.topic_filters.len()
                invariant
                    i <= subscribe.topic_filters.len(),
                    status.len() == i,
                    forall|j: int|
                        0 <= j < i ==> status@[j] == granted(
                            (#[trigger] subscribe.topic_filters@[j]).1.qos,
                        ),
                decreases subscribe.topic_filters.len() - i,
            {
                status.push(
                    match subscribe.topic_filters[i].1.qos {
                        QoS::AtMostOnce => SubscribeAckReason::GrantedQos0,
                        QoS::AtLeastOnce => SubscribeAckReason::GrantedQos1,
                        QoS::ExactlyOnce => SubscribeAckReason::GrantedQos2,
                    },
                );
                i = i + 1;
            }
            let reply = v5::Packet::SubscribeAck { packet_id: subscribe.packet_id, status };
            assert(reply@ =~~= v5_outage_reply(packet@)->0);
            Some(reply)
        },
        v5::Packet::Unsubscribe { packet_id, .. } => {
            let reply = v5::Packet::UnsubscribeAck { packet_id: *packet_id, status: Vec::new() };
            assert(reply@ =~~= v5_outage_reply(packet@)->0);
            Some(reply)
        },
        _ => None,
    }
}

/// Answer and/or buffer one client packet received during a broker outage.
/// What is returned goes to the client.
pub fn service_outage_packet(
    packet: &MqttPacket,
    buffer: &mut OutageBuffer,
    subscriptions: &mut Subscriptions,
) -> (result: Result<Option<MqttPacket>, SessionError>)
    requires
        old(buffer).wf(),
        packet@.wf(),
    ensures
        final(buffer).wf(),
        match result {
            Ok(reply) => {
                &&& outage_error(old(buffer)@, packet@) is None
                &&& final(buffer)@ == outage_buffer_after(old(buffer)@, packet@)
                &&& final(subscriptions)@ == after_packet(old(subscriptions)@, packet@)
                &&& match reply {
                    Some(reply) => outage_reply(packet@) == Some(reply@),
                    None => outage_reply(packet@) is None,
                }
            },
            Err(error) => {
                &&& outage_error(old(buffer)@, packet@) == Some(error@)
                &&& final(buffer)@ == old(buffer)@
                &&& final(subscriptions)@ == old(subscriptions)@
            },
        },
{
    if packet.is_disconnect() {
        return Err(SessionError::ClientDisconnected);
    }
    match packet {
        MqttPacket::V3(v3::Packet::Publish(publish)) => match buffer_publish(
            packet,
            publish,
            buffer,
        ) {
            Ok(()) => {},
            Err(error) => return Err(error),
        },
        MqttPacket::V5(v5::Packet::Publish(publish)) => match buffer_publish(
            packet,
            publish,
            buffer,
        ) {
            Ok(()) => {},
            Err(error) => return Err(error),
        },
        _ => {},
    }
    subscriptions.track(packet);
    let reply = match packet {
        MqttPacket::V3(packet) => match service_v3_packet(packet) {
            Some(reply) => Some(MqttPacket::V3(reply)),
            None => None,
        },
        MqttPacket::V5(packet) => match service_v5_packet(packet) {
            Some(reply) => Some(MqttPacket::V5(reply)),
            None => None,
        },
    };
    Ok(reply)
}

/// The bytes that are buffered are those of all messages together; a message fits
/// as long as they are no more than a mebibyte.
pub proof fn law_room_is_counted_in_bytes(
    entries: Seq<BufferedView>,
    entry: BufferedView,
    others: Seq<BufferedView>,
)
    ensures
        total_bytes(Seq::empty()) == 0,
        total_bytes(entries.push(entry)) == total_bytes(entries) + entry.raw.len(),
        total_bytes(entries + others) == total_bytes(entries) + total_bytes(others),
        has_room(entries, entry) <==> total_bytes(entries.push(entry)) <= 1024 * 1024,
    decreases others.len(),
{
    assert(entries.push(entry).drop_last() =~= entries);
    if others.len() > 0 {
        law_room_is_counted_in_bytes(entries, entry, others.drop_last());
        assert((entries + others).drop_last() =~= entries + others.drop_last());
    } else {
        assert(entries + others =~= entries);
    }
}

/// What is kept of a client packet during an outage: of a QoS1/2 message its frame,
/// with its identifier and its QoS, behind what was kept before; of any other packet
/// nothing.
pub proof fn law_what_an_outage_keeps(
    buffer: Seq<BufferedView>,
    packet: MqttPacketView,
    id: u16,
)
    ensures
        packet.is_message(id) && packet.qos() == QoS::AtLeastOnce ==> outage_buffer_after(
            buffer,
            packet,
        ) == buffer.push(BufferedView { packet_id: id, raw: packet.frame(), qos: 1 }),
        packet.is_message(id) && packet.qos() == QoS::ExactlyOnce ==> outage_buffer_after(
            buffer,
            packet,
        ) == buffer.push(BufferedView { packet_id: id, raw: packet.frame(), qos: 2 }),
        packet.delivery() is Publish && packet.qos() == QoS::AtMostOnce ==> outage_buffer_after(
            buffer,
            packet,
        ) == buffer,
        !(packet.delivery() is Publish) ==> outage_buffer_after(buffer, packet) == buffer,
{
}

/// A client packet ends a session during an outage only if it says goodbye, or is a
/// QoS1/2 message for which there is no room; each has its own reason.
pub proof fn law_what_an_outage_refuses(buffer: Seq<BufferedView>, packet: MqttPacketView)
    ensures
        packet.is_disconnect() ==> outage_error(buffer, packet) == Some(
            SessionErrorView::ClientDisconnected,
        ),
        packet.delivery() is Publish && packet.qos() != QoS::AtMostOnce ==> outage_error(
            buffer,
            packet,
        ) == (if total_bytes(buffer) + packet.frame().len() <= 1024 * 1024 {
            None
        } else {
            Some(SessionErrorView::OutageBufferFull)
        }),
        packet.delivery() is Publish && packet.qos() == QoS::AtMostOnce ==> outage_error(
            buffer,
            packet,
        ) is None,
        !packet.is_disconnect() && !(packet.delivery() is Publish) ==> outage_error(
            buffer,
            packet,
        ) is None,
{
}

/// A message is answered during an outage as its QoS asks: not at all, by a PUBACK,
/// or by a PUBREC with its identifier; a PUBREL is answered by a PUBCOMP, and a PINGREQ
/// by a PINGRESP. The answer is of the client's version and has nothing to complain
/// about.
pub proof fn law_deliveries_are_answered_during_an_outage(packet: MqttPacketView, id: u16)
    ensures
        packet.is_message(id) && packet.qos() == QoS::AtMostOnce ==> outage_reply(packet) is None,
        packet.is_message(id) && packet.qos() == QoS::AtLeastOnce ==> (outage_reply(
            packet,
        ) matches Some(reply) && reply.delivery() == Delivery::Ack(id)),
        packet.is_message(id) && packet.qos() == QoS::ExactlyOnce ==> (outage_reply(
            packet,
        ) matches Some(reply) && reply.delivery() == Delivery::Received(id)),
        packet.delivery() is Publish && packet.qos() == QoS::AtMostOnce ==> outage_reply(
            packet,
        ) is None,
        packet.delivery() == Delivery::Release(id) ==> (outage_reply(packet) matches Some(reply)
            && reply.delivery() == Delivery::Complete(id)),
        packet.is_ping_request() ==> (outage_reply(packet) matches Some(reply)
            && reply.is_ping_response()),
        outage_reply(packet) matches Some(reply) ==> reply.version() == packet.version(),
        outage_reply(packet) matches Some(MqttPacketView::V5(reply)) ==> match reply {
            v5::PacketView::PublishAck(ack) => is_without_complaint(ack),
            v5::PacketView::PublishReceived(ack) => is_without_complaint(ack),
            v5::PacketView::PublishComplete(ack) => is_without_complaint(ack),
            _ => true,
        },
{
}

/// Whether an acknowledgement says success and nothing more.
pub open spec fn is_without_complaint(ack: PublishAckView) -> bool {
    ack.reason_code == 0 && ack.properties.len() == 0 && ack.reason_string is None
}

/// A SUBSCRIBE packet is answered during an outage by a SUBACK packet with its
/// identifier and one status for each of its topic filters, in order, which grants
/// exactly the QoS that the filter asks for. An UNSUBSCRIBE packet is answered by an
/// UNSUBACK packet with its identifier.
pub proof fn law_subscriptions_are_granted_during_an_outage(packet: MqttPacketView)
    ensures
        packet matches MqttPacketView::V3(
            v3::PacketView::Subscribe { packet_id, topic_filters },
        ) ==> (outage_reply(packet) matches Some(
            MqttPacketView::V3(v3::PacketView::SubscribeAck { packet_id: answered, status }),
        ) && answered == packet_id && status.len() == topic_filters.len() && forall|i: int|
            0 <= i < topic_filters.len() ==> (#[trigger] status[i] matches
                SubscribeReturnCode::Success(qos) && qos == topic_filters[i].1)),
        packet matches MqttPacketView::V5(v5::PacketView::Subscribe(subscribe)) ==> (outage_reply(
            packet,
        ) matches Some(
            MqttPacketView::V5(v5::PacketView::SubscribeAck { packet_id, status }),
        ) && packet_id == subscribe.packet_id && status.len() == subscribe.topic_filters.len()
            && forall|i: int|
            0 <= i < subscribe.topic_filters.len() ==> match subscribe.topic_filters[i].1.qos {
                QoS::AtMostOnce => #[trigger] status[i] == SubscribeAckReason::GrantedQos0,
                QoS::AtLeastOnce => status[i] == SubscribeAckReason::GrantedQos1,
                QoS::ExactlyOnce => status[i] == SubscribeAckReason::GrantedQos2,
            }),
        packet matches MqttPacketView::V3(v3::PacketView::Unsubscribe { packet_id, .. }) ==> (
        outage_reply(packet) matches Some(
            MqttPacketView::V3(v3::PacketView::UnsubscribeAck { packet_id: answered }),
        ) && answered == packet_id),
        packet matches MqttPacketView::V5(v5::PacketView::Unsubscribe { packet_id, .. }) ==> (
        outage_reply(packet) matches Some(
            MqttPacketView::V5(v5::PacketView::UnsubscribeAck { packet_id: answered, status }),
        ) && answered == packet_id && status.len() == 0),
{
}

/// Whatever else a client sends during an outage is not answered: acknowledgements,
/// and packets that are none of a client's.
pub proof fn law_nothing_else_is_answered_during_an_outage(packet: MqttPacketView)
    ensures
        outage_reply(packet) is Some ==> match packet {
            MqttPacketView::V3(p) => p is Publish || p is PublishRelease || p is PingRequest
                || p is Subscribe || p is Unsubscribe,
            MqttPacketView::V5(p) => p is Publish || p is PublishRelease || p is PingRequest
                || p is Subscribe || p is Unsubscribe,
        },
{
}

/// Acknowledgements come to belong to the proxy for the messages that are marked, by
/// their QoS, and for no others; those that belonged to it before still do.
pub proof fn law_marking_adds_these_acks(
    acks: LocalAcksView,
    entries: Seq<BufferedView>,
    id: u16,
)
    ensures
        acks.all_marked(entries).qos1.contains(id) <==> acks.qos1.contains(id) || exists|i: int|
            0 <= i < entries.len() && (#[trigger] entries[i]).packet_id == id && entries[i].qos == 1,
        acks.all_marked(entries).qos2.contains(id) <==> acks.qos2.contains(id) || exists|i: int|
            0 <= i < entries.len() && (#[trigger] entries[i]).packet_id == id && entries[i].qos == 2,
    decreases entries.len(),
{
    if entries.len() > 0 {
        let head = entries.drop_last();
        let last = entries[entries.len() - 1];
        law_marking_adds_these_acks(acks, head, id);
        assert(forall|i: int| 0 <= i < head.len() ==> #[trigger] head[i] == entries[i]);
        if last.packet_id == id && last.qos == 1 {
            assert(entries[entries.len() - 1].packet_id == id);
        }
        if exists|i: int|
            0 <= i < head.len() && (#[trigger] head[i]).packet_id == id && head[i].qos == 1 {
            let i = choose|i: int|
                0 <= i < head.len() && (#[trigger] head[i]).packet_id == id && head[i].qos == 1;
            assert(entries[i].packet_id == id);
        }
        if exists|i: int|
            0 <= i < head.len() && (#[trigger] head[i]).packet_id == id && head[i].qos == 2 {
            let i = choose|i: int|
                0 <= i < head.len() && (#[trigger] head[i]).packet_id == id && head[i].qos == 2;
            assert(entries[i].packet_id == id);
        }
        if exists|i: int|
            0 <= i < entries.len() && (#[trigger] entries[i]).packet_id == id && entries[i].qos
                == 1 {
            let i = choose|i: int|
                0 <= i < entries.len() && (#[trigger] entries[i]).packet_id == id && entries[i].qos
                    == 1;
            if i < head.len() {
                assert(head[i].packet_id == id);
            }
        }
        if exists|i: int|
            0 <= i < entries.len() && (#[trigger] entries[i]).packet_id == id && entries[i].qos
                == 2 {
            let i = choose|i: int|
                0 <= i < entries.len() && (#[trigger] entries[i]).packet_id == id && entries[i].qos
                    == 2;
            if i < head.len() {
                assert(head[i].packet_id == id);
            }
        }
    }
}

/// An acknowledgement that has come belongs to the proxy no longer; all others are as
/// they were.
pub proof fn law_one_ack_is_taken(acks: LocalAcksView, taken: u16, id: u16)
    ensures
        acks.without_qos1(taken).qos1.contains(id) <==> acks.qos1.contains(id) && id != taken,
        acks.without_qos1(taken).qos2 == acks.qos2,
        acks.without_qos2(taken).qos2.contains(id) <==> acks.qos2.contains(id) && id != taken,
        acks.without_qos2(taken).qos1 == acks.qos1,
{
}

} // verus!
