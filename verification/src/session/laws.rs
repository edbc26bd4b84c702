//! What holds of a session as a whole, whatever happens to it.

use vstd::prelude::*;

use crate::codec::frame_decoded;
use crate::error::SessionErrorView;
use crate::frame::flags_index;
use crate::packet::{Delivery, MqttPacketView};
use crate::registry::BufferedView;
use crate::session::forward::{
    doubled, is_connect_ack, is_resubscribe_ack, pause_end, ping_response, release, retryable,
    split_frame, whole_frames, ActionView, BrokerReplyView, EstablishActionView, EstablishEventView,
    EventView, OutageStep, ReplayView, SessionView, StepView, VerdictView,
};
use crate::session::handshake::{law_level_round_trip, version_of, HandshakeView};
use crate::session::outage::{
    has_room, outage_buffered, outage_error, total_bytes, LocalAcksView, BROKER_RETRY_INITIAL_MS,
    BROKER_RETRY_MAX_MS, OUTAGE_BUFFER_MAX_BYTES,
};
use crate::session::subscriptions::{
    changes_table, law_tracking_keeps_table_ok, resubscribe, table_ok,
};
use crate::types::{ProtocolVersion, QoS};
use crate::v5;
use crate::window::{
    has_id, index_of, law_in_flight_until_acknowledged, law_snapshot_round_trip, lemma_after_b2c_keeps_wf,
    lemma_after_c2b_keeps_wf, EntryView, WindowState,
};

verus! {

/// The packets that a client receives through the actions of a step, given the
/// packet of the event.
pub open spec fn client_receives(actions: Seq<ActionView>, packet: MqttPacketView) -> Seq<
    MqttPacketView,
>
    decreases actions.len(),
{
    if actions.len() == 0 {
        Seq::empty()
    } else {
        let rest = client_receives(actions.drop_last(), packet);
        match actions.last() {
            ActionView::SendToClient(own) => rest.push(own),
            ActionView::ForwardToClient => rest.push(packet),
            _ => rest,
        }
    }
}

/// The packets that a broker receives through the actions of a step, given the
/// packet of the event.
pub open spec fn broker_receives(actions: Seq<ActionView>, packet: MqttPacketView) -> Seq<
    MqttPacketView,
>
    decreases actions.len(),
{
    if actions.len() == 0 {
        Seq::empty()
    } else {
        let rest = broker_receives(actions.drop_last(), packet);
        match actions.last() {
            ActionView::SendToBroker(own) => rest.push(own),
            ActionView::ForwardToBroker => rest.push(packet),
            _ => rest,
        }
    }
}

proof fn lemma_receives(actions: Seq<ActionView>, packet: MqttPacketView)
    ensures
        actions.len() == 0 ==> client_receives(actions, packet) == Seq::<MqttPacketView>::empty()
            && broker_receives(actions, packet) == Seq::<MqttPacketView>::empty(),
        actions.len() == 1 ==> client_receives(actions, packet) == (match actions[0] {
            ActionView::SendToClient(own) => seq![own],
            ActionView::ForwardToClient => seq![packet],
            _ => Seq::empty(),
        }) && broker_receives(actions, packet) == (match actions[0] {
            ActionView::SendToBroker(own) => seq![own],
            ActionView::ForwardToBroker => seq![packet],
            _ => Seq::empty(),
        }),
{
    reveal_with_fuel(client_receives, 2);
    reveal_with_fuel(broker_receives, 2);
    if actions.len() == 1 {
        assert(actions.drop_last() =~= Seq::<ActionView>::empty());
        assert(client_receives(actions, packet) =~= (match actions[0] {
            ActionView::SendToClient(own) => seq![own],
            ActionView::ForwardToClient => seq![packet],
            _ => Seq::empty(),
        }));
        assert(broker_receives(actions, packet) =~= (match actions[0] {
            ActionView::SendToBroker(own) => seq![own],
            ActionView::ForwardToBroker => seq![packet],
            _ => Seq::empty(),
        }));
    }
}

/// Every event leaves a session that is one.
pub proof fn law_events_keep_sessions_wf(state: SessionView, event: EventView)
    requires
        state.wf(),
    ensures
        state.after(event).wf(),
{
    match event {
        EventView::ClientPacket { packet, .. } => {
            if state.connected {
                lemma_after_c2b_keeps_wf(state.windows, packet);
            } else {
                match outage_buffered(packet) {
                    Some(entry) => {
                        assert(entry.qos == 1 || entry.qos == 2);
                    },
                    None => {},
                }
            }
        },
        EventView::BrokerPacket { packet, .. } => {
            lemma_after_b2c_keeps_wf(state.windows, packet);
        },
        _ => {},
    }
}

/// A PINGREQ is answered at once with exactly one PINGRESP, whether or not the
/// broker is there; the broker's own PINGRESP never reaches the client.
pub proof fn law_ping_is_answered_once(state: SessionView, packet: MqttPacketView, now: u64)
    ensures
        packet.is_ping_request() ==> ({
            let step = state.step_for(EventView::ClientPacket { packet, now });
            &&& client_receives(step.actions, packet) == seq![ping_response(packet.version())]
            &&& broker_receives(step.actions, packet) == (if state.connected {
                seq![packet]
            } else {
                Seq::empty()
            })
            &&& step.verdict == VerdictView::Continue
        }),
        packet.is_ping_response() ==> state.broker_step(packet) == (StepView {
            actions: Seq::empty(),
            verdict: VerdictView::Continue,
        }),
{
    if packet.is_ping_request() {
        let step = state.step_for(EventView::ClientPacket { packet, now });
        if state.connected {
            let head = step.actions.drop_last();
            lemma_receives(head, packet);
            assert(client_receives(step.actions, packet) =~= seq![ping_response(packet.version())]);
            assert(broker_receives(step.actions, packet) =~= seq![packet]);
        } else {
            lemma_receives(step.actions, packet);
        }
    }
}

/// While the broker is there, every packet of the client reaches it, once and
/// unchanged.
pub proof fn law_client_packets_reach_broker(state: SessionView, packet: MqttPacketView, now: u64)
    requires
        state.connected,
    ensures
        ({
            let step = state.step_for(EventView::ClientPacket { packet, now });
            &&& broker_receives(step.actions, packet) == seq![packet]
            &&& client_receives(step.actions, packet) == (if packet.is_ping_request() {
                seq![ping_response(packet.version())]
            } else {
                Seq::empty()
            })
            &&& step.verdict == VerdictView::Continue
        }),
{
    let step = state.step_for(EventView::ClientPacket { packet, now });
    if packet.is_ping_request() {
        law_ping_is_answered_once(state, packet, now);
    } else {
        lemma_receives(step.actions, packet);
    }
}

/// Every packet of the broker reaches the client, once and unchanged, unless it
/// is a PINGRESP, an acknowledgement that belongs to the proxy, or an
/// administrative DISCONNECT. Nothing goes back to the broker but the PUBREL of
/// a handshake that the proxy completes itself.
pub proof fn law_broker_packets_reach_client(state: SessionView, packet: MqttPacketView)
    ensures
        ({
            let step = state.broker_step(packet);
            let swallowed = packet.is_ping_response() || state.is_local_ack(packet) || (packet
                matches MqttPacketView::V5(v5::PacketView::Disconnect { reason_code })
                && retryable(reason_code));
            &&& client_receives(step.actions, packet) == (if swallowed {
                Seq::empty()
            } else {
                seq![packet]
            })
            &&& broker_receives(step.actions, packet) == (match packet.delivery() {
                Delivery::Received(id) => if state.is_local_ack(packet) {
                    seq![release(packet.version(), id)]
                } else {
                    Seq::empty()
                },
                _ => Seq::empty(),
            })
        }),
{
    lemma_receives(state.broker_step(packet).actions, packet);
}

/// The loss of the broker, in whatever form, is invisible to the client: it
/// gets nothing, the session goes on, and nothing that it has in flight, has
/// subscribed to or has been promised is forgotten.
pub proof fn law_broker_loss_is_invisible(state: SessionView, event: EventView)
    requires
        match event {
            EventView::BrokerLost { .. } => true,
            EventView::BrokerWriteFailed => true,
            EventView::WaitOver { .. } => true,
            EventView::BrokerPacket { packet, .. } => packet matches MqttPacketView::V5(
                v5::PacketView::Disconnect { reason_code },
            ) && retryable(reason_code),
            _ => false,
        },
    ensures
        state.step_for(event) == (StepView {
            actions: Seq::empty(),
            verdict: VerdictView::Continue,
        }),
        event is WaitOver || !state.after(event).connected,
        state.after(event).windows == state.windows,
        state.after(event).subscriptions == state.subscriptions,
        state.after(event).buffer == state.buffer,
        state.after(event).local_acks == state.local_acks,
        state.after(event).handshake == state.handshake,
        state.after(event).last_client_activity == state.last_client_activity,
{
}

/// A session ends only for these reasons: the client left, said goodbye during
/// an outage, sent rubbish, was silent for too long or published too much
/// during an outage; the broker put the blame on the client; or nobody can
/// freeze the session any more.
pub proof fn law_why_sessions_end(state: SessionView, event: EventView)
    ensures
        state.step_for(event).verdict != VerdictView::Continue <==> (match event {
            EventView::ClientPacket { packet, .. } => !state.connected && (packet.is_disconnect()
                || (outage_buffered(packet) matches Some(entry) && !has_room(state.buffer, entry))),
            EventView::ClientError(_) => true,
            EventView::ClientClosed => true,
            EventView::BrokerPacket { packet, .. } => packet matches MqttPacketView::V5(
                v5::PacketView::Disconnect { reason_code },
            ) && !retryable(reason_code),
            EventView::DeadlinePassed => true,
            EventView::ControlClosed => true,
            _ => false,
        }),
{
}

/// Whether a packet is a DISCONNECT packet by which the broker puts the blame on
/// the client.
pub open spec fn is_client_fault(packet: MqttPacketView) -> bool {
    packet matches MqttPacketView::V5(v5::PacketView::Disconnect { reason_code }) && !retryable(
        reason_code,
    )
}

/// Whether a packet is a DISCONNECT packet by which the broker asks to be left
/// alone for a while.
pub open spec fn is_administrative(packet: MqttPacketView) -> bool {
    packet matches MqttPacketView::V5(v5::PacketView::Disconnect { reason_code }) && retryable(
        reason_code,
    )
}

/// A replay ends a session only for these reasons: there is no CONNECT packet
/// that could be replayed; the broker put the blame on the client, which then
/// learns of it; the broker answered the CONNECT packet with another packet than
/// that; or it sent rubbish. However often the connection breaks, the session
/// goes on.
pub proof fn law_why_replays_end_sessions(state: SessionView, event: EstablishEventView)
    ensures
        state.establish_step(event) is Err <==> (match event {
            EstablishEventView::Connected => flags_index(state.handshake.connect_raw) is None,
            EstablishEventView::ConnectReply(BrokerReplyView::Packet { packet, .. }) =>
                !is_connect_ack(packet) && !is_client_fault(packet) && !is_administrative(packet),
            EstablishEventView::ConnectReply(reply) => reply is Error,
            EstablishEventView::SubscribeReply(reply) => reply is Error,
            _ => false,
        }),
        state.establish_step(event) == Ok::<_, SessionErrorView>(EstablishActionView::PassOn) <==> (
        match event {
            EstablishEventView::ConnectReply(BrokerReplyView::Packet { packet, .. }) =>
                is_client_fault(packet),
            EstablishEventView::SubscribeReply(BrokerReplyView::Packet { packet, .. }) =>
                is_client_fault(packet),
            _ => false,
        }),
{
}

/// A replay whose connection breaks is tried again, after a pause and without the
/// client's notice: nothing that the session has in flight, has subscribed to,
/// has promised or has to deliver is forgotten.
pub proof fn law_failed_replays_forget_nothing(
    state: SessionView,
    event: EstablishEventView,
    now: u64,
)
    requires
        match event {
            EstablishEventView::ConnectReply(BrokerReplyView::Packet { packet, .. }) =>
                is_administrative(packet),
            EstablishEventView::ConnectReply(reply) => reply is Lost || reply is Closed,
            EstablishEventView::SubscribeReply(BrokerReplyView::Packet { packet, .. }) =>
                is_administrative(packet),
            EstablishEventView::SubscribeReply(reply) => reply is Lost || reply is Closed,
            EstablishEventView::WriteFailed(_) => true,
            _ => false,
        },
    ensures
        state.establish_step(event) matches Ok(EstablishActionView::TryAgain(_)),
        state.after_establish(event, now) == state.after_failure(now),
        state.step == OutageStep::Connect ==> state.after_establish(event, now)
            == state.after_wait(now),
        state.after_establish(event, now) == (SessionView {
            step: OutageStep::Backoff(pause_end(now, state.backoff)),
            backoff: doubled(state.backoff),
            ..state
        }),
{
}

/// Every event of a replay leaves a session that is one.
pub proof fn law_replays_keep_sessions_wf(state: SessionView, event: EstablishEventView, now: u64)
    requires
        state.wf(),
        event.wf(),
    ensures
        state.after_establish(event, now).wf(),
{
}

/// Only the client's own packets move its deadline.
pub proof fn law_only_client_packets_are_activity(state: SessionView, event: EventView)
    ensures
        state.after(event).last_client_activity == (match event {
            EventView::ClientPacket { now, .. } => now,
            _ => state.last_client_activity,
        }),
{
}

/// A message in flight is kept until its delivery is ended by the side that
/// receives it; whatever else happens, it will be sent again.
pub proof fn law_messages_stay_in_flight(state: SessionView, event: EventView, id: u16)
    requires
        state.wf(),
    ensures
        has_id(state.windows.c2b, id) && !has_id(state.after(event).windows.c2b, id)
            ==> (event matches EventView::BrokerPacket { packet, .. } && (packet.delivery()
            == Delivery::Ack(id) || packet.delivery() == Delivery::Complete(id))
            && !state.is_local_ack(packet)),
        has_id(state.windows.b2c, id) && !has_id(state.after(event).windows.b2c, id)
            ==> (event matches EventView::ClientPacket { packet, .. } && (packet.delivery()
            == Delivery::Ack(id) || packet.delivery() == Delivery::Complete(id))
            && state.connected),
{
    match event {
        EventView::ClientPacket { packet, .. } => {
            law_in_flight_until_acknowledged(state.windows, packet, id);
        },
        EventView::BrokerPacket { packet, .. } => {
            law_in_flight_until_acknowledged(state.windows, packet, id);
        },
        _ => {},
    }
}

/// A QoS1/2 message of the client is kept as soon as it is taken in: in flight
/// while the broker is there, in the buffer while it is not.
pub proof fn law_publishes_are_kept(state: SessionView, message: MqttPacketView, id: u16, now: u64)
    requires
        message.is_message(id),
        message.qos() != QoS::AtMostOnce,
    ensures
        ({
            let event = EventView::ClientPacket { packet: message, now };
            let kept = state.after(event);
            &&& state.connected ==> has_id(kept.windows.c2b, id) && kept.windows.c2b.contains(
                EntryView {
                    packet_id: id,
                    state: WindowState::C2BPublishSent,
                    raw: message.frame(),
                },
            )
            &&& !state.connected && state.step_for(event).verdict == VerdictView::Continue ==> (
            kept.buffer == state.buffer.push(
                BufferedView { packet_id: id, raw: message.frame(), qos: message.qos().level() },
            ))
        }),
{
    let event = EventView::ClientPacket { packet: message, now };
    let kept = state.after(event);
    if state.connected {
        let entry = EntryView {
            packet_id: id,
            state: WindowState::C2BPublishSent,
            raw: message.frame(),
        };
        let place = if has_id(state.windows.c2b, id) {
            index_of(state.windows.c2b, id)
        } else {
            state.windows.c2b.len() as int
        };
        assert(kept.windows.c2b[place] == entry);
    }
}

/// What is buffered stays buffered, in its order, until the session catches up
/// with the broker: no event takes anything from the buffer.
pub proof fn law_buffered_messages_wait(state: SessionView, event: EventView)
    ensures
        state.buffer.is_prefix_of(state.after(event).buffer),
{
}

/// A session after client packets, each with the time at which it came.
pub open spec fn after_packets(state: SessionView, packets: Seq<(MqttPacketView, u64)>) -> SessionView
    decreases packets.len(),
{
    if packets.len() == 0 {
        state
    } else {
        after_packets(state, packets.drop_last()).after(
            EventView::ClientPacket { packet: packets.last().0, now: packets.last().1 },
        )
    }
}

/// Whether every one of the client packets let the session go on.
pub open spec fn all_served(state: SessionView, packets: Seq<(MqttPacketView, u64)>) -> bool {
    forall|i: int|
        0 <= i < packets.len() ==> outage_error(
            after_packets(state, packets.take(i)).buffer,
            (#[trigger] packets[i]).0,
        ) is None
}

/// What is buffered of client packets, in order.
pub open spec fn all_buffered(packets: Seq<(MqttPacketView, u64)>) -> Seq<BufferedView>
    decreases packets.len(),
{
    if packets.len() == 0 {
        Seq::empty()
    } else {
        let rest = all_buffered(packets.drop_last());
        match outage_buffered(packets.last().0) {
            Some(entry) => rest.push(entry),
            None => rest,
        }
    }
}

/// During an outage every QoS1/2 message of the client is kept, in the order of
/// arrival and behind those kept before; what is in flight stays as it was.
pub proof fn law_outage_keeps_every_message(
    state: SessionView,
    packets: Seq<(MqttPacketView, u64)>,
)
    requires
        !state.connected,
        all_served(state, packets),
    ensures
        after_packets(state, packets).buffer == state.buffer + all_buffered(packets),
        after_packets(state, packets).windows == state.windows,
        after_packets(state, packets).local_acks == state.local_acks,
        after_packets(state, packets).broker_leftover == state.broker_leftover,
        !after_packets(state, packets).connected,
    decreases packets.len(),
{
    if packets.len() > 0 {
        let head = packets.drop_last();
        assert(packets.take(packets.len() - 1) =~= head);
        assert forall|i: int| 0 <= i < head.len() implies outage_error(
            after_packets(state, head.take(i)).buffer,
            (#[trigger] head[i]).0,
        ) is None by {
            assert(head.take(i) =~= packets.take(i));
            assert(packets[i] == head[i]);
        }
        law_outage_keeps_every_message(state, head);
        assert(packets[packets.len() - 1] == packets.last());
        match outage_buffered(packets.last().0) {
            Some(entry) => {
                assert(state.buffer + all_buffered(head).push(entry) =~= (state.buffer
                    + all_buffered(head)).push(entry));
            },
            None => {},
        }
    } else {
        assert(state.buffer + all_buffered(packets) =~= state.buffer);
    }
}

/// No event lets the outage buffer grow beyond its limit.
pub proof fn law_outage_buffer_is_bounded(state: SessionView, event: EventView)
    requires
        total_bytes(state.buffer) <= OUTAGE_BUFFER_MAX_BYTES,
    ensures
        total_bytes(state.after(event).buffer) <= OUTAGE_BUFFER_MAX_BYTES,
{
    match event {
        EventView::ClientPacket { packet, .. } => {
            if !state.connected && outage_error(state.buffer, packet) is None {
                match outage_buffered(packet) {
                    Some(entry) => {
                        assert(state.buffer.push(entry).drop_last() =~= state.buffer);
                    },
                    None => {},
                }
            }
        },
        _ => {},
    }
}

proof fn lemma_all_marked(acks: LocalAcksView, entries: Seq<BufferedView>)
    ensures
        forall|i: int|
            0 <= i < entries.len() ==> ({
                let entry = #[trigger] entries[i];
                let marked = acks.all_marked(entries);
                &&& entry.qos == 1 ==> marked.qos1.contains(entry.packet_id)
                &&& entry.qos == 2 ==> marked.qos2.contains(entry.packet_id)
            }),
        acks.qos1.subset_of(acks.all_marked(entries).qos1),
        acks.qos2.subset_of(acks.all_marked(entries).qos2),
    decreases entries.len(),
{
    if entries.len() > 0 {
        let head = entries.drop_last();
        lemma_all_marked(acks, head);
        assert forall|i: int| 0 <= i < entries.len() implies ({
            let entry = #[trigger] entries[i];
            let marked = acks.all_marked(entries);
            &&& entry.qos == 1 ==> marked.qos1.contains(entry.packet_id)
            &&& entry.qos == 2 ==> marked.qos2.contains(entry.packet_id)
        }) by {
            if i < head.len() {
                assert(entries[i] == head[i]);
            }
        }
    }
}

/// Catching up hands every kept message to the broker, in the order in which it
/// was kept, and from then on its acknowledgements belong to the proxy; nothing
/// that is in flight changes.
pub proof fn law_catching_up_flushes_every_message(state: SessionView)
    ensures
        state.replay().flushed.len() == state.buffer.len(),
        forall|i: int|
            0 <= i < state.buffer.len() ==> #[trigger] state.replay().flushed[i]
                == state.buffer[i].raw,
        forall|i: int|
            0 <= i < state.buffer.len() ==> ({
                let entry = #[trigger] state.buffer[i];
                let acks = state.replayed().local_acks;
                &&& entry.qos == 1 ==> acks.qos1.contains(entry.packet_id)
                &&& entry.qos == 2 ==> acks.qos2.contains(entry.packet_id)
            }),
        state.replayed().buffer.len() == 0,
        state.replayed().connected,
        state.replayed().windows == state.windows,
        state.replayed().subscriptions == state.subscriptions,
        state.wf() ==> state.replayed().wf(),
{
    lemma_all_marked(state.local_acks, state.buffer);
}

/// A QoS1 message published during an outage is acknowledged to the client once:
/// at once by the proxy. The broker gets it when it is back, behind what was
/// kept before, and its PUBACK goes no further.
pub proof fn law_qos1_publish_during_outage(
    state: SessionView,
    message: MqttPacketView,
    ack: MqttPacketView,
    id: u16,
    now: u64,
    unread: Seq<u8>,
)
    requires
        !state.connected,
        message.is_message(id),
        message.qos() == QoS::AtLeastOnce,
        outage_error(state.buffer, message) is None,
        ack.delivery() == Delivery::Ack(id),
    ensures
        ({
            let event = EventView::ClientPacket { packet: message, now };
            let kept = state.after(event);
            let back = kept.replayed();
            let received = client_receives(state.step_for(event).actions, message);
            &&& received.len() == 1
            &&& received[0].delivery() == Delivery::Ack(id)
            &&& kept.replay().flushed == state.replay().flushed.push(message.frame())
            &&& client_receives(back.broker_step(ack).actions, ack).len() == 0
            &&& broker_receives(back.broker_step(ack).actions, ack).len() == 0
            &&& back.broker_step(ack).verdict == VerdictView::Continue
            &&& !back.after_broker(ack, unread).local_acks.qos1.contains(id)
        }),
{
    let event = EventView::ClientPacket { packet: message, now };
    let kept = state.after(event);
    lemma_receives(state.step_for(event).actions, message);
    assert(kept.buffer.drop_last() =~= state.buffer);
    assert(kept.replay().flushed =~= state.replay().flushed.push(message.frame()));
    lemma_receives(kept.replayed().broker_step(ack).actions, ack);
}

/// A QoS2 message published during an outage: the proxy acknowledges PUBLISH and
/// PUBREL to the client, and completes the handshake with the broker by itself;
/// neither the broker's PUBREC nor its PUBCOMP goes further.
pub proof fn law_qos2_publish_during_outage(
    state: SessionView,
    message: MqttPacketView,
    released: MqttPacketView,
    received: MqttPacketView,
    complete: MqttPacketView,
    id: u16,
    now: u64,
    unread: Seq<u8>,
)
    requires
        !state.connected,
        message.is_message(id),
        message.qos() == QoS::ExactlyOnce,
        outage_error(state.buffer, message) is None,
        released.delivery() == Delivery::Release(id),
        received.delivery() == Delivery::Received(id),
        complete.delivery() == Delivery::Complete(id),
    ensures
        ({
            let published = EventView::ClientPacket { packet: message, now };
            let kept = state.after(published);
            let answered = client_receives(state.step_for(published).actions, message);
            let letting_go = EventView::ClientPacket { packet: released, now };
            let done = client_receives(kept.step_for(letting_go).actions, released);
            let back = kept.after(letting_go).replayed();
            let asked = back.broker_step(received);
            let still = back.after_broker(received, unread);
            &&& answered.len() == 1 && answered[0].delivery() == Delivery::Received(id)
            &&& done.len() == 1 && done[0].delivery() == Delivery::Complete(id)
            &&& kept.after(letting_go).replay().flushed == state.replay().flushed.push(
                message.frame(),
            )
            &&& client_receives(asked.actions, received).len() == 0
            &&& broker_receives(asked.actions, received) == seq![release(received.version(), id)]
            &&& still == back
            &&& client_receives(still.broker_step(complete).actions, complete).len() == 0
            &&& broker_receives(still.broker_step(complete).actions, complete).len() == 0
            &&& !still.after_broker(complete, unread).local_acks.qos2.contains(id)
        }),
{
    let published = EventView::ClientPacket { packet: message, now };
    let kept = state.after(published);
    let letting_go = EventView::ClientPacket { packet: released, now };
    let back = kept.after(letting_go).replayed();
    lemma_receives(state.step_for(published).actions, message);
    lemma_receives(kept.step_for(letting_go).actions, released);
    assert(kept.after(letting_go).buffer == kept.buffer);
    assert(kept.buffer.drop_last() =~= state.buffer);
    assert(kept.after(letting_go).replay().flushed =~= state.replay().flushed.push(
        message.frame(),
    ));
    lemma_receives(back.broker_step(received).actions, received);
    lemma_receives(back.broker_step(complete).actions, complete);
}

/// The pause after a number of failed connection attempts.
pub open spec fn retried(failures: nat) -> u64
    decreases failures,
{
    if failures == 0 {
        BROKER_RETRY_INITIAL_MS
    } else {
        doubled(retried((failures - 1) as nat))
    }
}

/// Something that happened to a session: in its forward loop, or in the replay
/// onto a new broker connection.
#[verifier::ext_equal]
pub enum Happening {
    Forward(EventView),
    Replay { event: EstablishEventView, now: u64 },
}

impl Happening {
    /// The session after it.
    pub open spec fn after(self, state: SessionView) -> SessionView {
        match self {
            Happening::Forward(event) => state.after(event),
            Happening::Replay { event, now } => state.after_establish(event, now),
        }
    }

    /// Whether an attempt to reach the broker failed with it.
    pub open spec fn is_failure(self, state: SessionView) -> bool {
        match self {
            Happening::Forward(event) => event is WaitOver && state.step == OutageStep::Connect,
            Happening::Replay { event, .. } => state.establish_step(event) matches Ok(
                EstablishActionView::TryAgain(_),
            ),
        }
    }

    /// Whether an attempt to reach the broker succeeded with it.
    pub open spec fn is_success(self) -> bool {
        self matches Happening::Replay { event, .. } && event is CaughtUp
    }

    /// When an attempt to reach the broker failed.
    pub open spec fn failed_at(self) -> u64 {
        match self {
            Happening::Forward(event) => event->WaitOver_now,
            Happening::Replay { now, .. } => now,
        }
    }
}

/// A session after whatever happened to it.
pub open spec fn after_all(state: SessionView, happenings: Seq<Happening>) -> SessionView
    decreases happenings.len(),
{
    if happenings.len() == 0 {
        state
    } else {
        happenings.last().after(after_all(state, happenings.drop_last()))
    }
}

/// How many attempts to reach the broker failed.
pub open spec fn failures(state: SessionView, happenings: Seq<Happening>) -> nat
    decreases happenings.len(),
{
    if happenings.len() == 0 {
        0
    } else {
        let earlier = happenings.drop_last();
        if happenings.last().is_failure(after_all(state, earlier)) {
            failures(state, earlier) + 1
        } else {
            failures(state, earlier)
        }
    }
}

/// When the last of the failed attempts to reach the broker failed.
pub open spec fn last_failure(state: SessionView, happenings: Seq<Happening>) -> u64
    decreases happenings.len(),
{
    if happenings.len() == 0 {
        0
    } else {
        let earlier = happenings.drop_last();
        if happenings.last().is_failure(after_all(state, earlier)) {
            happenings.last().failed_at()
        } else {
            last_failure(state, earlier)
        }
    }
}

/// The pause lasts as long as it was meant to: nothing ends it but that its time
/// has come, and nothing changes the length of the next one but a failed or a
/// successful attempt. Whatever the client sends meanwhile makes no difference.
pub proof fn law_pauses_are_undisturbed(state: SessionView, happening: Happening)
    requires
        !happening.is_failure(state),
        !happening.is_success(),
    ensures
        happening.after(state).backoff == state.backoff,
        happening.after(state).step != state.step ==> (happening matches Happening::Forward(
            EventView::WaitOver { now },
        ) && state.step matches OutageStep::Backoff(until) && now >= until
            && happening.after(state).step == OutageStep::Connect),
        state.step matches OutageStep::Backoff(until) ==> (happening matches Happening::Forward(
            EventView::WaitOver { now },
        ) ==> (now >= until ==> happening.after(state).step == OutageStep::Connect)),
{
}

/// After the first failure in a row the next attempt starts 0.1 seconds later,
/// then after 0.2, 0.4, 0.8, 1.6 and 3.2 seconds, and then every 5 seconds, without
/// end and whatever happens in between. After a success it starts anew.
pub proof fn law_retry_schedule(state: SessionView, happenings: Seq<Happening>)
    requires
        state.step == OutageStep::Connect,
        state.backoff == BROKER_RETRY_INITIAL_MS,
        forall|i: int| 0 <= i < happenings.len() ==> !(#[trigger] happenings[i]).is_success(),
    ensures
        ({
            let count = failures(state, happenings);
            let tried = after_all(state, happenings);
            &&& tried.backoff == retried(count)
            &&& count == 0 ==> tried.step == OutageStep::Connect
            &&& count > 0 ==> tried.step == OutageStep::Connect || tried.step
                == OutageStep::Backoff(
                pause_end(last_failure(state, happenings), retried((count - 1) as nat)),
            )
            &&& happenings.len() > 0 && happenings.last().is_failure(
                after_all(state, happenings.drop_last()),
            ) ==> count > 0 && tried.step == OutageStep::Backoff(
                pause_end(happenings.last().failed_at(), retried((count - 1) as nat)),
            )
            &&& tried.replayed().backoff == BROKER_RETRY_INITIAL_MS && tried.replayed().step
                == OutageStep::Connect
        }),
    decreases happenings.len(),
{
    if happenings.len() > 0 {
        let earlier = happenings.drop_last();
        assert forall|i: int| 0 <= i < earlier.len() implies !(
        #[trigger] earlier[i]).is_success() by {
            assert(earlier[i] == happenings[i]);
        }
        law_retry_schedule(state, earlier);
        let before = after_all(state, earlier);
        let last = happenings.last();
        assert(last == happenings[happenings.len() - 1]);
        if last.is_failure(before) {
            assert(last.after(before) == before.after_failure(last.failed_at()));
        } else {
            law_pauses_are_undisturbed(before, last);
        }
    }
}

/// The pauses double up to their limit.
pub proof fn law_pauses_double(count: nat)
    ensures
        count == 0 ==> retried(count) == 100,
        count == 1 ==> retried(count) == 200,
        count == 2 ==> retried(count) == 400,
        count == 3 ==> retried(count) == 800,
        count == 4 ==> retried(count) == 1600,
        count == 5 ==> retried(count) == 3200,
        count >= 6 ==> retried(count) == BROKER_RETRY_MAX_MS,
    decreases count,
{
    if count > 0 {
        law_pauses_double((count - 1) as nat);
    }
}

/// A session that is frozen and thawed goes on where it was: what is in flight,
/// subscribed and buffered is the same, in the same order. It has to find the
/// broker again, and delivers first what the old connection had left unread.
/// What it does not remember is which acknowledgements belong to the proxy, and
/// what a connection had brought that was lost before the session caught up.
pub proof fn law_freeze_thaw_round_trip(
    state: SessionView,
    client_buf: Seq<u8>,
    broker_buf: Seq<u8>,
    keep_alive: u16,
    now: u64,
)
    requires
        state.wf(),
    ensures
        ({
            let snapshot = state.snapshot(client_buf, broker_buf);
            let handshake = HandshakeView { keep_alive, ..state.handshake };
            let thawed = SessionView::thawed(handshake, snapshot, now);
            &&& version_of(snapshot.version) == Some(state.handshake.version)
            &&& snapshot.replayable()
            &&& snapshot.client_buf == client_buf
            &&& thawed.wf()
            &&& thawed == (SessionView {
                handshake,
                local_acks: LocalAcksView::empty(),
                broker_leftover: broker_buf,
                held: Seq::empty(),
                connected: false,
                backoff: BROKER_RETRY_INITIAL_MS,
                step: OutageStep::Connect,
                last_client_activity: now,
                ..state
            })
        }),
{
    law_snapshot_round_trip(state.windows);
    law_level_round_trip(state.handshake.version);
    let entries = state.windows.snapshot();
    assert forall|i: int|
        0 <= i < entries.len() && (#[trigger] entries[i]).state.is_publish_sent() implies entries[i].raw.len()
        > 0 by {
        if i < state.windows.c2b.len() {
            assert(entries[i] == state.windows.c2b[i]);
        } else {
            assert(entries[i] == state.windows.b2c[i - state.windows.c2b.len()]);
        }
    }
}

/// To the client a migration is no more than a stall: the new process asks the
/// broker for the same subscriptions, sends the broker what was in flight or
/// buffered, and the client what was in flight or left unread, all of it in the
/// order in which it first came.
pub proof fn law_migration_replays_everything(
    state: SessionView,
    client_buf: Seq<u8>,
    broker_buf: Seq<u8>,
    keep_alive: u16,
    now: u64,
)
    requires
        state.wf(),
    ensures
        ({
            let snapshot = state.snapshot(client_buf, broker_buf);
            let handshake = HandshakeView { keep_alive, ..state.handshake };
            let thawed = SessionView::thawed(handshake, snapshot, now);
            let version = state.handshake.version;
            &&& resubscribe(thawed.subscriptions, version) == resubscribe(
                state.subscriptions,
                version,
            )
            &&& thawed.replay() == (ReplayView {
                leftover: whole_frames(version, broker_buf),
                broker: state.windows.broker_retransmits(),
                client: state.windows.client_retransmits(),
                flushed: state.buffer.map_values(|e: BufferedView| e.raw),
            })
        }),
{
    law_freeze_thaw_round_trip(state, client_buf, broker_buf, keep_alive, now);
}

/// The subscription table lists every topic filter once, with options of the
/// session's version, whatever packets of that version come.
pub proof fn law_events_keep_table_ok(state: SessionView, event: EventView)
    requires
        table_ok(state.subscriptions, state.handshake.version),
        event matches EventView::ClientPacket { packet, .. } ==> packet.version()
            == state.handshake.version,
    ensures
        table_ok(state.after(event).subscriptions, state.after(event).handshake.version),
{
    match event {
        EventView::ClientPacket { packet, .. } => {
            law_tracking_keeps_table_ok(state.subscriptions, packet);
        },
        _ => {},
    }
}

/// A broker connection that was lost is replaced without the client's doing: a
/// replayed CONNECT packet, the subscriptions if there are any, and then
/// everything that has to be caught up on. Nothing less than the acknowledgement
/// of the subscriptions lets the session go on with that.
pub proof fn law_reconnect_catches_up(
    state: SessionView,
    ack: MqttPacketView,
    reply: MqttPacketView,
    text: Seq<char>,
    now: u64,
)
    requires
        state.wf(),
        flags_index(state.handshake.connect_raw) is Some,
        is_connect_ack(ack),
    ensures
        ({
            let accepted = EstablishEventView::ConnectReply(
                BrokerReplyView::Packet { packet: ack, text },
            );
            let subscribed = EstablishEventView::SubscribeReply(
                BrokerReplyView::Packet { packet: reply, text },
            );
            let middle = state.after_establish(accepted, now);
            let ready = if state.subscriptions.len() == 0 {
                middle
            } else {
                middle.after_establish(subscribed, now)
            };
            let back = ready.after_establish(EstablishEventView::CaughtUp, now);
            &&& state.establish_step(EstablishEventView::Connected) matches Ok(
                EstablishActionView::SendConnect(_),
            )
            &&& state.subscriptions.len() == 0 ==> state.establish_step(accepted) == Ok::<
                _,
                SessionErrorView,
            >(EstablishActionView::CatchUp(state.replay()))
            &&& state.subscriptions.len() > 0 ==> (state.establish_step(accepted) matches Ok(
                EstablishActionView::SendSubscribe(_),
            )) && (middle.establish_step(subscribed) == Ok::<_, SessionErrorView>(
                EstablishActionView::CatchUp(state.replay()),
            ) <==> is_resubscribe_ack(reply))
            &&& state.subscriptions.len() == 0 || is_resubscribe_ack(reply) ==> {
                &&& ready.establish_step(EstablishEventView::CaughtUp) == Ok::<
                    _,
                    SessionErrorView,
                >(EstablishActionView::Forward)
                &&& back == state.with_server_keepalive(ack).replayed()
                &&& back.connected && back.wf() && back.held == state.held
            }
        }),
{
    if state.subscriptions.len() > 0 && !is_resubscribe_ack(reply) {
        let subscribed = EstablishEventView::SubscribeReply(
            BrokerReplyView::Packet { packet: reply, text },
        );
        assert(!(state.establish_step(subscribed) matches Ok(EstablishActionView::CatchUp(_))));
    }
}

/// A session after packets that the broker sent behind the SUBSCRIBE packet of a
/// replay, each with its text.
pub open spec fn after_replies(
    state: SessionView,
    replies: Seq<(MqttPacketView, Seq<char>)>,
    now: u64,
) -> SessionView
    decreases replies.len(),
{
    if replies.len() == 0 {
        state
    } else {
        after_replies(state, replies.drop_last(), now).after_establish(
            EstablishEventView::SubscribeReply(
                BrokerReplyView::Packet { packet: replies.last().0, text: replies.last().1 },
            ),
            now,
        )
    }
}

/// Whether a packet is neither the acknowledgement that a replay waits for nor
/// the end of the broker connection.
pub open spec fn is_held_back(packet: MqttPacketView) -> bool {
    !is_resubscribe_ack(packet) && !(packet matches MqttPacketView::V5(
        v5::PacketView::Disconnect { .. },
    ))
}

/// Whatever the broker sends before it acknowledges the subscriptions is held,
/// in order; nothing else changes, and the session waits on.
pub proof fn law_replay_holds_other_packets(
    state: SessionView,
    replies: Seq<(MqttPacketView, Seq<char>)>,
    now: u64,
)
    requires
        forall|i: int| 0 <= i < replies.len() ==> is_held_back((#[trigger] replies[i]).0),
    ensures
        after_replies(state, replies, now) == (SessionView {
            held: state.held + replies.map_values(|r: (MqttPacketView, Seq<char>)| r.0),
            ..state
        }),
        forall|i: int|
            0 <= i < replies.len() ==> after_replies(
                state,
                replies.take(i),
                now,
            ).establish_step(
                EstablishEventView::SubscribeReply(
                    BrokerReplyView::Packet {
                        packet: (#[trigger] replies[i]).0,
                        text: replies[i].1,
                    },
                ),
            ) == Ok::<_, SessionErrorView>(EstablishActionView::ReadOn),
    decreases replies.len(),
{
    let packets = replies.map_values(|r: (MqttPacketView, Seq<char>)| r.0);
    if replies.len() > 0 {
        let earlier = replies.drop_last();
        assert forall|i: int| 0 <= i < earlier.len() implies is_held_back(
            (#[trigger] earlier[i]).0,
        ) by {
            assert(earlier[i] == replies[i]);
        }
        law_replay_holds_other_packets(state, earlier, now);
        assert(is_held_back(replies[replies.len() - 1].0));
        assert((state.held + earlier.map_values(|r: (MqttPacketView, Seq<char>)| r.0)).push(
            replies.last().0,
        ) =~= state.held + packets);
        assert forall|i: int| 0 <= i < replies.len() implies after_replies(
            state,
            replies.take(i),
            now,
        ).establish_step(
            EstablishEventView::SubscribeReply(
                BrokerReplyView::Packet { packet: (#[trigger] replies[i]).0, text: replies[i].1 },
            ),
        ) == Ok::<_, SessionErrorView>(EstablishActionView::ReadOn) by {
            assert(is_held_back(replies[i].0));
            if i < earlier.len() {
                assert(earlier[i] == replies[i]);
                assert(earlier.take(i) =~= replies.take(i));
            } else {
                assert(replies.take(i) =~= earlier);
            }
        }
    } else {
        assert(state.held + packets =~= state.held);
    }
}

/// A session after the next packets that are held were taken in; with each, the
/// bytes that were already read behind it.
pub open spec fn after_held(state: SessionView, unread: Seq<Seq<u8>>) -> SessionView
    decreases unread.len(),
{
    if unread.len() == 0 {
        state
    } else {
        let before = after_held(state, unread.drop_last());
        before.released().after_broker(before.held[0], unread.last())
    }
}

/// What is held is taken in one by one, in the order in which it came, while the
/// broker stays.
pub proof fn law_held_packets_are_taken_in_order(state: SessionView, unread: Seq<Seq<u8>>)
    requires
        state.connected,
        unread.len() <= state.held.len(),
        forall|i: int| 0 <= i < state.held.len() ==> is_held_back(#[trigger] state.held[i]),
    ensures
        after_held(state, unread).connected,
        after_held(state, unread).held == state.held.skip(unread.len() as int),
        unread.len() < state.held.len() ==> after_held(state, unread).held[0]
            == state.held[unread.len() as int],
    decreases unread.len(),
{
    if unread.len() > 0 {
        law_held_packets_are_taken_in_order(state, unread.drop_last());
        assert(is_held_back(state.held[unread.len() - 1]));
        assert(state.held.skip(unread.len() - 1).skip(1) =~= state.held.skip(unread.len() as int));
    } else {
        assert(state.held.skip(0) =~= state.held);
    }
}

/// No packet that the broker sends during a replay is lost: once the session has
/// caught up, each of them is taken in in its turn, and reaches the client as if it
/// came just now, unless it is a PINGRESP or an acknowledgement that belongs to
/// the proxy. The acknowledgement of the replay's own SUBSCRIBE packet is none of
/// them, and never reaches the client.
pub proof fn law_replay_loses_no_packet(
    state: SessionView,
    replies: Seq<(MqttPacketView, Seq<char>)>,
    ack: MqttPacketView,
    text: Seq<char>,
    unread: Seq<Seq<u8>>,
    now: u64,
)
    requires
        state.held.len() == 0,
        forall|i: int| 0 <= i < replies.len() ==> is_held_back((#[trigger] replies[i]).0),
        is_resubscribe_ack(ack),
        unread.len() < replies.len(),
    ensures
        ({
            let waiting = after_replies(state, replies, now);
            let subscribed = EstablishEventView::SubscribeReply(
                BrokerReplyView::Packet { packet: ack, text },
            );
            let back = waiting.after_establish(subscribed, now).after_establish(
                EstablishEventView::CaughtUp,
                now,
            );
            let turn = after_held(back, unread);
            let packet = replies[unread.len() as int].0;
            let step = turn.released().broker_step(packet);
            &&& waiting.establish_step(subscribed) == Ok::<_, SessionErrorView>(
                EstablishActionView::CatchUp(state.replay()),
            )
            &&& back.connected
            &&& back.held == replies.map_values(|r: (MqttPacketView, Seq<char>)| r.0)
            &&& turn.connected && turn.held.len() > 0 && turn.held[0] == packet
            &&& client_receives(step.actions, packet) == (if packet.is_ping_response()
                || turn.is_local_ack(packet) {
                Seq::empty()
            } else {
                seq![packet]
            })
        }),
{
    law_replay_holds_other_packets(state, replies, now);
    let packets = replies.map_values(|r: (MqttPacketView, Seq<char>)| r.0);
    assert(state.held + packets =~= packets);
    let waiting = after_replies(state, replies, now);
    let subscribed = EstablishEventView::SubscribeReply(
        BrokerReplyView::Packet { packet: ack, text },
    );
    let back = waiting.after_establish(subscribed, now).after_establish(
        EstablishEventView::CaughtUp,
        now,
    );
    assert(back.held == packets);
    assert forall|i: int| 0 <= i < back.held.len() implies is_held_back(
        #[trigger] back.held[i],
    ) by {
        assert(is_held_back(replies[i].0));
    }
    law_held_packets_are_taken_in_order(back, unread);
    let turn = after_held(back, unread);
    let packet = replies[unread.len() as int].0;
    assert(turn.held[0] == packet);
    law_broker_packets_reach_client(turn.released(), packet);
    assert(is_held_back(packet));
}

/// While a session waits for the acknowledgement of its subscriptions, client
/// packets other than SUBSCRIBE and UNSUBSCRIBE can be served: they leave the
/// subscriptions as the broker was asked for them.
pub proof fn law_serving_keeps_subscriptions(state: SessionView, packet: MqttPacketView, now: u64)
    requires
        !changes_table(packet),
    ensures
        state.after(EventView::ClientPacket { packet, now }).subscriptions == state.subscriptions,
        state.after(EventView::ClientPacket { packet, now }).held == state.held,
{
}

/// Frames one behind the other.
pub open spec fn joined(frames: Seq<Seq<u8>>) -> Seq<u8>
    decreases frames.len(),
{
    if frames.len() == 0 {
        Seq::empty()
    } else {
        frames[0] + joined(frames.skip(1))
    }
}

/// What a lost broker connection had left is delivered as it came: the frames,
/// one behind the other, are the bytes themselves up to the first that belong
/// to no whole frame.
pub proof fn law_leftover_is_delivered_in_order(version: ProtocolVersion, bytes: Seq<u8>)
    ensures
        joined(whole_frames(version, bytes)).is_prefix_of(bytes),
    decreases bytes.len(),
{
    match split_frame(bytes, frame_decoded(version, bytes)) {
        Some((frame, rest)) => {
            if rest.len() < bytes.len() {
                law_leftover_is_delivered_in_order(version, rest);
                let frames = whole_frames(version, bytes);
                assert(frames.skip(1) =~= whole_frames(version, rest));
                assert(frames[0] == frame);
                let later = joined(whole_frames(version, rest));
                let n = (frame.len() + later.len()) as int;
                assert(frame + later =~= bytes.take(n));
            }
        },
        None => {},
    }
}

} // verus!
