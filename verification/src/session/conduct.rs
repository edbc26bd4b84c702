//! What a session does, event by event: what each changes, what it leaves alone,
//! and what is sent for it.

use vstd::prelude::*;

use crate::codec::frame_decoded;
use crate::error::SessionErrorView;
use crate::frame::{flags_index, lemma_varint_end_bounds};
use crate::packet::{Delivery, MqttPacketView};
use crate::registry::{BufferedView, SnapshotView, SubscriptionView};
use crate::session::forward::{
    doubled, is_connect_ack, is_resubscribe_ack, pause_end, ping_response, release, retryable,
    split_frame, whole_frames, ActionView, BrokerReplyView, EstablishActionView, EstablishEventView,
    EventView, OutageStep, SessionView, StepView, VerdictView,
};
use crate::session::handshake::{law_resumption_clears_one_bit, HandshakeView};
use crate::session::keepalive::{allowed_silence, law_silence_is_one_and_a_half_keepalives};
use crate::session::laws::{
    broker_receives, client_receives, is_administrative, is_client_fault, joined,
    law_broker_packets_reach_client,
};
use crate::session::outage::{
    law_marking_adds_these_acks, law_subscriptions_are_granted_during_an_outage,
    law_what_an_outage_keeps, law_what_an_outage_refuses, outage_reply, total_bytes,
};
use crate::session::subscriptions::{
    after_packet, distinct_filters, has_subscribed, law_only_subscriptions_change_the_table,
    law_resubscribe_asks_for_the_table, law_resubscribe_reads_what_is_kept,
    law_subscribe_is_recorded, law_unsubscribe_is_recorded, options_byte, resubscribe,
};
use crate::types::{ProtocolVersion, QoS};
use crate::v3;
use crate::v3::SubscribeReturnCode;
use crate::v5;
use crate::v5::{SubscribeAckReason, SubscriptionOptions};
use crate::window::{law_what_can_be_tracked, WindowState, WindowsView};

verus! {

/// When a silent client of a session must be dropped, in milliseconds.
pub open spec fn deadline_of(state: SessionView) -> int {
    state.last_client_activity + allowed_silence(state.handshake.keep_alive)
}

/// A session begins with the broker's answer to the CONNECT packet, whatever packet
/// that is: connected, with nothing in flight, subscribed, buffered or held, and with
/// its client's whole silence still ahead of it. Without an answer it does not begin,
/// and says why.
pub proof fn law_how_sessions_begin(handshake: HandshakeView, reply: BrokerReplyView, now: u64)
    ensures
        match reply {
            BrokerReplyView::Packet { packet, .. } => SessionView::open_outcome(
                handshake,
                reply,
                now,
            ) matches Ok(state) && {
                let keep_alive = state.handshake.keep_alive;
                &&& state.last_client_activity == now
                &&& deadline_of(state) == now + allowed_silence(keep_alive)
                &&& keep_alive != 0 ==> 2 * (deadline_of(state) - now) == 3 * (keep_alive * 1_000)
                &&& state.handshake.version == handshake.version
                &&& state.handshake.connect_raw == handshake.connect_raw
                &&& match packet {
                    MqttPacketView::V5(
                        v5::PacketView::ConnectAck { server_keepalive_sec: Some(secs), .. },
                    ) => keep_alive == secs,
                    _ => keep_alive == handshake.keep_alive,
                }
                &&& state.windows.c2b.len() == 0 && state.windows.b2c.len() == 0
                &&& state.subscriptions.len() == 0 && state.buffer.len() == 0
                &&& state.broker_leftover.len() == 0 && state.held.len() == 0
                &&& forall|id: u16|
                    !(#[trigger] state.local_acks.qos1.contains(id))
                        && !state.local_acks.qos2.contains(id)
                &&& state.connected
                &&& state.step == OutageStep::Connect && state.backoff == 100
                &&& state.wf()
            },
            BrokerReplyView::Error(text) => SessionView::open_outcome(handshake, reply, now)
                == Err::<SessionView, _>(SessionErrorView::InvalidData(text)),
            BrokerReplyView::Lost(text) => SessionView::open_outcome(handshake, reply, now)
                == Err::<SessionView, _>(SessionErrorView::InvalidData(text)),
            BrokerReplyView::Closed => SessionView::open_outcome(handshake, reply, now) == Err::<
                SessionView,
                _,
            >(SessionErrorView::BrokerClosedDuringHandshake),
        },
{
    match reply {
        BrokerReplyView::Packet { packet, .. } => {
            let state = SessionView::opened(handshake, now).with_server_keepalive(packet);
            law_silence_is_one_and_a_half_keepalives(state.handshake.keep_alive);
        },
        _ => {},
    }
}

/// The deadline of a session moves only with its client's packets, each of which gives
/// the client its whole silence again, and with a keepalive that a broker assigns.
pub proof fn law_when_deadlines_move(state: SessionView, event: EventView)
    ensures
        event matches EventView::ClientPacket { now, .. } ==> deadline_of(state.after(event)) == now
            + allowed_silence(state.handshake.keep_alive),
        !(event is ClientPacket) ==> deadline_of(state.after(event)) == deadline_of(state),
        state.after(event).handshake == state.handshake,
{
}

/// What a packet of a connected client changes: it is tracked, it is activity, and a
/// subscription is recorded; nothing else changes.
pub proof fn law_what_client_packets_change(state: SessionView, packet: MqttPacketView, now: u64)
    requires
        state.connected,
    ensures
        ({
            let after = state.after(EventView::ClientPacket { packet, now });
            after == (SessionView {
                windows: state.windows.after_c2b(packet),
                subscriptions: after.subscriptions,
                last_client_activity: now,
                ..state
            })
        }),
{
}

/// Every SUBSCRIBE and UNSUBSCRIBE packet of the client is recorded, in either version
/// and whether or not the broker is there: afterwards each topic filter of a SUBSCRIBE
/// packet is in the table as it asks for it last, none of an UNSUBSCRIBE packet is, and
/// all others are there as they were, in their order.
pub proof fn law_subscriptions_are_always_recorded(
    state: SessionView,
    packet: MqttPacketView,
    now: u64,
)
    requires
        distinct_filters(state.subscriptions),
    ensures
        ({
            let before = state.subscriptions;
            let after = state.after(EventView::ClientPacket { packet, now }).subscriptions;
            after == after_packet(before, packet) && match packet {
                MqttPacketView::V3(
                    v3::PacketView::Subscribe { topic_filters, .. },
                ) => has_subscribed(
                    before,
                    after,
                    topic_filters.map_values(
                        |f: (Seq<char>, QoS)|
                            SubscriptionView {
                                topic_filter: f.0,
                                options: match f.1 {
                                    QoS::AtMostOnce => 0u8,
                                    QoS::AtLeastOnce => 1u8,
                                    QoS::ExactlyOnce => 2u8,
                                },
                            },
                    ),
                ),
                MqttPacketView::V5(v5::PacketView::Subscribe(subscribe)) => has_subscribed(
                    before,
                    after,
                    subscribe.topic_filters.map_values(
                        |f: (Seq<char>, SubscriptionOptions)|
                            SubscriptionView { topic_filter: f.0, options: options_byte(f.1) },
                    ),
                ),
                MqttPacketView::V3(
                    v3::PacketView::Unsubscribe { topic_filters, .. },
                ) => after == before.filter(
                    |e: SubscriptionView| !topic_filters.contains(e.topic_filter),
                ),
                MqttPacketView::V5(
                    v5::PacketView::Unsubscribe { topic_filters, .. },
                ) => after == before.filter(
                    |e: SubscriptionView| !topic_filters.contains(e.topic_filter),
                ),
                _ => after == before,
            }
        }),
{
    law_subscribe_is_recorded(state.subscriptions, packet);
    law_unsubscribe_is_recorded(state.subscriptions, packet);
    law_only_subscriptions_change_the_table(state.subscriptions, packet);
}

/// No other event touches the subscriptions, neither in the forward loop nor in a
/// replay.
pub proof fn law_nobody_else_touches_subscriptions(
    state: SessionView,
    event: EventView,
    replay: EstablishEventView,
    now: u64,
)
    ensures
        !(event is ClientPacket) ==> state.after(event).subscriptions == state.subscriptions,
        state.after_establish(replay, now).subscriptions == state.subscriptions,
{
}

/// What a packet of the client changes during an outage: a QoS1/2 message is kept
/// behind what was kept before, a subscription is recorded, and the packet is activity;
/// nothing else changes. If it ends the session, nothing is kept or recorded.
pub proof fn law_what_client_packets_change_during_an_outage(
    state: SessionView,
    packet: MqttPacketView,
    now: u64,
    id: u16,
)
    requires
        !state.connected,
    ensures
        ({
            let event = EventView::ClientPacket { packet, now };
            let after = state.after(event);
            let fits = total_bytes(state.buffer) + packet.frame().len() <= 1024 * 1024;
            &&& after == (SessionView {
                buffer: after.buffer,
                subscriptions: after.subscriptions,
                last_client_activity: now,
                ..state
            })
            &&& packet.is_message(id) && packet.qos() != QoS::AtMostOnce ==> after.buffer == (
            if fits {
                state.buffer.push(
                    BufferedView {
                        packet_id: id,
                        raw: packet.frame(),
                        qos: if packet.qos() == QoS::AtLeastOnce {
                            1u8
                        } else {
                            2u8
                        },
                    },
                )
            } else {
                state.buffer
            })
            &&& packet.delivery() is Publish && packet.qos() == QoS::AtMostOnce ==> after.buffer
                == state.buffer
            &&& !(packet.delivery() is Publish) ==> after.buffer == state.buffer
        }),
{
    law_what_an_outage_keeps(state.buffer, packet, id);
    law_what_an_outage_refuses(state.buffer, packet);
}

/// What a client gets back during an outage, and whether its session goes on: it gets
/// the answer that stands for its packet, at once and alone; a goodbye, and a message
/// for which there is no room, end the session without an answer.
pub proof fn law_how_clients_are_served_during_an_outage(
    state: SessionView,
    packet: MqttPacketView,
    now: u64,
)
    requires
        !state.connected,
    ensures
        ({
            let step = state.step_for(EventView::ClientPacket { packet, now });
            let fits = total_bytes(state.buffer) + packet.frame().len() <= 1024 * 1024;
            if packet.is_disconnect() {
                step == (StepView {
                    actions: Seq::empty(),
                    verdict: VerdictView::Fail(SessionErrorView::ClientDisconnected),
                })
            } else if packet.delivery() is Publish && packet.qos() != QoS::AtMostOnce && !fits {
                step == (StepView {
                    actions: Seq::empty(),
                    verdict: VerdictView::Fail(SessionErrorView::OutageBufferFull),
                })
            } else {
                &&& step.verdict == VerdictView::Continue
                &&& step.actions == (match outage_reply(packet) {
                    Some(reply) => seq![ActionView::SendToClient(reply)],
                    None => Seq::empty(),
                })
            }
        }),
{
    law_what_an_outage_refuses(state.buffer, packet);
}

/// A client that subscribes during an outage is told so at once, in a SUBACK packet with
/// the identifier of its packet and, for each of its topic filters in order, the QoS that
/// it asked for.
pub proof fn law_subscribing_during_an_outage(
    state: SessionView,
    packet_id: u16,
    topics: Seq<(Seq<char>, QoS)>,
    subscribe: v5::SubscribeView,
    now: u64,
)
    requires
        !state.connected,
    ensures
        ({
            let packet = MqttPacketView::V3(
                v3::PacketView::Subscribe { packet_id, topic_filters: topics },
            );
            let step = state.step_for(EventView::ClientPacket { packet, now });
            &&& step.verdict == VerdictView::Continue
            &&& step.actions.len() == 1
            &&& step.actions[0] == ActionView::SendToClient(
                MqttPacketView::V3(
                    v3::PacketView::SubscribeAck {
                        packet_id,
                        status: Seq::new(
                            topics.len(),
                            |i: int| SubscribeReturnCode::Success(topics[i].1),
                        ),
                    },
                ),
            )
        }),
        ({
            let packet = MqttPacketView::V5(v5::PacketView::Subscribe(subscribe));
            let step = state.step_for(EventView::ClientPacket { packet, now });
            &&& step.verdict == VerdictView::Continue
            &&& step.actions.len() == 1
            &&& step.actions[0] == ActionView::SendToClient(
                MqttPacketView::V5(
                    v5::PacketView::SubscribeAck {
                        packet_id: subscribe.packet_id,
                        status: Seq::new(
                            subscribe.topic_filters.len(),
                            |i: int|
                                match subscribe.topic_filters[i].1.qos {
                                    QoS::AtMostOnce => SubscribeAckReason::GrantedQos0,
                                    QoS::AtLeastOnce => SubscribeAckReason::GrantedQos1,
                                    QoS::ExactlyOnce => SubscribeAckReason::GrantedQos2,
                                },
                        ),
                    },
                ),
            )
        }),
{
    let first = MqttPacketView::V3(
        v3::PacketView::Subscribe { packet_id, topic_filters: topics },
    );
    let second = MqttPacketView::V5(v5::PacketView::Subscribe(subscribe));
    law_how_clients_are_served_during_an_outage(state, first, now);
    law_how_clients_are_served_during_an_outage(state, second, now);
    law_subscriptions_are_granted_during_an_outage(first);
    law_subscriptions_are_granted_during_an_outage(second);
    let first_status = outage_reply(first)->0->V3_0->SubscribeAck_status;
    assert(first_status =~= Seq::new(
        topics.len(),
        |i: int| SubscribeReturnCode::Success(topics[i].1),
    ));
    let second_status = outage_reply(second)->0->V5_0->SubscribeAck_status;
    assert(second_status =~= Seq::new(
        subscribe.topic_filters.len(),
        |i: int|
            match subscribe.topic_filters[i].1.qos {
                QoS::AtMostOnce => SubscribeAckReason::GrantedQos0,
                QoS::AtLeastOnce => SubscribeAckReason::GrantedQos1,
                QoS::ExactlyOnce => SubscribeAckReason::GrantedQos2,
            },
    ));
}

/// Which acknowledgements of the broker belong to the proxy: a PUBACK of a QoS1 message
/// that it flushed, a PUBREC or PUBCOMP of a QoS2 message that it flushed, and nothing
/// else.
pub proof fn law_whose_ack_it_is(state: SessionView, packet: MqttPacketView)
    ensures
        state.is_local_ack(packet) <==> match packet.delivery() {
            Delivery::Ack(id) => state.local_acks.qos1.contains(id),
            Delivery::Received(id) => state.local_acks.qos2.contains(id),
            Delivery::Complete(id) => state.local_acks.qos2.contains(id),
            _ => false,
        },
{
}

/// What a packet of the broker changes. One that reaches the client is tracked, and
/// nothing else changes; a PUBACK or PUBCOMP that belongs to the proxy is crossed off; a
/// PUBREC that belongs to it, a PINGRESP and a DISCONNECT that is passed on change nothing;
/// an administrative DISCONNECT is the loss of the connection.
pub proof fn law_what_broker_packets_change(
    state: SessionView,
    packet: MqttPacketView,
    unread: Seq<u8>,
)
    ensures
        ({
            let after = state.after(EventView::BrokerPacket { packet, unread });
            match packet {
                MqttPacketView::V5(v5::PacketView::Disconnect { reason_code }) => after == (
                if retryable(reason_code) {
                    SessionView { broker_leftover: unread, connected: false, ..state }
                } else {
                    state
                }),
                _ => if packet.is_ping_response() {
                    after == state
                } else if state.is_local_ack(packet) {
                    match packet.delivery() {
                        Delivery::Ack(id) => {
                            &&& after == (SessionView { local_acks: after.local_acks, ..state })
                            &&& after.local_acks.qos1 == state.local_acks.qos1.remove(id)
                            &&& after.local_acks.qos2 == state.local_acks.qos2
                        },
                        Delivery::Complete(id) => {
                            &&& after == (SessionView { local_acks: after.local_acks, ..state })
                            &&& after.local_acks.qos2 == state.local_acks.qos2.remove(id)
                            &&& after.local_acks.qos1 == state.local_acks.qos1
                        },
                        _ => after == state,
                    }
                } else {
                    after == (SessionView { windows: state.windows.after_b2c(packet), ..state })
                },
            }
        }),
{
}

/// What the loss of the broker leaves: the bytes that were read and not yet looked at
/// wait for delivery, a write that fails leaves none of them; the session is in an
/// outage, and nothing else changes.
pub proof fn law_what_a_lost_broker_leaves(state: SessionView, unread: Seq<u8>)
    ensures
        state.after(EventView::BrokerLost { unread }) == (SessionView {
            broker_leftover: unread,
            connected: false,
            ..state
        }),
        state.after(EventView::BrokerWriteFailed) == (SessionView { connected: false, ..state }),
{
}

/// How each event that ends a session ends it: rubbish fails with its reason, and the
/// others close; a client that is dropped for its silence is told so if it speaks
/// version 5, and not otherwise. They change nothing.
pub proof fn law_how_sessions_end(state: SessionView, text: Seq<char>)
    ensures
        state.step_for(EventView::ClientError(text)) == (StepView {
            actions: Seq::empty(),
            verdict: VerdictView::Fail(SessionErrorView::InvalidData(text)),
        }),
        state.step_for(EventView::ClientClosed) == (StepView {
            actions: Seq::empty(),
            verdict: VerdictView::Close,
        }),
        state.step_for(EventView::ControlClosed) == (StepView {
            actions: Seq::empty(),
            verdict: VerdictView::Close,
        }),
        state.step_for(EventView::DeadlinePassed).verdict == VerdictView::Close,
        state.handshake.version == ProtocolVersion::MQTT3 ==> state.step_for(
            EventView::DeadlinePassed,
        ).actions == Seq::<ActionView>::empty(),
        state.handshake.version == ProtocolVersion::MQTT5 ==> state.step_for(
            EventView::DeadlinePassed,
        ).actions == seq![
            ActionView::SendToClient(
                MqttPacketView::V5(v5::PacketView::Disconnect { reason_code: 0x8D }),
            ),
        ],
        state.after(EventView::ClientError(text)) == state,
        state.after(EventView::ClientClosed) == state,
        state.after(EventView::ControlClosed) == state,
        state.after(EventView::DeadlinePassed) == state,
{
}

/// A client fault ends the session, and the client gets that DISCONNECT packet; no other
/// packet of the broker ends it.
pub proof fn law_blame_reaches_the_client(
    state: SessionView,
    packet: MqttPacketView,
    unread: Seq<u8>,
)
    ensures
        ({
            let step = state.step_for(EventView::BrokerPacket { packet, unread });
            &&& step.verdict == (if is_client_fault(packet) {
                VerdictView::Close
            } else {
                VerdictView::Continue
            })
            &&& is_client_fault(packet) ==> client_receives(step.actions, packet) == seq![packet]
        }),
{
    law_broker_packets_reach_client(state, packet);
}

/// These are the reasons for which a broker may send its clients away without blaming
/// them: normal disconnection, busy, shutting down, use another server, moved.
pub proof fn law_administrative_reasons(reason_code: u8)
    ensures
        retryable(reason_code) <==> seq![0x00u8, 0x89, 0x8B, 0x9C, 0x9D].contains(reason_code),
{
    let listed = seq![0x00u8, 0x89, 0x8B, 0x9C, 0x9D];
    assert(listed[0] == 0x00 && listed[1] == 0x89 && listed[2] == 0x8B && listed[3] == 0x9C
        && listed[4] == 0x9D);
    if retryable(reason_code) {
        assert(reason_code == listed[0] || reason_code == listed[1] || reason_code == listed[2]
            || reason_code == listed[3] || reason_code == listed[4]);
    }
}

/// What the proxy says for itself is what it means, in the version asked for.
pub proof fn law_own_packets(version: ProtocolVersion, id: u16)
    ensures
        ping_response(version).is_ping_response(),
        ping_response(version).version() == version,
        release(version, id).delivery() == Delivery::Release(id),
        release(version, id).version() == version,
        release(version, id) matches MqttPacketView::V5(v5::PacketView::PublishRelease(ack))
            ==> ack.reason_code == 0 && ack.properties.len() == 0 && ack.reason_string is None,
{
}

/// The broker speaks only while it is there, and after what it said before; it is
/// waited for only while it is not. Anything else can happen at any time.
pub proof fn law_what_can_happen(state: SessionView, event: EventView)
    ensures
        state.expects(event) <==> match event {
            EventView::BrokerPacket { .. } => state.connected && state.held.len() == 0,
            EventView::BrokerLost { .. } | EventView::BrokerWriteFailed => state.connected,
            EventView::WaitOver { .. } => !state.connected,
            EventView::ClientPacket { .. } | EventView::ClientError(_) | EventView::ClientClosed => true,
            EventView::DeadlinePassed | EventView::ControlClosed => true,
        },
{
}

/// A pause ends when its length has passed; the next one is twice as long, and never
/// longer than five seconds.
pub proof fn law_how_pauses_are_measured(state: SessionView, now: u64)
    ensures
        now + state.backoff <= u64::MAX ==> pause_end(now, state.backoff) == now + state.backoff,
        pause_end(now, state.backoff) >= now,
        2 * state.backoff <= 5_000 ==> doubled(state.backoff) == 2 * state.backoff,
        2 * state.backoff > 5_000 ==> doubled(state.backoff) == 5_000,
        state.after_failure(now) == (SessionView {
            step: OutageStep::Backoff(pause_end(now, state.backoff)),
            backoff: doubled(state.backoff),
            ..state
        }),
        state.step == OutageStep::Connect ==> state.after(EventView::WaitOver { now })
            == state.after_failure(now),
        state.step matches OutageStep::Backoff(until) ==> state.after(EventView::WaitOver { now })
            == (if now >= until {
            SessionView { step: OutageStep::Connect, ..state }
        } else {
            state
        }),
{
}

/// A snapshot holds of a session, each as it is and in its order: the protocol level,
/// the CONNECT packet, both sides' undelivered bytes, what is in flight to the broker and
/// behind it what is in flight to the client, the subscriptions, and what is buffered.
pub proof fn law_what_a_snapshot_holds(
    state: SessionView,
    client_buf: Seq<u8>,
    broker_buf: Seq<u8>,
)
    ensures
        ({
            let snapshot = state.snapshot(client_buf, broker_buf);
            &&& state.handshake.version == ProtocolVersion::MQTT3 ==> snapshot.version == 4
            &&& state.handshake.version == ProtocolVersion::MQTT5 ==> snapshot.version == 5
            &&& snapshot.connect_raw == state.handshake.connect_raw
            &&& snapshot.client_buf == client_buf
            &&& snapshot.broker_buf == broker_buf
            &&& snapshot.windows.take(state.windows.c2b.len() as int) == state.windows.c2b
            &&& snapshot.windows.skip(state.windows.c2b.len() as int) == state.windows.b2c
            &&& snapshot.subscriptions == state.subscriptions
            &&& snapshot.buffered == state.buffer
        }),
{
    crate::window::law_a_snapshot_lists_both_directions(state.windows);
}

/// A session that goes on from a snapshot has what the snapshot holds, has yet to find
/// its broker, and has its client's whole silence still ahead of it.
pub proof fn law_what_a_thawed_session_has(
    handshake: HandshakeView,
    snapshot: SnapshotView,
    now: u64,
)
    ensures
        ({
            let state = SessionView::thawed(handshake, snapshot, now);
            &&& state.handshake == handshake
            &&& state.windows == WindowsView::from_snapshot(snapshot.windows)
            &&& state.subscriptions == snapshot.subscriptions
            &&& state.buffer == snapshot.buffered
            &&& state.broker_leftover == snapshot.broker_buf
            &&& state.held.len() == 0
            &&& forall|id: u16|
                !(#[trigger] state.local_acks.qos1.contains(id)) && !state.local_acks.qos2.contains(
                    id,
                )
            &&& !state.connected
            &&& state.step == OutageStep::Connect && state.backoff == 100
            &&& state.last_client_activity == now
            &&& deadline_of(state) == now + allowed_silence(handshake.keep_alive)
        }),
{
}

/// What is sent to catch up, and what remains once it was sent: everything in flight in
/// both directions is sent again and stays in flight; what is buffered is handed to the
/// broker, in order, and its acknowledgements, and those alone, come to belong to the
/// proxy. The client's activity, its subscriptions and what is held are not touched.
pub proof fn law_what_catching_up_does(state: SessionView, id: u16)
    ensures
        state.replay().broker == state.windows.broker_retransmits(),
        state.replay().client == state.windows.client_retransmits(),
        state.replay().flushed.len() == state.buffer.len(),
        forall|i: int|
            0 <= i < state.buffer.len() ==> #[trigger] state.replay().flushed[i]
                == state.buffer[i].raw,
        state.replay().leftover == whole_frames(state.handshake.version, state.broker_leftover),
        ({
            let back = state.replayed();
            &&& back.local_acks.qos1.contains(id) <==> state.local_acks.qos1.contains(id)
                || exists|i: int|
                0 <= i < state.buffer.len() && (#[trigger] state.buffer[i]).packet_id == id
                    && state.buffer[i].qos == 1
            &&& back.local_acks.qos2.contains(id) <==> state.local_acks.qos2.contains(id)
                || exists|i: int|
                0 <= i < state.buffer.len() && (#[trigger] state.buffer[i]).packet_id == id
                    && state.buffer[i].qos == 2
            &&& back.buffer.len() == 0 && back.broker_leftover.len() == 0
            &&& back.connected && back.step == OutageStep::Connect && back.backoff == 100
            &&& back.windows == state.windows && back.subscriptions == state.subscriptions
            &&& back.handshake == state.handshake && back.held == state.held
            &&& back.last_client_activity == state.last_client_activity
        }),
        state.delivered() == (SessionView { broker_leftover: Seq::empty(), ..state }),
{
    law_marking_adds_these_acks(state.local_acks, state.buffer, id);
}

/// Nothing that a lost connection had left whole stays behind: where the frames that are
/// delivered end, there is no further whole frame.
pub proof fn law_leftover_is_delivered_to_the_last_frame(
    version: ProtocolVersion,
    bytes: Seq<u8>,
)
    ensures
        ({
            let frames = whole_frames(version, bytes);
            let delivered = joined(frames).len() as int;
            &&& delivered <= bytes.len()
            &&& joined(frames) == bytes.take(delivered)
            &&& split_frame(
                bytes.skip(delivered),
                frame_decoded(version, bytes.skip(delivered)),
            ) is None
            &&& split_frame(bytes, frame_decoded(version, bytes)) matches Some((frame, rest)) ==> {
                &&& frames.len() > 0 && frames[0] == frame
                &&& frames.skip(1) == whole_frames(version, rest)
            }
        }),
    decreases bytes.len(),
{
    match split_frame(bytes, frame_decoded(version, bytes)) {
        Some((frame, rest)) => {
            let all = whole_frames(version, bytes);
            if rest.len() < bytes.len() {
                law_leftover_is_delivered_to_the_last_frame(version, rest);
                assert(all.skip(1) =~= whole_frames(version, rest));
                assert(all[0] == frame);
                let later = joined(whole_frames(version, rest));
                let n = (frame.len() + later.len()) as int;
                assert(joined(all) =~= bytes.take(n));
                assert(bytes.skip(n) =~= rest.skip(later.len() as int));
            }
        },
        None => {
            assert(joined(whole_frames(version, bytes)) =~= bytes.take(0));
            assert(bytes.skip(0) =~= bytes);
        },
    }
}

/// A frame is split off where the codec says that it ends: what is split off and what is
/// left are the bytes, and what is left is as long as the codec says.
pub proof fn law_frames_are_split_where_they_end(
    bytes: Seq<u8>,
    decoded: Result<Option<crate::types::DecodedFrame>, Seq<char>>,
)
    ensures
        split_frame(bytes, decoded) matches Some((frame, rest)) ==> frame + rest == bytes
            && frame.len() > 0 && (decoded matches Ok(Some(found)) && rest.len() == found.rest),
        split_frame(bytes, decoded) is None ==> match decoded {
            Ok(Some(found)) => found.rest >= bytes.len(),
            _ => true,
        },
        !(decoded matches Ok(Some(_))) ==> split_frame(bytes, decoded) is None,
{
    match split_frame(bytes, decoded) {
        Some((frame, rest)) => {
            assert(frame + rest =~= bytes);
        },
        None => {},
    }
}

/// A replay begins with the CONNECT packet that the client sent, but for the clean bit,
/// bit 1 of its flags, which is cleared; it ends the session if there are no flags.
pub proof fn law_how_replays_begin(state: SessionView)
    ensures
        flags_index(state.handshake.connect_raw) is None ==> state.establish_step(
            EstablishEventView::Connected,
        ) == Err::<EstablishActionView, _>(SessionErrorView::MalformedConnect),
        flags_index(state.handshake.connect_raw) matches Some(flags) ==> (state.establish_step(
            EstablishEventView::Connected,
        ) matches Ok(EstablishActionView::SendConnect(sent)) && {
            let kept = state.handshake.connect_raw;
            &&& sent.len() == kept.len()
            &&& forall|i: int| 0 <= i < kept.len() && i != flags ==> #[trigger] sent[i] == kept[i]
            &&& sent[flags] == kept[flags] & 0xFDu8
        }),
{
    let kept = state.handshake.connect_raw;
    if flags_index(kept) is Some {
        lemma_varint_end_bounds(kept, 1);
        law_resumption_clears_one_bit(kept);
        let byte = kept[flags_index(kept)->0];
        assert(byte & !0x02u8 == byte & 0xFDu8) by (bit_vector);
    }
}

/// The broker's CONNACK lets a replay go on: with the SUBSCRIBE packet for the whole table
/// if there is one, and with all that has to be caught up on if there is none. A keepalive
/// that a version 5 broker assigns takes effect; otherwise the client's own stays.
pub proof fn law_how_replays_go_on(
    state: SessionView,
    ack: MqttPacketView,
    text: Seq<char>,
    now: u64,
)
    requires
        is_connect_ack(ack),
    ensures
        ({
            let event = EstablishEventView::ConnectReply(
                BrokerReplyView::Packet { packet: ack, text },
            );
            let after = state.after_establish(event, now);
            &&& state.subscriptions.len() > 0 ==> (state.establish_step(event) matches Ok(
                EstablishActionView::SendSubscribe(packet),
            ) && resubscribe(state.subscriptions, state.handshake.version) == Some(packet)
                && packet.version() == state.handshake.version)
            &&& state.subscriptions.len() == 0 ==> state.establish_step(event) == Ok::<
                _,
                SessionErrorView,
            >(EstablishActionView::CatchUp(state.replay()))
            &&& after == (SessionView {
                handshake: HandshakeView {
                    keep_alive: match ack {
                        MqttPacketView::V5(
                            v5::PacketView::ConnectAck { server_keepalive_sec: Some(secs), .. },
                        ) => secs,
                        _ => state.handshake.keep_alive,
                    },
                    ..state.handshake
                },
                broker_leftover: if state.subscriptions.len() == 0 {
                    Seq::empty()
                } else {
                    state.broker_leftover
                },
                ..state
            })
        }),
{
    law_resubscribe_asks_for_the_table(state.subscriptions, state.handshake.version);
}

/// Which packets are the answers that a replay waits for: a CONNACK, and the SUBACK of its
/// own SUBSCRIBE packet, which has the identifier 1.
pub proof fn law_what_replays_wait_for(packet: MqttPacketView)
    ensures
        is_connect_ack(packet) <==> match packet {
            MqttPacketView::V3(p) => p is ConnectAck,
            MqttPacketView::V5(p) => p is ConnectAck,
        },
        is_resubscribe_ack(packet) <==> match packet {
            MqttPacketView::V3(v3::PacketView::SubscribeAck { packet_id, .. }) => packet_id == 1,
            MqttPacketView::V5(v5::PacketView::SubscribeAck { packet_id, .. }) => packet_id == 1,
            _ => false,
        },
{
}

/// Why a replay is tried again or ends the session, in the words that go with it.
pub proof fn law_why_replays_fail(state: SessionView, packet: MqttPacketView, text: Seq<char>)
    ensures
        state.establish_step(EstablishEventView::ConnectReply(BrokerReplyView::Closed)) == Ok::<
            _,
            SessionErrorView,
        >(EstablishActionView::TryAgain(SessionErrorView::BrokerClosedDuringReplay)),
        state.establish_step(EstablishEventView::SubscribeReply(BrokerReplyView::Closed)) == Ok::<
            _,
            SessionErrorView,
        >(EstablishActionView::TryAgain(SessionErrorView::BrokerClosedDuringResubscribe)),
        state.establish_step(EstablishEventView::ConnectReply(BrokerReplyView::Lost(text))) == Ok::<
            _,
            SessionErrorView,
        >(EstablishActionView::TryAgain(SessionErrorView::InvalidData(text))),
        state.establish_step(EstablishEventView::SubscribeReply(BrokerReplyView::Lost(text)))
            == Ok::<_, SessionErrorView>(
            EstablishActionView::TryAgain(SessionErrorView::InvalidData(text)),
        ),
        state.establish_step(EstablishEventView::WriteFailed(text)) == Ok::<_, SessionErrorView>(
            EstablishActionView::TryAgain(SessionErrorView::InvalidData(text)),
        ),
        state.establish_step(EstablishEventView::ConnectReply(BrokerReplyView::Error(text)))
            == Err::<EstablishActionView, _>(SessionErrorView::InvalidData(text)),
        state.establish_step(EstablishEventView::SubscribeReply(BrokerReplyView::Error(text)))
            == Err::<EstablishActionView, _>(SessionErrorView::InvalidData(text)),
        !is_connect_ack(packet) && !(packet matches MqttPacketView::V5(
            v5::PacketView::Disconnect { .. },
        )) ==> state.establish_step(
            EstablishEventView::ConnectReply(BrokerReplyView::Packet { packet, text }),
        ) == Err::<EstablishActionView, _>(SessionErrorView::UnexpectedConnectReply(text)),
        forall|now: u64|
            #![trigger state.after_establish(EstablishEventView::Connected, now)]
            state.after_establish(EstablishEventView::Connected, now) == state
                && state.after_establish(
                EstablishEventView::ConnectReply(BrokerReplyView::Error(text)),
                now,
            ) == state && state.after_establish(
                EstablishEventView::SubscribeReply(BrokerReplyView::Error(text)),
                now,
            ) == state,
{
}

/// What a packet of the broker has for an effect in the forward loop: it goes to the
/// client, unless the client was answered before or must not know of it; the proxy
/// itself releases a QoS2 message that it flushed; and nothing else is sent.
pub proof fn law_where_broker_packets_go(
    state: SessionView,
    packet: MqttPacketView,
    unread: Seq<u8>,
)
    ensures
        ({
            let actions = state.step_for(EventView::BrokerPacket { packet, unread }).actions;
            let own = match packet.delivery() {
                Delivery::Ack(id) => state.local_acks.qos1.contains(id),
                Delivery::Received(id) => state.local_acks.qos2.contains(id),
                Delivery::Complete(id) => state.local_acks.qos2.contains(id),
                _ => false,
            };
            &&& client_receives(actions, packet) == (if own || packet.is_ping_response()
                || is_administrative(packet) {
                Seq::empty()
            } else {
                seq![packet]
            })
            &&& match packet.delivery() {
                Delivery::Received(id) => if own {
                    &&& broker_receives(actions, packet).len() == 1
                    &&& broker_receives(actions, packet)[0].delivery() == Delivery::Release(id)
                    &&& broker_receives(actions, packet)[0].version() == packet.version()
                } else {
                    broker_receives(actions, packet).len() == 0
                },
                _ => broker_receives(actions, packet).len() == 0,
            }
        }),
{
    law_broker_packets_reach_client(state, packet);
}

/// Which packets a session can take in: all but QoS1/2 messages that have no encoding,
/// since those may have to be sent again, and while the broker is there PUBREL packets of a
/// message in flight that have none.
pub proof fn law_what_is_taken_in(state: SessionView, event: EventView)
    ensures
        state.admits(event) <==> match event {
            EventView::ClientPacket { packet, .. } => packet.encodable() || match packet.delivery() {
                Delivery::Publish(publish) => publish.qos == QoS::AtMostOnce,
                Delivery::Release(id) => !state.connected || forall|i: int|
                    0 <= i < state.windows.c2b.len() ==> (
                    #[trigger] state.windows.c2b[i]).packet_id != id,
                _ => true,
            },
            EventView::BrokerPacket { packet, .. } => packet.encodable() || match packet.delivery() {
                Delivery::Publish(publish) => publish.qos == QoS::AtMostOnce,
                _ => true,
            },
            _ => true,
        },
{
    match event {
        EventView::ClientPacket { packet, .. } => {
            law_what_can_be_tracked(state.windows, packet);
        },
        _ => {},
    }
}

/// A packet that is taken from those that are held is the first of them; nothing else
/// changes by that.
pub proof fn law_taking_a_held_packet(state: SessionView)
    requires
        state.held.len() > 0,
    ensures
        seq![state.held[0]] + state.released().held == state.held,
        state.released() == (SessionView { held: state.released().held, ..state }),
{
    assert(seq![state.held[0]] + state.released().held =~= state.held);
}

/// What a replay never touches, and what it touches only once everything was sent: the
/// client's activity, its CONNECT packet and what is in flight stay as they are; what is
/// buffered, whose acknowledgements are the proxy's, and whether there is a broker change
/// with nothing but the end of the replay.
pub proof fn law_what_replays_leave_alone(
    state: SessionView,
    event: EstablishEventView,
    now: u64,
)
    ensures
        ({
            let after = state.after_establish(event, now);
            &&& after.last_client_activity == state.last_client_activity
            &&& after.handshake.version == state.handshake.version
            &&& after.handshake.connect_raw == state.handshake.connect_raw
            &&& after.windows == state.windows
            &&& after.subscriptions == state.subscriptions
            &&& !(event is CaughtUp) ==> after.buffer == state.buffer && after.local_acks
                == state.local_acks && after.connected == state.connected
            &&& event is CaughtUp ==> after.connected && after.buffer.len() == 0
            &&& !(event is ConnectReply) ==> after.handshake == state.handshake
            &&& !(event is SubscribeReply) ==> after.held == state.held
        }),
{
}

/// What a session does with a packet that comes behind the SUBSCRIBE packet of a replay:
/// the acknowledgement lets it catch up on everything at once, a DISCONNECT that blames the
/// client is passed on and changes nothing, and whatever else comes is held behind what is
/// held already. Once everything was sent, the session forwards again.
pub proof fn law_behind_the_subscribe_packet(
    state: SessionView,
    packet: MqttPacketView,
    text: Seq<char>,
    now: u64,
)
    ensures
        ({
            let event = EstablishEventView::SubscribeReply(
                BrokerReplyView::Packet { packet, text },
            );
            let step = state.establish_step(event);
            let after = state.after_establish(event, now);
            let failed = EstablishEventView::ConnectReply(
                BrokerReplyView::Packet { packet, text },
            );
            &&& is_client_fault(packet) ==> step == Ok::<_, SessionErrorView>(
                EstablishActionView::PassOn,
            ) && after == state && state.establish_step(failed) == Ok::<_, SessionErrorView>(
                EstablishActionView::PassOn,
            ) && state.after_establish(failed, now) == state
            &&& is_administrative(packet) ==> step == Ok::<_, SessionErrorView>(
                EstablishActionView::TryAgain(SessionErrorView::BrokerClosedDuringResubscribe),
            ) && state.establish_step(failed) == Ok::<_, SessionErrorView>(
                EstablishActionView::TryAgain(SessionErrorView::BrokerClosedDuringReplay),
            )
            &&& is_resubscribe_ack(packet) ==> step == Ok::<_, SessionErrorView>(
                EstablishActionView::CatchUp(state.replay()),
            ) && after == (SessionView { broker_leftover: Seq::empty(), ..state })
            &&& !is_resubscribe_ack(packet) && !is_client_fault(packet) && !is_administrative(packet)
                ==> step == Ok::<_, SessionErrorView>(EstablishActionView::ReadOn) && after == (
            SessionView { held: state.held.push(packet), ..state })
            &&& state.establish_step(EstablishEventView::CaughtUp) == Ok::<_, SessionErrorView>(
                EstablishActionView::Forward,
            )
        }),
{
}

/// A snapshot can be taken up again if and only if every message in it that may have to be
/// sent again has bytes, and everything buffered in it is of QoS1 or QoS2.
pub proof fn law_which_snapshots_can_be_taken_up(snapshot: SnapshotView)
    ensures
        snapshot.replayable() <==> (forall|i: int|
            0 <= i < snapshot.windows.len() && ((#[trigger] snapshot.windows[i]).state
                == WindowState::C2BPublishSent || snapshot.windows[i].state
                == WindowState::B2CPublishSent) ==> snapshot.windows[i].raw.len() > 0) && (forall|
            i: int,
        |
            0 <= i < snapshot.buffered.len() ==> (#[trigger] snapshot.buffered[i]).qos == 1
                || snapshot.buffered[i].qos == 2),
{
}

/// A subscription that a client made, whether or not the broker was there, is asked for
/// again on a new broker connection; one that it gave up is not.
pub proof fn law_subscriptions_survive_the_broker(
    state: SessionView,
    packet: MqttPacketView,
    now: u64,
    unread: Seq<u8>,
    ack: MqttPacketView,
    text: Seq<char>,
    topic_filter: Seq<char>,
)
    requires
        distinct_filters(state.subscriptions),
        packet.version() == state.handshake.version,
        is_connect_ack(ack),
    ensures
        ({
            let alone = state.after(EventView::ClientPacket { packet, now }).after(
                EventView::BrokerLost { unread },
            );
            let step = alone.establish_step(
                EstablishEventView::ConnectReply(BrokerReplyView::Packet { packet: ack, text }),
            );
            match packet {
                MqttPacketView::V3(v3::PacketView::Subscribe { topic_filters, .. }) => forall|k: int|
                    0 <= k < topic_filters.len() && (forall|j: int|
                        k < j < topic_filters.len() ==> (#[trigger] topic_filters[j]).0
                            != topic_filters[k].0) ==> (step matches Ok(
                        EstablishActionView::SendSubscribe(
                            MqttPacketView::V3(v3::PacketView::Subscribe { topic_filters: asked, .. }),
                        ),
                    ) && asked.contains(#[trigger] topic_filters[k])),
                MqttPacketView::V5(v5::PacketView::Subscribe(subscribe)) => forall|k: int|
                    0 <= k < subscribe.topic_filters.len() && (forall|j: int|
                        k < j < subscribe.topic_filters.len() ==> (
                        #[trigger] subscribe.topic_filters[j]).0 != subscribe.topic_filters[k].0)
                        ==> (step matches Ok(
                        EstablishActionView::SendSubscribe(
                            MqttPacketView::V5(v5::PacketView::Subscribe(asked)),
                        ),
                    ) && asked.topic_filters.contains(#[trigger] subscribe.topic_filters[k])),
                MqttPacketView::V3(v3::PacketView::Unsubscribe { topic_filters, .. }) =>
                    topic_filters.contains(topic_filter) ==> (step matches Ok(
                        EstablishActionView::SendSubscribe(
                            MqttPacketView::V3(v3::PacketView::Subscribe { topic_filters: asked, .. }),
                        ),
                    ) ==> forall|i: int|
                        0 <= i < asked.len() ==> (#[trigger] asked[i]).0 != topic_filter),
                MqttPacketView::V5(v5::PacketView::Unsubscribe { topic_filters, .. }) =>
                    topic_filters.contains(topic_filter) ==> (step matches Ok(
                        EstablishActionView::SendSubscribe(
                            MqttPacketView::V5(v5::PacketView::Subscribe(asked)),
                        ),
                    ) ==> forall|i: int|
                        0 <= i < asked.topic_filters.len() ==> (
                        #[trigger] asked.topic_filters[i]).0 != topic_filter),
                _ => true,
            }
        }),
{
    broadcast use vstd::seq_lib::group_filter_ensures;

    let before = state.subscriptions;
    let alone = state.after(EventView::ClientPacket { packet, now }).after(
        EventView::BrokerLost { unread },
    );
    let table = alone.subscriptions;
    let event = EstablishEventView::ConnectReply(BrokerReplyView::Packet { packet: ack, text });
    let step = alone.establish_step(event);
    law_subscriptions_are_always_recorded(state, packet, now);
    law_how_replays_go_on(alone, ack, text, now);
    law_resubscribe_asks_for_the_table(table, state.handshake.version);
    match packet {
        MqttPacketView::V3(v3::PacketView::Subscribe { topic_filters, .. }) => {
            let made = topic_filters.map_values(
                |f: (Seq<char>, QoS)|
                    SubscriptionView {
                        topic_filter: f.0,
                        options: match f.1 {
                            QoS::AtMostOnce => 0u8,
                            QoS::AtLeastOnce => 1u8,
                            QoS::ExactlyOnce => 2u8,
                        },
                    },
            );
            assert forall|k: int|
                0 <= k < topic_filters.len() && (forall|j: int|
                    k < j < topic_filters.len() ==> (#[trigger] topic_filters[j]).0
                        != topic_filters[k].0) implies (step matches Ok(
                EstablishActionView::SendSubscribe(
                    MqttPacketView::V3(v3::PacketView::Subscribe { topic_filters: asked, .. }),
                ),
            ) && asked.contains(#[trigger] topic_filters[k])) by {
                assert forall|j: int| k < j < made.len() implies (#[trigger] made[j]).topic_filter
                    != made[k].topic_filter by {
                    assert(topic_filters[j].0 != topic_filters[k].0);
                }
                assert(table.contains(made[k]));
                let i = choose|i: int| 0 <= i < table.len() && table[i] == made[k];
                law_resubscribe_reads_what_is_kept(table, state.handshake.version, i);
                let asked = step->Ok_0->SendSubscribe_0->V3_0->Subscribe_topic_filters;
                assert(asked[i] == topic_filters[k]);
            }
        },
        MqttPacketView::V5(v5::PacketView::Subscribe(subscribe)) => {
            let topic_filters = subscribe.topic_filters;
            let made = topic_filters.map_values(
                |f: (Seq<char>, SubscriptionOptions)|
                    SubscriptionView { topic_filter: f.0, options: options_byte(f.1) },
            );
            assert forall|k: int|
                0 <= k < topic_filters.len() && (forall|j: int|
                    k < j < topic_filters.len() ==> (#[trigger] topic_filters[j]).0
                        != topic_filters[k].0) implies (step matches Ok(
                EstablishActionView::SendSubscribe(
                    MqttPacketView::V5(v5::PacketView::Subscribe(asked)),
                ),
            ) && asked.topic_filters.contains(#[trigger] topic_filters[k])) by {
                assert forall|j: int| k < j < made.len() implies (#[trigger] made[j]).topic_filter
                    != made[k].topic_filter by {
                    assert(topic_filters[j].0 != topic_filters[k].0);
                }
                assert(table.contains(made[k]));
                let i = choose|i: int| 0 <= i < table.len() && table[i] == made[k];
                let asked = step->Ok_0->SendSubscribe_0->V5_0->Subscribe_0.topic_filters;
                assert(options_byte(topic_filters[k].1) == table[i].options);
                assert(asked[i].0 == table[i].topic_filter);
                assert(asked[i] == topic_filters[k]);
            }
        },
        MqttPacketView::V3(v3::PacketView::Unsubscribe { topic_filters, .. }) => {
            if topic_filters.contains(topic_filter) {
                assert forall|i: int| 0 <= i < table.len() implies (
                #[trigger] table[i]).topic_filter != topic_filter by {
                    let kept = |e: SubscriptionView| !topic_filters.contains(e.topic_filter);
                    assert(table == before.filter(kept));
                    assert(kept(table[i]));
                }
            }
        },
        MqttPacketView::V5(v5::PacketView::Unsubscribe { topic_filters, .. }) => {
            if topic_filters.contains(topic_filter) {
                assert forall|i: int| 0 <= i < table.len() implies (
                #[trigger] table[i]).topic_filter != topic_filter by {
                    let kept = |e: SubscriptionView| !topic_filters.contains(e.topic_filter);
                    assert(table == before.filter(kept));
                    assert(kept(table[i]));
                }
            }
        },
        _ => {},
    }
}

} // verus!
