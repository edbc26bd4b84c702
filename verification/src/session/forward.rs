//! The session's forward loop as a two-phase state machine (connected /
//! outage), the replay onto a fresh broker connection, and the freeze/thaw
//! machinery. Whoever owns the sockets reports events and performs the
//! actions.

use vstd::prelude::*;

use crate::codec::{decode_frame, frame_decoded};
use crate::error::{invalid_data, SessionError, SessionErrorView};
use crate::frame::flags_index;
use crate::packet::{Delivery, MqttPacket, MqttPacketView};
use crate::registry::{
    buffered_view, BufferedPublish, BufferedView, FrozenSession, FrozenView, SessionSnapshot,
    SnapshotView, SubscriptionView,
};
use crate::session::handshake::{
    assigned_keep_alive, decoded_view, force_session_resumption, level_of, resuming,
    snapshot_outcome, version_of, Handshake, HandshakeView,
};
use crate::session::keepalive::{allowed_silence, client_deadline, close_for_keepalive, farewell};
use crate::session::outage::{
    outage_buffer_after, outage_error, outage_reply, service_outage_packet, LocalAcks,
    LocalAcksView, OutageBuffer, BROKER_RETRY_INITIAL_MS, BROKER_RETRY_MAX_MS,
};
use crate::session::subscriptions::{
    after_packet, resubscribe, Subscriptions, RESUBSCRIBE_PACKET_ID,
};
use crate::types::{DecodedFrame, ProtocolVersion};
use crate::v3;
use crate::v5;
use crate::v5::{PublishAck, PublishAckView};
use crate::window::{copy_bytes, frames_view, InflightWindows, WindowsView};

verus! {

/// What the outage phase waits on next: a connect attempt, or the end of the
/// pause after a failed one, at a time in milliseconds.
#[derive(Clone, Copy, Debug, PartialEq, Eq, Structural)]
pub enum OutageStep {
    Connect,
    Backoff(u64),
}

/// One proxied session.
#[derive(Debug)]
pub struct Session {
    handshake: Handshake,
    windows: InflightWindows,
    subscriptions: Subscriptions,
    local_acks: LocalAcks,
    buffer: OutageBuffer,
    broker_leftover: Vec<u8>,
    held: Vec<MqttPacket>,
    connected: bool,
    backoff: u64,
    step: OutageStep,
    last_client_activity: u64,
}

/// Mathematical counterpart of [`Session`].
#[verifier::ext_equal]
pub struct SessionView {
    pub handshake: HandshakeView,
    pub windows: WindowsView,
    pub subscriptions: Seq<SubscriptionView>,
    /// Acknowledgements of the broker that belong to the proxy.
    pub local_acks: LocalAcksView,
    /// Messages acknowledged to the client, not yet sent to the broker.
    pub buffer: Seq<BufferedView>,
    /// Undelivered bytes of the broker connection that was lost.
    pub broker_leftover: Seq<u8>,
    /// Packets that a new broker connection brought before the session had
    /// caught up on it, not yet dealt with.
    pub held: Seq<MqttPacketView>,
    /// Whether there is a broker connection.
    pub connected: bool,
    /// The next pause between two connection attempts, in milliseconds.
    pub backoff: u64,
    pub step: OutageStep,
    /// When the client last sent a packet, in milliseconds.
    pub last_client_activity: u64,
}

impl View for Session {
    type V = SessionView;

    closed spec fn view(&self) -> SessionView {
        SessionView {
            handshake: self.handshake@,
            windows: self.windows@,
            subscriptions: self.subscriptions@,
            local_acks: self.local_acks@,
            buffer: self.buffer@,
            broker_leftover: self.broker_leftover@,
            held: packets_view(self.held@),
            connected: self.connected,
            backoff: self.backoff,
            step: self.step,
            last_client_activity: self.last_client_activity,
        }
    }
}

/// The packets of a list.
pub open spec fn packets_view(packets: Seq<MqttPacket>) -> Seq<MqttPacketView> {
    packets.map_values(|p: MqttPacket| p@)
}

/// Every buffered message is one that the broker acknowledges.
pub open spec fn acknowledged_only(buffer: Seq<BufferedView>) -> bool {
    forall|i: int|
        0 <= i < buffer.len() ==> (#[trigger] buffer[i]).qos == 1 || buffer[i].qos == 2
}

/// Something that happened to a session.
#[derive(Debug)]
pub enum Event {
    /// The client sent a packet, at a time in milliseconds.
    ClientPacket { packet: MqttPacket, now: u64 },
    /// The client sent bytes that are no packet, for the reason given.
    ClientError(String),
    /// The client closed its connection.
    ClientClosed,
    /// The broker sent a packet; behind it these bytes were already read.
    BrokerPacket { packet: MqttPacket, unread: Vec<u8> },
    /// The broker connection was lost; these bytes were already read.
    BrokerLost { unread: Vec<u8> },
    /// A packet could not be sent to the broker.
    BrokerWriteFailed,
    /// The connection attempt failed, or the pause before the next is over, at
    /// a time in milliseconds.
    WaitOver { now: u64 },
    /// The client was silent for longer than it may be.
    DeadlinePassed,
    /// Nobody can freeze the session any more.
    ControlClosed,
}

/// Mathematical counterpart of [`Event`].
#[verifier::ext_equal]
pub enum EventView {
    ClientPacket { packet: MqttPacketView, now: u64 },
    ClientError(Seq<char>),
    ClientClosed,
    BrokerPacket { packet: MqttPacketView, unread: Seq<u8> },
    BrokerLost { unread: Seq<u8> },
    BrokerWriteFailed,
    WaitOver { now: u64 },
    DeadlinePassed,
    ControlClosed,
}

impl View for Event {
    type V = EventView;

    open spec fn view(&self) -> EventView {
        match *self {
            Event::ClientPacket { packet, now } => EventView::ClientPacket { packet: packet@, now },
            Event::ClientError(text) => EventView::ClientError(text@),
            Event::ClientClosed => EventView::ClientClosed,
            Event::BrokerPacket { packet, unread } => EventView::BrokerPacket {
                packet: packet@,
                unread: unread@,
            },
            Event::BrokerLost { unread } => EventView::BrokerLost { unread: unread@ },
            Event::BrokerWriteFailed => EventView::BrokerWriteFailed,
            Event::WaitOver { now } => EventView::WaitOver { now },
            Event::DeadlinePassed => EventView::DeadlinePassed,
            Event::ControlClosed => EventView::ControlClosed,
        }
    }
}

/// What is to be sent on behalf of a session.
#[derive(Debug)]
pub enum Action {
    /// Send a packet of the proxy's own to the client.
    SendToClient(MqttPacket),
    /// Send a packet of the proxy's own to the broker.
    SendToBroker(MqttPacket),
    /// Send the packet of the event to the client.
    ForwardToClient,
    /// Send the packet of the event to the broker.
    ForwardToBroker,
}

/// Mathematical counterpart of [`Action`].
#[verifier::ext_equal]
pub enum ActionView {
    SendToClient(MqttPacketView),
    SendToBroker(MqttPacketView),
    ForwardToClient,
    ForwardToBroker,
}

impl View for Action {
    type V = ActionView;

    open spec fn view(&self) -> ActionView {
        match *self {
            Action::SendToClient(packet) => ActionView::SendToClient(packet@),
            Action::SendToBroker(packet) => ActionView::SendToBroker(packet@),
            Action::ForwardToClient => ActionView::ForwardToClient,
            Action::ForwardToBroker => ActionView::ForwardToBroker,
        }
    }
}

/// Whether a session goes on.
#[derive(Debug)]
pub enum Verdict {
    Continue,
    Close,
    Fail(SessionError),
}

/// Mathematical counterpart of [`Verdict`].
#[verifier::ext_equal]
pub enum VerdictView {
    Continue,
    Close,
    Fail(SessionErrorView),
}

impl View for Verdict {
    type V = VerdictView;

    open spec fn view(&self) -> VerdictView {
        match *self {
            Verdict::Continue => VerdictView::Continue,
            Verdict::Close => VerdictView::Close,
            Verdict::Fail(error) => VerdictView::Fail(error@),
        }
    }
}

/// What a session makes of an event: first the actions, in order, then the
/// verdict.
#[derive(Debug)]
pub struct Step {
    pub actions: Vec<Action>,
    pub verdict: Verdict,
}

/// Mathematical counterpart of [`Step`].
#[verifier::ext_equal]
pub struct StepView {
    pub actions: Seq<ActionView>,
    pub verdict: VerdictView,
}

impl View for Step {
    type V = StepView;

    open spec fn view(&self) -> StepView {
        StepView {
            actions: self.actions@.map_values(|a: Action| a@),
            verdict: self.verdict@,
        }
    }
}

/// A step without actions that lets the session go on.
pub open spec fn quiet() -> StepView {
    StepView { actions: Seq::empty(), verdict: VerdictView::Continue }
}

/// A step with one action that lets the session go on.
pub open spec fn acting(action: ActionView) -> StepView {
    StepView { actions: seq![action], verdict: VerdictView::Continue }
}

/// A step that ends the session.
pub open spec fn ending(verdict: VerdictView) -> StepView {
    StepView { actions: Seq::empty(), verdict }
}

/// v5 server-side DISCONNECT reason codes that mean "go away, we're doing
/// maintenance": normal disconnection, server busy, server shutting down, use
/// another server, server moved.
pub open spec fn retryable(reason_code: u8) -> bool {
    reason_code == 0x00 || reason_code == 0x89 || reason_code == 0x8B || reason_code == 0x9C
        || reason_code == 0x9D
}

/// Whether a v5 server-side DISCONNECT means "go away, we're doing
/// maintenance" — the proxy intercepts these and reconnects quietly. All
/// other reasons (protocol errors, auth failures, …) are client faults and
/// must reach the client.
pub fn is_retryable_disconnect(reason_code: u8) -> (result: bool)
    ensures
        result == retryable(reason_code),
{
    reason_code == 0x00 || reason_code == 0x89 || reason_code == 0x8B || reason_code == 0x9C
        || reason_code == 0x9D
}

/// The PINGRESP packet of a version.
pub open spec fn ping_response(version: ProtocolVersion) -> MqttPacketView {
    match version {
        ProtocolVersion::MQTT3 => MqttPacketView::V3(v3::PacketView::PingResponse),
        ProtocolVersion::MQTT5 => MqttPacketView::V5(v5::PacketView::PingResponse),
    }
}

/// The PUBREL packet of a version.
pub open spec fn release(version: ProtocolVersion, packet_id: u16) -> MqttPacketView {
    match version {
        ProtocolVersion::MQTT3 => MqttPacketView::V3(v3::PacketView::PublishRelease { packet_id }),
        ProtocolVersion::MQTT5 => MqttPacketView::V5(
            v5::PacketView::PublishRelease(PublishAckView::success(packet_id)),
        ),
    }
}

/// Twice the pause, up to the longest.
pub open spec fn doubled(backoff: u64) -> u64 {
    if 2 * backoff <= BROKER_RETRY_MAX_MS {
        (2 * backoff) as u64
    } else {
        BROKER_RETRY_MAX_MS
    }
}

/// When a pause is over that begins at a time.
pub open spec fn pause_end(now: u64, backoff: u64) -> u64 {
    if now + backoff <= u64::MAX {
        (now + backoff) as u64
    } else {
        u64::MAX
    }
}

impl SessionView {
    /// The windows can be replayed, every buffered message is acknowledged,
    /// every packet that is held can be tracked, and the pause is within its
    /// limits.
    pub open spec fn wf(self) -> bool {
        &&& self.windows.wf()
        &&& self.windows.replayable()
        &&& acknowledged_only(self.buffer)
        &&& forall|i: int| 0 <= i < self.held.len() ==> (#[trigger] self.held[i]).wf()
        &&& BROKER_RETRY_INITIAL_MS <= self.backoff <= BROKER_RETRY_MAX_MS
    }

    /// Whether an event can happen: the broker speaks only while connected, and
    /// is waited for only while it is not; packets that are held come first.
    pub open spec fn expects(self, event: EventView) -> bool {
        match event {
            EventView::BrokerPacket { .. } => self.connected && self.held.len() == 0,
            EventView::BrokerLost { .. } => self.connected,
            EventView::BrokerWriteFailed => self.connected,
            EventView::WaitOver { .. } => !self.connected,
            _ => true,
        }
    }

    /// Whether a packet that has to be kept has an encoding.
    pub open spec fn admits(self, event: EventView) -> bool {
        match event {
            EventView::ClientPacket { packet, .. } => if self.connected {
                self.windows.admits_c2b(packet)
            } else {
                packet.wf()
            },
            EventView::BrokerPacket { packet, .. } => packet.wf(),
            _ => true,
        }
    }

    /// The session after its broker connection was lost with some bytes unread.
    pub open spec fn lost(self, unread: Seq<u8>) -> SessionView {
        SessionView { broker_leftover: unread, connected: false, ..self }
    }

    /// The session after a client packet, while connected.
    pub open spec fn after_client(self, packet: MqttPacketView, now: u64) -> SessionView {
        SessionView {
            windows: self.windows.after_c2b(packet),
            subscriptions: after_packet(self.subscriptions, packet),
            last_client_activity: now,
            ..self
        }
    }

    /// What is done for a client packet while connected: keepalive is
    /// terminated locally, and everything is forwarded.
    pub open spec fn client_step(self, packet: MqttPacketView) -> StepView {
        if packet.is_ping_request() {
            StepView {
                actions: seq![
                    ActionView::SendToClient(ping_response(packet.version())),
                    ActionView::ForwardToBroker,
                ],
                verdict: VerdictView::Continue,
            }
        } else {
            acting(ActionView::ForwardToBroker)
        }
    }

    /// The session after a client packet, during an outage.
    pub open spec fn after_outage(self, packet: MqttPacketView, now: u64) -> SessionView {
        if outage_error(self.buffer, packet) is Some {
            SessionView { last_client_activity: now, ..self }
        } else {
            SessionView {
                buffer: outage_buffer_after(self.buffer, packet),
                subscriptions: after_packet(self.subscriptions, packet),
                last_client_activity: now,
                ..self
            }
        }
    }

    /// What is done for a client packet during an outage.
    pub open spec fn outage_step(self, packet: MqttPacketView) -> StepView {
        match outage_error(self.buffer, packet) {
            Some(error) => ending(VerdictView::Fail(error)),
            None => match outage_reply(packet) {
                Some(reply) => acting(ActionView::SendToClient(reply)),
                None => quiet(),
            },
        }
    }

    /// Whether an acknowledgement of the broker belongs to the proxy: the
    /// client was already acked locally.
    pub open spec fn is_local_ack(self, packet: MqttPacketView) -> bool {
        match packet.delivery() {
            Delivery::Ack(packet_id) => self.local_acks.qos1.contains(packet_id),
            Delivery::Received(packet_id) => self.local_acks.qos2.contains(packet_id),
            Delivery::Complete(packet_id) => self.local_acks.qos2.contains(packet_id),
            _ => false,
        }
    }

    /// The session after a packet of the broker.
    pub open spec fn after_broker(self, packet: MqttPacketView, unread: Seq<u8>) -> SessionView {
        match packet {
            MqttPacketView::V5(v5::PacketView::Disconnect { reason_code }) => if retryable(
                reason_code,
            ) {
                self.lost(unread)
            } else {
                self
            },
            _ => if packet.is_ping_response() {
                self
            } else if self.is_local_ack(packet) {
                match packet.delivery() {
                    Delivery::Ack(packet_id) => SessionView {
                        local_acks: self.local_acks.without_qos1(packet_id),
                        ..self
                    },
                    Delivery::Complete(packet_id) => SessionView {
                        local_acks: self.local_acks.without_qos2(packet_id),
                        ..self
                    },
                    _ => self,
                }
            } else {
                SessionView { windows: self.windows.after_b2c(packet), ..self }
            },
        }
    }

    /// What is done for a packet of the broker.
    pub open spec fn broker_step(self, packet: MqttPacketView) -> StepView {
        match packet {
            MqttPacketView::V5(v5::PacketView::Disconnect { reason_code }) => if retryable(
                reason_code,
            ) {
                quiet()
            } else {
                StepView {
                    actions: seq![ActionView::ForwardToClient],
                    verdict: VerdictView::Close,
                }
            },
            _ => if packet.is_ping_response() {
                quiet()
            } else if self.is_local_ack(packet) {
                match packet.delivery() {
                    Delivery::Received(packet_id) => acting(
                        ActionView::SendToBroker(release(packet.version(), packet_id)),
                    ),
                    _ => quiet(),
                }
            } else {
                acting(ActionView::ForwardToClient)
            },
        }
    }

    /// The session after an attempt to reach the broker failed: it pauses, and
    /// the next pause is longer.
    pub open spec fn after_failure(self, now: u64) -> SessionView {
        SessionView {
            step: OutageStep::Backoff(pause_end(now, self.backoff)),
            backoff: doubled(self.backoff),
            ..self
        }
    }

    /// The session without the first packet that is held.
    pub open spec fn released(self) -> SessionView {
        SessionView { held: self.held.skip(1), ..self }
    }

    /// The session after a failed connection attempt or a pause.
    pub open spec fn after_wait(self, now: u64) -> SessionView {
        match self.step {
            OutageStep::Connect => self.after_failure(now),
            OutageStep::Backoff(until) => if now >= until {
                SessionView { step: OutageStep::Connect, ..self }
            } else {
                self
            },
        }
    }

    /// The session after an event.
    pub open spec fn after(self, event: EventView) -> SessionView {
        match event {
            EventView::ClientPacket { packet, now } => if self.connected {
                self.after_client(packet, now)
            } else {
                self.after_outage(packet, now)
            },
            EventView::BrokerPacket { packet, unread } => self.after_broker(packet, unread),
            EventView::BrokerLost { unread } => self.lost(unread),
            EventView::BrokerWriteFailed => SessionView { connected: false, ..self },
            EventView::WaitOver { now } => self.after_wait(now),
            _ => self,
        }
    }

    /// What is done for an event.
    pub open spec fn step_for(self, event: EventView) -> StepView {
        match event {
            EventView::ClientPacket { packet, .. } => if self.connected {
                self.client_step(packet)
            } else {
                self.outage_step(packet)
            },
            EventView::ClientError(text) => ending(
                VerdictView::Fail(SessionErrorView::InvalidData(text)),
            ),
            EventView::ClientClosed => ending(VerdictView::Close),
            EventView::BrokerPacket { packet, .. } => self.broker_step(packet),
            EventView::BrokerLost { .. } => quiet(),
            EventView::BrokerWriteFailed => quiet(),
            EventView::WaitOver { .. } => quiet(),
            EventView::DeadlinePassed => match farewell(self.handshake.version) {
                Some(packet) => StepView {
                    actions: seq![ActionView::SendToClient(packet)],
                    verdict: VerdictView::Close,
                },
                None => ending(VerdictView::Close),
            },
            EventView::ControlClosed => ending(VerdictView::Close),
        }
    }
}

fn no_step() -> (step: Step)
    ensures
        step@ == quiet(),
{
    let step = Step { actions: Vec::new(), verdict: Verdict::Continue };
    assert(step@ =~= quiet());
    step
}

fn one_step(action: Action) -> (step: Step)
    ensures
        step@ == acting(action@),
{
    let mut actions: Vec<Action> = Vec::new();
    actions.push(action);
    let step = Step { actions, verdict: Verdict::Continue };
    assert(step@ =~= acting(action@));
    step
}

fn last_step(verdict: Verdict) -> (step: Step)
    ensures
        step@ == ending(verdict@),
{
    let step = Step { actions: Vec::new(), verdict };
    assert(step@ =~= ending(verdict@));
    step
}

fn closing_step(action: Action) -> (step: Step)
    ensures
        step@ == (StepView { actions: seq![action@], verdict: VerdictView::Close }),
{
    let mut actions: Vec<Action> = Vec::new();
    actions.push(action);
    let step = Step { actions, verdict: Verdict::Close };
    assert(step@.actions =~= seq![action@]);
    step
}

fn client_actions(packet: &MqttPacket) -> (step: Step)
    ensures
        forall|state: SessionView| step@ == #[trigger] state.client_step(packet@),
{
    let response = match packet {
        MqttPacket::V3(v3::Packet::PingRequest) => MqttPacket::V3(v3::Packet::PingResponse),
        MqttPacket::V5(v5::Packet::PingRequest) => MqttPacket::V5(v5::Packet::PingResponse),
        _ => return one_step(Action::ForwardToBroker),
    };
    let mut actions: Vec<Action> = Vec::new();
    actions.push(Action::SendToClient(response));
    actions.push(Action::ForwardToBroker);
    let step = Step { actions, verdict: Verdict::Continue };
    assert(step@.actions =~= seq![
        ActionView::SendToClient(ping_response(packet@.version())),
        ActionView::ForwardToBroker,
    ]);
    step
}

impl Session {
    /// The state is that of a session: see [`SessionView::wf`].
    pub closed spec fn wf(&self) -> bool {
        self@.wf() && self.buffer.wf()
    }

    /// The protocol version of the session.
    pub fn version(&self) -> (version: ProtocolVersion)
        ensures
            version == self@.handshake.version,
    {
        self.handshake.version
    }

    /// Whether there is a broker connection.
    pub fn is_connected(&self) -> (connected: bool)
        ensures
            connected == self@.connected,
    {
        self.connected
    }

    /// What the outage phase waits on next.
    pub fn outage_wait(&self) -> (step: OutageStep)
        ensures
            step == self@.step,
    {
        self.step
    }

    /// When a silent client must be dropped, in milliseconds.
    pub fn deadline(&self) -> (deadline: u64)
        requires
            self@.last_client_activity + allowed_silence(self@.handshake.keep_alive) <= u64::MAX,
        ensures
            deadline == self@.last_client_activity + allowed_silence(self@.handshake.keep_alive),
    {
        client_deadline(self.handshake.keep_alive, self.last_client_activity)
    }

    fn on_broker_packet(&mut self, packet: &MqttPacket, unread: Vec<u8>) -> (step: Step)
        requires
            old(self).wf(),
            packet@.wf(),
        ensures
            final(self).wf(),
            final(self)@ == old(self)@.after_broker(packet@, unread@),
            step@ == old(self)@.broker_step(packet@),
    {
        match packet {
            MqttPacket::V5(v5::Packet::Disconnect { reason_code }) => {
                // v5 administrative DISCONNECT (rolling update, scale-in):
                // swallow it and treat as a transport loss — the client stays
                // unaware.
                if is_retryable_disconnect(*reason_code) {
                    self.broker_leftover = unread;
                    self.connected = false;
                    return no_step();
                }
                // Client-fault DISCONNECT: pass it through and end the session.
                return closing_step(Action::ForwardToClient);
            },
            // Upstream PINGRESP: the client was already answered locally —
            // swallow it.
            MqttPacket::V3(v3::Packet::PingResponse) => return no_step(),
            MqttPacket::V5(v5::Packet::PingResponse) => return no_step(),
            // Broker acks for outage-buffered publishes belong to the proxy;
            // the client was already acked locally.
            MqttPacket::V3(v3::Packet::PublishAck { packet_id }) => {
                if self.take_local_ack(*packet_id) {
                    return no_step();
                }
            },
            MqttPacket::V3(v3::Packet::PublishReceived { packet_id }) => {
                if self.local_acks.has_qos2(*packet_id) {
                    return one_step(
                        Action::SendToBroker(
                            MqttPacket::V3(v3::Packet::PublishRelease { packet_id: *packet_id }),
                        ),
                    );
                }
            },
            MqttPacket::V3(v3::Packet::PublishComplete { packet_id }) => {
                if self.take_local_complete(*packet_id) {
                    return no_step();
                }
            },
            MqttPacket::V5(v5::Packet::PublishAck(ack)) => {
                if self.take_local_ack(ack.packet_id) {
                    return no_step();
                }
            },
            MqttPacket::V5(v5::Packet::PublishReceived(ack)) => {
                if self.local_acks.has_qos2(ack.packet_id) {
                    return one_step(
                        Action::SendToBroker(
                            MqttPacket::V5(
                                v5::Packet::PublishRelease(PublishAck::success(ack.packet_id)),
                            ),
                        ),
                    );
                }
            },
            MqttPacket::V5(v5::Packet::PublishComplete(ack)) => {
                if self.take_local_complete(ack.packet_id) {
                    return no_step();
                }
            },
            _ => {},
        }
        self.windows.track_b2c(packet);
        one_step(Action::ForwardToClient)
    }

    fn take_local_ack(&mut self, packet_id: u16) -> (taken: bool)
        requires
            old(self).wf(),
        ensures
            final(self).wf(),
            taken == old(self)@.local_acks.qos1.contains(packet_id),
            taken ==> final(self)@ == (SessionView {
                local_acks: old(self)@.local_acks.without_qos1(packet_id),
                ..old(self)@
            }),
            !taken ==> final(self)@ == old(self)@,
    {
        let taken = self.local_acks.take_qos1(packet_id);
        assert(!taken ==> self@.local_acks.qos1 =~= old(self)@.local_acks.qos1);
        taken
    }

    fn take_local_complete(&mut self, packet_id: u16) -> (taken: bool)
        requires
            old(self).wf(),
        ensures
            final(self).wf(),
            taken == old(self)@.local_acks.qos2.contains(packet_id),
            taken ==> final(self)@ == (SessionView {
                local_acks: old(self)@.local_acks.without_qos2(packet_id),
                ..old(self)@
            }),
            !taken ==> final(self)@ == old(self)@,
    {
        let taken = self.local_acks.take_qos2(packet_id);
        assert(!taken ==> self@.local_acks.qos2 =~= old(self)@.local_acks.qos2);
        taken
    }

    fn on_client_packet(&mut self, packet: &MqttPacket, now: u64) -> (step: Step)
        requires
            old(self).wf(),
            old(self)@.admits(EventView::ClientPacket { packet: packet@, now }),
        ensures
            final(self).wf(),
            final(self)@ == old(self)@.after(EventView::ClientPacket { packet: packet@, now }),
            step@ == old(self)@.step_for(EventView::ClientPacket { packet: packet@, now }),
    {
        self.last_client_activity = now;
        if self.connected {
            // Keepalive is terminated locally: the client gets an instant
            // PINGRESP, and the PINGREQ is still forwarded so the broker-side
            // keepalive holds.
            self.windows.track_c2b(packet);
            self.subscriptions.track(packet);
            client_actions(packet)
        } else {
            match service_outage_packet(packet, &mut self.buffer, &mut self.subscriptions) {
                Ok(Some(reply)) => one_step(Action::SendToClient(reply)),
                Ok(None) => no_step(),
                Err(error) => last_step(Verdict::Fail(error)),
            }
        }
    }

    fn on_failure(&mut self, now: u64)
        requires
            old(self).wf(),
        ensures
            final(self).wf(),
            final(self)@ == old(self)@.after_failure(now),
    {
        self.step = OutageStep::Backoff(now.saturating_add(self.backoff));
        self.backoff = if self.backoff * 2 <= BROKER_RETRY_MAX_MS {
            self.backoff * 2
        } else {
            BROKER_RETRY_MAX_MS
        };
    }

    fn on_wait_over(&mut self, now: u64)
        requires
            old(self).wf(),
        ensures
            final(self).wf(),
            final(self)@ == old(self)@.after_wait(now),
    {
        match self.step {
            OutageStep::Connect => {
                self.on_failure(now);
            },
            OutageStep::Backoff(until) => {
                if now >= until {
                    self.step = OutageStep::Connect;
                }
            },
        }
    }

    /// Whether an event can be taken in: see [`SessionView::expects`] and
    /// [`SessionView::admits`].
    pub fn accepts(&self, event: &Event) -> (accepted: bool)
        requires
            self.wf(),
        ensures
            accepted == (self@.expects(event@) && self@.admits(event@)),
    {
        match event {
            Event::ClientPacket { packet, .. } => if self.connected {
                self.windows.admits_c2b(packet)
            } else {
                packet.is_valid()
            },
            Event::BrokerPacket { packet, .. } => self.connected && self.held.len() == 0
                && packet.is_valid(),
            Event::BrokerLost { .. } => self.connected,
            Event::BrokerWriteFailed => self.connected,
            Event::WaitOver { .. } => !self.connected,
            _ => true,
        }
    }

    /// Take in one event of the forward loop.
    pub fn handle(&mut self, event: Event) -> (step: Step)
        requires
            old(self).wf(),
            old(self)@.expects(event@),
            old(self)@.admits(event@),
        ensures
            final(self).wf(),
            final(self)@ == old(self)@.after(event@),
            step@ == old(self)@.step_for(event@),
    {
        match event {
            Event::ClientPacket { packet, now } => self.on_client_packet(&packet, now),
            Event::ClientError(text) => last_step(Verdict::Fail(invalid_data(text))),
            Event::ClientClosed => last_step(Verdict::Close),
            Event::BrokerPacket { packet, unread } => self.on_broker_packet(&packet, unread),
            Event::BrokerLost { unread } => {
                self.broker_leftover = unread;
                self.connected = false;
                no_step()
            },
            Event::BrokerWriteFailed => {
                self.connected = false;
                no_step()
            },
            Event::WaitOver { now } => {
                self.on_wait_over(now);
                no_step()
            },
            Event::DeadlinePassed => match close_for_keepalive(self.handshake.version) {
                Some(packet) => closing_step(Action::SendToClient(packet)),
                None => last_step(Verdict::Close),
            },
            Event::ControlClosed => last_step(Verdict::Close),
        }
    }

    /// Take in the next packet that is held, as if the broker had just sent it;
    /// behind it these bytes were already read. None if there is no such packet,
    /// or no broker.
    pub fn take_held(&mut self, unread: Vec<u8>) -> (step: Option<Step>)
        requires
            old(self).wf(),
        ensures
            final(self).wf(),
            match step {
                Some(step) => {
                    &&& old(self)@.connected && old(self)@.held.len() > 0
                    &&& final(self)@ == old(self)@.released().after_broker(
                        old(self)@.held[0],
                        unread@,
                    )
                    &&& step@ == old(self)@.released().broker_step(old(self)@.held[0])
                },
                None => !(old(self)@.connected && old(self)@.held.len() > 0) && final(self)@ == old(
                    self,
                )@,
            },
    {
        if !self.connected || self.held.len() == 0 {
            return None;
        }
        let ghost before = self@;
        let packet = self.held.remove(0);
        assert(self@.held =~= before.held.skip(1));
        assert(self@ =~= before.released());
        assert(before.held[0] == packet@);
        assert(forall|i: int|
            0 <= i < self@.held.len() ==> self@.held[i] == #[trigger] before.held[i + 1]);
        Some(self.on_broker_packet(&packet, unread))
    }
}

/// What came from a broker that was asked something.
#[derive(Debug)]
pub enum BrokerReply {
    /// A packet, and how to put it in words.
    Packet { packet: MqttPacket, text: String },
    /// Bytes that are no packet, for the reason given.
    Error(String),
    /// Nothing, since the connection broke, for the reason given.
    Lost(String),
    /// Nothing, since the broker closed the connection.
    Closed,
}

/// Mathematical counterpart of [`BrokerReply`].
#[verifier::ext_equal]
pub enum BrokerReplyView {
    Packet { packet: MqttPacketView, text: Seq<char> },
    Error(Seq<char>),
    Lost(Seq<char>),
    Closed,
}

impl View for BrokerReply {
    type V = BrokerReplyView;

    open spec fn view(&self) -> BrokerReplyView {
        match *self {
            BrokerReply::Packet { packet, text } => BrokerReplyView::Packet {
                packet: packet@,
                text: text@,
            },
            BrokerReply::Error(text) => BrokerReplyView::Error(text@),
            BrokerReply::Lost(text) => BrokerReplyView::Lost(text@),
            BrokerReply::Closed => BrokerReplyView::Closed,
        }
    }
}

/// How far the replay onto a fresh broker connection has come.
#[derive(Debug)]
pub enum EstablishEvent {
    /// The connection stands.
    Connected,
    /// The broker answered the CONNECT packet.
    ConnectReply(BrokerReply),
    /// The broker sent something behind the SUBSCRIBE packet.
    SubscribeReply(BrokerReply),
    /// All that had to be caught up on was sent.
    CaughtUp,
    /// Something could not be sent to the broker, for the reason given.
    WriteFailed(String),
}

/// Mathematical counterpart of [`EstablishEvent`].
#[verifier::ext_equal]
pub enum EstablishEventView {
    Connected,
    ConnectReply(BrokerReplyView),
    SubscribeReply(BrokerReplyView),
    CaughtUp,
    WriteFailed(Seq<char>),
}

impl EstablishEventView {
    /// A packet that may have to be held can be tracked later.
    pub open spec fn wf(self) -> bool {
        self matches EstablishEventView::SubscribeReply(BrokerReplyView::Packet { packet, .. })
            ==> packet.wf()
    }
}

impl View for EstablishEvent {
    type V = EstablishEventView;

    open spec fn view(&self) -> EstablishEventView {
        match *self {
            EstablishEvent::Connected => EstablishEventView::Connected,
            EstablishEvent::ConnectReply(reply) => EstablishEventView::ConnectReply(reply@),
            EstablishEvent::SubscribeReply(reply) => EstablishEventView::SubscribeReply(reply@),
            EstablishEvent::CaughtUp => EstablishEventView::CaughtUp,
            EstablishEvent::WriteFailed(text) => EstablishEventView::WriteFailed(text@),
        }
    }
}

/// What is sent to catch up, field by field and each field in order.
#[derive(Debug)]
pub struct Replay {
    /// Frames of the lost broker connection: one by one to the client, as
    /// packets.
    pub leftover: Vec<Vec<u8>>,
    /// Frames still in flight to the broker.
    pub broker: Vec<Vec<u8>>,
    /// Frames still in flight to the client.
    pub client: Vec<Vec<u8>>,
    /// Frames buffered during the outage: to the broker.
    pub flushed: Vec<Vec<u8>>,
}

/// Mathematical counterpart of [`Replay`].
#[verifier::ext_equal]
pub struct ReplayView {
    pub leftover: Seq<Seq<u8>>,
    pub broker: Seq<Seq<u8>>,
    pub client: Seq<Seq<u8>>,
    pub flushed: Seq<Seq<u8>>,
}

impl View for Replay {
    type V = ReplayView;

    open spec fn view(&self) -> ReplayView {
        ReplayView {
            leftover: frames_view(self.leftover@),
            broker: frames_view(self.broker@),
            client: frames_view(self.client@),
            flushed: frames_view(self.flushed@),
        }
    }
}

/// What is to be done next for the replay.
#[derive(Debug)]
pub enum EstablishAction {
    /// Send these bytes to the broker and wait for its answer.
    SendConnect(Vec<u8>),
    /// Send this packet to the broker and wait for its answer.
    SendSubscribe(MqttPacket),
    /// This was not the answer: wait on. The packet of the event is held.
    ReadOn,
    /// Send all of this.
    CatchUp(Replay),
    /// The session is connected again. First the packets that are held.
    Forward,
    /// Drop the connection: the session pauses, and tries another one later.
    TryAgain(SessionError),
    /// Send the packet of the event to the client, and end the session.
    PassOn,
}

/// Mathematical counterpart of [`EstablishAction`].
#[verifier::ext_equal]
pub enum EstablishActionView {
    SendConnect(Seq<u8>),
    SendSubscribe(MqttPacketView),
    ReadOn,
    CatchUp(ReplayView),
    Forward,
    TryAgain(SessionErrorView),
    PassOn,
}

impl View for EstablishAction {
    type V = EstablishActionView;

    open spec fn view(&self) -> EstablishActionView {
        match *self {
            EstablishAction::SendConnect(bytes) => EstablishActionView::SendConnect(bytes@),
            EstablishAction::SendSubscribe(packet) => EstablishActionView::SendSubscribe(packet@),
            EstablishAction::ReadOn => EstablishActionView::ReadOn,
            EstablishAction::CatchUp(replay) => EstablishActionView::CatchUp(replay@),
            EstablishAction::Forward => EstablishActionView::Forward,
            EstablishAction::TryAgain(error) => EstablishActionView::TryAgain(error@),
            EstablishAction::PassOn => EstablishActionView::PassOn,
        }
    }
}

/// The view of an outcome of the replay.
pub open spec fn establish_view(result: Result<EstablishAction, SessionError>) -> Result<
    EstablishActionView,
    SessionErrorView,
> {
    match result {
        Ok(action) => Ok(action@),
        Err(error) => Err(error@),
    }
}

/// The first frame of some bytes and what is behind it, given what the codec
/// makes of them; none if it finds no whole packet.
pub open spec fn split_frame(
    bytes: Seq<u8>,
    decoded: Result<Option<DecodedFrame>, Seq<char>>,
) -> Option<(Seq<u8>, Seq<u8>)> {
    match decoded {
        Ok(Some(frame)) => if frame.rest < bytes.len() {
            Some((bytes.take(bytes.len() - frame.rest), bytes.skip(bytes.len() - frame.rest)))
        } else {
            None
        },
        _ => None,
    }
}

/// The whole frames at the start of some bytes.
pub open spec fn whole_frames(version: ProtocolVersion, bytes: Seq<u8>) -> Seq<Seq<u8>>
    decreases bytes.len(),
{
    match split_frame(bytes, frame_decoded(version, bytes)) {
        Some((frame, rest)) => if rest.len() < bytes.len() {
            seq![frame] + whole_frames(version, rest)
        } else {
            Seq::empty()
        },
        None => Seq::empty(),
    }
}

/// Split the first frame off some bytes, given what the codec makes of them.
pub fn next_frame(bytes: &Vec<u8>, decoded: Result<Option<DecodedFrame>, String>) -> (split: Option<
    (Vec<u8>, Vec<u8>),
>)
    ensures
        match split {
            Some((frame, rest)) => split_frame(bytes@, decoded_view(decoded)) == Some(
                (frame@, rest@),
            ),
            None => split_frame(bytes@, decoded_view(decoded)) is None,
        },
{
    match decoded {
        Ok(Some(frame)) => {
            if frame.rest < bytes.len() {
                let mut head = copy_bytes(bytes);
                let tail = head.split_off(bytes.len() - frame.rest);
                assert(head@ =~= bytes@.take(bytes@.len() - frame.rest));
                assert(tail@ =~= bytes@.skip(bytes@.len() - frame.rest));
                Some((head, tail))
            } else {
                None
            }
        },
        _ => None,
    }
}

/// Split leftover broker bytes into whole frames; a trailing partial frame can
/// never complete and is dropped (QoS0 only — QoS1/2 is healed by window
/// retransmits / broker redelivery).
pub fn leftover_frames(version: ProtocolVersion, leftover: Vec<u8>) -> (frames: Vec<Vec<u8>>)
    ensures
        frames_view(frames@) == whole_frames(version, leftover@),
{
    let ghost all = whole_frames(version, leftover@);
    let mut frames: Vec<Vec<u8>> = Vec::new();
    let mut rest = leftover;
    assert(frames_view(frames@) + whole_frames(version, rest@) =~= all);
    loop
        invariant
            frames_view(frames@) + whole_frames(version, rest@) == all,
            all == whole_frames(version, leftover@),
        decreases rest.len(),
    {
        let decoded = decode_frame(version, rest.as_slice());
        match next_frame(&rest, decoded) {
            Some((frame, behind)) => {
                let ghost before = frames@;
                frames.push(frame);
                assert(frames_view(frames@) =~= frames_view(before).push(frame@));
                assert(frames_view(frames@) + whole_frames(version, behind@) =~= frames_view(before)
                    + whole_frames(version, rest@));
                rest = behind;
            },
            None => {
                assert(frames_view(frames@) + Seq::empty() =~= frames_view(frames@));
                return frames;
            },
        }
    }
}

/// Whether a packet acknowledges a CONNECT packet.
pub open spec fn is_connect_ack(packet: MqttPacketView) -> bool {
    match packet {
        MqttPacketView::V3(packet) => packet is ConnectAck,
        MqttPacketView::V5(packet) => packet is ConnectAck,
    }
}

/// Whether a packet acknowledges the SUBSCRIBE packet of a replay.
pub open spec fn is_resubscribe_ack(packet: MqttPacketView) -> bool {
    match packet {
        MqttPacketView::V3(v3::PacketView::SubscribeAck { packet_id, .. }) => packet_id
            == RESUBSCRIBE_PACKET_ID,
        MqttPacketView::V5(v5::PacketView::SubscribeAck { packet_id, .. }) => packet_id
            == RESUBSCRIBE_PACKET_ID,
        _ => false,
    }
}

impl SessionView {
    /// What is sent to catch up.
    pub open spec fn replay(self) -> ReplayView {
        ReplayView {
            leftover: whole_frames(self.handshake.version, self.broker_leftover),
            broker: self.windows.broker_retransmits(),
            client: self.windows.client_retransmits(),
            flushed: self.buffer.map_values(|e: BufferedView| e.raw),
        }
    }

    /// The session while it catches up: what the lost connection had left is
    /// delivered.
    pub open spec fn delivered(self) -> SessionView {
        SessionView { broker_leftover: Seq::empty(), ..self }
    }

    /// The session after it has caught up: acknowledgements of what was
    /// buffered belong to the proxy.
    pub open spec fn replayed(self) -> SessionView {
        SessionView {
            local_acks: self.local_acks.all_marked(self.buffer),
            buffer: Seq::empty(),
            broker_leftover: Seq::empty(),
            connected: true,
            backoff: BROKER_RETRY_INITIAL_MS,
            step: OutageStep::Connect,
            ..self
        }
    }

    /// The session with the keepalive that a CONNACK packet assigns.
    pub open spec fn with_server_keepalive(self, ack: MqttPacketView) -> SessionView {
        SessionView {
            handshake: HandshakeView {
                keep_alive: assigned_keep_alive(self.handshake.keep_alive, ack),
                ..self.handshake
            },
            ..self
        }
    }

    /// What is done next for the replay. A broker that goes away, or asks to be
    /// left alone for a while, is tried again. The session ends if there is no
    /// CONNECT packet to replay, if the broker puts the blame on the client, or if
    /// it answers with something that it must not.
    pub open spec fn establish_step(self, event: EstablishEventView) -> Result<
        EstablishActionView,
        SessionErrorView,
    > {
        match event {
            EstablishEventView::Connected => if flags_index(self.handshake.connect_raw) is Some {
                Ok(EstablishActionView::SendConnect(resuming(self.handshake.connect_raw)))
            } else {
                Err(SessionErrorView::MalformedConnect)
            },
            EstablishEventView::ConnectReply(reply) => match reply {
                BrokerReplyView::Packet { packet, text } => match packet {
                    MqttPacketView::V5(v5::PacketView::Disconnect { reason_code }) => if retryable(
                        reason_code,
                    ) {
                        Ok(
                            EstablishActionView::TryAgain(
                                SessionErrorView::BrokerClosedDuringReplay,
                            ),
                        )
                    } else {
                        Ok(EstablishActionView::PassOn)
                    },
                    _ => if is_connect_ack(packet) {
                        match resubscribe(self.subscriptions, self.handshake.version) {
                            Some(subscribe) => Ok(EstablishActionView::SendSubscribe(subscribe)),
                            None => Ok(EstablishActionView::CatchUp(self.replay())),
                        }
                    } else {
                        Err(SessionErrorView::UnexpectedConnectReply(text))
                    },
                },
                BrokerReplyView::Error(text) => Err(SessionErrorView::InvalidData(text)),
                BrokerReplyView::Lost(text) => Ok(
                    EstablishActionView::TryAgain(SessionErrorView::InvalidData(text)),
                ),
                BrokerReplyView::Closed => Ok(
                    EstablishActionView::TryAgain(SessionErrorView::BrokerClosedDuringReplay),
                ),
            },
            EstablishEventView::SubscribeReply(reply) => match reply {
                BrokerReplyView::Packet { packet, .. } => match packet {
                    MqttPacketView::V5(v5::PacketView::Disconnect { reason_code }) => if retryable(
                        reason_code,
                    ) {
                        Ok(
                            EstablishActionView::TryAgain(
                                SessionErrorView::BrokerClosedDuringResubscribe,
                            ),
                        )
                    } else {
                        Ok(EstablishActionView::PassOn)
                    },
                    _ => if is_resubscribe_ack(packet) {
                        Ok(EstablishActionView::CatchUp(self.replay()))
                    } else {
                        Ok(EstablishActionView::ReadOn)
                    },
                },
                BrokerReplyView::Error(text) => Err(SessionErrorView::InvalidData(text)),
                BrokerReplyView::Lost(text) => Ok(
                    EstablishActionView::TryAgain(SessionErrorView::InvalidData(text)),
                ),
                BrokerReplyView::Closed => Ok(
                    EstablishActionView::TryAgain(SessionErrorView::BrokerClosedDuringResubscribe),
                ),
            },
            EstablishEventView::CaughtUp => Ok(EstablishActionView::Forward),
            EstablishEventView::WriteFailed(text) => Ok(
                EstablishActionView::TryAgain(SessionErrorView::InvalidData(text)),
            ),
        }
    }

    /// The session after an event of the replay, at a time in milliseconds.
    pub open spec fn after_establish(self, event: EstablishEventView, now: u64) -> SessionView {
        match event {
            EstablishEventView::Connected => self,
            EstablishEventView::ConnectReply(reply) => match reply {
                BrokerReplyView::Packet { packet, .. } => match packet {
                    MqttPacketView::V5(v5::PacketView::Disconnect { reason_code }) => if retryable(
                        reason_code,
                    ) {
                        self.after_failure(now)
                    } else {
                        self
                    },
                    _ => if !is_connect_ack(packet) {
                        self
                    } else if self.subscriptions.len() == 0 {
                        self.with_server_keepalive(packet).delivered()
                    } else {
                        self.with_server_keepalive(packet)
                    },
                },
                BrokerReplyView::Error(_) => self,
                _ => self.after_failure(now),
            },
            EstablishEventView::SubscribeReply(reply) => match reply {
                BrokerReplyView::Packet { packet, .. } => match packet {
                    MqttPacketView::V5(v5::PacketView::Disconnect { reason_code }) => if retryable(
                        reason_code,
                    ) {
                        self.after_failure(now)
                    } else {
                        self
                    },
                    _ => if is_resubscribe_ack(packet) {
                        self.delivered()
                    } else {
                        SessionView { held: self.held.push(packet), ..self }
                    },
                },
                BrokerReplyView::Error(_) => self,
                _ => self.after_failure(now),
            },
            EstablishEventView::CaughtUp => self.replayed(),
            EstablishEventView::WriteFailed(_) => self.after_failure(now),
        }
    }

    /// The snapshot of a session at a packet boundary.
    pub open spec fn snapshot(self, client_buf: Seq<u8>, broker_buf: Seq<u8>) -> SnapshotView {
        SnapshotView {
            version: level_of(self.handshake.version),
            connect_raw: self.handshake.connect_raw,
            client_buf,
            broker_buf,
            windows: self.windows.snapshot(),
            subscriptions: self.subscriptions,
            buffered: self.buffer,
        }
    }

    /// The session that goes on from a snapshot: the broker connection is yet
    /// to be made.
    pub open spec fn thawed(
        handshake: HandshakeView,
        snapshot: SnapshotView,
        now: u64,
    ) -> SessionView {
        SessionView {
            handshake,
            windows: WindowsView::from_snapshot(snapshot.windows),
            subscriptions: snapshot.subscriptions,
            local_acks: LocalAcksView::empty(),
            buffer: snapshot.buffered,
            broker_leftover: snapshot.broker_buf,
            held: Seq::empty(),
            connected: false,
            backoff: BROKER_RETRY_INITIAL_MS,
            step: OutageStep::Connect,
            last_client_activity: now,
        }
    }

    /// A session that just began.
    pub open spec fn opened(handshake: HandshakeView, now: u64) -> SessionView {
        SessionView {
            handshake,
            windows: WindowsView::empty(),
            subscriptions: Seq::empty(),
            local_acks: LocalAcksView::empty(),
            buffer: Seq::empty(),
            broker_leftover: Seq::empty(),
            held: Seq::empty(),
            connected: true,
            backoff: BROKER_RETRY_INITIAL_MS,
            step: OutageStep::Connect,
            last_client_activity: now,
        }
    }

    /// The outcome of opening a session, given the broker's answer to the
    /// CONNECT packet.
    pub open spec fn open_outcome(
        handshake: HandshakeView,
        reply: BrokerReplyView,
        now: u64,
    ) -> Result<SessionView, SessionErrorView> {
        match reply {
            BrokerReplyView::Packet { packet, .. } => Ok(
                SessionView::opened(handshake, now).with_server_keepalive(packet),
            ),
            BrokerReplyView::Error(text) => Err(SessionErrorView::InvalidData(text)),
            BrokerReplyView::Lost(text) => Err(SessionErrorView::InvalidData(text)),
            BrokerReplyView::Closed => Err(SessionErrorView::BrokerClosedDuringHandshake),
        }
    }
}

/// The view of an outcome that is a session or an error.
pub open spec fn session_view(result: Result<Session, SessionError>) -> Result<
    SessionView,
    SessionErrorView,
> {
    match result {
        Ok(session) => Ok(session@),
        Err(error) => Err(error@),
    }
}

impl SnapshotView {
    /// A session can go on from the snapshot: every message in flight has a
    /// frame, and every buffered message is one that the broker acknowledges.
    pub open spec fn replayable(self) -> bool {
        crate::window::replayable_entries(self.windows) && acknowledged_only(self.buffered)
    }
}

impl SessionSnapshot {
    /// Whether a session can go on from the snapshot.
    pub fn is_replayable(&self) -> (replayable: bool)
        ensures
            replayable == self@.replayable(),
    {
        let mut i: usize = 0;
        while i < self.windows.len()
            invariant
                i <= self.windows.len(),
                forall|j: int|
                    0 <= j < i && (#[trigger] self@.windows[j]).state.is_publish_sent()
                        ==> self@.windows[j].raw.len() > 0,
            decreases self.windows.len() - i,
        {
            assert(self@.windows[i as int] == self.windows@[i as int]@);
            if self.windows[i].lacks_frame() {
                return false;
            }
            i = i + 1;
        }
        let mut k: usize = 0;
        while k < self.buffered.len()
            invariant
                k <= self.buffered.len(),
                forall|j: int|
                    0 <= j < k ==> (#[trigger] self@.buffered[j]).qos == 1 || self@.buffered[j].qos
                        == 2,
            decreases self.buffered.len() - k,
        {
            assert(self@.buffered[k as int] == self.buffered@[k as int]@);
            if self.buffered[k].qos != 1 && self.buffered[k].qos != 2 {
                return false;
            }
            k = k + 1;
        }
        true
    }
}

/// What became of the snapshot of a frozen session.
#[derive(Debug)]
pub enum FreezeReply {
    /// Nobody waited for it any more: here it is back.
    Undelivered(FrozenSession),
    /// The upgrade failed: here it is back.
    Resumed(FrozenSession),
    /// It was handed over.
    Dropped,
}

/// Outcome of servicing a freeze request.
#[derive(Debug)]
pub enum FreezeOutcome {
    /// Go on; these bytes of the client and of the broker are still unread.
    Resume { client_buf: Vec<u8>, broker_buf: Vec<u8> },
    /// The session lives on elsewhere.
    Exit,
}

/// Whether a frozen session goes on, and with which bytes.
pub fn freeze_outcome(reply: FreezeReply) -> (outcome: FreezeOutcome)
    ensures
        match (reply, outcome) {
            (
                FreezeReply::Undelivered(frozen),
                FreezeOutcome::Resume { client_buf, broker_buf },
            ) => client_buf@ == frozen@.snapshot.client_buf && broker_buf@
                == frozen@.snapshot.broker_buf,
            (
                FreezeReply::Resumed(frozen),
                FreezeOutcome::Resume { client_buf, broker_buf },
            ) => client_buf@ == frozen@.snapshot.client_buf && broker_buf@
                == frozen@.snapshot.broker_buf,
            (FreezeReply::Dropped, FreezeOutcome::Exit) => true,
            _ => false,
        },
{
    match reply {
        FreezeReply::Undelivered(frozen) => FreezeOutcome::Resume {
            client_buf: frozen.snapshot.client_buf,
            broker_buf: frozen.snapshot.broker_buf,
        },
        FreezeReply::Resumed(frozen) => FreezeOutcome::Resume {
            client_buf: frozen.snapshot.client_buf,
            broker_buf: frozen.snapshot.broker_buf,
        },
        FreezeReply::Dropped => FreezeOutcome::Exit,
    }
}

impl Session {
    /// Begin a session with the broker's answer to the client's CONNECT packet,
    /// which is then forwarded. v5: if the broker assigns a Server Keep Alive in
    /// CONNACK, that value replaces the client's requested keepalive for our
    /// enforcement timer.
    pub fn open(handshake: Handshake, reply: BrokerReply, now: u64) -> (result: Result<
        Self,
        SessionError,
    >)
        ensures
            session_view(result) == SessionView::open_outcome(handshake@, reply@, now),
            result matches Ok(session) ==> session.wf(),
    {
        let ack = match reply {
            BrokerReply::Packet { packet, .. } => packet,
            BrokerReply::Error(text) => return Err(invalid_data(text)),
            BrokerReply::Lost(text) => return Err(invalid_data(text)),
            BrokerReply::Closed => return Err(SessionError::BrokerClosedDuringHandshake),
        };
        let mut handshake = handshake;
        handshake.adopt_server_keepalive(&ack);
        let session = Session {
            handshake,
            windows: InflightWindows::new(),
            subscriptions: Subscriptions::new(),
            local_acks: LocalAcks::new(),
            buffer: OutageBuffer::new(),
            broker_leftover: Vec::new(),
            held: Vec::new(),
            connected: true,
            backoff: BROKER_RETRY_INITIAL_MS,
            step: OutageStep::Connect,
            last_client_activity: now,
        };
        assert(session@.broker_leftover =~= Seq::empty());
        assert(session@.held =~= Seq::empty());
        Ok(session)
    }

    /// What is sent to catch up on a fresh broker connection.
    fn catch_up(&mut self) -> (replay: Replay)
        requires
            old(self).wf(),
        ensures
            final(self).wf(),
            final(self)@ == old(self)@.delivered(),
            replay@ == old(self)@.replay(),
    {
        let ghost before = self@;
        // Deliver complete packets the dead broker connection had buffered.
        let leftover = leftover_frames(self.handshake.version, copy_bytes(&self.broker_leftover));
        // Retransmit QoS in-flight packets that never completed end-to-end,
        // then flush outage-buffered publishes in arrival order.
        let broker = self.windows.broker_retransmits();
        let client = self.windows.client_retransmits();
        let mut flushed: Vec<Vec<u8>> = Vec::new();
        let entries = self.buffer.entries();
        let ghost all = buffered_view(entries@);
        let mut i: usize = 0;
        assert(frames_view(flushed@) =~= all.take(0).map_values(|e: BufferedView| e.raw));
        while i < entries.len()
            invariant
                i <= entries.len(),
                all == buffered_view(entries@),
                frames_view(flushed@) == all.take(i as int).map_values(|e: BufferedView| e.raw),
            decreases entries.len() - i,
        {
            let entry = &entries[i];
            assert(all[i as int] == entry@);
            let ghost so_far = flushed@;
            flushed.push(copy_bytes(&entry.raw));
            assert(frames_view(flushed@) =~= frames_view(so_far).push(all[i as int].raw));
            assert(frames_view(flushed@) =~= all.take(i + 1).map_values(|e: BufferedView| e.raw));
            i = i + 1;
        }
        assert(all.take(i as int) =~= all);
        self.broker_leftover = Vec::new();
        assert(self@.broker_leftover =~= Seq::empty());
        Replay { leftover, broker, client, flushed }
    }

    /// The session has caught up: acknowledgements of what was buffered belong
    /// to the proxy, and the session is connected again.
    fn on_caught_up(&mut self)
        requires
            old(self).wf(),
        ensures
            final(self).wf(),
            final(self)@ == old(self)@.replayed(),
    {
        let ghost before = self@;
        let ghost all = self.buffer@;
        let mut i: usize = 0;
        assert(all.take(0) =~= Seq::empty());
        loop
            invariant
                i <= all.len(),
                all == self.buffer@,
                before.buffer == all,
                before.wf(),
                self.wf(),
                self@ == (SessionView {
                    local_acks: before.local_acks.all_marked(all.take(i as int)),
                    ..before
                }),
            ensures
                i == all.len(),
            decreases all.len() - i,
        {
            let entries = self.buffer.entries();
            if i >= entries.len() {
                break ;
            }
            let entry = &entries[i];
            assert(all[i as int] == entry@);
            let packet_id: u16 = entry.packet_id;
            let qos: u8 = entry.qos;
            self.local_acks.mark(packet_id, qos);
            assert(self@.held == before.held);
            assert(all.take(i + 1).drop_last() =~= all.take(i as int));
            i = i + 1;
        }
        assert(all.take(i as int) =~= all);
        self.buffer.clear();
        self.broker_leftover = Vec::new();
        self.connected = true;
        self.backoff = BROKER_RETRY_INITIAL_MS;
        self.step = OutageStep::Connect;
        assert(self@.broker_leftover =~= Seq::empty());
    }

    fn on_connect_reply(&mut self, reply: BrokerReply, now: u64) -> (result: Result<
        EstablishAction,
        SessionError,
    >)
        requires
            old(self).wf(),
        ensures
            final(self).wf(),
            establish_view(result) == old(self)@.establish_step(
                EstablishEventView::ConnectReply(reply@),
            ),
            final(self)@ == old(self)@.after_establish(
                EstablishEventView::ConnectReply(reply@),
                now,
            ),
    {
        let error = match reply {
            BrokerReply::Packet { packet, text } => {
                match &packet {
                    // The broker ends this connection: for its own sake, or
                    // because of the client.
                    MqttPacket::V5(v5::Packet::Disconnect { reason_code }) => {
                        if !is_retryable_disconnect(*reason_code) {
                            return Ok(EstablishAction::PassOn);
                        }
                        self.on_failure(now);
                        return Ok(EstablishAction::TryAgain(SessionError::BrokerClosedDuringReplay));
                    },
                    MqttPacket::V3(v3::Packet::ConnectAck { .. }) => {},
                    MqttPacket::V5(v5::Packet::ConnectAck { .. }) => {},
                    _ => return Err(SessionError::UnexpectedConnectReply(text)),
                }
                // A Server Keep Alive assigned on a *reconnect* CONNACK also
                // updates our enforcement timer.
                self.handshake.adopt_server_keepalive(&packet);
                return match self.subscriptions.resubscribe_packet(self.handshake.version) {
                    Some(subscribe) => Ok(EstablishAction::SendSubscribe(subscribe)),
                    None => Ok(EstablishAction::CatchUp(self.catch_up())),
                };
            },
            BrokerReply::Error(text) => return Err(invalid_data(text)),
            BrokerReply::Lost(text) => invalid_data(text),
            BrokerReply::Closed => SessionError::BrokerClosedDuringReplay,
        };
        self.on_failure(now);
        Ok(EstablishAction::TryAgain(error))
    }

    fn on_subscribe_reply(&mut self, reply: BrokerReply, now: u64) -> (result: Result<
        EstablishAction,
        SessionError,
    >)
        requires
            old(self).wf(),
            EstablishEventView::SubscribeReply(reply@).wf(),
        ensures
            final(self).wf(),
            establish_view(result) == old(self)@.establish_step(
                EstablishEventView::SubscribeReply(reply@),
            ),
            final(self)@ == old(self)@.after_establish(
                EstablishEventView::SubscribeReply(reply@),
                now,
            ),
    {
        let error = match reply {
            BrokerReply::Packet { packet, .. } => {
                match &packet {
                    // The broker ends this connection: for its own sake, or
                    // because of the client.
                    MqttPacket::V5(v5::Packet::Disconnect { reason_code }) => {
                        if !is_retryable_disconnect(*reason_code) {
                            return Ok(EstablishAction::PassOn);
                        }
                        self.on_failure(now);
                        return Ok(
                            EstablishAction::TryAgain(SessionError::BrokerClosedDuringResubscribe),
                        );
                    },
                    // Our own SUBSCRIBE: the SUBACK is not forwarded.
                    MqttPacket::V3(v3::Packet::SubscribeAck { packet_id, .. }) => {
                        if *packet_id == RESUBSCRIBE_PACKET_ID {
                            return Ok(EstablishAction::CatchUp(self.catch_up()));
                        }
                    },
                    MqttPacket::V5(v5::Packet::SubscribeAck { packet_id, .. }) => {
                        if *packet_id == RESUBSCRIBE_PACKET_ID {
                            return Ok(EstablishAction::CatchUp(self.catch_up()));
                        }
                    },
                    _ => {},
                }
                // A resumed session may bring anything before the SUBACK: what
                // does is dealt with once the session has caught up.
                let ghost before = self@;
                self.held.push(packet);
                assert(self@.held =~= before.held.push(packet@));
                return Ok(EstablishAction::ReadOn);
            },
            BrokerReply::Error(text) => return Err(invalid_data(text)),
            BrokerReply::Lost(text) => invalid_data(text),
            BrokerReply::Closed => SessionError::BrokerClosedDuringResubscribe,
        };
        self.on_failure(now);
        Ok(EstablishAction::TryAgain(error))
    }

    /// Replay the session onto a fresh broker connection: CONNECT with the clean
    /// bit cleared, re-SUBSCRIBE, deliver leftover broker bytes to the client,
    /// retransmit QoS windows, and flush the outage buffer (marking the flushed
    /// packet ids as proxy-local acks to eat). Shared by mid-session reconnect
    /// and thaw.
    ///
    /// CONNACK and SUBACK stay proxy-local since the client never disconnected.
    /// The clean bit is the only thing that is rewritten. If the connection
    /// breaks, the session pauses and tries another one: nothing that it has to
    /// catch up on is forgotten before it was sent.
    pub fn establish_broker(&mut self, event: EstablishEvent, now: u64) -> (result: Result<
        EstablishAction,
        SessionError,
    >)
        requires
            old(self).wf(),
            event@.wf(),
        ensures
            final(self).wf(),
            establish_view(result) == old(self)@.establish_step(event@),
            final(self)@ == old(self)@.after_establish(event@, now),
    {
        match event {
            EstablishEvent::Connected => {
                let mut connect_raw = copy_bytes(&self.handshake.connect_raw);
                match force_session_resumption(&mut connect_raw) {
                    Ok(()) => Ok(EstablishAction::SendConnect(connect_raw)),
                    Err(error) => Err(error),
                }
            },
            EstablishEvent::ConnectReply(reply) => self.on_connect_reply(reply, now),
            EstablishEvent::SubscribeReply(reply) => self.on_subscribe_reply(reply, now),
            EstablishEvent::CaughtUp => {
                self.on_caught_up();
                Ok(EstablishAction::Forward)
            },
            EstablishEvent::WriteFailed(text) => {
                self.on_failure(now);
                Ok(EstablishAction::TryAgain(invalid_data(text)))
            },
        }
    }

    /// Freeze at a packet boundary: snapshot everything (broker side optional —
    /// it may be down).
    pub fn freeze(
        &self,
        id: u64,
        client_fd: i32,
        client_buf: Vec<u8>,
        broker_buf: Option<Vec<u8>>,
    ) -> (frozen: FrozenSession)
        ensures
            frozen@ == (FrozenView {
                id,
                snapshot: self@.snapshot(
                    client_buf@,
                    match broker_buf {
                        Some(bytes) => bytes@,
                        None => Seq::empty(),
                    },
                ),
                client_fd,
            }),
    {
        let broker_buf = match broker_buf {
            Some(bytes) => bytes,
            None => {
                let none: Vec<u8> = Vec::new();
                assert(none@ =~= Seq::empty());
                none
            },
        };
        let snapshot = SessionSnapshot {
            version: self.handshake.version_byte(),
            connect_raw: copy_bytes(&self.handshake.connect_raw),
            client_buf,
            broker_buf,
            windows: self.windows.snapshot(),
            subscriptions: self.subscriptions.entries(),
            buffered: copy_buffered(self.buffer.entries()),
        };
        FrozenSession { id, snapshot, client_fd }
    }

    /// Adopt a migrated session (child side of a shed): resume the session from
    /// the snapshot. The broker side is established by the forward loop itself
    /// (with outage tolerance), so a shed during a broker outage works too.
    pub fn adopt(snapshot: SessionSnapshot, now: u64) -> (result: Result<Self, SessionError>)
        requires
            snapshot@.replayable(),
        ensures
            result matches Ok(session) ==> session.wf(),
            match version_of(snapshot.version) {
                None => session_view(result) == Err::<SessionView, _>(
                    SessionErrorView::UnknownProtocolLevel(snapshot.version),
                ),
                Some(version) => match snapshot_outcome(
                    version,
                    snapshot@.connect_raw,
                    frame_decoded(version, snapshot@.connect_raw),
                ) {
                    Ok(handshake) => session_view(result) == Ok::<_, SessionErrorView>(
                        SessionView::thawed(handshake, snapshot@, now),
                    ),
                    Err(error) => session_view(result) == Err::<SessionView, _>(error),
                },
            },
    {
        match Handshake::from_snapshot_version(
            snapshot.version,
            copy_bytes(&snapshot.connect_raw),
        ) {
            Ok(handshake) => Ok(Self::thaw(handshake, snapshot, now)),
            Err(error) => Err(error),
        }
    }

    /// The session that goes on from a snapshot whose handshake is known.
    pub fn thaw(handshake: Handshake, snapshot: SessionSnapshot, now: u64) -> (session: Self)
        requires
            snapshot@.replayable(),
        ensures
            session.wf(),
            session@ == SessionView::thawed(handshake@, snapshot@, now),
    {
        let held: Vec<MqttPacket> = Vec::new();
        assert(packets_view(held@) =~= Seq::empty());
        Session {
            handshake,
            windows: InflightWindows::from_snapshot(snapshot.windows),
            subscriptions: Subscriptions::from_entries(snapshot.subscriptions),
            local_acks: LocalAcks::new(),
            buffer: OutageBuffer::from_entries(snapshot.buffered),
            broker_leftover: snapshot.broker_buf,
            held,
            connected: false,
            backoff: BROKER_RETRY_INITIAL_MS,
            step: OutageStep::Connect,
            last_client_activity: now,
        }
    }
}

fn copy_buffered(entries: &Vec<BufferedPublish>) -> (copy: Vec<BufferedPublish>)
    ensures
        buffered_view(copy@) == buffered_view(entries@),
{
    let mut copy: Vec<BufferedPublish> = Vec::new();
    let mut i: usize = 0;
    while i < entries.len()
        invariant
            i <= entries.len(),
            buffered_view(copy@) == buffered_view(entries@).take(i as int),
        decreases entries.len() - i,
    {
        let entry = &entries[i];
        let ghost before = copy@;
        copy.push(
            BufferedPublish {
                packet_id: entry.packet_id,
                raw: copy_bytes(&entry.raw),
                qos: entry.qos,
            },
        );
        assert(buffered_view(copy@) =~= buffered_view(before).push(entry@));
        assert(buffered_view(copy@) =~= buffered_view(entries@).take(i + 1));
        i = i + 1;
    }
    assert(buffered_view(entries@).take(i as int) =~= buffered_view(entries@));
    copy
}

} // verus!
