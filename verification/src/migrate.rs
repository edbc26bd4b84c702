//! Migration channel: carries session snapshots and client sockets from parent
//! to child, one datagram per session, acknowledged one at a time, then an END
//! marker. Whoever owns the socket sends and receives; what to send and what to
//! make of what was received is decided here.

use vstd::prelude::*;

use crate::error::{SessionError, SessionErrorView};
use crate::registry::{FrozenView, SessionSnapshot, SnapshotView};

verus! {

/// How long the other side may take to send or receive, in seconds.
pub const IO_TIMEOUT_SECS: u64 = 10;

/// The byte that acknowledges a session.
pub const ACK_BYTE: u8 = 0x06;

/// The datagram that ends a handoff: `TD-END`.
pub open spec fn end_marker_bytes() -> Seq<u8> {
    seq![0x54u8, 0x44u8, 0x2Du8, 0x45u8, 0x4Eu8, 0x44u8]
}

/// The datagram that ends a handoff: `TD-END`.
pub fn end_marker() -> (bytes: Vec<u8>)
    ensures
        bytes@ == end_marker_bytes(),
{
    let bytes: Vec<u8> = vec![0x54u8, 0x44u8, 0x2Du8, 0x45u8, 0x4Eu8, 0x44u8];
    assert(bytes@ =~= end_marker_bytes());
    bytes
}

/// Whether a datagram ends a handoff.
pub fn is_end_marker(payload: &Vec<u8>) -> (end: bool)
    ensures
        end == (payload@ == end_marker_bytes()),
{
    let end = payload.len() == 6 && payload[0] == 0x54 && payload[1] == 0x44 && payload[2] == 0x2D
        && payload[3] == 0x45 && payload[4] == 0x4E && payload[5] == 0x44;
    assert(end ==> payload@ =~= end_marker_bytes());
    end
}

/// The datagram that acknowledges a session.
pub fn ack() -> (bytes: Vec<u8>)
    ensures
        bytes@ == seq![ACK_BYTE],
{
    let bytes: Vec<u8> = vec![ACK_BYTE];
    assert(bytes@ =~= seq![ACK_BYTE]);
    bytes
}

/// What the parent sends next.
#[derive(Clone, Copy, Debug, PartialEq, Eq, Structural)]
pub enum SendAction {
    /// The session at this index, whose acknowledgement is then awaited.
    SendSession(usize),
    /// The end marker.
    SendEnd,
}

/// What becomes of the frozen sessions after a handoff.
#[derive(Clone, Copy, Debug, PartialEq, Eq, Structural)]
pub enum HandoffOutcome {
    /// All of them live on in the child.
    Finish,
    /// All but the first ones go on here.
    Resume { sent: usize },
}

/// The parent's side of a handoff.
#[derive(Debug)]
pub struct Handoff {
    total: usize,
    sent: usize,
}

/// Mathematical counterpart of [`Handoff`].
#[verifier::ext_equal]
pub struct HandoffView {
    /// Number of frozen sessions.
    pub total: nat,
    /// Number of sessions that were handed over and acknowledged.
    pub sent: nat,
}

impl View for Handoff {
    type V = HandoffView;

    closed spec fn view(&self) -> HandoffView {
        HandoffView { total: self.total as nat, sent: self.sent as nat }
    }
}

impl HandoffView {
    /// No more sessions are sent than there are.
    pub open spec fn wf(self) -> bool {
        self.sent <= self.total
    }

    /// The handoff after one more session was acknowledged.
    pub open spec fn acknowledged(self) -> HandoffView {
        HandoffView { sent: self.sent + 1, ..self }
    }
}

impl Handoff {
    /// A handoff of a number of sessions.
    pub fn new(total: usize) -> (handoff: Self)
        ensures
            handoff@ == (HandoffView { total: total as nat, sent: 0 }),
            handoff@.wf(),
    {
        Handoff { total, sent: 0 }
    }

    /// How many sessions were successfully handed over.
    pub fn sent(&self) -> (sent: usize)
        ensures
            sent == self@.sent,
    {
        self.sent
    }

    /// What to send next: every frozen session, one after the other, and then
    /// the end marker.
    pub fn next_action(&self) -> (action: SendAction)
        requires
            self@.wf(),
        ensures
            match action {
                SendAction::SendSession(index) => index == self@.sent && self@.sent < self@.total,
                SendAction::SendEnd => self@.sent == self@.total,
            },
    {
        if self.sent < self.total {
            SendAction::SendSession(self.sent)
        } else {
            SendAction::SendEnd
        }
    }

    /// Take in the answer to a session; waiting for it after each session keeps
    /// the child's receive buffer from overflowing.
    pub fn on_ack(&mut self, payload: &Vec<u8>) -> (result: Result<(), SessionError>)
        requires
            old(self)@.sent < old(self)@.total,
        ensures
            final(self)@.wf(),
            match result {
                Ok(()) => payload@ == seq![ACK_BYTE] && final(self)@ == old(self)@.acknowledged(),
                Err(error) => payload@ != seq![ACK_BYTE] && final(self)@ == old(self)@ && error@
                    == SessionErrorView::BadHandoffAck,
            },
    {
        if payload.len() != 1 || payload[0] != ACK_BYTE {
            assert(payload@ == seq![ACK_BYTE] ==> payload@[0] == ACK_BYTE);
            return Err(SessionError::BadHandoffAck);
        }
        assert(payload@ =~= seq![ACK_BYTE]);
        self.sent = self.sent + 1;
        Ok(())
    }

    /// What becomes of the frozen sessions once the handoff is over: those that
    /// were not handed over and acknowledged go on here, whatever the reason.
    pub fn outcome(&self, failed: bool) -> (outcome: HandoffOutcome)
        ensures
            match outcome {
                HandoffOutcome::Finish => !failed && self@.sent == self@.total,
                HandoffOutcome::Resume { sent } => (failed || self@.sent != self@.total) && sent
                    == self@.sent,
            },
    {
        if failed || self.sent != self.total {
            HandoffOutcome::Resume { sent: self.sent }
        } else {
            HandoffOutcome::Finish
        }
    }
}

/// The child's side of a handoff: the sessions that have come, in order.
#[derive(Debug)]
pub struct Intake {
    sessions: Vec<(SessionSnapshot, i32)>,
}

/// The sessions of a list.
pub open spec fn sessions_view(sessions: Seq<(SessionSnapshot, i32)>) -> Seq<(SnapshotView, i32)> {
    sessions.map_values(|s: (SessionSnapshot, i32)| (s.0@, s.1))
}

impl View for Intake {
    type V = Seq<(SnapshotView, i32)>;

    closed spec fn view(&self) -> Seq<(SnapshotView, i32)> {
        sessions_view(self.sessions@)
    }
}

impl Intake {
    /// No session has come.
    pub fn new() -> (intake: Self)
        ensures
            intake@ == Seq::<(SnapshotView, i32)>::empty(),
    {
        let intake = Intake { sessions: Vec::new() };
        assert(intake@ =~= Seq::<(SnapshotView, i32)>::empty());
        intake
    }

    /// Take in a session, which is then acknowledged. Each message is one
    /// snapshot plus one client socket.
    pub fn accept(&mut self, snapshot: SessionSnapshot, client_fd: Option<i32>) -> (result: Result<
        (),
        SessionError,
    >)
        ensures
            match (client_fd, result) {
                (Some(fd), Ok(())) => final(self)@ == old(self)@.push((snapshot@, fd)),
                (None, Err(error)) => final(self)@ == old(self)@ && error@
                    == SessionErrorView::SnapshotWithoutClientFd,
                _ => false,
            },
    {
        match client_fd {
            Some(fd) => {
                let ghost before = self@;
                self.sessions.push((snapshot, fd));
                assert(self@ =~= before.push((snapshot@, fd)));
                Ok(())
            },
            None => Err(SessionError::SnapshotWithoutClientFd),
        }
    }

    /// The sessions that have come.
    pub fn into_sessions(self) -> (sessions: Vec<(SessionSnapshot, i32)>)
        ensures
            sessions_view(sessions@) == self@,
    {
        self.sessions
    }
}

/// Both sides of a handoff after a number of rounds: in each, the parent sends
/// its next session, and the child takes it in and acknowledges it.
pub open spec fn exchanged(frozen: Seq<FrozenView>, rounds: nat) -> (
    HandoffView,
    Seq<(SnapshotView, i32)>,
)
    decreases rounds,
{
    if rounds == 0 {
        (HandoffView { total: frozen.len(), sent: 0 }, Seq::empty())
    } else {
        let (handoff, received) = exchanged(frozen, (rounds - 1) as nat);
        let session = frozen[handoff.sent as int];
        (handoff.acknowledged(), received.push((session.snapshot, session.client_fd)))
    }
}

/// A handoff delivers every session exactly once, in order and with its client
/// socket; when the parent sends the end marker, the child has them all. At
/// every moment the sessions counted as handed over are those that the child
/// has.
pub proof fn law_handoff_delivers_every_session(frozen: Seq<FrozenView>, rounds: nat)
    requires
        rounds <= frozen.len(),
    ensures
        ({
            let (handoff, received) = exchanged(frozen, rounds);
            &&& handoff == (HandoffView { total: frozen.len(), sent: rounds })
            &&& handoff.wf()
            &&& received == frozen.take(rounds as int).map_values(
                |f: FrozenView| (f.snapshot, f.client_fd),
            )
            &&& rounds == frozen.len() ==> received == frozen.map_values(
                |f: FrozenView| (f.snapshot, f.client_fd),
            )
        }),
    decreases rounds,
{
    if rounds > 0 {
        law_handoff_delivers_every_session(frozen, (rounds - 1) as nat);
    }
    let (handoff, received) = exchanged(frozen, rounds);
    assert(received =~= frozen.take(rounds as int).map_values(
        |f: FrozenView| (f.snapshot, f.client_fd),
    ));
    assert(frozen.take(frozen.len() as int) =~= frozen);
}

/// What the two sides of a handoff say to each other: the end is the text `TD-END`, an
/// acknowledgement is one byte, 6, and neither can be taken for the other.
pub proof fn law_what_handoffs_say(i: int)
    ensures
        end_marker_bytes().len() == "TD-END"@.len(),
        0 <= i < "TD-END"@.len() ==> end_marker_bytes()[i] == "TD-END"@[i] as u8,
        ACK_BYTE == 6,
        end_marker_bytes() != seq![ACK_BYTE],
        IO_TIMEOUT_SECS == 10,
{
    reveal_strlit("TD-END");
}

/// An acknowledgement counts one more session as handed over, and changes nothing else.
pub proof fn law_acknowledgements_count_once(handoff: HandoffView)
    ensures
        handoff.acknowledged().sent == handoff.sent + 1,
        handoff.acknowledged().total == handoff.total,
        handoff.sent < handoff.total ==> handoff.acknowledged().wf(),
{
}

} // verus!
