//! The decisions of td-init, a minimal PID 1 for the generational shed model.
//!
//! Generic inits exit when their direct child exits — but a shed works by the
//! parent spawning a child and *then exiting*, so a generic init would tear
//! down the container mid-upgrade. td-init reaps every descendant and exits
//! with the last exit status only when none remains.

use vstd::prelude::*;

verus! {

/// Exit code of an init that could not do its work.
pub const FAILURE_STATUS: i32 = 1;

/// The argument that ends td-init's own arguments: `--`.
pub open spec fn separator() -> Seq<u8> {
    seq![0x2Du8, 0x2Du8]
}

/// The program to run and its arguments: what is left behind a leading `--`.
pub open spec fn program_of(args: Seq<Seq<u8>>) -> Seq<Seq<u8>> {
    if args.len() > 0 && args[0] == separator() {
        args.skip(1)
    } else {
        args
    }
}

/// The arguments of a list.
pub open spec fn args_view(args: Seq<Vec<u8>>) -> Seq<Seq<u8>> {
    args.map_values(|a: Vec<u8>| a@)
}

/// The program to run and its arguments, or None if there is no program.
pub fn parse_command(args: Vec<Vec<u8>>) -> (command: Option<Vec<Vec<u8>>>)
    ensures
        match command {
            Some(command) => args_view(command@) == program_of(args_view(args@)) && command.len()
                > 0,
            None => program_of(args_view(args@)).len() == 0,
        },
{
    let ghost all = args_view(args@);
    let mut command = args;
    if command.len() > 0 {
        let first = &command[0];
        assert(all[0] == first@);
        let leading = first.len() == 2 && first[0] == 0x2D && first[1] == 0x2D;
        assert(leading == (all[0] == separator())) by {
            if leading {
                assert(first@ =~= separator());
            }
        }
        if leading {
            let _ = command.remove(0);
            assert(args_view(command@) =~= all.skip(1));
        }
    }
    if command.is_empty() {
        None
    } else {
        Some(command)
    }
}

/// What came of waiting for a descendant.
#[derive(Clone, Copy, Debug, PartialEq, Eq, Structural)]
pub enum WaitEvent {
    /// The direct child exited with a code.
    ChildExited(i32),
    /// Another descendant ended, or the direct child was killed.
    Reaped,
    /// There is no descendant left.
    NoDescendants,
    /// A signal came in.
    Interrupted,
    /// Waiting failed.
    Failed,
}

/// What td-init remembers.
#[derive(Debug)]
pub struct Init {
    last_status: i32,
}

impl View for Init {
    type V = i32;

    closed spec fn view(&self) -> i32 {
        self.last_status
    }
}

/// The remembered status after an event.
pub open spec fn status_after(status: i32, event: WaitEvent) -> i32 {
    match event {
        WaitEvent::ChildExited(code) => code,
        _ => status,
    }
}

/// The exit code that an event calls for, if it does.
pub open spec fn exit_code(status: i32, event: WaitEvent) -> Option<i32> {
    match event {
        WaitEvent::NoDescendants => Some(status),
        WaitEvent::Failed => Some(FAILURE_STATUS),
        _ => None,
    }
}

impl Init {
    /// Nothing has exited yet.
    pub fn new() -> (init: Self)
        ensures
            init@ == 0,
    {
        Init { last_status: 0 }
    }

    /// Take in what came of waiting; a code means to exit with it.
    pub fn handle(&mut self, event: WaitEvent) -> (code: Option<i32>)
        ensures
            final(self)@ == status_after(old(self)@, event),
            code == exit_code(old(self)@, event),
    {
        match event {
            // The direct child; descendants may live on.
            WaitEvent::ChildExited(code) => {
                self.last_status = code;
                None
            },
            WaitEvent::Reaped => None,
            // Nothing left: really done.
            WaitEvent::NoDescendants => Some(self.last_status),
            WaitEvent::Interrupted => None,
            WaitEvent::Failed => Some(FAILURE_STATUS),
        }
    }
}

/// The signal to forward, if one is pending: signals are numbered from one.
pub fn signal_to_forward(pending: i32) -> (signal: Option<i32>)
    ensures
        signal == (if pending != 0 {
            Some(pending)
        } else {
            None
        }),
{
    if pending != 0 {
        Some(pending)
    } else {
        None
    }
}

/// The remembered status after events.
pub open spec fn status_after_all(events: Seq<WaitEvent>) -> i32
    decreases events.len(),
{
    if events.len() == 0 {
        0
    } else {
        status_after(status_after_all(events.drop_last()), events.last())
    }
}

/// The init lives as long as any descendant does: whatever exited before, it
/// exits only once there is nothing left to wait for, or waiting fails, and
/// then with the status of the program that it started, whichever descendants
/// were reaped after it.
pub proof fn law_init_outlives_generations(events: Seq<WaitEvent>, child: int, event: WaitEvent)
    requires
        0 <= child < events.len(),
        events[child] is ChildExited,
        forall|i: int| child < i < events.len() ==> !(#[trigger] events[i] is ChildExited),
    ensures
        exit_code(status_after_all(events), event) is Some <==> event is NoDescendants
            || event is Failed,
        exit_code(status_after_all(events), WaitEvent::NoDescendants) == Some(
            events[child]->ChildExited_0,
        ),
    decreases events.len(),
{
    let head = events.drop_last();
    if child < events.len() - 1 {
        assert(head[child] == events[child]);
        assert forall|i: int| child < i < head.len() implies !(#[trigger] head[i] is ChildExited) by {
            assert(head[i] == events[i]);
        }
        law_init_outlives_generations(head, child, event);
        assert(!(events[events.len() - 1] is ChildExited));
    }
}

/// What td-init runs: its arguments as they are, but for one leading `--`, and no more than
/// one.
pub proof fn law_what_is_run(args: Seq<Seq<u8>>)
    ensures
        program_of(seq![seq![0x2Du8, 0x2Du8]] + args) == args,
        args.len() == 0 || args[0] != seq![0x2Du8, 0x2Du8] ==> program_of(args) == args,
{
    let all = seq![seq![0x2Du8, 0x2Du8]] + args;
    assert(all[0] == separator());
    assert(all.skip(1) =~= args);
}

/// Only an exit of the program itself is remembered; an init that never saw one exits with
/// zero, and one that cannot wait with one.
pub proof fn law_what_init_exits_with(events: Seq<WaitEvent>, status: i32, event: WaitEvent)
    requires
        forall|i: int| 0 <= i < events.len() ==> !(#[trigger] events[i] is ChildExited),
    ensures
        exit_code(status_after_all(events), WaitEvent::NoDescendants) == Some(0i32),
        exit_code(status, WaitEvent::Failed) == Some(1i32),
        exit_code(status, event) is Some <==> event is NoDescendants || event is Failed,
        !(event is ChildExited) ==> status_after(status, event) == status,
    decreases events.len(),
{
    if events.len() > 0 {
        let head = events.drop_last();
        assert forall|i: int| 0 <= i < head.len() implies !(#[trigger] head[i] is ChildExited) by {
            assert(head[i] == events[i]);
        }
        law_what_init_exits_with(head, status, event);
        assert(!(events[events.len() - 1] is ChildExited));
    }
}

} // verus!
