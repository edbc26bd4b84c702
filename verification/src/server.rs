//! Server lifecycle: how a shed treats live sessions, and drain tracking for
//! zero-downtime restarts.

use vstd::prelude::*;

verus! {

/// What happens to live sessions when the process is upgraded.
#[derive(Clone, Copy, Debug, PartialEq, Eq, Structural)]
pub enum ShedMode {
    /// They stay until their clients leave.
    Drain,
    /// They are handed to the new process.
    Migrate,
}

/// Counts live sessions so the process can exit once it has fully drained
/// after a shed.
#[derive(Debug)]
pub struct DrainTracker {
    sessions: usize,
}

impl View for DrainTracker {
    type V = nat;

    closed spec fn view(&self) -> nat {
        self.sessions as nat
    }
}

/// The count after one more session began; it wraps around where it runs out of
/// numbers.
pub open spec fn count_after_track(count: nat) -> nat {
    if count == usize::MAX {
        0
    } else {
        count + 1
    }
}

/// The count after a session ended.
pub open spec fn count_after_release(count: nat) -> nat {
    if count == 0 {
        usize::MAX as nat
    } else {
        (count - 1) as nat
    }
}

impl DrainTracker {
    /// No session is live.
    pub fn new() -> (tracker: Self)
        ensures
            tracker@ == 0,
    {
        DrainTracker { sessions: 0 }
    }

    /// One more session is live.
    pub fn track(&mut self)
        ensures
            final(self)@ == count_after_track(old(self)@),
    {
        self.sessions = if self.sessions == usize::MAX {
            0
        } else {
            self.sessions + 1
        };
    }

    /// A live session has ended; whether it was the last one, so that whoever
    /// waits is to be woken.
    pub fn release(&mut self) -> (drained: bool)
        ensures
            final(self)@ == count_after_release(old(self)@),
            drained == (final(self)@ == 0),
    {
        self.sessions = if self.sessions == 0 {
            usize::MAX
        } else {
            self.sessions - 1
        };
        self.sessions == 0
    }

    /// Resolves true once the session count reaches zero; false on timeout;
    /// until then the wait goes on.
    pub fn wait_drained(&self, timed_out: bool) -> (resolved: Option<bool>)
        ensures
            resolved == (if self@ == 0 {
                Some(true)
            } else if timed_out {
                Some(false)
            } else {
                None
            }),
    {
        if self.sessions == 0 {
            Some(true)
        } else if timed_out {
            Some(false)
        } else {
            None
        }
    }
}

/// The count after a number of sessions began and some of them ended.
pub open spec fn count_after(began: nat, ended: nat) -> nat
    decreases began + ended,
{
    if ended > 0 {
        count_after_release(count_after(began, (ended - 1) as nat))
    } else if began > 0 {
        count_after_track(count_after((began - 1) as nat, 0))
    } else {
        0
    }
}

/// The process has drained exactly when every session that began has ended.
pub proof fn law_drained_when_all_ended(began: nat, ended: nat)
    requires
        ended <= began <= usize::MAX,
    ensures
        count_after(began, ended) == began - ended,
        count_after(began, ended) == 0 <==> ended == began,
    decreases began + ended,
{
    if ended > 0 {
        law_drained_when_all_ended(began, (ended - 1) as nat);
    } else if began > 0 {
        law_drained_when_all_ended((began - 1) as nat, 0);
    }
}

/// The end of a session undoes its beginning.
pub proof fn law_release_undoes_track(count: nat)
    requires
        count <= usize::MAX,
    ensures
        count_after_release(count_after_track(count)) == count,
{
}

/// Each session counts for one, for as long as there are numbers to count with.
pub proof fn law_sessions_are_counted(count: nat)
    ensures
        count < usize::MAX ==> count_after_track(count) == count + 1,
        0 < count ==> count_after_release(count) + 1 == count,
{
}

} // verus!
