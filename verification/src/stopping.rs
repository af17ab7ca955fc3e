//! Waiting for a tunnel to stop: first after SIGTERM, then after SIGKILL.

use crate::tunnel::{
    less, Poll, PollView, Signal, SignalRequest, StatusView, Target, Tunnel, TunnelView, WaitStep,
};
use vstd::prelude::*;

verus! {

/// How long a process has to exit after SIGTERM.
pub const TERM_TIMEOUT: u64 = 2_000_000_000;

/// How long a process has to exit after SIGKILL.
pub const KILL_TIMEOUT: u64 = 1_000_000_000;

/// How long to wait between two looks.
pub const LOOK_AFTER: u64 = 50_000_000;

/// A wait for a tunnel to stop.
#[derive(Clone, Copy, Debug, PartialEq, Eq, Structural)]
pub struct StopWait {
    /// Whether the process group was killed already.
    pub killed: bool,
    /// When this part of the wait began.
    pub since: u64,
}

/// What to do next in a wait.
#[derive(Clone, Copy, Debug, PartialEq, Eq, Structural)]
pub enum StopStep {
    /// Look again after [`LOOK_AFTER`].
    Again,
    /// Send this signal, and go on.
    Send(SignalRequest),
    /// The wait is over.
    Done,
}

/// How long the present part of a wait may last.
pub open spec fn timeout_of(w: StopWait) -> u64 {
    if w.killed {
        KILL_TIMEOUT
    } else {
        TERM_TIMEOUT
    }
}

/// After one look: the wait is over when the process is gone; when the time is
/// up, the process group is killed, and the second time the wait is over.
pub open spec fn wait_stepped(w: StopWait, t: TunnelView, poll: PollView, now: u64) -> (
    StopWait,
    TunnelView,
    StopStep,
) {
    let (after, step) = t.waited(poll, less(now as nat, w.since as nat) as u64, timeout_of(w));
    match step {
        WaitStep::Gone => (w, after, StopStep::Done),
        WaitStep::Again => (w, after, StopStep::Again),
        WaitStep::TimedOut => {
            let (killed, signal) = after.kill_step(now);
            match signal {
                Some(request) if !w.killed => (
                    StopWait { killed: true, since: now },
                    killed,
                    StopStep::Send(request),
                ),
                _ => (w, after, StopStep::Done),
            }
        },
    }
}

impl StopWait {
    /// A wait that begins now, for a tunnel that was asked to stop.
    pub fn begin(now: u64) -> (r: StopWait)
        ensures
            r == (StopWait { killed: false, since: now }),
    {
        StopWait { killed: false, since: now }
    }

    /// One look.
    pub fn step(&mut self, t: &mut Tunnel, poll: &Poll, now: u64) -> (r: StopStep)
        requires
            old(t)@.wf(),
        ensures
            (*final(self), final(t)@, r) == wait_stepped(*old(self), old(t)@, poll@, now),
            final(t)@.wf(),
    {
        let waited: u64 = now.saturating_sub(self.since);
        let timeout: u64 = if self.killed {
            KILL_TIMEOUT
        } else {
            TERM_TIMEOUT
        };
        match t.wait_exit(poll, waited, timeout) {
            WaitStep::Gone => StopStep::Done,
            WaitStep::Again => StopStep::Again,
            WaitStep::TimedOut => {
                if self.killed {
                    return StopStep::Done;
                }
                match t.kill_now(now) {
                    Some(request) => {
                        self.killed = true;
                        self.since = now;
                        StopStep::Send(request)
                    },
                    None => StopStep::Done,
                }
            },
        }
    }
}

// ---------------------------------------------------------------------------
// What holds of every wait
// ---------------------------------------------------------------------------

/// No part of a wait goes on when its time is up: first the process group is
/// killed, and then the wait is over.
pub proof fn waits_come_to_an_end(w: StopWait, t: TunnelView, poll: PollView, now: u64)
    requires
        now >= w.since + timeout_of(w),
    ensures
        wait_stepped(w, t, poll, now).2 !is Again,
        w.killed ==> wait_stepped(w, t, poll, now).2 is Done,
        wait_stepped(w, t, poll, now).2 is Send ==> wait_stepped(w, t, poll, now).0.killed,
{
}

/// A wait that is over leaves a tunnel without a process, unless the process
/// outlasted SIGKILL.
pub proof fn waits_end_with_the_process(w: StopWait, t: TunnelView, poll: PollView, now: u64)
    requires
        wait_stepped(w, t, poll, now).2 is Done,
    ensures
        !wait_stepped(w, t, poll, now).1.running() || w.killed,
{
}

/// The only signal that a wait sends is SIGKILL, to the process group of the
/// tunnel, and only while there is a process.
pub proof fn waits_send_only_sigkill(w: StopWait, t: TunnelView, poll: PollView, now: u64)
    requires
        wait_stepped(w, t, poll, now).2 is Send,
    ensures
        t.running(),
        wait_stepped(w, t, poll, now).2 == StopStep::Send(
            SignalRequest { target: Target::Group(t.pid->0), signal: Signal::Kill },
        ),
{
}

/// Looks are a twentieth of a second apart.
pub proof fn looks_are_a_twentieth_of_a_second_apart()
    ensures
        LOOK_AFTER == 50_000_000,
{
}

/// A wait is over as soon as the process is gone, or cannot be asked; the tunnel is then
/// stopped.
pub proof fn waits_are_over_with_the_process(w: StopWait, t: TunnelView, poll: PollView, now: u64)
    requires
        t.pid is None || !(poll is Alive),
    ensures
        wait_stepped(w, t, poll, now).0 == w,
        wait_stepped(w, t, poll, now).2 == StopStep::Done,
        t.pid is None ==> wait_stepped(w, t, poll, now).1 == t,
        t.pid is Some ==> wait_stepped(w, t, poll, now).1 == (TunnelView {
            pid: None,
            status: StatusView::Stopped,
            ..t
        }),
{
}

} // verus!
