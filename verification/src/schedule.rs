//! When to look at the processes, and how long to wait for a key before that.

use crate::tunnel::less;
use vstd::prelude::*;

verus! {

/// The processes are looked at once per second.
pub const TICK: u64 = 1_000_000_000;

/// The longest wait for a key, so that lines from socat show soon.
pub const POLL: u64 = 100_000_000;

/// Whether the processes are to be looked at again.
pub open spec fn due(last_tick: u64, now: u64) -> bool {
    less(now as nat, last_tick as nat) >= TICK
}

/// The wait for a key: until the processes are to be looked at again, or shorter.
pub open spec fn wait(last_tick: u64, now: u64) -> nat {
    let left = less(TICK as nat, less(now as nat, last_tick as nat));
    if left < POLL {
        left
    } else {
        POLL as nat
    }
}

/// Whether the processes are to be looked at again.
pub fn tick_due(last_tick: u64, now: u64) -> (r: bool)
    ensures
        r == due(last_tick, now),
{
    now.saturating_sub(last_tick) >= TICK
}

/// How long to wait for a key.
pub fn poll_timeout(last_tick: u64, now: u64) -> (r: u64)
    ensures
        r == wait(last_tick, now),
{
    let left: u64 = TICK.saturating_sub(now.saturating_sub(last_tick));
    if left < POLL {
        left
    } else {
        POLL
    }
}

/// There is a wait exactly as long as the processes are not to be looked at, and
/// no wait goes beyond that moment.
pub proof fn waits_end_at_the_tick(last_tick: u64, now: u64)
    requires
        last_tick <= now,
    ensures
        wait(last_tick, now) == 0 <==> due(last_tick, now),
        !due(last_tick, now) ==> now + wait(last_tick, now) <= last_tick + TICK,
{
}

/// The processes are looked at a second after the last time, and no wait for a key is
/// longer than a tenth of one.
pub proof fn ticks_come_once_per_second(last_tick: u64, now: u64)
    requires
        last_tick <= now,
    ensures
        due(last_tick, now) <==> now - last_tick >= 1_000_000_000,
        now - last_tick <= 900_000_000 ==> wait(last_tick, now) == 100_000_000,
        900_000_000 < now - last_tick < 1_000_000_000 ==> wait(last_tick, now) == last_tick
            + 1_000_000_000 - now,
        now - last_tick >= 1_000_000_000 ==> wait(last_tick, now) == 0,
{
}

} // verus!
