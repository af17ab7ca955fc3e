//! The counters of a tunnel's processes, kept per process.
//!
//! A process that is gone keeps its own slot for a while; then its counters are
//! folded into one total, so that a process that comes later under the same pid
//! cannot lose them.

use crate::stats::{Counters, Tally};
use vstd::prelude::*;

verus! {

/// How long a vanished pid keeps its own slot before its counters are folded
/// into the archived total (guards against pid reuse while still accepting
/// the final stats lines that arrive right after exit).
pub const DEAD_PID_GRACE: u64 = 3_000_000_000;

/// The latest counters of one process, and since when it is gone.
#[derive(Clone, Copy, Debug, PartialEq, Eq, Structural)]
pub struct PidEntry {
    pub pid: u32,
    pub counters: Counters,
    pub dead_since: Option<u64>,
}

/// Some entry is that of `pid`.
pub open spec fn has_entry(entries: Seq<PidEntry>, pid: u32) -> bool {
    exists|i: int| 0 <= i < entries.len() && (#[trigger] entries[i]).pid == pid
}

/// No two entries are of one process.
pub open spec fn distinct(entries: Seq<PidEntry>) -> bool {
    forall|i: int, j: int|
        0 <= i < j < entries.len() ==> (#[trigger] entries[i]).pid != (#[trigger] entries[j]).pid
}

/// The counters of all entries together.
pub open spec fn sum(entries: Seq<PidEntry>) -> Tally
    decreases entries.len(),
{
    if entries.len() == 0 {
        Tally::zero()
    } else {
        sum(entries.drop_last()).plus(entries.last().counters@)
    }
}

/// The counters with those of one direction replaced.
pub open spec fn replaced(c: Counters, ltr: bool, packets: u64, bytes: u64) -> Counters {
    if ltr {
        Counters { ltr_packets: packets, ltr_bytes: bytes, ..c }
    } else {
        Counters { rtl_packets: packets, rtl_bytes: bytes, ..c }
    }
}

/// Counters that are all zero.
pub open spec fn no_counters() -> Counters {
    Counters { ltr_packets: 0, ltr_bytes: 0, rtl_packets: 0, rtl_bytes: 0 }
}

/// The entries after a report: it replaces what the process reported before,
/// or makes a new entry.
pub open spec fn recorded(
    entries: Seq<PidEntry>,
    pid: u32,
    ltr: bool,
    packets: u64,
    bytes: u64,
) -> Seq<PidEntry> {
    if has_entry(entries, pid) {
        entries.map_values(
            |e: PidEntry|
                if e.pid == pid {
                    PidEntry { counters: replaced(e.counters, ltr, packets, bytes), ..e }
                } else {
                    e
                },
        )
    } else {
        entries.push(
            PidEntry {
                pid,
                counters: replaced(no_counters(), ltr, packets, bytes),
                dead_since: None,
            },
        )
    }
}

/// An entry after a look at which processes are alive: one that is not has been
/// gone since it was first missed.
pub open spec fn looked_at(e: PidEntry, alive: Seq<u32>, now: u64) -> PidEntry {
    PidEntry {
        dead_since: if alive.contains(e.pid) {
            None
        } else {
            match e.dead_since {
                Some(t) => Some(t),
                None => Some(now),
            }
        },
        ..e
    }
}

/// The process of an entry has been gone for longer than the grace period.
pub open spec fn expired(e: PidEntry, now: u64) -> bool {
    match e.dead_since {
        Some(t) => now - t > DEAD_PID_GRACE,
        None => false,
    }
}

/// The entries that stay after a look at which processes are alive.
pub open spec fn kept(entries: Seq<PidEntry>, alive: Seq<u32>, now: u64) -> Seq<PidEntry>
    decreases entries.len(),
{
    if entries.len() == 0 {
        seq![]
    } else {
        let before = kept(entries.drop_last(), alive, now);
        let e = looked_at(entries.last(), alive, now);
        if expired(e, now) {
            before
        } else {
            before.push(e)
        }
    }
}

/// The counters of the entries that do not stay.
pub open spec fn folded(entries: Seq<PidEntry>, alive: Seq<u32>, now: u64) -> Tally
    decreases entries.len(),
{
    if entries.len() == 0 {
        Tally::zero()
    } else {
        let before = folded(entries.drop_last(), alive, now);
        if expired(looked_at(entries.last(), alive, now), now) {
            before.plus(entries.last().counters@)
        } else {
            before
        }
    }
}

/// No part of the entries has counters beyond those of the whole.
pub(crate) proof fn lemma_part_of_sum(entries: Seq<PidEntry>, i: int)
    requires
        0 <= i <= entries.len(),
    ensures
        sum(entries.take(i)).at_most(sum(entries)),
    decreases entries.len() - i,
{
    if i < entries.len() {
        lemma_part_of_sum(entries, i + 1);
        assert(entries.take(i + 1).drop_last() == entries.take(i));
    } else {
        assert(entries.take(i) == entries);
    }
}

/// What is folded and what stays make up the whole.
pub(crate) proof fn lemma_fold(entries: Seq<PidEntry>, alive: Seq<u32>, now: u64)
    ensures
        folded(entries, alive, now).plus(sum(kept(entries, alive, now))) == sum(entries),
        distinct(entries) ==> distinct(kept(entries, alive, now)),
        forall|k: int|
            0 <= k < kept(entries, alive, now).len() ==> has_entry(
                entries,
                (#[trigger] kept(entries, alive, now)[k]).pid,
            ),
    decreases entries.len(),
{
    if entries.len() > 0 {
        let init = entries.drop_last();
        lemma_fold(init, alive, now);
        let all = kept(entries, alive, now);
        let e = looked_at(entries.last(), alive, now);
        let before = kept(init, alive, now);
        if !expired(e, now) {
            assert(all.drop_last() =~= before);
        }
        assert forall|k: int| 0 <= k < all.len() implies has_entry(
            entries,
            (#[trigger] all[k]).pid,
        ) by {
            if k < before.len() {
                assert(has_entry(init, before[k].pid));
                let i = choose|i: int|
                    0 <= i < init.len() && (#[trigger] init[i]).pid == before[k].pid;
                assert(entries[i].pid == all[k].pid);
            } else {
                assert(entries[entries.len() - 1].pid == all[k].pid);
            }
        }
        if distinct(entries) {
            assert(distinct(init)) by {
                assert forall|i: int, j: int| 0 <= i < j < init.len() implies (
                #[trigger] init[i]).pid != (#[trigger] init[j]).pid by {
                    assert(entries[i].pid != entries[j].pid);
                }
            }
            assert forall|i: int, j: int| 0 <= i < j < all.len() implies (#[trigger] all[i]).pid
                != (#[trigger] all[j]).pid by {
                if j == before.len() {
                    assert(has_entry(init, before[i].pid));
                    let k = choose|k: int|
                        0 <= k < init.len() && (#[trigger] init[k]).pid == before[i].pid;
                    assert(entries[k].pid != entries[entries.len() - 1].pid);
                } else {
                    assert(before[i].pid != before[j].pid);
                }
            }
        }
    }
}

/// No entry comes to those that there are.
pub(crate) proof fn lemma_kept_len(entries: Seq<PidEntry>, alive: Seq<u32>, now: u64)
    ensures
        kept(entries, alive, now).len() <= entries.len(),
    decreases entries.len(),
{
    if entries.len() > 0 {
        lemma_kept_len(entries.drop_last(), alive, now);
    }
}

/// The counters of the entries on top of `base`, where they fit.
pub(crate) fn checked_total(base: Counters, entries: &Vec<PidEntry>) -> (r: Option<Counters>)
    ensures
        match r {
            Some(t) => t@ == base@.plus(sum(entries@)),
            None => !base@.plus(sum(entries@)).fits(),
        },
{
    let mut t: Counters = base;
    let mut i: usize = 0;
    assert(entries@.take(0).len() == 0);
    while i < entries.len()
        invariant
            i <= entries@.len(),
            t@ == base@.plus(sum(entries@.take(i as int))),
        decreases entries@.len() - i,
    {
        proof {
            assert(entries@.take(i + 1).drop_last() == entries@.take(i as int));
            lemma_part_of_sum(entries@, i + 1);
        }
        t = match t.checked_sum(&entries[i].counters) {
            Some(more) => more,
            None => return None,
        };
        i += 1;
    }
    assert(entries@.take(i as int) == entries@);
    Some(t)
}

/// The entries after a report.
pub(crate) fn record(entries: &Vec<PidEntry>, pid: u32, ltr: bool, packets: u64, bytes: u64) -> (r: (
    Vec<PidEntry>,
    bool,
))
    requires
        distinct(entries@),
    ensures
        r.0@ == recorded(entries@, pid, ltr, packets, bytes),
        r.1 == !has_entry(entries@, pid),
        distinct(r.0@),
{
    let mut r: Vec<PidEntry> = Vec::new();
    let mut found: bool = false;
    let mut i: usize = 0;
    let ghost f = |e: PidEntry|
        if e.pid == pid {
            PidEntry { counters: replaced(e.counters, ltr, packets, bytes), ..e }
        } else {
            e
        };
    while i < entries.len()
        invariant
            i <= entries@.len(),
            f == (|e: PidEntry|
                if e.pid == pid {
                    PidEntry { counters: replaced(e.counters, ltr, packets, bytes), ..e }
                } else {
                    e
                }),
            r@.len() == i,
            forall|k: int| 0 <= k < i ==> #[trigger] r@[k] == f(entries@[k]),
            found == exists|k: int| 0 <= k < i && (#[trigger] entries@[k]).pid == pid,
        decreases entries@.len() - i,
    {
        let mut e: PidEntry = entries[i];
        if e.pid == pid {
            found = true;
            if ltr {
                e.counters.ltr_packets = packets;
                e.counters.ltr_bytes = bytes;
            } else {
                e.counters.rtl_packets = packets;
                e.counters.rtl_bytes = bytes;
            }
            assert(entries@[i as int].pid == pid);
        }
        r.push(e);
        i += 1;
    }
    if !found {
        let mut counters: Counters = Counters::default();
        if ltr {
            counters.ltr_packets = packets;
            counters.ltr_bytes = bytes;
        } else {
            counters.rtl_packets = packets;
            counters.rtl_bytes = bytes;
        }
        r.push(PidEntry { pid, counters, dead_since: None });
    }
    proof {
        let want = recorded(entries@, pid, ltr, packets, bytes);
        assert forall|k: int| 0 <= k < entries@.len() implies #[trigger] r@[k] == want[k] by {
            assert(r@[k] == f(entries@[k]));
        }
        assert(r@ =~= want);
        assert forall|a: int, b: int| 0 <= a < b < r@.len() implies (#[trigger] r@[a]).pid != (
        #[trigger] r@[b]).pid by {
            assert(r@[a].pid == entries@[a].pid);
            if b < entries@.len() {
                assert(r@[b].pid == entries@[b].pid);
            }
        }
    }
    (r, !found)
}

fn is_among(pids: &Vec<u32>, pid: u32) -> (b: bool)
    ensures
        b == pids@.contains(pid),
{
    let mut i: usize = 0;
    while i < pids.len()
        invariant
            i <= pids@.len(),
            forall|j: int| 0 <= j < i ==> pids@[j] != pid,
        decreases pids@.len() - i,
    {
        if pids[i] == pid {
            return true;
        }
        i += 1;
    }
    false
}

/// The entries that stay after a look at which processes are alive, and the
/// counters of those that do not.
pub(crate) fn age(entries: &Vec<PidEntry>, alive: &Vec<u32>, now: u64) -> (r: (Vec<PidEntry>, Counters))
    requires
        sum(entries@).fits(),
    ensures
        r.0@ == kept(entries@, alive@, now),
        r.1@ == folded(entries@, alive@, now),
{
    let mut stay: Vec<PidEntry> = Vec::new();
    let mut gone: Counters = Counters::default();
    let mut i: usize = 0;
    assert(entries@.take(0).len() == 0);
    while i < entries.len()
        invariant
            i <= entries@.len(),
            sum(entries@).fits(),
            stay@ == kept(entries@.take(i as int), alive@, now),
            gone@ == folded(entries@.take(i as int), alive@, now),
        decreases entries@.len() - i,
    {
        proof {
            let next = entries@.take(i + 1);
            assert(next.drop_last() == entries@.take(i as int));
            lemma_part_of_sum(entries@, i + 1);
            lemma_fold(next, alive@, now);
            lemma_fold(entries@.take(i as int), alive@, now);
        }
        let mut e: PidEntry = entries[i];
        if is_among(alive, e.pid) {
            e.dead_since = None;
            stay.push(e);
        } else {
            let since: u64 = match e.dead_since {
                Some(t) => t,
                None => now,
            };
            e.dead_since = Some(since);
            if now.saturating_sub(since) > DEAD_PID_GRACE {
                gone.add(&e.counters);
            } else {
                stay.push(e);
            }
        }
        i += 1;
    }
    assert(entries@.take(i as int) == entries@);
    (stay, gone)
}

// ---------------------------------------------------------------------------
// What holds of every ledger
// ---------------------------------------------------------------------------

/// Every entry that stays comes from one that was there.
proof fn lemma_kept_from(entries: Seq<PidEntry>, alive: Seq<u32>, now: u64, k: int) -> (j: int)
    requires
        0 <= k < kept(entries, alive, now).len(),
    ensures
        0 <= j < entries.len(),
        kept(entries, alive, now)[k] == looked_at(entries[j], alive, now),
        !expired(kept(entries, alive, now)[k], now),
    decreases entries.len(),
{
    let before = kept(entries.drop_last(), alive, now);
    if k < before.len() {
        lemma_kept_from(entries.drop_last(), alive, now, k)
    } else {
        entries.len() - 1
    }
}

/// Every entry whose time is not up stays.
proof fn lemma_stays(entries: Seq<PidEntry>, alive: Seq<u32>, now: u64, i: int) -> (k: int)
    requires
        0 <= i < entries.len(),
        !expired(looked_at(entries[i], alive, now), now),
    ensures
        0 <= k < kept(entries, alive, now).len(),
        kept(entries, alive, now)[k] == looked_at(entries[i], alive, now),
    decreases entries.len(),
{
    let before = kept(entries.drop_last(), alive, now);
    if i < entries.len() - 1 {
        lemma_stays(entries.drop_last(), alive, now, i)
    } else {
        before.len() as int
    }
}

/// A process keeps its slot as long as it is alive and for the grace period after
/// it was first missed, and no longer.
pub proof fn slots_are_kept_for_a_while(
    entries: Seq<PidEntry>,
    alive: Seq<u32>,
    now: u64,
    i: int,
)
    requires
        distinct(entries),
        0 <= i < entries.len(),
    ensures
        has_entry(kept(entries, alive, now), entries[i].pid) <==> {
            ||| alive.contains(entries[i].pid)
            ||| entries[i].dead_since is None
            ||| now - entries[i].dead_since->0 <= 3_000_000_000
        },
{
    let all = kept(entries, alive, now);
    if expired(looked_at(entries[i], alive, now), now) {
        if has_entry(all, entries[i].pid) {
            let k = choose|k: int| 0 <= k < all.len() && (#[trigger] all[k]).pid == entries[i].pid;
            let j = lemma_kept_from(entries, alive, now, k);
            if i < j {
                assert(entries[i].pid != entries[j].pid);
            }
            if j < i {
                assert(entries[j].pid != entries[i].pid);
            }
        }
    } else {
        let k = lemma_stays(entries, alive, now, i);
        assert(all[k].pid == entries[i].pid);
    }
}

/// A report sets the two counters of its direction for its process, leaves the two
/// of the other direction as they were, and touches no other process.
pub proof fn reports_set_one_direction(
    entries: Seq<PidEntry>,
    pid: u32,
    ltr: bool,
    packets: u64,
    bytes: u64,
    i: int,
)
    requires
        0 <= i < entries.len(),
    ensures
        ({
            let a = entries[i];
            let b = recorded(entries, pid, ltr, packets, bytes)[i];
            &&& b.pid == a.pid && b.dead_since == a.dead_since
            &&& a.pid != pid ==> b.counters == a.counters
            &&& a.pid == pid && ltr ==> {
                &&& b.counters.ltr_packets == packets
                &&& b.counters.ltr_bytes == bytes
                &&& b.counters.rtl_packets == a.counters.rtl_packets
                &&& b.counters.rtl_bytes == a.counters.rtl_bytes
            }
            &&& a.pid == pid && !ltr ==> {
                &&& b.counters.ltr_packets == a.counters.ltr_packets
                &&& b.counters.ltr_bytes == a.counters.ltr_bytes
                &&& b.counters.rtl_packets == packets
                &&& b.counters.rtl_bytes == bytes
            }
        }),
        recorded(entries, pid, ltr, packets, bytes).len() >= entries.len(),
        entries[i].pid == pid ==> recorded(entries, pid, ltr, packets, bytes).len()
            == entries.len(),
{
}

/// The first report of a process makes one entry more, with nothing in the other
/// direction.
pub proof fn first_reports_make_an_entry(
    entries: Seq<PidEntry>,
    pid: u32,
    ltr: bool,
    packets: u64,
    bytes: u64,
)
    requires
        forall|i: int| 0 <= i < entries.len() ==> (#[trigger] entries[i]).pid != pid,
    ensures
        ({
            let after = recorded(entries, pid, ltr, packets, bytes);
            let e = after[entries.len() as int];
            &&& after.len() == entries.len() + 1
            &&& e.pid == pid && e.dead_since is None
            &&& e.counters.ltr_packets == if ltr { packets } else { 0 }
            &&& e.counters.ltr_bytes == if ltr { bytes } else { 0 }
            &&& e.counters.rtl_packets == if ltr { 0 } else { packets }
            &&& e.counters.rtl_bytes == if ltr { 0 } else { bytes }
        }),
{
}

/// Each count of a sum is made up of that of every entry.
pub proof fn sums_grow_by_each_entry(entries: Seq<PidEntry>, e: PidEntry)
    ensures
        ({
            let before = sum(entries);
            let after = sum(entries.push(e));
            &&& after.ltr_packets == before.ltr_packets + e.counters.ltr_packets
            &&& after.ltr_bytes == before.ltr_bytes + e.counters.ltr_bytes
            &&& after.rtl_packets == before.rtl_packets + e.counters.rtl_packets
            &&& after.rtl_bytes == before.rtl_bytes + e.counters.rtl_bytes
        }),
        entries.len() == 0 ==> sum(entries) == (Tally {
            ltr_packets: 0,
            ltr_bytes: 0,
            rtl_packets: 0,
            rtl_bytes: 0,
        }),
{
    assert(entries.push(e).drop_last() =~= entries);
}

/// A sum in which one entry was changed.
pub(crate) proof fn lemma_sum_changed(a: Seq<PidEntry>, b: Seq<PidEntry>, i: int)
    requires
        0 <= i < a.len() == b.len(),
        forall|j: int|
            0 <= j < a.len() && j != i ==> (#[trigger] a[j]).counters == (
            #[trigger] b[j]).counters,
    ensures
        sum(b).ltr_packets + a[i].counters.ltr_packets == sum(a).ltr_packets
            + b[i].counters.ltr_packets,
        sum(b).ltr_bytes + a[i].counters.ltr_bytes == sum(a).ltr_bytes + b[i].counters.ltr_bytes,
        sum(b).rtl_packets + a[i].counters.rtl_packets == sum(a).rtl_packets
            + b[i].counters.rtl_packets,
        sum(b).rtl_bytes + a[i].counters.rtl_bytes == sum(a).rtl_bytes + b[i].counters.rtl_bytes,
    decreases a.len(),
{
    let last = a.len() - 1;
    if i < last {
        let a0 = a.drop_last();
        let b0 = b.drop_last();
        assert forall|j: int| 0 <= j < a0.len() && j != i implies (#[trigger] a0[j]).counters == (
        #[trigger] b0[j]).counters by {
            assert(a[j].counters == b[j].counters);
        }
        lemma_sum_changed(a0, b0, i);
        assert(a[last].counters == b[last].counters);
    } else {
        lemma_same_sum(a.drop_last(), b.drop_last());
    }
}

proof fn lemma_same_sum(a: Seq<PidEntry>, b: Seq<PidEntry>)
    requires
        a.len() == b.len(),
        forall|j: int|
            0 <= j < a.len() ==> (#[trigger] a[j]).counters == (#[trigger] b[j]).counters,
    ensures
        sum(a) == sum(b),
    decreases a.len(),
{
    if a.len() > 0 {
        assert(a[a.len() - 1].counters == b[b.len() - 1].counters);
        assert forall|j: int| 0 <= j < a.len() - 1 implies (#[trigger] a.drop_last()[j]).counters
            == (#[trigger] b.drop_last()[j]).counters by {
            assert(a[j].counters == b[j].counters);
        }
        lemma_same_sum(a.drop_last(), b.drop_last());
    }
}

/// Which processes are alive has no say in what they reported: an entry that stays
/// has the counters that it had, and notes since when its process is missed.
pub proof fn looks_keep_the_counters(
    entries: Seq<PidEntry>,
    alive: Seq<u32>,
    now: u64,
    k: int,
) -> (j: int)
    requires
        0 <= k < kept(entries, alive, now).len(),
    ensures
        0 <= j < entries.len(),
        ({
            let a = entries[j];
            let b = kept(entries, alive, now)[k];
            &&& b.pid == a.pid
            &&& b.counters == a.counters
            &&& alive.contains(a.pid) ==> b.dead_since is None
            &&& !alive.contains(a.pid) && a.dead_since is Some ==> b.dead_since == a.dead_since
            &&& !alive.contains(a.pid) && a.dead_since is None ==> b.dead_since == Some(now)
        }),
{
    lemma_kept_from(entries, alive, now, k)
}

} // verus!
