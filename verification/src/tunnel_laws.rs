//! What holds of a tunnel, whatever it goes through.

use crate::config::ConfigView;
use crate::decimal::{decimal, signed_decimal};
use crate::ledger::{
    first_reports_make_an_entry, has_entry, kept, lemma_fold, lemma_sum_changed,
    looks_keep_the_counters, recorded, reports_set_one_direction, slots_are_kept_for_a_while,
    sums_grow_by_each_entry,
};
use crate::procs::{
    distinct_pids, finite_tree, root_comes_first, socats_below, tree_of,
    trees_are_the_socat_processes_below, trees_name_nothing_twice, ProcView,
};
use crate::stats::{parsed, Parsed};
use crate::stopping::{wait_stepped, StopStep, StopWait};
use crate::text::trimmed;
use crate::tunnel::{
    command_text, label_of, lines_text, log_text, stats_text, with_line, PollView, Signal,
    SignalRequest, StatusView, Target, TunnelView, WaitStep,
};
use vstd::prelude::*;
use vstd::string::*;

verus! {

// ---------------------------------------------------------------------------
// Reports
// ---------------------------------------------------------------------------

/// Some entry of the tunnel is that of `pid`.
pub open spec fn has_slot(t: TunnelView, pid: u32) -> bool {
    exists|i: int| 0 <= i < t.per_pid.len() && (#[trigger] t.per_pid[i]).pid == pid
}

proof fn lemma_reported(t: TunnelView, pid: u32, ltr: bool, packets: u64, bytes: u64, i: int)
    requires
        t.wf(),
        0 <= i < t.per_pid.len(),
        t.per_pid[i].pid == pid,
    ensures
        ({
            let after = t.reported(pid, ltr, packets, bytes);
            let c = t.per_pid[i].counters;
            let d = after.per_pid[i].counters;
            &&& after.total.ltr_packets == t.total.ltr_packets - c.ltr_packets + d.ltr_packets
            &&& after.total.ltr_bytes == t.total.ltr_bytes - c.ltr_bytes + d.ltr_bytes
            &&& after.total.rtl_packets == t.total.rtl_packets - c.rtl_packets + d.rtl_packets
            &&& after.total.rtl_bytes == t.total.rtl_bytes - c.rtl_bytes + d.rtl_bytes
        }),
{
    let a = t.per_pid;
    let b = recorded(a, pid, ltr, packets, bytes);
    assert(has_entry(a, pid));
    assert forall|j: int| 0 <= j < a.len() && j != i implies (#[trigger] a[j]).counters == (
    #[trigger] b[j]).counters by {
        reports_set_one_direction(a, pid, ltr, packets, bytes, j);
        if i < j {
            assert(a[i].pid != a[j].pid);
        } else {
            assert(a[j].pid != a[i].pid);
        }
    }
    lemma_sum_changed(a, b, i);
}

proof fn lemma_first_reported(t: TunnelView, pid: u32, ltr: bool, packets: u64, bytes: u64)
    requires
        t.wf(),
        !has_slot(t, pid),
    ensures
        ({
            let after = t.reported(pid, ltr, packets, bytes);
            &&& after.total.ltr_packets == t.total.ltr_packets + if ltr { packets as int } else { 0 }
            &&& after.total.ltr_bytes == t.total.ltr_bytes + if ltr { bytes as int } else { 0 }
            &&& after.total.rtl_packets == t.total.rtl_packets + if ltr { 0 } else { packets as int }
            &&& after.total.rtl_bytes == t.total.rtl_bytes + if ltr { 0 } else { bytes as int }
            &&& after.per_pid.len() == t.per_pid.len() + 1
            &&& after.per_pid.last().pid == pid
        }),
{
    let a = t.per_pid;
    let b = recorded(a, pid, ltr, packets, bytes);
    first_reports_make_an_entry(a, pid, ltr, packets, bytes);
    assert(b =~= a.push(b.last()));
    sums_grow_by_each_entry(a, b.last());
}

/// A report of one direction leaves both counts of the other direction, and so the
/// total of it, as they were.
pub proof fn reports_leave_the_other_direction_alone(
    t: TunnelView,
    pid: u32,
    packets: u64,
    bytes: u64,
)
    requires
        t.wf(),
    ensures
        t.reported(pid, true, packets, bytes).total.rtl_packets == t.total.rtl_packets,
        t.reported(pid, true, packets, bytes).total.rtl_bytes == t.total.rtl_bytes,
        t.reported(pid, false, packets, bytes).total.ltr_packets == t.total.ltr_packets,
        t.reported(pid, false, packets, bytes).total.ltr_bytes == t.total.ltr_bytes,
{
    if has_slot(t, pid) {
        let i = choose|i: int| 0 <= i < t.per_pid.len() && (#[trigger] t.per_pid[i]).pid == pid;
        lemma_reported(t, pid, true, packets, bytes, i);
        lemma_reported(t, pid, false, packets, bytes, i);
        reports_set_one_direction(t.per_pid, pid, true, packets, bytes, i);
        reports_set_one_direction(t.per_pid, pid, false, packets, bytes, i);
    } else {
        lemma_first_reported(t, pid, true, packets, bytes);
        lemma_first_reported(t, pid, false, packets, bytes);
    }
}

/// In the direction that it is of, a report counts in place of what the process had
/// reported before.
pub proof fn reports_count_their_process_anew(
    t: TunnelView,
    pid: u32,
    packets: u64,
    bytes: u64,
    i: int,
)
    requires
        t.wf(),
        0 <= i < t.per_pid.len(),
        t.per_pid[i].pid == pid,
    ensures
        ({
            let c = t.per_pid[i].counters;
            let right = t.reported(pid, true, packets, bytes);
            let left = t.reported(pid, false, packets, bytes);
            &&& right.total.ltr_packets == t.total.ltr_packets - c.ltr_packets + packets
            &&& right.total.ltr_bytes == t.total.ltr_bytes - c.ltr_bytes + bytes
            &&& left.total.rtl_packets == t.total.rtl_packets - c.rtl_packets + packets
            &&& left.total.rtl_bytes == t.total.rtl_bytes - c.rtl_bytes + bytes
            &&& right.sessions == t.sessions && left.sessions == t.sessions
        }),
{
    lemma_reported(t, pid, true, packets, bytes, i);
    lemma_reported(t, pid, false, packets, bytes, i);
    reports_set_one_direction(t.per_pid, pid, true, packets, bytes, i);
    reports_set_one_direction(t.per_pid, pid, false, packets, bytes, i);
}

/// The pair of lines of a process that was not heard of before, in either order,
/// makes the total grow by exactly the four counts, and is one session more.
pub proof fn pairs_of_reports_add_up(
    t: TunnelView,
    pid: u32,
    ltr_packets: u64,
    ltr_bytes: u64,
    rtl_packets: u64,
    rtl_bytes: u64,
    ltr_first: bool,
)
    requires
        t.wf(),
        !has_slot(t, pid),
        t.sessions < u64::MAX,
        t.total.ltr_packets + ltr_packets <= u64::MAX,
        t.total.ltr_bytes + ltr_bytes <= u64::MAX,
        t.total.rtl_packets + rtl_packets <= u64::MAX,
        t.total.rtl_bytes + rtl_bytes <= u64::MAX,
    ensures
        ({
            let after = if ltr_first {
                t.reported(pid, true, ltr_packets, ltr_bytes).reported(
                    pid,
                    false,
                    rtl_packets,
                    rtl_bytes,
                )
            } else {
                t.reported(pid, false, rtl_packets, rtl_bytes).reported(
                    pid,
                    true,
                    ltr_packets,
                    ltr_bytes,
                )
            };
            &&& after.total.ltr_packets == t.total.ltr_packets + ltr_packets
            &&& after.total.ltr_bytes == t.total.ltr_bytes + ltr_bytes
            &&& after.total.rtl_packets == t.total.rtl_packets + rtl_packets
            &&& after.total.rtl_bytes == t.total.rtl_bytes + rtl_bytes
            &&& after.sessions == t.sessions + 1
        }),
{
    let (p1, b1, p2, b2) = if ltr_first {
        (ltr_packets, ltr_bytes, rtl_packets, rtl_bytes)
    } else {
        (rtl_packets, rtl_bytes, ltr_packets, ltr_bytes)
    };
    let once = t.reported(pid, ltr_first, p1, b1);
    lemma_first_reported(t, pid, ltr_first, p1, b1);
    let i = t.per_pid.len() as int;
    first_reports_make_an_entry(t.per_pid, pid, ltr_first, p1, b1);
    assert(once.per_pid[i].pid == pid);
    lemma_wf_reported(t, pid, ltr_first, p1, b1);
    lemma_reported(once, pid, !ltr_first, p2, b2, i);
    reports_set_one_direction(once.per_pid, pid, !ltr_first, p2, b2, i);
    assert(has_entry(once.per_pid, pid));
    assert(!has_entry(t.per_pid, pid));
}

/// A report whose counters fit leaves a tunnel sound.
proof fn lemma_wf_reported(t: TunnelView, pid: u32, ltr: bool, packets: u64, bytes: u64)
    requires
        t.wf(),
        t.reported(pid, ltr, packets, bytes).total.fits(),
        !has_slot(t, pid),
        t.sessions < u64::MAX,
    ensures
        t.reported(pid, ltr, packets, bytes).wf(),
{
    let a = t.per_pid;
    let b = recorded(a, pid, ltr, packets, bytes);
    first_reports_make_an_entry(a, pid, ltr, packets, bytes);
    assert forall|i: int, j: int| 0 <= i < j < b.len() implies (#[trigger] b[i]).pid != (
    #[trigger] b[j]).pid by {
        reports_set_one_direction(a, pid, ltr, packets, bytes, i);
        if j < a.len() {
            reports_set_one_direction(a, pid, ltr, packets, bytes, j);
            assert(a[i].pid != a[j].pid);
        } else {
            assert(a[i].pid != pid);
        }
    }
}

/// A report changes nothing but the counters, the total and the number of
/// sessions.
pub proof fn reports_change_nothing_else(
    t: TunnelView,
    pid: u32,
    ltr: bool,
    packets: u64,
    bytes: u64,
)
    ensures
        ({
            let after = t.reported(pid, ltr, packets, bytes);
            after == (TunnelView {
                per_pid: after.per_pid,
                total: after.total,
                sessions: after.sessions,
                ..t
            })
        }),
        has_slot(t, pid) ==> t.reported(pid, ltr, packets, bytes).sessions == t.sessions,
        !has_slot(t, pid) && t.sessions < u64::MAX ==> t.reported(
            pid,
            ltr,
            packets,
            bytes,
        ).sessions == t.sessions + 1,
{
    if has_slot(t, pid) {
        assert(has_entry(t.per_pid, pid));
    } else {
        assert(!has_entry(t.per_pid, pid));
    }
}

// ---------------------------------------------------------------------------
// The log
// ---------------------------------------------------------------------------

/// One line more stands at the end; the first goes only where there were five
/// hundred.
pub proof fn logs_grow_at_the_end(log: Seq<Seq<char>>, line: Seq<char>)
    requires
        log.len() <= 500,
    ensures
        with_line(log, line).last() == line,
        with_line(log, line).drop_last() == (if log.len() < 500 {
            log
        } else {
            log.skip(1)
        }),
{
    assert(with_line(log, line).drop_last() =~= (if log.len() < 500 {
        log
    } else {
        log.skip(1)
    }));
}

/// Of a line that was heard, counters do not get into the log, notices change
/// nothing, and any other line changes nothing but the log, at the end of which it
/// stands.
pub proof fn lines_are_counted_dropped_or_logged(t: TunnelView, line: Seq<char>)
    requires
        t.wf(),
    ensures
        match parsed(line) {
            Parsed::Stats { pid, ltr, packets, bytes } => t.heard(line) == t.reported(
                pid,
                ltr,
                packets,
                bytes,
            ) && t.heard(line).log == t.log,
            Parsed::Noise => t.heard(line) == t,
            Parsed::Other => {
                &&& t.heard(line).log.last() == line
                &&& t.heard(line).log.drop_last() == (if t.log.len() < 500 {
                    t.log
                } else {
                    t.log.skip(1)
                })
                &&& t.heard(line) == (TunnelView { log: t.heard(line).log, ..t })
            },
        },
{
    logs_grow_at_the_end(t.log, line);
}

// ---------------------------------------------------------------------------
// The work of a second
// ---------------------------------------------------------------------------

/// Some of the requests asks the process for statistics.
pub open spec fn is_asked(requests: Seq<SignalRequest>, pid: u32) -> bool {
    exists|k: int|
        0 <= k < requests.len() && (#[trigger] requests[k]).signal == Signal::Usr1
            && requests[k].target == Target::Process(pid)
}

proof fn lemma_asked(t: TunnelView, procs: Seq<ProcView>, now: u64, x: u32)
    requires
        t.wf(),
        t.status is Running,
    ensures
        is_asked(t.ticked(procs, PollView::Alive, now).1, x) <==> tree_of(procs, t.pid->0).contains(
            x,
        ),
        t.ticked(procs, PollView::Alive, now).1.len() == tree_of(procs, t.pid->0).len(),
        forall|k: int|
            0 <= k < tree_of(procs, t.pid->0).len() ==> (#[trigger] t.ticked(
                procs,
                PollView::Alive,
                now,
            ).1[k]) == (SignalRequest {
                target: Target::Process(tree_of(procs, t.pid->0)[k]),
                signal: Signal::Usr1,
            }),
{
    let tree = tree_of(procs, t.pid->0);
    let requests = t.ticked(procs, PollView::Alive, now).1;
    if is_asked(requests, x) {
        let k = choose|k: int|
            0 <= k < requests.len() && (#[trigger] requests[k]).signal == Signal::Usr1
                && requests[k].target == Target::Process(x);
        assert(tree[k] == x);
    }
    if tree.contains(x) {
        let k = choose|k: int| 0 <= k < tree.len() && tree[k] == x;
        assert(requests[k].signal == Signal::Usr1 && requests[k].target == Target::Process(x));
    }
}

/// A tunnel that runs asks its own process first, and then every socat process that
/// descends from it, each once, and no other.
pub proof fn every_socat_process_is_asked_once(t: TunnelView, procs: Seq<ProcView>, now: u64)
    requires
        t.wf(),
        t.status is Running,
        finite_tree(procs, t.pid->0),
        distinct_pids(procs),
    ensures
        ({
            let requests = t.ticked(procs, PollView::Alive, now).1;
            let pid = t.pid->0;
            &&& requests.len() == 1 + socats_below(procs, pid).len()
            &&& requests[0] == (SignalRequest {
                target: Target::Process(pid),
                signal: Signal::Usr1,
            })
            &&& forall|k: int|
                0 <= k < requests.len() ==> (#[trigger] requests[k]).signal == Signal::Usr1
            &&& forall|k: int|
                0 < k < requests.len() ==> (#[trigger] requests[k]).target is Process
                    && socats_below(procs, pid).contains(requests[k].target->Process_0)
            &&& forall|x: u32|
                socats_below(procs, pid).contains(x) ==> #[trigger] is_asked(requests, x)
            &&& requests.no_duplicates()
        }),
{
    let pid = t.pid->0;
    let tree = tree_of(procs, pid);
    let requests = t.ticked(procs, PollView::Alive, now).1;
    root_comes_first(procs, pid);
    trees_are_the_socat_processes_below(procs, pid);
    trees_name_nothing_twice(procs, pid);
    lemma_asked(t, procs, now, pid);
    assert forall|k: int| 0 < k < requests.len() implies (#[trigger] requests[k]).target is Process
        && socats_below(procs, pid).contains(requests[k].target->Process_0) by {
        assert(tree.skip(1)[k - 1] == tree[k]);
        assert(tree.skip(1).to_set().contains(tree[k]));
    }
    assert forall|x: u32| socats_below(procs, pid).contains(x) implies #[trigger] is_asked(
        requests,
        x,
    ) by {
        assert(tree.skip(1).to_set().contains(x));
        let k = choose|k: int| 0 <= k < tree.skip(1).len() && tree.skip(1)[k] == x;
        assert(tree[k + 1] == x);
        lemma_asked(t, procs, now, x);
    }
    assert forall|i: int, j: int| 0 <= i < requests.len() && 0 <= j < requests.len() && i
        != j implies (#[trigger] requests[i]) != (#[trigger] requests[j]) by {
        assert(tree[i] != tree[j]);
    }
}

/// The connections of a tunnel that runs are the socat processes that descend from
/// its own, whatever has been reported; where there is none, its own process is
/// one connection once it has reported.
pub proof fn connections_are_the_workers(t: TunnelView, procs: Seq<ProcView>, now: u64)
    requires
        t.wf(),
        t.status is Running,
        finite_tree(procs, t.pid->0),
        distinct_pids(procs),
    ensures
        ({
            let after = t.ticked(procs, PollView::Alive, now).0;
            let workers = socats_below(procs, t.pid->0).len();
            &&& workers > 0 ==> after.connections == workers
            &&& workers == 0 && has_slot(t, t.pid->0) ==> after.connections == 1
            &&& workers == 0 && !has_slot(t, t.pid->0) ==> after.connections == 0
        }),
{
    trees_are_the_socat_processes_below(procs, t.pid->0);
    if has_slot(t, t.pid->0) {
        assert(has_entry(t.per_pid, t.pid->0));
    } else {
        assert(!has_entry(t.per_pid, t.pid->0));
    }
}

/// Whatever the snapshot, there is one request more than there are connections as
/// soon as a worker is asked, and what two tunnels have heard makes no difference.
pub proof fn connections_do_not_rest_on_reports(
    t: TunnelView,
    u: TunnelView,
    procs: Seq<ProcView>,
    now: u64,
)
    requires
        t.wf(),
        u.wf(),
        t.status is Running,
        u.status is Running,
        t.pid == u.pid,
        t.ticked(procs, PollView::Alive, now).1.len() > 1,
    ensures
        t.ticked(procs, PollView::Alive, now).0.connections + 1 == t.ticked(
            procs,
            PollView::Alive,
            now,
        ).1.len(),
        t.ticked(procs, PollView::Alive, now).0.connections == u.ticked(
            procs,
            PollView::Alive,
            now,
        ).0.connections,
        t.ticked(procs, PollView::Alive, now).1 == u.ticked(procs, PollView::Alive, now).1,
{
    lemma_asked(t, procs, now, 0);
    lemma_asked(u, procs, now, 0);
}

/// A second changes neither who a tunnel is nor what it was started as, and as long
/// as no exit is noticed, neither its process, its status nor its log.
pub proof fn ticks_leave_the_rest_alone(
    t: TunnelView,
    procs: Seq<ProcView>,
    poll: PollView,
    now: u64,
)
    requires
        t.wf(),
    ensures
        ({
            let after = t.ticked(procs, poll, now).0;
            &&& after.id == t.id && after.config == t.config && after.started == t.started
            &&& after.sessions == t.sessions
            &&& !(poll is Exited && t.running()) ==> after.pid == t.pid && after.status == t.status
                && after.stop_requested == t.stop_requested && after.log == t.log
            &&& !(poll is Alive && t.status is Running) && !(poll is Exited && t.running())
                ==> after.connections == t.connections
            &&& poll is Unknown || poll is Exited ==> t.ticked(procs, poll, now).1.len() == 0
        }),
{
}

/// An exit is told at the end of the log, in the words of the system.
pub proof fn exits_are_logged(
    t: TunnelView,
    procs: Seq<ProcView>,
    code: Option<i32>,
    text: Seq<char>,
    now: u64,
)
    requires
        t.wf(),
        t.running(),
    ensures
        ({
            let after = t.ticked(procs, PollView::Exited { code, text }, now).0;
            &&& after.pid is None
            &&& after.stop_requested is None
            &&& after.connections == 0
            &&& after.log.last() == "socat "@ + text
            &&& after.log.drop_last() == (if t.log.len() < 500 {
                t.log
            } else {
                t.log.skip(1)
            })
            &&& t.stop_requested is Some ==> after.status == StatusView::Stopped
            &&& t.stop_requested is None ==> after.status == StatusView::Exited(code)
        }),
{
    logs_grow_at_the_end(t.log, "socat "@ + text);
}

/// A process that was asked to stop is killed with its whole group as soon as three
/// seconds have gone by and it is still there, and not before.
pub proof fn stops_are_enforced_after_three_seconds(
    t: TunnelView,
    procs: Seq<ProcView>,
    now: u64,
)
    requires
        t.wf(),
        t.status is Stopping,
    ensures
        now > t.stop_requested->0 + 3_000_000_000 ==> t.ticked(procs, PollView::Alive, now).1
            == seq![SignalRequest { target: Target::Group(t.pid->0), signal: Signal::Kill }],
        now <= t.stop_requested->0 + 3_000_000_000 ==> t.ticked(
            procs,
            PollView::Alive,
            now,
        ).1.len() == 0,
{
}

/// After a second, a process has its slot still if it was asked for statistics, was
/// not missed before, or was first missed no more than three seconds ago; and no
/// other has.
pub proof fn ticks_keep_slots_for_a_while(
    t: TunnelView,
    procs: Seq<ProcView>,
    poll: PollView,
    now: u64,
    i: int,
)
    requires
        t.wf(),
        0 <= i < t.per_pid.len(),
    ensures
        ({
            let e = t.per_pid[i];
            let (after, requests) = t.ticked(procs, poll, now);
            has_slot(after, e.pid) <==> {
                ||| is_asked(requests, e.pid)
                ||| e.dead_since is None
                ||| now <= e.dead_since->0 + 3_000_000_000
            }
        }),
{
    let (polled, requests, alive) = t.polled(procs, poll, now);
    let e = t.per_pid[i];
    slots_are_kept_for_a_while(t.per_pid, alive, now, i);
    lemma_alive(t, procs, poll, now, e.pid);
    let after = t.ticked(procs, poll, now).0;
    assert(after.per_pid == kept(t.per_pid, alive, now));
    if has_slot(after, e.pid) {
        assert(has_entry(after.per_pid, e.pid));
    }
    if has_entry(after.per_pid, e.pid) {
        assert(has_slot(after, e.pid));
    }
}

proof fn lemma_alive(t: TunnelView, procs: Seq<ProcView>, poll: PollView, now: u64, pid: u32)
    requires
        t.wf(),
    ensures
        t.polled(procs, poll, now).2.contains(pid) <==> is_asked(t.ticked(procs, poll, now).1, pid),
{
    if t.status is Running && poll is Alive {
        lemma_asked(t, procs, now, pid);
    } else {
        assert(t.polled(procs, poll, now).2.len() == 0);
        let requests = t.ticked(procs, poll, now).1;
        assert forall|k: int| 0 <= k < requests.len() implies (#[trigger] requests[k]).signal
            != Signal::Usr1 by {}
    }
}

/// Every slot after a second is one from before, with the counters that it had; one
/// whose process was asked is not missed, and any other is missed since it first
/// was.
pub proof fn ticks_keep_the_counters(
    t: TunnelView,
    procs: Seq<ProcView>,
    poll: PollView,
    now: u64,
    k: int,
) -> (j: int)
    requires
        t.wf(),
        0 <= k < t.ticked(procs, poll, now).0.per_pid.len(),
    ensures
        0 <= j < t.per_pid.len(),
        ({
            let a = t.per_pid[j];
            let (after, requests) = t.ticked(procs, poll, now);
            let b = after.per_pid[k];
            &&& b.pid == a.pid
            &&& b.counters == a.counters
            &&& is_asked(requests, a.pid) ==> b.dead_since is None
            &&& !is_asked(requests, a.pid) && a.dead_since is Some ==> b.dead_since == a.dead_since
            &&& !is_asked(requests, a.pid) && a.dead_since is None ==> b.dead_since == Some(now)
        }),
{
    let alive = t.polled(procs, poll, now).2;
    let j = looks_keep_the_counters(t.per_pid, alive, now, k);
    lemma_alive(t, procs, poll, now, t.per_pid[j].pid);
    j
}

/// A second changes no count of the total, in either direction.
pub proof fn ticks_keep_every_count(t: TunnelView, procs: Seq<ProcView>, poll: PollView, now: u64)
    requires
        t.wf(),
    ensures
        ({
            let after = t.ticked(procs, poll, now).0;
            &&& after.total.ltr_packets == t.total.ltr_packets
            &&& after.total.ltr_bytes == t.total.ltr_bytes
            &&& after.total.rtl_packets == t.total.rtl_packets
            &&& after.total.rtl_bytes == t.total.rtl_bytes
        }),
{
    let (polled, requests, alive) = t.polled(procs, poll, now);
    lemma_fold(polled.per_pid, alive, now);
}

/// How much more `after` is than `before`; nothing where it is less.
pub open spec fn gain(before: nat, after: nat) -> int {
    if after > before {
        after - before
    } else {
        0
    }
}

/// When half a second or more has gone by since the sample before, throughput is,
/// in each direction, the bytes by which the total has grown since then, over the
/// time since then; and the next sample is measured from this one.
pub proof fn throughput_is_the_growth_since_the_last_sample(
    t: TunnelView,
    procs: Seq<ProcView>,
    poll: PollView,
    now: u64,
)
    requires
        t.wf(),
        now >= t.prev_sample + 500_000_000,
    ensures
        ({
            let after = t.ticked(procs, poll, now).0;
            &&& after.running() ==> {
                &&& after.rate_ltr.bytes == gain(t.prev_total.ltr_bytes, t.total.ltr_bytes)
                &&& after.rate_rtl.bytes == gain(t.prev_total.rtl_bytes, t.total.rtl_bytes)
                &&& after.rate_ltr.nanos == now - t.prev_sample
                &&& after.rate_rtl.nanos == now - t.prev_sample
            }
            &&& after.prev_sample == now
            &&& after.prev_total.ltr_packets == t.total.ltr_packets
            &&& after.prev_total.ltr_bytes == t.total.ltr_bytes
            &&& after.prev_total.rtl_packets == t.total.rtl_packets
            &&& after.prev_total.rtl_bytes == t.total.rtl_bytes
        }),
{
    ticks_keep_every_count(t, procs, poll, now);
}

/// Sooner than that, throughput stays what it was, and so does the sample that it is
/// measured from.
pub proof fn throughput_is_not_measured_too_soon(
    t: TunnelView,
    procs: Seq<ProcView>,
    poll: PollView,
    now: u64,
)
    requires
        t.wf(),
        now < t.prev_sample + 500_000_000,
    ensures
        ({
            let after = t.ticked(procs, poll, now).0;
            &&& after.running() ==> after.rate_ltr == t.rate_ltr && after.rate_rtl == t.rate_rtl
            &&& after.prev_sample == t.prev_sample
            &&& after.prev_total == t.prev_total
        }),
{
}

/// Two samples with no report between them show no throughput, and neither does a
/// tunnel without a process.
pub proof fn idle_tunnels_show_no_throughput(
    t: TunnelView,
    procs: Seq<ProcView>,
    poll: PollView,
    now: u64,
    more_procs: Seq<ProcView>,
    more_poll: PollView,
    later: u64,
)
    requires
        t.wf(),
        now >= t.prev_sample + 500_000_000,
        later >= now + 500_000_000,
    ensures
        ({
            let after = t.ticked(procs, poll, now).0.ticked(more_procs, more_poll, later).0;
            &&& after.rate_ltr.bytes == 0
            &&& after.rate_rtl.bytes == 0
        }),
        !t.ticked(procs, poll, now).0.running() ==> t.ticked(procs, poll, now).0.rate_ltr.bytes == 0
            && t.ticked(procs, poll, now).0.rate_rtl.bytes == 0,
{
    let once = t.ticked(procs, poll, now).0;
    ticks_keep_every_count(t, procs, poll, now);
    throughput_is_the_growth_since_the_last_sample(t, procs, poll, now);
    let (polled, requests, alive) = t.polled(procs, poll, now);
    lemma_fold(polled.per_pid, alive, now);
    let (polled2, requests2, alive2) = once.polled(more_procs, more_poll, later);
    lemma_fold(polled2.per_pid, alive2, later);
}

/// What is reported between two samples is the throughput of the second.
pub proof fn throughput_is_what_was_reported_between(
    t: TunnelView,
    procs: Seq<ProcView>,
    poll: PollView,
    now: u64,
    pid: u32,
    packets: u64,
    bytes: u64,
    more_procs: Seq<ProcView>,
    later: u64,
)
    requires
        t.wf(),
        now >= t.prev_sample + 500_000_000,
        later >= now + 500_000_000,
        t.ticked(procs, poll, now).0.running(),
        t.ticked(procs, poll, now).0.wf(),
        !has_slot(t.ticked(procs, poll, now).0, pid),
        t.total.ltr_bytes + bytes <= u64::MAX,
    ensures
        ({
            let heard = t.ticked(procs, poll, now).0.reported(pid, true, packets, bytes);
            let after = heard.ticked(more_procs, PollView::Unknown, later).0;
            &&& after.rate_ltr.bytes == bytes
            &&& after.rate_rtl.bytes == 0
            &&& after.rate_ltr.nanos == later - now
        }),
{
    let once = t.ticked(procs, poll, now).0;
    throughput_is_the_growth_since_the_last_sample(t, procs, poll, now);
    ticks_keep_every_count(t, procs, poll, now);
    lemma_first_reported(once, pid, true, packets, bytes);
    let heard = once.reported(pid, true, packets, bytes);
    let (polled, requests, alive) = heard.polled(more_procs, PollView::Unknown, later);
    lemma_fold(polled.per_pid, alive, later);
}

// ---------------------------------------------------------------------------
// Starting and stopping
// ---------------------------------------------------------------------------

/// A tunnel at rest is started with `--statistics`, the words of its options in
/// order, its source and its destination, and is otherwise as it was until its
/// process is there.
pub proof fn tunnels_are_started_with_their_words(t: TunnelView, words: Seq<Seq<char>>)
    requires
        t.pid is None,
    ensures
        ({
            let (after, args) = t.started_with(Ok(words));
            &&& after == t
            &&& args is Some
            &&& args->0.len() == words.len() + 3
            &&& args->0[0] == "--statistics"@
            &&& forall|k: int| 0 <= k < words.len() ==> args->0[k + 1] == #[trigger] words[k]
            &&& args->0[words.len() as int + 1] == t.config.source
            &&& args->0[words.len() as int + 2] == t.config.destination
        }),
{
}

/// Options that cannot be split leave a tunnel failed, with the reason in its status
/// and in its log; one that runs is not touched.
pub proof fn bad_options_are_told(t: TunnelView, e: Seq<char>)
    requires
        t.wf(),
    ensures
        t.pid is Some ==> t.started_with(Err(e)) == (t, None::<Seq<Seq<char>>>),
        t.pid is None ==> {
            let (after, args) = t.started_with(Err(e));
            &&& args is None
            &&& after.status == StatusView::Failed("bad options: "@ + e)
            &&& after.log.last() == "cannot parse options: "@ + e
            &&& after.log.drop_last() == (if t.log.len() < 500 {
                t.log
            } else {
                t.log.skip(1)
            })
            &&& after == (TunnelView { status: after.status, log: after.log, ..t })
        },
        forall|words: Seq<Seq<char>>|
            t.pid is Some ==> #[trigger] t.started_with(Ok(words)) == (
                t,
                None::<Seq<Seq<char>>>,
            ),
{
    logs_grow_at_the_end(t.log, "cannot parse options: "@ + e);
}

/// A tunnel whose process was spawned runs, since now, under that pid, with nothing
/// asked of it yet, and says so in its log; its counters are as they were.
pub proof fn spawned_tunnels_run(t: TunnelView, pid: u32, now: u64)
    requires
        t.wf(),
    ensures
        ({
            let after = t.spawned(pid, now);
            &&& after.pid == Some(pid)
            &&& after.started == Some(now)
            &&& after.status == StatusView::Running
            &&& after.stop_requested is None
            &&& after.connections == 0
            &&& after.log.last() == "started pid "@ + decimal(pid as nat) + ": "@ + command_text(
                t.config,
            )
            &&& after.log.drop_last() == (if t.log.len() < 500 {
                t.log
            } else {
                t.log.skip(1)
            })
            &&& after == (TunnelView {
                pid: after.pid,
                started: after.started,
                status: after.status,
                stop_requested: after.stop_requested,
                connections: after.connections,
                log: after.log,
                ..t
            })
        }),
{
    logs_grow_at_the_end(
        t.log,
        "started pid "@ + decimal(pid as nat) + ": "@ + command_text(t.config),
    );
}

/// A process that could not be spawned leaves a tunnel failed, with the reason in its
/// status and in its log.
pub proof fn failures_to_spawn_are_told(t: TunnelView, e: Seq<char>)
    requires
        t.wf(),
    ensures
        ({
            let after = t.spawn_failed(e);
            &&& after.status == StatusView::Failed("spawn failed: "@ + e)
            &&& after.log.last() == "failed to start socat: "@ + e
            &&& after.log.drop_last() == (if t.log.len() < 500 {
                t.log
            } else {
                t.log.skip(1)
            })
            &&& after == (TunnelView { status: after.status, log: after.log, ..t })
        }),
{
    logs_grow_at_the_end(t.log, "failed to start socat: "@ + e);
}

/// Asking a tunnel that runs to stop sends SIGTERM to its process group, and
/// notes when that was; its process and its counters are as they were.
pub proof fn stops_ask_the_group_to_terminate(t: TunnelView, now: u64)
    requires
        t.wf(),
        t.pid is Some,
    ensures
        ({
            let (after, request) = t.stop_step(now);
            &&& request == Some(
                SignalRequest { target: Target::Group(t.pid->0), signal: Signal::Term },
            )
            &&& after.status == StatusView::Stopping
            &&& after.stop_requested == Some(now)
            &&& after.log.last() == "sent SIGTERM to process group "@ + decimal(t.pid->0 as nat)
            &&& after.log.drop_last() == (if t.log.len() < 500 {
                t.log
            } else {
                t.log.skip(1)
            })
            &&& after == (TunnelView {
                status: after.status,
                stop_requested: after.stop_requested,
                log: after.log,
                ..t
            })
        }),
{
    logs_grow_at_the_end(
        t.log,
        "sent SIGTERM to process group "@ + decimal(t.pid->0 as nat),
    );
}

/// Killing a tunnel that runs sends SIGKILL to its process group, and notes when that
/// was; nothing else changes.
pub proof fn kills_reach_the_group(t: TunnelView, now: u64)
    requires
        t.pid is Some,
    ensures
        t.kill_step(now).1 == Some(
            SignalRequest { target: Target::Group(t.pid->0), signal: Signal::Kill },
        ),
        t.kill_step(now).0 == (TunnelView {
            status: StatusView::Stopping,
            stop_requested: Some(now),
            ..t
        }),
{
}

/// Clearing the statistics sets every count, rate and session back, and leaves the
/// process, the connections and the log as they are.
pub proof fn clearing_touches_the_statistics_only(t: TunnelView, now: u64)
    ensures
        ({
            let after = t.cleared(now);
            &&& after.per_pid.len() == 0
            &&& after.archived.ltr_packets == 0 && after.archived.ltr_bytes == 0
            &&& after.archived.rtl_packets == 0 && after.archived.rtl_bytes == 0
            &&& after.total.ltr_packets == 0 && after.total.ltr_bytes == 0
            &&& after.total.rtl_packets == 0 && after.total.rtl_bytes == 0
            &&& after.prev_total.ltr_bytes == 0 && after.prev_total.rtl_bytes == 0
            &&& after.prev_sample == now
            &&& after.rate_ltr.bytes == 0 && after.rate_rtl.bytes == 0
            &&& after.sessions == 0
            &&& after.id == t.id && after.config == t.config && after.status == t.status
            &&& after.pid == t.pid && after.started == t.started
            &&& after.stop_requested == t.stop_requested
            &&& after.connections == t.connections && after.log == t.log
        }),
{
}

/// A tunnel that was never started has its definition, and nothing else.
pub proof fn new_tunnels_are_empty(id: u64, config: ConfigView, now: u64)
    ensures
        ({
            let t = TunnelView::fresh(id, config, now);
            &&& t.id == id && t.config == config
            &&& t.status == StatusView::Stopped
            &&& t.pid is None && t.started is None && t.stop_requested is None
            &&& t.per_pid.len() == 0 && t.log.len() == 0
            &&& t.total.ltr_packets == 0 && t.total.ltr_bytes == 0
            &&& t.total.rtl_packets == 0 && t.total.rtl_bytes == 0
            &&& t.prev_sample == now && t.sessions == 0 && t.connections == 0
            &&& t.rate_ltr.bytes == 0 && t.rate_rtl.bytes == 0
        }),
{
}

/// A look at a process that is waited for: where it is gone, or cannot be asked, the
/// tunnel is stopped; where it is there, nothing changes until the time is up.
pub proof fn looks_notice_the_end(t: TunnelView, poll: PollView, waited: u64, timeout: u64)
    ensures
        ({
            let (after, step) = t.waited(poll, waited, timeout);
            &&& t.pid is None ==> after == t && step == WaitStep::Gone
            &&& t.pid is Some && !(poll is Alive) ==> step == WaitStep::Gone && after == (
            TunnelView { pid: None, status: StatusView::Stopped, ..t })
            &&& t.pid is Some && poll is Alive ==> after == t && (step == WaitStep::TimedOut
                <==> waited >= timeout) && (step == WaitStep::Again <==> waited < timeout)
        }),
{
}

/// A wait lasts two seconds after SIGTERM; then the process group is killed, and it
/// lasts one second more.
pub proof fn waits_last_two_seconds_and_one(w: StopWait, t: TunnelView, now: u64)
    requires
        t.pid is Some,
        w.since <= now,
    ensures
        ({
            let (next, after, step) = wait_stepped(w, t, PollView::Alive, now);
            let waited = now - w.since;
            &&& !w.killed && waited < 2_000_000_000 ==> step == StopStep::Again && next == w
                && after == t
            &&& !w.killed && waited >= 2_000_000_000 ==> {
                &&& step == StopStep::Send(
                    SignalRequest { target: Target::Group(t.pid->0), signal: Signal::Kill },
                )
                &&& next == (StopWait { killed: true, since: now })
                &&& after == (TunnelView {
                    status: StatusView::Stopping,
                    stop_requested: Some(now),
                    ..t
                })
            }
            &&& w.killed && waited < 1_000_000_000 ==> step == StopStep::Again && next == w
                && after == t
            &&& w.killed && waited >= 1_000_000_000 ==> step == StopStep::Done && after == t
        }),
{
}

// ---------------------------------------------------------------------------
// Texts
// ---------------------------------------------------------------------------

/// What each status is called.
pub proof fn statuses_have_their_names(code: i32, e: Seq<char>)
    ensures
        label_of(StatusView::Stopped) == "stopped"@,
        label_of(StatusView::Running) == "running"@,
        label_of(StatusView::Stopping) == "stopping"@,
        label_of(StatusView::Exited(Some(0))) == "exited"@,
        code > 0 ==> label_of(StatusView::Exited(Some(code))) == "exit "@ + decimal(code as nat),
        code < 0 ==> label_of(StatusView::Exited(Some(code))) == "exit "@ + seq!['-'] + decimal(
            -(code as int) as nat,
        ),
        label_of(StatusView::Exited(None)) == "killed"@,
        label_of(StatusView::Failed(e)) == "failed"@,
{
    if code < 0 {
        assert("exit "@ + signed_decimal(code as int) =~= "exit "@ + seq!['-'] + decimal(
            -(code as int) as nat,
        ));
    }
}

/// A command line is what would be typed: the options, trimmed, only where there are
/// any.
pub proof fn command_lines_say_what_is_run(c: ConfigView)
    ensures
        trimmed(c.options).len() == 0 ==> command_text(c) == "socat --statistics "@ + c.source + " "@
            + c.destination,
        trimmed(c.options).len() > 0 ==> command_text(c) == "socat --statistics "@ + trimmed(
            c.options,
        ) + " "@ + c.source + " "@ + c.destination,
{
    if trimmed(c.options).len() == 0 {
        assert(command_text(c) =~= "socat --statistics "@ + c.source + " "@ + c.destination);
    } else {
        assert(command_text(c) =~= "socat --statistics "@ + trimmed(c.options) + " "@ + c.source
            + " "@ + c.destination);
    }
}

/// The header of a log that is written: name and status, command line, pid if there
/// is a process, counters, and an empty line.
pub proof fn written_logs_begin_with_a_header(t: TunnelView)
    requires
        t.log.len() == 0,
    ensures
        log_text(t) == "=== "@ + t.config.name + " ["@ + label_of(t.status) + "] ===\n"@
            + "command: "@ + command_text(t.config) + "\n"@ + (match t.pid {
            Some(pid) => "pid: "@ + decimal(pid as nat) + "\n"@,
            None => seq![],
        }) + ("stats: left->right "@ + decimal(t.total.ltr_packets) + " packets / "@ + decimal(
            t.total.ltr_bytes,
        ) + " bytes, right->left "@ + decimal(t.total.rtl_packets) + " packets / "@ + decimal(
            t.total.rtl_bytes,
        ) + " bytes, "@ + decimal(t.sessions as nat) + " sessions\n"@) + "\n"@,
{
    let header = "=== "@ + t.config.name + " ["@ + label_of(t.status) + "] ===\n"@ + "command: "@
        + command_text(t.config) + "\n"@ + (match t.pid {
        Some(pid) => "pid: "@ + decimal(pid as nat) + "\n"@,
        None => seq![],
    }) + stats_text(t.total, t.sessions) + "\n"@;
    assert(log_text(t) == header + lines_text(t.log));
    assert(lines_text(t.log) == Seq::<char>::empty());
    assert(header + Seq::<char>::empty() =~= header);
}

/// Each line of the log stands in what is written, in order, on a line of its own.
pub proof fn written_logs_go_on_line_by_line(t: TunnelView, line: Seq<char>)
    ensures
        log_text(TunnelView { log: t.log.push(line), ..t }) == log_text(t) + line + "\n"@,
{
    assert(t.log.push(line).drop_last() =~= t.log);
    assert(log_text(TunnelView { log: t.log.push(line), ..t }) =~= log_text(t) + line + "\n"@);
}

// ---------------------------------------------------------------------------
// What can be done at all
// ---------------------------------------------------------------------------

/// A line is taken unless one of the four counts, or the number of sessions, would no
/// longer fit in 64 bits; and a second can go by unless the tree of a process that is
/// to be asked for statistics does not end.
pub proof fn little_is_refused(
    t: TunnelView,
    line: Seq<char>,
    procs: Seq<ProcView>,
    poll: PollView,
)
    requires
        t.wf(),
    ensures
        !(parsed(line) is Stats) ==> t.takes(line),
        t.takes(line) <==> {
            let total = t.heard(line).total;
            &&& total.ltr_packets <= 0xffff_ffff_ffff_ffff
            &&& total.ltr_bytes <= 0xffff_ffff_ffff_ffff
            &&& total.rtl_packets <= 0xffff_ffff_ffff_ffff
            &&& total.rtl_bytes <= 0xffff_ffff_ffff_ffff
            &&& parsed(line) is Stats && !has_slot(t, parsed(line)->pid) ==> t.sessions
                < 0xffff_ffff_ffff_ffff
        },
        t.can_tick(procs, poll) <==> !(t.status is Running && poll is Alive) || finite_tree(
            procs,
            t.pid->0,
        ),
{
    if let Parsed::Stats { pid, ltr, packets, bytes } = parsed(line) {
        if has_slot(t, pid) {
            assert(has_entry(t.per_pid, pid));
        } else {
            assert(!has_entry(t.per_pid, pid));
        }
    }
}

} // verus!
