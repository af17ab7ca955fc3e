//! The process tree under a tunnel.
//!
//! socat spawns one child per connection when the `fork` option is used, and
//! `EXEC:`/`SYSTEM:` addresses spawn arbitrary programs. Live transfer
//! statistics are asked for with a signal to every *socat* process in the tree,
//! and to no other: the default disposition of that signal is to die.

use crate::decimal::{
    decimal, decimal_denotes_its_number, decimal_is_read_back, read_unsigned, unsigned,
};
use crate::text::{
    chars_of, collect_runs, is_digit, is_white, join, joined, lemma_no_run, lemma_one_run,
    lemma_runs_meet, pieces, pieces_part_at_separators, runs, slice_of, split, starts_with,
    starts_with_text, string_of, views, Class,
};
use vstd::prelude::*;
use vstd::set_lib::*;
use vstd::string::*;

verus! {

/// One process of a snapshot.
#[derive(Clone, Debug)]
pub struct ProcInfo {
    pub pid: u32,
    pub ppid: u32,
    pub comm: String,
}

/// One process of a snapshot, with its command name as a sequence.
pub struct ProcView {
    pub pid: u32,
    pub ppid: u32,
    pub comm: Seq<char>,
}

impl View for ProcInfo {
    type V = ProcView;

    open spec fn view(&self) -> ProcView {
        ProcView { pid: self.pid, ppid: self.ppid, comm: self.comm@ }
    }
}

/// The views of a list of processes.
pub open spec fn proc_views(procs: Seq<ProcInfo>) -> Seq<ProcView> {
    procs.map_values(|p: ProcInfo| p@)
}

// ---------------------------------------------------------------------------
// Snapshots
// ---------------------------------------------------------------------------

/// The process that a line of `ps -axo pid=,ppid=,comm=` tells of: two numbers
/// of 32 bits, then the words of the command name.
pub open spec fn proc_of_line(line: Seq<char>) -> Option<ProcView> {
    let words = runs(line, Class::Word);
    if words.len() < 2 {
        None
    } else {
        match (unsigned(words[0], u32::MAX as nat), unsigned(words[1], u32::MAX as nat)) {
            (Some(pid), Some(ppid)) => Some(
                ProcView { pid: pid as u32, ppid: ppid as u32, comm: joined(words.skip(2), " "@) },
            ),
            _ => None,
        }
    }
}

/// The processes that the lines tell of; other lines are passed over.
pub open spec fn procs_of_lines(lines: Seq<Seq<char>>) -> Seq<ProcView>
    decreases lines.len(),
{
    if lines.len() == 0 {
        seq![]
    } else {
        let before = procs_of_lines(lines.drop_last());
        match proc_of_line(lines.last()) {
            Some(p) => before.push(p),
            None => before,
        }
    }
}

/// The processes that the output of `ps` tells of.
pub open spec fn snapshot_of(text: Seq<char>) -> Seq<ProcView> {
    procs_of_lines(pieces(text, '\n'))
}

fn read_proc(line: &Vec<char>) -> (r: Option<ProcInfo>)
    ensures
        match r {
            Some(p) => proc_of_line(line@) == Some(p@),
            None => proc_of_line(line@) is None,
        },
{
    let words: Vec<Vec<char>> = collect_runs(line, Class::Word);
    if words.len() < 2 {
        return None;
    }
    let pid: u32 = match read_unsigned(&words[0], 0xffff_ffff) {
        Some(v) => v as u32,
        None => return None,
    };
    let ppid: u32 = match read_unsigned(&words[1], 0xffff_ffff) {
        Some(v) => v as u32,
        None => return None,
    };
    let ghost all = runs(line@, Class::Word);
    let mut rest: Vec<String> = Vec::new();
    let mut i: usize = 2;
    while i < words.len()
        invariant
            2 <= i <= words@.len() == all.len(),
            forall|k: int| 0 <= k < words@.len() ==> (#[trigger] words@[k])@ == all[k],
            views(rest@) == all.subrange(2, i as int),
        decreases words@.len() - i,
    {
        let word: String = string_of(&words[i]);
        assert(views(rest@.push(word)) == views(rest@).push(word@));
        assert(all.subrange(2, i + 1) == all.subrange(2, i as int).push(all[i as int]));
        rest.push(word);
        i += 1;
    }
    assert(all.subrange(2, i as int) == all.skip(2));
    Some(ProcInfo { pid, ppid, comm: join(&rest, " ") })
}

/// The processes that the output of `ps -axo pid=,ppid=,comm=` tells of.
pub fn snapshot(text: &str) -> (r: Vec<ProcInfo>)
    ensures
        proc_views(r@) == snapshot_of(text@),
{
    let chars: Vec<char> = chars_of(text);
    let lines: Vec<Vec<char>> = split(&chars, '\n');
    let ghost all = pieces(text@, '\n');
    let mut r: Vec<ProcInfo> = Vec::new();
    let mut i: usize = 0;
    while i < lines.len()
        invariant
            i <= lines@.len() == all.len(),
            forall|k: int| 0 <= k < lines@.len() ==> (#[trigger] lines@[k])@ == all[k],
            proc_views(r@) == procs_of_lines(all.take(i as int)),
        decreases lines@.len() - i,
    {
        proof {
            assert(all.take(i + 1).drop_last() == all.take(i as int));
            assert(all.take(i + 1).last() == lines@[i as int]@);
        }
        if let Some(p) = read_proc(&lines[i]) {
            assert(proc_views(r@.push(p)) == proc_views(r@).push(p@));
            r.push(p);
        }
        i += 1;
    }
    assert(all.take(i as int) == all);
    r
}

// ---------------------------------------------------------------------------
// Which processes are socat
// ---------------------------------------------------------------------------

/// What follows the last slash of a path; the whole of it where there is none.
pub open spec fn base_name(path: Seq<char>) -> Seq<char>
    decreases path.len(),
{
    if path.len() == 0 || path.last() == '/' {
        seq![]
    } else {
        base_name(path.drop_last()).push(path.last())
    }
}

/// A command whose base name begins with `socat`.
pub open spec fn socat_command(comm: Seq<char>) -> bool {
    starts_with_text(base_name(comm), "socat"@)
}

/// Whether `comm` is a command whose base name begins with `socat`.
pub fn is_socat(comm: &str) -> (b: bool)
    ensures
        b == socat_command(comm@),
{
    let v: Vec<char> = chars_of(comm);
    let n: usize = v.len();
    let mut start: usize = n;
    assert(v@.take(n as int) == v@);
    assert(v@.subrange(n as int, n as int) == Seq::<char>::empty());
    assert(base_name(v@) == base_name(v@) + Seq::<char>::empty());
    while start > 0 && v[start - 1] != '/'
        invariant
            start <= n == v@.len(),
            base_name(v@) == base_name(v@.take(start as int)) + v@.subrange(start as int, n as int),
        decreases start,
    {
        proof {
            let t = v@.take(start as int);
            assert(t.drop_last() == v@.take(start - 1));
            assert(base_name(t) + v@.subrange(start as int, n as int) == base_name(t.drop_last())
                + v@.subrange(start - 1, n as int));
        }
        start -= 1;
    }
    assert(base_name(v@.take(start as int)) == Seq::<char>::empty());
    let base: Vec<char> = slice_of(&v, start, n);
    assert(base@ == base_name(v@));
    starts_with(&base, "socat")
}

// ---------------------------------------------------------------------------
// The tree
// ---------------------------------------------------------------------------

/// The processes whose parent is `pid`.
pub open spec fn child_of(pid: u32) -> spec_fn(ProcView) -> bool {
    |p: ProcView| p.ppid == pid
}

/// The processes that run socat.
pub open spec fn runs_socat() -> spec_fn(ProcView) -> bool {
    |p: ProcView| socat_command(p.comm)
}

/// The processes whose parent is `pid`, in the order of the snapshot.
pub open spec fn children(procs: Seq<ProcView>, pid: u32) -> Seq<ProcView> {
    procs.filter(child_of(pid))
}

/// The children of the first parent, then those of the second, and so on.
pub open spec fn offspring(procs: Seq<ProcView>, parents: Seq<u32>) -> Seq<ProcView>
    decreases parents.len(),
{
    if parents.len() == 0 {
        seq![]
    } else {
        offspring(procs, parents.drop_last()) + children(procs, parents.last())
    }
}

/// The process ids of a list of processes.
pub open spec fn pids(ps: Seq<ProcView>) -> Seq<u32> {
    ps.map_values(|p: ProcView| p.pid)
}

/// The process ids of the socat processes among `ps`.
pub open spec fn socat_pids(ps: Seq<ProcView>) -> Seq<u32> {
    pids(ps.filter(runs_socat()))
}

/// The process ids that are `depth` steps below `root`.
pub open spec fn generation(procs: Seq<ProcView>, root: u32, depth: nat) -> Seq<u32>
    decreases depth,
{
    if depth == 0 {
        seq![root]
    } else {
        pids(offspring(procs, generation(procs, root, (depth - 1) as nat)))
    }
}

/// `root`, then the socat processes one step below it, then those two steps
/// below it, down to `depth` steps.
pub open spec fn socats_within(procs: Seq<ProcView>, root: u32, depth: nat) -> Seq<u32>
    decreases depth,
{
    if depth == 0 {
        seq![root]
    } else {
        let above = (depth - 1) as nat;
        socats_within(procs, root, above) + socat_pids(
            offspring(procs, generation(procs, root, above)),
        )
    }
}

/// No process is `depth` steps below `root`.
pub open spec fn ends_at(procs: Seq<ProcView>, root: u32, depth: nat) -> bool {
    generation(procs, root, depth).len() == 0
}

/// The tree under `root` comes to an end: no process is below itself.
pub open spec fn finite_tree(procs: Seq<ProcView>, root: u32) -> bool {
    exists|depth: nat| ends_at(procs, root, depth)
}

/// `root`, then every socat process below it, in breadth-first order.
pub open spec fn tree_of(procs: Seq<ProcView>, root: u32) -> Seq<u32> {
    socats_within(procs, root, choose|depth: nat| ends_at(procs, root, depth))
}

/// Below an empty generation there is nothing.
proof fn lemma_beyond_the_end(procs: Seq<ProcView>, root: u32, end: nat, depth: nat)
    requires
        ends_at(procs, root, end),
        end <= depth,
    ensures
        ends_at(procs, root, depth),
        socats_within(procs, root, depth) == socats_within(procs, root, end),
    decreases depth,
{
    if end < depth {
        let above = (depth - 1) as nat;
        lemma_beyond_the_end(procs, root, end, above);
        let none = offspring(procs, generation(procs, root, above));
        assert(none.len() == 0);
        reveal(Seq::filter);
        assert(socat_pids(none).len() == 0);
        assert(socats_within(procs, root, depth) =~= socats_within(procs, root, above));
    }
}

/// The tree may be read off at any depth at which it has ended.
pub proof fn tree_is_read_off_at_its_end(procs: Seq<ProcView>, root: u32, depth: nat)
    requires
        ends_at(procs, root, depth),
    ensures
        finite_tree(procs, root),
        tree_of(procs, root) == socats_within(procs, root, depth),
{
    let d = choose|d: nat| ends_at(procs, root, d);
    if d <= depth {
        lemma_beyond_the_end(procs, root, d, depth);
    } else {
        lemma_beyond_the_end(procs, root, depth, d);
    }
}

proof fn lemma_filter_step<A>(s: Seq<A>, j: int, pred: spec_fn(A) -> bool)
    requires
        0 <= j < s.len(),
    ensures
        s.take(j + 1).filter(pred) == (if pred(s[j]) {
            s.take(j).filter(pred).push(s[j])
        } else {
            s.take(j).filter(pred)
        }),
{
    reveal(Seq::filter);
    assert(s.take(j + 1).drop_last() == s.take(j));
}

/// What a filter keeps are the members that pass, and all of them.
proof fn lemma_filter_members<A>(s: Seq<A>, pred: spec_fn(A) -> bool)
    ensures
        forall|k: int|
            0 <= k < s.filter(pred).len() ==> pred(#[trigger] s.filter(pred)[k]) && s.contains(
                s.filter(pred)[k],
            ),
        forall|i: int| 0 <= i < s.len() && pred(#[trigger] s[i]) ==> s.filter(pred).contains(s[i]),
    decreases s.len(),
{
    reveal(Seq::filter);
    if s.len() > 0 {
        let init = s.drop_last();
        lemma_filter_members(init, pred);
        let kept = init.filter(pred);
        let all = s.filter(pred);
        assert forall|k: int| 0 <= k < all.len() implies pred(#[trigger] all[k]) && s.contains(
            all[k],
        ) by {
            if k < kept.len() {
                assert(all[k] == kept[k]);
                let i = choose|i: int| 0 <= i < init.len() && init[i] == kept[k];
                assert(s[i] == all[k]);
            } else {
                assert(s[s.len() - 1] == all[k]);
            }
        }
        assert forall|i: int| 0 <= i < s.len() && pred(#[trigger] s[i]) implies all.contains(
            s[i],
        ) by {
            if i < init.len() {
                assert(pred(init[i]));
                let k = choose|k: int| 0 <= k < kept.len() && kept[k] == init[i];
                assert(all[k] == s[i]);
            } else {
                assert(all[all.len() - 1] == s[i]);
            }
        }
    }
}

proof fn lemma_socat_pids_add(a: Seq<ProcView>, p: ProcView)
    ensures
        socat_pids(a.push(p)) == (if socat_command(p.comm) {
            socat_pids(a).push(p.pid)
        } else {
            socat_pids(a)
        }),
{
    reveal(Seq::filter);
    assert(a.push(p).drop_last() == a);
    assert(socat_pids(a.push(p)) =~= (if socat_command(p.comm) {
        socat_pids(a).push(p.pid)
    } else {
        socat_pids(a)
    }));
}

/// Appends the children of `pid` to `next`, and the socat processes among them
/// to `result`.
fn visit(procs: &[ProcInfo], pid: u32, next: &mut Vec<u32>, result: &mut Vec<u32>)
    ensures
        final(next)@ == old(next)@ + pids(children(proc_views(procs@), pid)),
        final(result)@ == old(result)@ + socat_pids(children(proc_views(procs@), pid)),
{
    let ghost all = proc_views(procs@);
    let ghost pred = child_of(pid);
    let mut j: usize = 0;
    proof {
        reveal(Seq::filter);
        assert(next@ =~= old(next)@ + pids(all.take(0).filter(pred)));
        assert(result@ =~= old(result)@ + socat_pids(all.take(0).filter(pred)));
    }
    while j < procs.len()
        invariant
            j <= procs@.len(),
            all == proc_views(procs@),
            pred == child_of(pid),
            next@ == old(next)@ + pids(all.take(j as int).filter(pred)),
            result@ == old(result)@ + socat_pids(all.take(j as int).filter(pred)),
        decreases procs@.len() - j,
    {
        let p: &ProcInfo = &procs[j];
        proof {
            lemma_filter_step(all, j as int, pred);
            let before = all.take(j as int).filter(pred);
            lemma_socat_pids_add(before, p@);
            assert(pids(before.push(p@)) =~= pids(before).push(p.pid));
        }
        if p.ppid == pid {
            if is_socat(p.comm.as_str()) {
                result.push(p.pid);
            }
            next.push(p.pid);
        }
        j += 1;
    }
    assert(all.take(j as int) == all);
}

/// All socat processes in the tree rooted at `root` (root always included), in
/// breadth-first order.
///
/// The tree must come to an end; [`has_finite_tree`] tells.
pub fn socat_tree(procs: &[ProcInfo], root: u32) -> (r: Vec<u32>)
    requires
        finite_tree(proc_views(procs@), root),
    ensures
        r@ == tree_of(proc_views(procs@), root),
{
    let ghost all = proc_views(procs@);
    let ghost end = choose|depth: nat| ends_at(all, root, depth);
    let ghost mut depth: nat = 0;
    let mut result: Vec<u32> = Vec::new();
    result.push(root);
    let mut current: Vec<u32> = Vec::new();
    current.push(root);
    assert(current@ =~= generation(all, root, 0));
    assert(result@ =~= socats_within(all, root, 0));
    while current.len() > 0
        invariant
            all == proc_views(procs@),
            ends_at(all, root, end),
            current@ == generation(all, root, depth),
            result@ == socats_within(all, root, depth),
        decreases end - depth,
    {
        proof {
            if end <= depth {
                lemma_beyond_the_end(all, root, end, depth);
            }
        }
        let ghost above = result@;
        let mut next: Vec<u32> = Vec::new();
        let mut i: usize = 0;
        proof {
            reveal(Seq::filter);
            assert(next@ =~= pids(offspring(all, current@.take(0))));
            assert(result@ =~= above + socat_pids(offspring(all, current@.take(0))));
        }
        while i < current.len()
            invariant
                i <= current@.len(),
                all == proc_views(procs@),
                next@ == pids(offspring(all, current@.take(i as int))),
                result@ == above + socat_pids(offspring(all, current@.take(i as int))),
            decreases current@.len() - i,
        {
            let ghost before = offspring(all, current@.take(i as int));
            let ghost more = children(all, current@[i as int]);
            visit(procs, current[i], &mut next, &mut result);
            proof {
                assert(current@.take(i + 1).drop_last() == current@.take(i as int));
                Seq::filter_distributes_over_add(before, more, runs_socat());
                assert(pids(before + more) =~= pids(before) + pids(more));
                assert(socat_pids(before + more) =~= socat_pids(before) + socat_pids(more));
                assert(result@ =~= above + socat_pids(before + more));
            }
            i += 1;
        }
        assert(current@.take(i as int) == current@);
        proof {
            depth = depth + 1;
        }
        current = next;
    }
    proof {
        tree_is_read_off_at_its_end(all, root, depth);
    }
    result
}

// ---------------------------------------------------------------------------
// Does the tree come to an end?
// ---------------------------------------------------------------------------

/// The place in the snapshot that a path has at step `j` is that of a child of
/// the step before it, and first of a child of `root`.
spec fn is_step(procs: Seq<ProcView>, root: u32, path: Seq<int>, j: int) -> bool {
    &&& 0 <= path[j] < procs.len()
    &&& procs[path[j]].ppid == (if j == 0 {
        root
    } else {
        procs[path[j - 1]].pid
    })
}

/// Places in the snapshot, each of the parent of the next, that lead down from
/// `root`.
spec fn is_path(procs: Seq<ProcView>, root: u32, path: Seq<int>) -> bool {
    forall|j: int| 0 <= j < path.len() ==> #[trigger] is_step(procs, root, path, j)
}

/// The process ids one step below `parents` are those of the processes whose
/// parent is among them.
proof fn lemma_offspring_members(procs: Seq<ProcView>, parents: Seq<u32>)
    ensures
        forall|x: u32| #[trigger]
            pids(offspring(procs, parents)).contains(x) <==> exists|i: int|
                0 <= i < procs.len() && (#[trigger] procs[i]).pid == x && parents.contains(
                    procs[i].ppid,
                ),
        forall|k: int|
            0 <= k < offspring(procs, parents).len() ==> {
                let p = #[trigger] offspring(procs, parents)[k];
                procs.contains(p) && parents.contains(p.ppid)
            },
        forall|i: int|
            0 <= i < procs.len() && parents.contains((#[trigger] procs[i]).ppid) ==> offspring(
                procs,
                parents,
            ).contains(procs[i]),
    decreases parents.len(),
{
    let all = offspring(procs, parents);
    if parents.len() > 0 {
        let init = parents.drop_last();
        let last = parents.last();
        lemma_offspring_members(procs, init);
        let pred = child_of(last);
        lemma_filter_members(procs, pred);
        let more = children(procs, last);
        let before = offspring(procs, init);
        assert forall|k: int| 0 <= k < all.len() implies {
            let p = #[trigger] all[k];
            procs.contains(p) && parents.contains(p.ppid)
        } by {
            if k < before.len() {
                let p = before[k];
                let m = choose|m: int| 0 <= m < init.len() && init[m] == p.ppid;
                assert(parents[m] == p.ppid);
            } else {
                let p = more[k - before.len()];
                assert(parents[parents.len() - 1] == p.ppid);
            }
        }
        assert forall|i: int|
            0 <= i < procs.len() && parents.contains((#[trigger] procs[i]).ppid) implies all.contains(
            procs[i],
        ) by {
            let m = choose|m: int| 0 <= m < parents.len() && parents[m] == procs[i].ppid;
            if m < init.len() {
                assert(init[m] == procs[i].ppid);
                let k = choose|k: int| 0 <= k < before.len() && before[k] == procs[i];
                assert(all[k] == procs[i]);
            } else {
                assert(pred(procs[i]));
                let k = choose|k: int| 0 <= k < more.len() && more[k] == procs[i];
                assert(all[before.len() + k] == procs[i]);
            }
        }
    }
    assert forall|x: u32| #[trigger] pids(all).contains(x) <==> exists|i: int|
        0 <= i < procs.len() && (#[trigger] procs[i]).pid == x && parents.contains(
            procs[i].ppid,
        ) by {
        if pids(all).contains(x) {
            let k = choose|k: int| 0 <= k < all.len() && pids(all)[k] == x;
            let p = all[k];
            let i = choose|i: int| 0 <= i < procs.len() && procs[i] == p;
            assert(procs[i].pid == x);
        }
        if exists|i: int|
            0 <= i < procs.len() && (#[trigger] procs[i]).pid == x && parents.contains(
                procs[i].ppid,
            ) {
            let i = choose|i: int|
                0 <= i < procs.len() && (#[trigger] procs[i]).pid == x && parents.contains(
                    procs[i].ppid,
                );
            let k = choose|k: int| 0 <= k < all.len() && all[k] == procs[i];
            assert(pids(all)[k] == x);
        }
    }
}

/// A process id some steps below `root` stands at the end of a path of as many
/// steps.
proof fn lemma_path_to(procs: Seq<ProcView>, root: u32, depth: nat, x: u32) -> (path: Seq<int>)
    requires
        depth > 0,
        generation(procs, root, depth).contains(x),
    ensures
        path.len() == depth,
        is_path(procs, root, path),
        procs[path.last()].pid == x,
    decreases depth,
{
    let above = (depth - 1) as nat;
    let parents = generation(procs, root, above);
    lemma_offspring_members(procs, parents);
    let i = choose|i: int|
        0 <= i < procs.len() && (#[trigger] procs[i]).pid == x && parents.contains(procs[i].ppid);
    if above == 0 {
        assert(parents[0] == root);
        seq![i]
    } else {
        let init = lemma_path_to(procs, root, above, procs[i].ppid);
        let path = init.push(i);
        assert forall|j: int| 0 <= j < path.len() implies #[trigger] is_step(
            procs,
            root,
            path,
            j,
        ) by {
            if j < init.len() {
                assert(is_step(procs, root, init, j));
            }
        }
        path
    }
}

/// The end of a path is as many steps below `root` as the path has.
proof fn lemma_path_reaches(procs: Seq<ProcView>, root: u32, path: Seq<int>)
    requires
        path.len() > 0,
        is_path(procs, root, path),
    ensures
        generation(procs, root, path.len()).contains(procs[path.last()].pid),
    decreases path.len(),
{
    let last = (path.len() - 1) as nat;
    let parents = generation(procs, root, last);
    assert(is_step(procs, root, path, last as int));
    if last == 0 {
        assert(parents[0] == root);
    } else {
        lemma_cut(procs, root, path, last);
        lemma_path_reaches(procs, root, path.take(last as int));
    }
    assert(parents.contains(procs[path.last()].ppid));
    lemma_offspring_members(procs, parents);
}

/// The front of a path is a path.
proof fn lemma_cut(procs: Seq<ProcView>, root: u32, path: Seq<int>, n: nat)
    requires
        n <= path.len(),
        is_path(procs, root, path),
    ensures
        is_path(procs, root, path.take(n as int)),
{
    let cut = path.take(n as int);
    assert forall|j: int| 0 <= j < cut.len() implies #[trigger] is_step(procs, root, cut, j) by {
        assert(is_step(procs, root, path, j));
    }
}

/// Where a path passes a place twice, it may go round once more.
proof fn lemma_go_round(procs: Seq<ProcView>, root: u32, path: Seq<int>, i: int, j: int)
    requires
        is_path(procs, root, path),
        0 <= i < j < path.len(),
        path[i] == path[j],
    ensures
        is_path(procs, root, path.take(j + 1) + path.skip(i + 1)),
{
    let longer = path.take(j + 1) + path.skip(i + 1);
    assert forall|k: int| 0 <= k < longer.len() implies #[trigger] is_step(
        procs,
        root,
        longer,
        k,
    ) by {
        if k <= j {
            assert(is_step(procs, root, path, k));
        } else {
            let m = k - j + i;
            assert(is_step(procs, root, path, m));
            assert(longer[k] == path[m]);
            if k == j + 1 {
                assert(longer[k - 1] == path[j]);
            } else {
                assert(longer[k - 1] == path[m - 1]);
            }
        }
    }
}

/// A path with more steps than there are processes passes one of them twice.
proof fn lemma_some_place_twice(path: Seq<int>, n: nat) -> (at: (int, int))
    requires
        path.len() > n,
        forall|j: int| 0 <= j < path.len() ==> 0 <= #[trigger] path[j] < n,
    ensures
        0 <= at.0 < at.1 < path.len(),
        path[at.0] == path[at.1],
{
    if forall|i: int, j: int| 0 <= i < j < path.len() ==> path[i] != path[j] {
        assert(path.no_duplicates());
        path.unique_seq_to_set();
        lemma_int_range(0, n as int);
        assert(path.to_set().subset_of(set_int_range(0, n as int)));
        lemma_len_subset(path.to_set(), set_int_range(0, n as int));
        assert(false);
    }
    let (i, j) = choose|i: int, j: int| 0 <= i < j < path.len() && path[i] == path[j];
    (i, j)
}

/// A path with more steps than there are processes can be drawn out to any
/// length.
proof fn lemma_endless(procs: Seq<ProcView>, root: u32, path: Seq<int>, depth: nat)
    requires
        path.len() > procs.len(),
        is_path(procs, root, path),
    ensures
        !ends_at(procs, root, depth),
    decreases
            if depth > path.len() {
                depth - path.len()
            } else {
                0
            },
{
    if depth == 0 {
    } else if depth <= path.len() {
        lemma_cut(procs, root, path, depth);
        lemma_path_reaches(procs, root, path.take(depth as int));
    } else {
        assert forall|j: int| 0 <= j < path.len() implies 0 <= #[trigger] path[j] < procs.len() by {
            assert(is_step(procs, root, path, j));
        }
        let (i, j) = lemma_some_place_twice(path, procs.len());
        lemma_go_round(procs, root, path, i, j);
        lemma_endless(procs, root, path.take(j + 1) + path.skip(i + 1), depth);
    }
}

/// A tree that comes to an end does so within as many steps as there are
/// processes.
pub proof fn trees_end_soon_or_never(procs: Seq<ProcView>, root: u32)
    ensures
        finite_tree(procs, root) <==> ends_at(procs, root, procs.len() + 1),
{
    let depth = procs.len() + 1;
    if !ends_at(procs, root, depth) {
        let x = generation(procs, root, depth)[0];
        assert(generation(procs, root, depth).contains(x));
        let path = lemma_path_to(procs, root, depth, x);
        assert forall|d: nat| !ends_at(procs, root, d) by {
            lemma_endless(procs, root, path, d);
        }
    }
}

fn has_pid(v: &Vec<u32>, pid: u32) -> (b: bool)
    ensures
        b == v@.contains(pid),
{
    let mut i: usize = 0;
    while i < v.len()
        invariant
            i <= v@.len(),
            forall|j: int| 0 <= j < i ==> v@[j] != pid,
        decreases v@.len() - i,
    {
        if v[i] == pid {
            return true;
        }
        i += 1;
    }
    false
}

/// Whether the tree under `root` comes to an end: whether no process is, by
/// what the snapshot says, below itself.
pub fn has_finite_tree(procs: &[ProcInfo], root: u32) -> (b: bool)
    ensures
        b == finite_tree(proc_views(procs@), root),
{
    let ghost all = proc_views(procs@);
    let n: usize = procs.len();
    let mut current: Vec<u32> = Vec::new();
    current.push(root);
    let mut depth: usize = 0;
    assert(current@ =~= generation(all, root, 0));
    loop
        invariant
            all == proc_views(procs@),
            n == procs@.len(),
            depth <= n,
            forall|x: u32|
                #![trigger current@.contains(x)]
                #![trigger generation(all, root, depth as nat).contains(x)]
                current@.contains(x) <==> generation(all, root, depth as nat).contains(x),
        decreases n - depth,
    {
        let mut next: Vec<u32> = Vec::new();
        let mut j: usize = 0;
        while j < n
            invariant
                j <= n == procs@.len(),
                all == proc_views(procs@),
                forall|x: u32| #[trigger]
                    next@.contains(x) <==> exists|i: int|
                        0 <= i < j && (#[trigger] all[i]).pid == x && current@.contains(
                            all[i].ppid,
                        ),
            decreases n - j,
        {
            let p: &ProcInfo = &procs[j];
            assert(all[j as int] == p@);
            let ghost before = next@;
            if has_pid(&current, p.ppid) && !has_pid(&next, p.pid) {
                next.push(p.pid);
                assert(next@[before.len() as int] == p.pid);
            }
            assert forall|x: u32| #[trigger] next@.contains(x) <==> exists|i: int|
                0 <= i < j + 1 && (#[trigger] all[i]).pid == x && current@.contains(
                    all[i].ppid,
                ) by {
                if next@.contains(x) {
                    let k = choose|k: int| 0 <= k < next@.len() && next@[k] == x;
                    if k < before.len() {
                        assert(before[k] == x);
                        assert(before.contains(x));
                    } else {
                        assert(all[j as int].pid == x);
                    }
                }
                if exists|i: int|
                    0 <= i < j + 1 && (#[trigger] all[i]).pid == x && current@.contains(
                        all[i].ppid,
                    ) {
                    let i = choose|i: int|
                        0 <= i < j + 1 && (#[trigger] all[i]).pid == x && current@.contains(
                            all[i].ppid,
                        );
                    if i < j {
                        assert(before.contains(x));
                    }
                    if before.contains(x) {
                        let k = choose|k: int| 0 <= k < before.len() && before[k] == x;
                        assert(next@[k] == x);
                    }
                }
            }
            j += 1;
        }
        proof {
            let parents = generation(all, root, depth as nat);
            lemma_offspring_members(all, parents);
            let below = generation(all, root, (depth + 1) as nat);
            assert(below == pids(offspring(all, parents)));
            assert forall|x: u32| next@.contains(x) <==> below.contains(x) by {
                if next@.contains(x) {
                    let i = choose|i: int|
                        0 <= i < n && (#[trigger] all[i]).pid == x && current@.contains(
                            all[i].ppid,
                        );
                    assert(parents.contains(all[i].ppid));
                }
                if below.contains(x) {
                    let i = choose|i: int|
                        0 <= i < all.len() && (#[trigger] all[i]).pid == x && parents.contains(
                            all[i].ppid,
                        );
                    assert(current@.contains(all[i].ppid));
                }
            }
            if below.len() > 0 {
                assert(below.contains(below[0]));
            }
            if next@.len() > 0 {
                assert(next@.contains(next@[0]));
                assert(below.len() > 0);
            }
        }
        if next.len() == 0 {
            assert(ends_at(all, root, (depth + 1) as nat));
            return true;
        }
        if depth == n {
            proof {
                trees_end_soon_or_never(all, root);
            }
            return false;
        }
        depth += 1;
        current = next;
    }
}

// ---------------------------------------------------------------------------
// What holds of every tree
// ---------------------------------------------------------------------------

/// `pid` is some steps below `root`.
pub open spec fn below(procs: Seq<ProcView>, root: u32, pid: u32) -> bool {
    exists|depth: nat| depth > 0 && #[trigger] generation(procs, root, depth).contains(pid)
}

/// A list of process ids is a stretch at the front of another.
proof fn lemma_prefix(procs: Seq<ProcView>, root: u32, upper: nat, lower: nat)
    requires
        upper <= lower,
    ensures
        socats_within(procs, root, upper).is_prefix_of(socats_within(procs, root, lower)),
    decreases lower,
{
    if upper < lower {
        lemma_prefix(procs, root, upper, (lower - 1) as nat);
    }
}

/// The root stands first in its tree, whatever its command is.
pub proof fn root_comes_first(procs: Seq<ProcView>, root: u32)
    ensures
        tree_of(procs, root).len() > 0,
        tree_of(procs, root)[0] == root,
{
    let end = choose|depth: nat| ends_at(procs, root, depth);
    lemma_prefix(procs, root, 0, end);
    assert(socats_within(procs, root, 0)[0] == root);
    assert(tree_of(procs, root).subrange(0, 1)[0] == tree_of(procs, root)[0]);
}

/// The order is breadth-first: what is within some number of steps stands
/// before everything that is further down.
pub proof fn nearer_processes_come_first(procs: Seq<ProcView>, root: u32, depth: nat)
    requires
        finite_tree(procs, root),
    ensures
        socats_within(procs, root, depth).is_prefix_of(tree_of(procs, root)),
{
    let end = choose|d: nat| ends_at(procs, root, d);
    if depth <= end {
        lemma_prefix(procs, root, depth, end);
    } else {
        lemma_beyond_the_end(procs, root, end, depth);
    }
}

/// After the root stand only socat processes from below it: no other program is
/// ever in a tree.
pub proof fn only_socat_processes_follow(procs: Seq<ProcView>, root: u32, k: int)
    requires
        0 < k < tree_of(procs, root).len(),
    ensures
        below(procs, root, tree_of(procs, root)[k]),
        exists|i: int|
            0 <= i < procs.len() && (#[trigger] procs[i]).pid == tree_of(procs, root)[k]
                && socat_command(procs[i].comm),
{
    let end = choose|depth: nat| ends_at(procs, root, depth);
    lemma_only_socat_within(procs, root, end, k);
}

proof fn lemma_only_socat_within(procs: Seq<ProcView>, root: u32, depth: nat, k: int)
    requires
        0 < k < socats_within(procs, root, depth).len(),
    ensures
        below(procs, root, socats_within(procs, root, depth)[k]),
        exists|i: int|
            0 <= i < procs.len() && (#[trigger] procs[i]).pid == socats_within(
                procs,
                root,
                depth,
            )[k] && socat_command(procs[i].comm),
    decreases depth,
{
    let above = (depth - 1) as nat;
    let upper = socats_within(procs, root, above);
    if k < upper.len() {
        lemma_only_socat_within(procs, root, above, k);
    } else {
        let parents = generation(procs, root, above);
        let born = offspring(procs, parents);
        let pred = runs_socat();
        let m = k - upper.len();
        let p = born.filter(pred)[m];
        assert(socat_pids(born)[m] == p.pid);
        lemma_filter_members(born, pred);
        lemma_offspring_members(procs, parents);
        let b = choose|b: int| 0 <= b < born.len() && born[b] == p;
        let i = choose|i: int| 0 <= i < procs.len() && procs[i] == born[b];
        assert(procs[i].pid == p.pid);
        assert(pids(born)[b] == p.pid);
        assert(generation(procs, root, depth).contains(p.pid));
    }
}

/// Every socat process whose parent is the root or below it is in the tree.
pub proof fn every_socat_process_is_there(procs: Seq<ProcView>, root: u32, i: int)
    requires
        finite_tree(procs, root),
        0 <= i < procs.len(),
        procs[i].ppid == root || below(procs, root, procs[i].ppid),
        socat_command(procs[i].comm),
    ensures
        tree_of(procs, root).contains(procs[i].pid),
{
    let depth: nat = if procs[i].ppid == root {
        0
    } else {
        choose|d: nat| d > 0 && #[trigger] generation(procs, root, d).contains(procs[i].ppid)
    };
    let parents = generation(procs, root, depth);
    if procs[i].ppid == root {
        assert(parents[0] == root);
    }
    lemma_offspring_members(procs, parents);
    let born = offspring(procs, parents);
    let b = choose|b: int| 0 <= b < born.len() && born[b] == procs[i];
    let pred = runs_socat();
    lemma_filter_members(born, pred);
    assert(pred(born[b]));
    let m = choose|m: int| 0 <= m < born.filter(pred).len() && born.filter(pred)[m] == born[b];
    assert(socat_pids(born)[m] == procs[i].pid);
    let within = socats_within(procs, root, (depth + 1) as nat);
    let upper = socats_within(procs, root, depth);
    assert(within[upper.len() + m] == procs[i].pid);
    nearer_processes_come_first(procs, root, (depth + 1) as nat);
    assert(tree_of(procs, root)[upper.len() + m] == procs[i].pid);
}

// ---------------------------------------------------------------------------
// Trees, by what the snapshot says of parents
// ---------------------------------------------------------------------------

/// The snapshot has a process `chain[j]` whose parent is `chain[j - 1]`.
pub open spec fn is_link(procs: Seq<ProcView>, chain: Seq<u32>, j: int) -> bool {
    exists|i: int|
        0 <= i < procs.len() && (#[trigger] procs[i]).ppid == chain[j - 1] && procs[i].pid
            == chain[j]
}

/// Process ids, each of the parent of the next, that lead down from `root` to
/// `pid`.
pub open spec fn leads(procs: Seq<ProcView>, chain: Seq<u32>, root: u32, pid: u32) -> bool {
    &&& chain.len() > 0
    &&& chain[0] == root
    &&& chain.last() == pid
    &&& forall|j: int| 0 < j < chain.len() ==> #[trigger] is_link(procs, chain, j)
}

/// The process `pid` is a child of `root`, or of a child of it, and so on.
pub open spec fn descends(procs: Seq<ProcView>, root: u32, pid: u32) -> bool {
    exists|chain: Seq<u32>| chain.len() > 1 && #[trigger] leads(procs, chain, root, pid)
}

/// No two processes of a snapshot have the same id.
pub open spec fn distinct_pids(procs: Seq<ProcView>) -> bool {
    forall|i: int, j: int|
        0 <= i < j < procs.len() ==> (#[trigger] procs[i]).pid != (#[trigger] procs[j]).pid
}

/// The ids of the socat processes that descend from `root`.
pub open spec fn socats_below(procs: Seq<ProcView>, root: u32) -> Set<u32> {
    Set::new(
        |pid: u32|
            exists|i: int|
                0 <= i < procs.len() && (#[trigger] procs[i]).pid == pid && socat_command(
                    procs[i].comm,
                ) && descends(procs, root, pid),
    )
}

/// A process that is some steps below `root` is led to by a chain of as many.
proof fn lemma_chain_to(procs: Seq<ProcView>, root: u32, depth: nat, x: u32) -> (chain: Seq<u32>)
    requires
        generation(procs, root, depth).contains(x),
    ensures
        leads(procs, chain, root, x),
        chain.len() == depth + 1,
    decreases depth,
{
    if depth == 0 {
        seq![x]
    } else {
        let parents = generation(procs, root, (depth - 1) as nat);
        lemma_offspring_members(procs, parents);
        let i = choose|i: int|
            0 <= i < procs.len() && (#[trigger] procs[i]).pid == x && parents.contains(
                procs[i].ppid,
            );
        let init = lemma_chain_to(procs, root, (depth - 1) as nat, procs[i].ppid);
        let chain = init.push(x);
        assert forall|j: int| 0 < j < chain.len() implies #[trigger] is_link(procs, chain, j) by {
            if j < init.len() {
                assert(is_link(procs, init, j));
                let k = choose|k: int|
                    0 <= k < procs.len() && (#[trigger] procs[k]).ppid == init[j - 1]
                        && procs[k].pid == init[j];
                assert(procs[k].ppid == chain[j - 1] && procs[k].pid == chain[j]);
            } else {
                assert(procs[i].ppid == chain[j - 1] && procs[i].pid == chain[j]);
            }
        }
        chain
    }
}

/// A chain leads as many steps below `root` as it has.
proof fn lemma_chain_reaches(procs: Seq<ProcView>, root: u32, chain: Seq<u32>, x: u32)
    requires
        leads(procs, chain, root, x),
    ensures
        generation(procs, root, (chain.len() - 1) as nat).contains(x),
    decreases chain.len(),
{
    let depth = (chain.len() - 1) as nat;
    if depth == 0 {
        assert(generation(procs, root, 0)[0] == x);
    } else {
        let init = chain.drop_last();
        assert forall|j: int| 0 < j < init.len() implies #[trigger] is_link(procs, init, j) by {
            assert(is_link(procs, chain, j));
            let k = choose|k: int|
                0 <= k < procs.len() && (#[trigger] procs[k]).ppid == chain[j - 1] && procs[k].pid
                    == chain[j];
            assert(procs[k].ppid == init[j - 1] && procs[k].pid == init[j]);
        }
        lemma_chain_reaches(procs, root, init, init.last());
        assert(is_link(procs, chain, depth as int));
        let i = choose|i: int|
            0 <= i < procs.len() && (#[trigger] procs[i]).ppid == chain[depth - 1] && procs[i].pid
                == chain[depth as int];
        let parents = generation(procs, root, (depth - 1) as nat);
        assert(parents.contains(procs[i].ppid));
        lemma_offspring_members(procs, parents);
    }
}

/// A process is below another exactly when it descends from it.
pub proof fn what_is_below_descends(procs: Seq<ProcView>, root: u32, pid: u32)
    ensures
        below(procs, root, pid) <==> descends(procs, root, pid),
{
    if below(procs, root, pid) {
        let depth = choose|depth: nat|
            depth > 0 && #[trigger] generation(procs, root, depth).contains(pid);
        let chain = lemma_chain_to(procs, root, depth, pid);
        assert(leads(procs, chain, root, pid));
    }
    if descends(procs, root, pid) {
        let chain = choose|chain: Seq<u32>|
            chain.len() > 1 && #[trigger] leads(procs, chain, root, pid);
        lemma_chain_reaches(procs, root, chain, pid);
        assert(generation(procs, root, (chain.len() - 1) as nat).contains(pid));
    }
}

proof fn lemma_compose(procs: Seq<ProcView>, root: u32, y: u32, m: nat, k: nat, z: u32)
    requires
        generation(procs, root, m).contains(y),
        generation(procs, y, k).contains(z),
    ensures
        generation(procs, root, m + k).contains(z),
    decreases k,
{
    if k > 0 {
        let near = generation(procs, y, (k - 1) as nat);
        let far = generation(procs, root, (m + k - 1) as nat);
        lemma_offspring_members(procs, near);
        let i = choose|i: int|
            0 <= i < procs.len() && (#[trigger] procs[i]).pid == z && near.contains(procs[i].ppid);
        lemma_compose(procs, root, y, m, (k - 1) as nat, procs[i].ppid);
        assert(far.contains(procs[i].ppid));
        lemma_offspring_members(procs, far);
    }
}

proof fn lemma_round_and_round(procs: Seq<ProcView>, root: u32, k: nat, n: nat)
    requires
        generation(procs, root, k).contains(root),
    ensures
        generation(procs, root, n * k).contains(root),
    decreases n,
{
    if n == 0 {
        assert(generation(procs, root, 0)[0] == root);
        assert(n * k == 0) by (nonlinear_arith)
            requires
                n == 0,
        ;
    } else {
        let m = (n - 1) as nat;
        lemma_round_and_round(procs, root, k, m);
        lemma_compose(procs, root, root, m * k, k, root);
        assert(m * k + k == n * k) by (nonlinear_arith)
            requires
                m == n - 1,
        ;
    }
}

/// In a tree that ends, the root is not below itself.
proof fn lemma_root_not_below(procs: Seq<ProcView>, root: u32, k: nat)
    requires
        finite_tree(procs, root),
        k > 0,
    ensures
        !generation(procs, root, k).contains(root),
{
    if generation(procs, root, k).contains(root) {
        let end = choose|end: nat| ends_at(procs, root, end);
        lemma_round_and_round(procs, root, k, end);
        assert(end <= end * k) by (nonlinear_arith)
            requires
                k > 0,
        ;
        lemma_beyond_the_end(procs, root, end, end * k);
    }
}

/// Where ids are distinct, a process that is at two depths puts the root below
/// itself.
proof fn lemma_two_depths(procs: Seq<ProcView>, root: u32, a: nat, b: nat, x: u32)
    requires
        distinct_pids(procs),
        a < b,
        generation(procs, root, a).contains(x),
        generation(procs, root, b).contains(x),
    ensures
        generation(procs, root, (b - a) as nat).contains(root),
    decreases a,
{
    if a > 0 {
        let pa = generation(procs, root, (a - 1) as nat);
        let pb = generation(procs, root, (b - 1) as nat);
        lemma_offspring_members(procs, pa);
        lemma_offspring_members(procs, pb);
        let i = choose|i: int|
            0 <= i < procs.len() && (#[trigger] procs[i]).pid == x && pa.contains(procs[i].ppid);
        let j = choose|j: int|
            0 <= j < procs.len() && (#[trigger] procs[j]).pid == x && pb.contains(procs[j].ppid);
        if i < j {
            assert(procs[i].pid != procs[j].pid);
        }
        if j < i {
            assert(procs[j].pid != procs[i].pid);
        }
        lemma_two_depths(procs, root, (a - 1) as nat, (b - 1) as nat, procs[i].ppid);
    } else {
        assert(generation(procs, root, 0)[0] == x);
    }
}

/// Where ids are distinct and the tree ends, every process has one depth.
proof fn lemma_one_depth(procs: Seq<ProcView>, root: u32, a: nat, b: nat, x: u32)
    requires
        finite_tree(procs, root),
        distinct_pids(procs),
        generation(procs, root, a).contains(x),
        generation(procs, root, b).contains(x),
    ensures
        a == b,
{
    if a < b {
        lemma_two_depths(procs, root, a, b, x);
        lemma_root_not_below(procs, root, (b - a) as nat);
    }
    if b < a {
        lemma_two_depths(procs, root, b, a, x);
        lemma_root_not_below(procs, root, (a - b) as nat);
    }
}

proof fn lemma_filter_distinct(s: Seq<ProcView>, pred: spec_fn(ProcView) -> bool)
    requires
        distinct_pids(s),
    ensures
        distinct_pids(s.filter(pred)),
    decreases s.len(),
{
    reveal(Seq::filter);
    if s.len() > 0 {
        let init = s.drop_last();
        assert forall|i: int, j: int| 0 <= i < j < init.len() implies (#[trigger] init[i]).pid != (
        #[trigger] init[j]).pid by {
            assert(s[i].pid != s[j].pid);
        }
        lemma_filter_distinct(init, pred);
        lemma_filter_members(init, pred);
        let before = init.filter(pred);
        let all = s.filter(pred);
        assert forall|i: int, j: int| 0 <= i < j < all.len() implies (#[trigger] all[i]).pid != (
        #[trigger] all[j]).pid by {
            if j < before.len() {
                assert(before[i].pid != before[j].pid);
            } else {
                assert(init.contains(before[i]));
                let m = choose|m: int| 0 <= m < init.len() && init[m] == before[i];
                assert(s[m].pid != s[s.len() - 1].pid);
            }
        }
    }
}

proof fn lemma_offspring_distinct(procs: Seq<ProcView>, parents: Seq<u32>)
    requires
        distinct_pids(procs),
        parents.no_duplicates(),
    ensures
        distinct_pids(offspring(procs, parents)),
    decreases parents.len(),
{
    if parents.len() > 0 {
        let init = parents.drop_last();
        let last = parents.last();
        assert forall|i: int, j: int| 0 <= i < init.len() && 0 <= j < init.len() && i != j implies (
        #[trigger] init[i]) != (#[trigger] init[j]) by {
            assert(parents[i] != parents[j]);
        }
        lemma_offspring_distinct(procs, init);
        lemma_filter_distinct(procs, child_of(last));
        lemma_filter_members(procs, child_of(last));
        lemma_offspring_members(procs, init);
        let before = offspring(procs, init);
        let more = children(procs, last);
        let all = offspring(procs, parents);
        assert forall|i: int, j: int| 0 <= i < j < all.len() implies (#[trigger] all[i]).pid != (
        #[trigger] all[j]).pid by {
            if j < before.len() {
                assert(before[i].pid != before[j].pid);
            } else if i >= before.len() {
                assert(more[i - before.len()].pid != more[j - before.len()].pid);
            } else {
                let p = before[i];
                let q = more[j - before.len()];
                assert(child_of(last)(q));
                let a = choose|a: int| 0 <= a < procs.len() && procs[a] == p;
                let b = choose|b: int| 0 <= b < procs.len() && procs[b] == q;
                let m = choose|m: int| 0 <= m < init.len() && init[m] == p.ppid;
                assert(parents[m] != parents[parents.len() - 1]);
                if a < b {
                    assert(procs[a].pid != procs[b].pid);
                }
                if b < a {
                    assert(procs[b].pid != procs[a].pid);
                }
            }
        }
    }
}

proof fn lemma_generation_distinct(procs: Seq<ProcView>, root: u32, depth: nat)
    requires
        distinct_pids(procs),
    ensures
        generation(procs, root, depth).no_duplicates(),
    decreases depth,
{
    if depth > 0 {
        let above = (depth - 1) as nat;
        lemma_generation_distinct(procs, root, above);
        let born = offspring(procs, generation(procs, root, above));
        lemma_offspring_distinct(procs, generation(procs, root, above));
        let g = generation(procs, root, depth);
        assert forall|i: int, j: int| 0 <= i < g.len() && 0 <= j < g.len() && i != j implies (
        #[trigger] g[i]) != (#[trigger] g[j]) by {
            if i < j {
                assert(born[i].pid != born[j].pid);
            } else {
                assert(born[j].pid != born[i].pid);
            }
        }
    }
}

/// The depth at which the process at place `k` of a tree was found.
proof fn lemma_level(procs: Seq<ProcView>, root: u32, depth: nat, k: int) -> (d: nat)
    requires
        0 <= k < socats_within(procs, root, depth).len(),
    ensures
        d <= depth,
        generation(procs, root, d).contains(socats_within(procs, root, depth)[k]),
        d == 0 <==> k == 0,
    decreases depth,
{
    if depth == 0 {
        assert(generation(procs, root, 0)[0] == root);
        0
    } else {
        let above = (depth - 1) as nat;
        let upper = socats_within(procs, root, above);
        lemma_prefix(procs, root, 0, above);
        if k < upper.len() {
            lemma_level(procs, root, above, k)
        } else {
            let born = offspring(procs, generation(procs, root, above));
            let pred = runs_socat();
            lemma_filter_members(born, pred);
            let p = born.filter(pred)[k - upper.len()];
            assert(socat_pids(born)[k - upper.len()] == p.pid);
            let b = choose|b: int| 0 <= b < born.len() && born[b] == p;
            assert(pids(born)[b] == p.pid);
            assert(upper.len() > 0) by {
                assert(socats_within(procs, root, 0).len() == 1);
            }
            depth
        }
    }
}

proof fn lemma_levels_rise(procs: Seq<ProcView>, root: u32, depth: nat, j: int, k: int) -> (at: (
    nat,
    nat,
))
    requires
        0 <= j < k < socats_within(procs, root, depth).len(),
    ensures
        at.0 <= at.1 <= depth,
        generation(procs, root, at.0).contains(socats_within(procs, root, depth)[j]),
        generation(procs, root, at.1).contains(socats_within(procs, root, depth)[k]),
    decreases depth,
{
    let above = (depth - 1) as nat;
    let upper = socats_within(procs, root, above);
    if k < upper.len() {
        lemma_levels_rise(procs, root, above, j, k)
    } else {
        let born = offspring(procs, generation(procs, root, above));
        let pred = runs_socat();
        lemma_filter_members(born, pred);
        let p = born.filter(pred)[k - upper.len()];
        assert(socat_pids(born)[k - upper.len()] == p.pid);
        let b = choose|b: int| 0 <= b < born.len() && born[b] == p;
        assert(pids(born)[b] == p.pid);
        let d = lemma_level(procs, root, depth, j);
        (d, depth)
    }
}

proof fn lemma_within_distinct(procs: Seq<ProcView>, root: u32, depth: nat)
    requires
        finite_tree(procs, root),
        distinct_pids(procs),
    ensures
        socats_within(procs, root, depth).no_duplicates(),
    decreases depth,
{
    if depth > 0 {
        let above = (depth - 1) as nat;
        lemma_within_distinct(procs, root, above);
        let upper = socats_within(procs, root, above);
        let parents = generation(procs, root, above);
        let born = offspring(procs, parents);
        lemma_generation_distinct(procs, root, above);
        lemma_offspring_distinct(procs, parents);
        lemma_filter_distinct(born, runs_socat());
        lemma_filter_members(born, runs_socat());
        let more = born.filter(runs_socat());
        let all = socats_within(procs, root, depth);
        assert forall|i: int, j: int| 0 <= i < j < all.len() implies (#[trigger] all[i]) != (
        #[trigger] all[j]) by {
            if j < upper.len() {
                assert(upper[i] != upper[j]);
            } else if i >= upper.len() {
                assert(more[i - upper.len()].pid != more[j - upper.len()].pid);
            } else {
                let d = lemma_level(procs, root, above, i);
                let q = more[j - upper.len()];
                let b = choose|b: int| 0 <= b < born.len() && born[b] == q;
                assert(pids(born)[b] == q.pid);
                assert(generation(procs, root, depth).contains(q.pid));
                if all[i] == all[j] {
                    lemma_one_depth(procs, root, d, depth, q.pid);
                }
            }
        }
        assert forall|i: int, j: int| 0 <= i < all.len() && 0 <= j < all.len() && i != j implies (
        #[trigger] all[i]) != (#[trigger] all[j]) by {
            if i > j {
                assert(all[j] != all[i]);
            }
        }
    }
}

/// A tree names no process twice.
pub proof fn trees_name_nothing_twice(procs: Seq<ProcView>, root: u32)
    requires
        finite_tree(procs, root),
        distinct_pids(procs),
    ensures
        tree_of(procs, root).no_duplicates(),
{
    lemma_within_distinct(procs, root, choose|depth: nat| ends_at(procs, root, depth));
}

/// After the root, a tree is the socat processes that descend from it, all of them
/// and each once.
pub proof fn trees_are_the_socat_processes_below(procs: Seq<ProcView>, root: u32)
    requires
        finite_tree(procs, root),
        distinct_pids(procs),
    ensures
        tree_of(procs, root).skip(1).to_set() == socats_below(procs, root),
        socats_below(procs, root).finite(),
        tree_of(procs, root).len() == 1 + socats_below(procs, root).len(),
{
    let tree = tree_of(procs, root);
    let rest = tree.skip(1);
    root_comes_first(procs, root);
    trees_name_nothing_twice(procs, root);
    assert forall|x: u32| #[trigger] rest.to_set().contains(x) <==> socats_below(
        procs,
        root,
    ).contains(x) by {
        if rest.to_set().contains(x) {
            let k = choose|k: int| 0 <= k < rest.len() && rest[k] == x;
            assert(tree[k + 1] == x);
            only_socat_processes_follow(procs, root, k + 1);
            what_is_below_descends(procs, root, x);
        }
        if socats_below(procs, root).contains(x) {
            let i = choose|i: int|
                0 <= i < procs.len() && (#[trigger] procs[i]).pid == x && socat_command(
                    procs[i].comm,
                ) && descends(procs, root, x);
            what_is_below_descends(procs, root, x);
            let depth = choose|depth: nat|
                depth > 0 && #[trigger] generation(procs, root, depth).contains(x);
            let parents = generation(procs, root, (depth - 1) as nat);
            lemma_offspring_members(procs, parents);
            let j = choose|j: int|
                0 <= j < procs.len() && (#[trigger] procs[j]).pid == x && parents.contains(
                    procs[j].ppid,
                );
            if i < j {
                assert(procs[i].pid != procs[j].pid);
            }
            if j < i {
                assert(procs[j].pid != procs[i].pid);
            }
            if depth > 1 {
                assert(generation(procs, root, (depth - 1) as nat).contains(procs[i].ppid));
                assert(below(procs, root, procs[i].ppid));
            } else {
                assert(parents[0] == root);
            }
            every_socat_process_is_there(procs, root, i);
            let k = choose|k: int| 0 <= k < tree.len() && tree[k] == x;
            if k == 0 {
                lemma_root_not_below(procs, root, depth);
            }
            assert(rest[k - 1] == x);
        }
    }
    assert(rest.to_set() =~= socats_below(procs, root));
    assert forall|i: int, j: int| 0 <= i < rest.len() && 0 <= j < rest.len() && i != j implies (
    #[trigger] rest[i]) != (#[trigger] rest[j]) by {
        assert(tree[i + 1] != tree[j + 1]);
    }
    rest.unique_seq_to_set();
}

/// A tree goes level by level: no process stands before one that is fewer steps
/// below the root.
pub proof fn trees_go_level_by_level(
    procs: Seq<ProcView>,
    root: u32,
    j: int,
    k: int,
    upper: Seq<u32>,
    lower: Seq<u32>,
)
    requires
        finite_tree(procs, root),
        distinct_pids(procs),
        0 <= j < k < tree_of(procs, root).len(),
        leads(procs, upper, root, tree_of(procs, root)[j]),
        leads(procs, lower, root, tree_of(procs, root)[k]),
    ensures
        upper.len() <= lower.len(),
{
    let end = choose|depth: nat| ends_at(procs, root, depth);
    let (a, b) = lemma_levels_rise(procs, root, end, j, k);
    let tree = tree_of(procs, root);
    lemma_chain_reaches(procs, root, upper, tree[j]);
    lemma_chain_reaches(procs, root, lower, tree[k]);
    lemma_one_depth(procs, root, a, (upper.len() - 1) as nat, tree[j]);
    lemma_one_depth(procs, root, b, (lower.len() - 1) as nat, tree[k]);
}

/// A tree ends unless some process below the root descends from itself.
pub proof fn trees_end_unless_they_go_round(procs: Seq<ProcView>, root: u32)
    ensures
        finite_tree(procs, root) <==> forall|pid: u32| #[trigger]
            descends(procs, pid, pid) ==> pid != root && !descends(procs, root, pid),
{
    if finite_tree(procs, root) {
        assert forall|pid: u32| #[trigger] descends(procs, pid, pid) implies pid != root
            && !descends(procs, root, pid) by {
            what_is_below_descends(procs, pid, pid);
            let k = choose|k: nat| k > 0 && #[trigger] generation(procs, pid, k).contains(pid);
            if pid == root {
                lemma_root_not_below(procs, root, k);
            }
            if descends(procs, root, pid) {
                what_is_below_descends(procs, root, pid);
                let m = choose|m: nat| m > 0 && #[trigger] generation(procs, root, m).contains(pid);
                let end = choose|end: nat| ends_at(procs, root, end);
                lemma_round_and_round(procs, pid, k, end);
                lemma_compose(procs, root, pid, m, end * k, pid);
                assert(end <= m + end * k) by (nonlinear_arith)
                    requires
                        k > 0,
                ;
                lemma_beyond_the_end(procs, root, end, m + end * k);
            }
        }
    } else {
        let depth = procs.len() + 1;
        trees_end_soon_or_never(procs, root);
        let x = generation(procs, root, depth)[0];
        assert(generation(procs, root, depth).contains(x));
        let path = lemma_path_to(procs, root, depth, x);
        assert forall|j: int| 0 <= j < path.len() implies 0 <= #[trigger] path[j] < procs.len() by {
            assert(is_step(procs, root, path, j));
        }
        let (i, j) = lemma_some_place_twice(path, procs.len());
        let pid = procs[path[i]].pid;
        lemma_cut(procs, root, path, (i + 1) as nat);
        lemma_path_reaches(procs, root, path.take(i + 1));
        assert(generation(procs, root, (i + 1) as nat).contains(pid));
        what_is_below_descends(procs, root, pid);
        // the stretch between the two places leads from the process to itself
        let round = path.subrange(i + 1, j + 1);
        assert forall|m: int| 0 <= m < round.len() implies #[trigger] is_step(
            procs,
            pid,
            round,
            m,
        ) by {
            assert(is_step(procs, root, path, i + 1 + m));
        }
        lemma_path_reaches(procs, pid, round);
        assert(generation(procs, pid, (j - i) as nat).contains(pid));
        what_is_below_descends(procs, pid, pid);
    }
}

/// A command is one of socat exactly when what stands after its last slash, or the
/// whole where there is none, begins with those five letters.
pub proof fn socat_commands_begin_with_socat(comm: Seq<char>)
    ensures
        socat_command(comm) <==> exists|at: int|
            #![trigger comm.skip(at)]
            0 <= at <= comm.len() && (at == 0 || comm[at - 1] == '/') && !comm.skip(at).contains(
                '/',
            ) && seq!['s', 'o', 'c', 'a', 't'].is_prefix_of(comm.skip(at)),
{
    reveal_strlit("socat");
    assert("socat"@ =~= seq!['s', 'o', 'c', 'a', 't']);
    let at = lemma_base_name(comm);
    let base = base_name(comm);
    if socat_command(comm) {
        assert(base.subrange(0, 5) == "socat"@);
        assert(seq!['s', 'o', 'c', 'a', 't'].is_prefix_of(comm.skip(at)));
    }
    if exists|b: int|
        #![trigger comm.skip(b)]
        0 <= b <= comm.len() && (b == 0 || comm[b - 1] == '/') && !comm.skip(b).contains('/')
            && seq!['s', 'o', 'c', 'a', 't'].is_prefix_of(comm.skip(b)) {
        let b = choose|b: int|
            #![trigger comm.skip(b)]
            0 <= b <= comm.len() && (b == 0 || comm[b - 1] == '/') && !comm.skip(b).contains('/')
                && seq!['s', 'o', 'c', 'a', 't'].is_prefix_of(comm.skip(b));
        if b < at {
            assert(comm.skip(b)[at - 1 - b] == '/');
        }
        if at < b {
            assert(comm.skip(at)[b - 1 - at] == '/');
        }
        assert(base.subrange(0, 5) =~= "socat"@);
    }
}

proof fn lemma_base_name(path: Seq<char>) -> (at: int)
    ensures
        0 <= at <= path.len(),
        at == 0 || path[at - 1] == '/',
        base_name(path) == path.skip(at),
        !path.skip(at).contains('/'),
    decreases path.len(),
{
    if path.len() == 0 || path.last() == '/' {
        assert(path.skip(path.len() as int) =~= seq![]);
        path.len() as int
    } else {
        let init = path.drop_last();
        let at = lemma_base_name(init);
        assert(init.skip(at).push(path.last()) =~= path.skip(at));
        assert forall|i: int| 0 <= i < path.skip(at).len() implies path.skip(at)[i] != '/' by {
            if i < init.skip(at).len() {
                assert(init.skip(at)[i] != '/');
            }
        }
        at
    }
}

// ---------------------------------------------------------------------------
// What `ps` tells is read
// ---------------------------------------------------------------------------

/// Nothing but white space.
pub open spec fn is_gap(s: Seq<char>) -> bool {
    forall|i: int| 0 <= i < s.len() ==> is_white(#[trigger] s[i])
}

/// Something, and no white space in it.
pub open spec fn is_word(s: Seq<char>) -> bool {
    s.len() > 0 && forall|i: int| 0 <= i < s.len() ==> !is_white(#[trigger] s[i])
}

proof fn lemma_gap(s: Seq<char>)
    requires
        is_gap(s),
    ensures
        runs(s, Class::Word) == Seq::<Seq<char>>::empty(),
{
    assert forall|i: int| 0 <= i < s.len() implies !Class::Word.has(#[trigger] s[i]) by {
        assert(is_white(s[i]));
    }
    lemma_no_run(s, Class::Word);
}

proof fn lemma_word(s: Seq<char>)
    requires
        is_word(s),
    ensures
        runs(s, Class::Word) == seq![s],
{
    assert forall|i: int| 0 <= i < s.len() implies Class::Word.has(#[trigger] s[i]) by {
        assert(!is_white(s[i]));
    }
    lemma_one_run(s, Class::Word);
}

proof fn lemma_words(words: Seq<Seq<char>>)
    requires
        forall|i: int| 0 <= i < words.len() ==> is_word(#[trigger] words[i]),
    ensures
        runs(joined(words, " "@), Class::Word) == words,
        words.len() > 0 ==> joined(words, " "@).len() > 0,
    decreases words.len(),
{
    reveal_strlit(" ");
    if words.len() == 0 {
        assert(runs(joined(words, " "@), Class::Word) =~= words);
    } else if words.len() == 1 {
        assert(is_word(words[0]));
        lemma_word(words[0]);
        assert(seq![words[0]] =~= words);
    } else {
        let init = words.drop_last();
        let last = words.last();
        assert forall|i: int| 0 <= i < init.len() implies is_word(#[trigger] init[i]) by {
            assert(is_word(words[i]));
        }
        lemma_words(init);
        assert(is_word(words[words.len() - 1]));
        lemma_word(last);
        let a = joined(init, " "@);
        assert(is_gap(" "@));
        lemma_gap(" "@);
        lemma_runs_meet(a, " "@, Class::Word);
        assert(is_white((a + " "@).last()));
        lemma_runs_meet(a + " "@, last, Class::Word);
        assert(runs(joined(words, " "@), Class::Word) =~= words);
    }
}

proof fn lemma_number_is_word(n: nat)
    ensures
        is_word(decimal(n)),
{
    decimal_denotes_its_number(n);
    assert forall|i: int| 0 <= i < decimal(n).len() implies !is_white(
        #[trigger] decimal(n)[i],
    ) by {
        assert(is_digit(decimal(n)[i]));
    }
}

/// A line of `ps` is read as the two ids and the words of the command, whatever
/// white space stands before and between them.
pub proof fn lines_of_ps_are_read(
    indent: Seq<char>,
    pid: u32,
    first: Seq<char>,
    ppid: u32,
    second: Seq<char>,
    words: Seq<Seq<char>>,
)
    requires
        is_gap(indent),
        is_gap(first) && first.len() > 0,
        is_gap(second) && second.len() > 0,
        forall|i: int| 0 <= i < words.len() ==> is_word(#[trigger] words[i]),
    ensures
        proc_of_line(
            indent + decimal(pid as nat) + first + decimal(ppid as nat) + second + joined(
                words,
                " "@,
            ),
        ) == Some(ProcView { pid, ppid, comm: joined(words, " "@) }),
{
    let p = decimal(pid as nat);
    let q = decimal(ppid as nat);
    let comm = joined(words, " "@);
    let w = Class::Word;
    lemma_gap(indent);
    lemma_gap(first);
    lemma_gap(second);
    lemma_number_is_word(pid as nat);
    lemma_number_is_word(ppid as nat);
    lemma_word(p);
    lemma_word(q);
    lemma_words(words);
    if indent.len() > 0 {
        assert(is_white(indent.last()));
    }
    lemma_runs_meet(indent, p, w);
    assert(is_white(first[0]));
    lemma_runs_meet(indent + p, first, w);
    assert((indent + p + first).last() == first.last());
    assert(is_white(first.last()));
    lemma_runs_meet(indent + p + first, q, w);
    assert(is_white(second[0]));
    lemma_runs_meet(indent + p + first + q, second, w);
    assert((indent + p + first + q + second).last() == second.last());
    assert(is_white(second.last()));
    lemma_runs_meet(indent + p + first + q + second, comm, w);
    let all = runs(indent + p + first + q + second + comm, w);
    assert(all =~= seq![p, q] + words);
    assert(all.skip(2) =~= words);
    decimal_is_read_back(pid as nat, u32::MAX as nat);
    decimal_is_read_back(ppid as nat, u32::MAX as nat);
}

/// The output of `ps` is read line by line, in order, and a line that tells of no
/// process is passed over.
pub proof fn snapshots_are_read_line_by_line(text: Seq<char>, line: Seq<char>)
    requires
        !line.contains('\n'),
    ensures
        snapshot_of(text.push('\n') + line) == (match proc_of_line(line) {
            Some(p) => snapshot_of(text).push(p),
            None => snapshot_of(text),
        }),
        snapshot_of(line) == (match proc_of_line(line) {
            Some(p) => seq![p],
            None => seq![],
        }),
{
    pieces_part_at_separators(text, line, '\n');
    let a = pieces(text, '\n');
    assert((a + seq![line]).drop_last() =~= a);
    assert(seq![line].drop_last() =~= seq![]);
    assert(procs_of_lines(seq![line].drop_last()) =~= seq![]);
    assert(snapshot_of(line) =~= (match proc_of_line(line) {
        Some(p) => seq![p],
        None => seq![],
    }));
}

/// A line with fewer than two words, or whose first two are not numbers of 32 bits,
/// tells of no process.
pub proof fn other_lines_of_ps_are_passed_over(line: Seq<char>)
    ensures
        proc_of_line(line) is Some <==> {
            let words = runs(line, Class::Word);
            &&& words.len() >= 2
            &&& unsigned(words[0], 0xffff_ffff) is Some
            &&& unsigned(words[1], 0xffff_ffff) is Some
        },
{
}

/// Of the children of one process, those that stand earlier in the snapshot come first.
pub proof fn children_keep_the_order_of_the_snapshot(procs: Seq<ProcView>, p: ProcView, pid: u32)
    ensures
        children(seq![], pid).len() == 0,
        p.ppid == pid ==> children(procs.push(p), pid) == children(procs, pid).push(p),
        p.ppid != pid ==> children(procs.push(p), pid) == children(procs, pid),
{
    reveal(Seq::filter);
    assert(procs.push(p).drop_last() =~= procs);
}

} // verus!
