//! What holds of the whole state, whatever keys are pressed.

use crate::app::{
    after_start, all_cleared, all_started, all_stopping, is_chosen, lemma_place, start_effects,
    stop_effects, AppView, ModeView,
};
use crate::config::ConfigView;
use crate::effects::{spawns, EffectView};
use crate::form::Moment;
use crate::keys::{KeyCode, KeyEvent};
use crate::options::split_options;
use crate::stopping::StopWait;
use crate::tunnel::{arguments, PollView, Signal, SignalRequest, Target, TunnelView};
use vstd::prelude::*;

verus! {

/// The definitions of the tunnels in a list.
pub open spec fn definitions(tunnels: Seq<TunnelView>) -> Seq<ConfigView> {
    tunnels.map_values(|t: TunnelView| t.config)
}

/// Some tunnel with this id has no process.
pub open spec fn is_at_rest(tunnels: Seq<TunnelView>, id: u64) -> bool {
    exists|j: int| 0 <= j < tunnels.len() && (#[trigger] tunnels[j]).id == id && !tunnels[j].running()
}

/// What is to be done includes saving the definitions, or taking leave of a
/// tunnel, at the end of which they are saved.
pub open spec fn saves(effects: Seq<EffectView>) -> bool {
    exists|k: int|
        0 <= k < effects.len() && ((#[trigger] effects[k]) is Save || effects[k] is Remove)
}

// ---------------------------------------------------------------------------
// Keys
// ---------------------------------------------------------------------------

proof fn lemma_same_definitions(a: AppView, i: int, t: TunnelView)
    requires
        0 <= i < a.tunnels.len(),
        t.config == a.tunnels[i].config,
    ensures
        definitions(a.with_tunnel(i, t).tunnels) == definitions(a.tunnels),
{
    assert(definitions(a.with_tunnel(i, t).tunnels) =~= definitions(a.tunnels));
}

proof fn lemma_normal_key_saves(a: AppView, key: KeyEvent, m: Moment)
    requires
        a.wf(),
    ensures
        definitions(a.normal_key(key, m).0.tunnels) != definitions(a.tunnels) ==> saves(
            a.normal_key(key, m).1,
        ),
{
    let (b, effects) = a.normal_key(key, m);
    let i = a.selected as int;
    match key.code {
        KeyCode::Char('s') | KeyCode::Char(' ') => {
            if i < a.tunnels.len() {
                lemma_same_definitions(a, i, b.tunnels[i]);
                assert(b.tunnels =~= a.with_tunnel(i, b.tunnels[i]).tunnels);
            }
        },
        KeyCode::Char('r') => {
            if i < a.tunnels.len() {
                lemma_same_definitions(a, i, b.tunnels[i]);
                assert(b.tunnels =~= a.with_tunnel(i, b.tunnels[i]).tunnels);
            }
        },
        KeyCode::Char('K') | KeyCode::Char('c') => {
            if i < a.tunnels.len() {
                lemma_same_definitions(a, i, b.tunnels[i]);
                assert(b.tunnels =~= a.with_tunnel(i, b.tunnels[i]).tunnels);
            }
        },
        KeyCode::Char('S') => {
            assert(definitions(all_started(a.tunnels, false)) =~= definitions(a.tunnels));
        },
        KeyCode::Char('X') => {
            assert(definitions(all_stopping(a.tunnels, m.now)) =~= definitions(a.tunnels));
        },
        KeyCode::Char('C') => {
            assert(definitions(all_cleared(a.tunnels, m.now)) =~= definitions(a.tunnels));
        },
        KeyCode::Char('J') => {
            if b.tunnels != a.tunnels {
                assert(effects[0] is Save);
            }
        },
        KeyCode::Char('U') => {
            if b.tunnels != a.tunnels {
                assert(effects[0] is Save);
            }
        },
        _ => {
            assert(b.tunnels == a.tunnels);
        },
    }
}

/// Definitions are saved on every add, edit, delete and reorder: no key changes
/// them without having them saved.
pub proof fn changes_are_saved(a: AppView, key: KeyEvent, m: Moment)
    requires
        a.wf(),
    ensures
        definitions(a.keyed(key, m).0.tunnels) != definitions(a.tunnels) ==> saves(
            a.keyed(key, m).1,
        ),
{
    let (b, effects) = a.keyed(key, m);
    let closed = AppView { mode: ModeView::Normal, ..a };
    if key.control && key.code == KeyCode::Char('c') {
    } else {
        match a.mode {
            ModeView::Normal => lemma_normal_key_saves(closed, key, m),
            ModeView::Form(form) => {
                if key.code == KeyCode::Enter && form.config() is Ok {
                    assert(effects[0] is Save);
                }
            },
            ModeView::ConfirmDelete => {
                if effects.len() > 0 {
                    let t = a.tunnels[a.selected as int];
                    if t.running() {
                        assert(effects[1] is Remove);
                    } else {
                        assert(effects[0] is Save);
                    }
                }
            },
            _ => {},
        }
    }
}

/// Only `q`, where nothing is open, and Ctrl-C end the program.
pub proof fn only_two_keys_quit(a: AppView, key: KeyEvent, m: Moment)
    requires
        !a.should_quit,
    ensures
        a.keyed(key, m).0.should_quit <==> {
            ||| key.code == KeyCode::Char('c') && key.control
            ||| key.code == KeyCode::Char('q') && a.mode is Normal
        },
{
}

/// Esc leaves the form and the export dialog with everything as it was before
/// they were opened, and any key but `y` and Enter leaves a tunnel undeleted.
pub proof fn cancelling_changes_nothing(a: AppView, key: KeyEvent, m: Moment)
    requires
        ({
            ||| (a.mode is Form || a.mode is Export) && key.code == KeyCode::Esc
            ||| a.mode is ConfirmDelete && key.code != KeyCode::Char('y') && key.code
                != KeyCode::Char('Y') && key.code != KeyCode::Enter && !(key.control && key.code
                == KeyCode::Char('c'))
        }),
    ensures
        a.keyed(key, m).0 == (AppView { mode: ModeView::Normal, ..a }),
        a.keyed(key, m).1 == Seq::<EffectView>::empty(),
{
}

/// Deleting takes out the selected tunnel and no other, and keeps the others in
/// order.
pub proof fn deleting_takes_out_the_selected(a: AppView, key: KeyEvent, m: Moment)
    requires
        a.wf(),
        a.mode is ConfirmDelete,
        key.code == KeyCode::Char('y') || key.code == KeyCode::Enter,
    ensures
        a.keyed(key, m).0.tunnels == a.tunnels.remove(a.selected as int),
{
}

/// Some tunnel has this id.
pub open spec fn is_listed(tunnels: Seq<TunnelView>, id: u64) -> bool {
    exists|j: int| 0 <= j < tunnels.len() && (#[trigger] tunnels[j]).id == id
}

proof fn lemma_normal_key_keeps(a: AppView, key: KeyEvent, m: Moment, i: int)
    requires
        a.wf(),
        0 <= i < a.tunnels.len(),
    ensures
        is_listed(a.normal_key(key, m).0.tunnels, a.tunnels[i].id),
{
    let b = a.normal_key(key, m).0;
    let s = a.selected as int;
    let id = a.tunnels[i].id;
    match key.code {
        KeyCode::Char('J') => {
            let place = if i == s && s + 1 < a.tunnels.len() {
                s + 1
            } else if i == s + 1 {
                s
            } else {
                i
            };
            assert(b.tunnels[place].id == id);
        },
        KeyCode::Char('U') => {
            let place = if i == s && s > 0 {
                s - 1
            } else if i == s - 1 {
                s
            } else {
                i
            };
            assert(b.tunnels[place].id == id);
        },
        _ => {
            assert(b.tunnels[i].id == id);
        },
    }
}

/// No tunnel goes from the list unless its deletion was to be confirmed.
pub proof fn deleting_needs_confirmation(a: AppView, key: KeyEvent, m: Moment, i: int)
    requires
        a.wf(),
        a.mode !is ConfirmDelete,
        0 <= i < a.tunnels.len(),
    ensures
        is_listed(a.keyed(key, m).0.tunnels, a.tunnels[i].id),
{
    let b = a.keyed(key, m).0;
    let closed = AppView { mode: ModeView::Normal, ..a };
    if a.mode is Normal && !(key.control && key.code == KeyCode::Char('c')) {
        lemma_normal_key_keeps(closed, key, m, i);
    } else {
        assert(b.tunnels[i].id == a.tunnels[i].id);
    }
}

/// Moving a tunnel down and then up leaves the list and the selection as they
/// were, and so the other way round.
pub proof fn moving_back_undoes_moving(a: AppView, down: bool)
    requires
        a.wf(),
        a.moved(down).1.len() > 0,
    ensures
        a.moved(down).0.moved(!down).0 == a,
{
    let b = a.moved(down).0;
    let c = b.moved(!down).0;
    assert(c.tunnels =~= a.tunnels);
}

/// Moving the selection down and then up leaves it where it was, and so the
/// other way round.
pub proof fn selecting_back_undoes_selecting(a: AppView, m: Moment)
    requires
        a.wf(),
    ensures
        ({
            let down = KeyEvent { code: KeyCode::Down, control: false };
            let up = KeyEvent { code: KeyCode::Up, control: false };
            &&& a.normal_key(down, m).0.normal_key(up, m).0 == a
            &&& a.normal_key(up, m).0.normal_key(down, m).0 == a
        }),
{
    let n = a.tunnels.len();
    let i = a.selected;
    if n > 0 {
        crate::app::lemma_round(i, n);
        crate::app::lemma_round((i + 1) % n, n);
        crate::app::lemma_round(((i + n - 1) % n as int) as nat, n);
    }
}

/// `s` on a tunnel that runs asks it to stop; pressed again while it stops, it
/// kills it.
pub proof fn toggling_stops_and_then_kills(a: AppView, now: u64, later: u64)
    requires
        a.wf(),
        a.tunnels.len() > 0,
        a.tunnels[a.selected as int].status is Running,
    ensures
        ({
            let pid = a.tunnels[a.selected as int].pid->0;
            let group = Target::Group(pid);
            &&& a.toggled(now).1 == seq![
                EffectView::Signal(SignalRequest { target: group, signal: Signal::Term }),
            ]
            &&& a.toggled(now).0.toggled(later).1 == seq![
                EffectView::Signal(SignalRequest { target: group, signal: Signal::Kill }),
            ]
        }),
{
}

/// A restart of a tunnel that runs ends, once its process is gone, in a start with
/// the definition that it has.
pub proof fn restarting_ends_in_a_start(
    a: AppView,
    now: u64,
    w: StopWait,
    poll: PollView,
    later: u64,
)
    requires
        a.wf(),
        a.selected < a.tunnels.len(),
        a.tunnels[a.selected as int].running(),
        poll !is Alive,
    ensures
        ({
            let t = a.tunnels[a.selected as int];
            let (b, _, step) = a.restarting(now).0.stop_stepped(w, t.id, poll, later);
            &&& a.restarting(now).1.last() == EffectView::Restart { id: t.id }
            &&& step is Done
            &&& b.restarted(t.id).1 == spawns(
                t.id,
                match split_options(t.config.options) {
                    Ok(words) => Some(arguments(t.config, words)),
                    Err(_) => None,
                },
            )
        }),
{
    let i = a.selected as int;
    let t = a.tunnels[i];
    let stopping = a.restarting(now).0;
    assert forall|j: int| 0 <= j < i implies (#[trigger] stopping.tunnels[j]).id != t.id by {
        assert(a.tunnels[j].id != a.tunnels[i].id);
    }
    lemma_place(stopping.tunnels, t.id, i);
    let b = stopping.stop_stepped(w, t.id, poll, later).0;
    assert forall|j: int| 0 <= j < i implies (#[trigger] b.tunnels[j]).id != t.id by {
        assert(stopping.tunnels[j].id != t.id);
    }
    lemma_place(b.tunnels, t.id, i);
}

/// Where nothing is open, no key but the three for all tunnels and the two that
/// move one does anything to a tunnel that is not selected.
pub proof fn other_tunnels_are_left_alone(a: AppView, key: KeyEvent, m: Moment, j: int)
    requires
        a.wf(),
        0 <= j < a.tunnels.len(),
        j != a.selected,
        key.code != KeyCode::Char('S'),
        key.code != KeyCode::Char('X'),
        key.code != KeyCode::Char('C'),
        key.code != KeyCode::Char('J'),
        key.code != KeyCode::Char('U'),
    ensures
        a.normal_key(key, m).0.tunnels[j] == a.tunnels[j],
        a.normal_key(key, m).0.tunnels.len() == a.tunnels.len(),
{
}

// ---------------------------------------------------------------------------
// Processes
// ---------------------------------------------------------------------------

/// When the program ends, the process group of every tunnel that runs is asked
/// to terminate.
pub proof fn shutting_down_reaches_every_process(tunnels: Seq<TunnelView>, now: u64, i: int)
    requires
        0 <= i < tunnels.len(),
        tunnels[i].running(),
    ensures
        stop_effects(tunnels, now).contains(
            EffectView::Signal(
                SignalRequest { target: Target::Group(tunnels[i].pid->0), signal: Signal::Term },
            ),
        ),
    decreases tunnels.len(),
{
    let init = tunnels.drop_last();
    let before = stop_effects(init, now);
    let all = stop_effects(tunnels, now);
    let wanted = EffectView::Signal(
        SignalRequest { target: Target::Group(tunnels[i].pid->0), signal: Signal::Term },
    );
    if i < init.len() {
        shutting_down_reaches_every_process(init, now, i);
        let k = choose|k: int| 0 <= k < before.len() && before[k] == wanted;
        assert(all[k] == wanted);
    } else {
        assert(all[before.len() as int] == wanted);
    }
}

proof fn lemma_started_at_rest(tunnels: Seq<TunnelView>, autostart_only: bool, k: int)
    requires
        0 <= k < start_effects(tunnels, autostart_only).len(),
    ensures
        start_effects(tunnels, autostart_only)[k] is Spawn,
        is_at_rest(
            all_started(tunnels, autostart_only),
            start_effects(tunnels, autostart_only)[k]->Spawn_id,
        ),
    decreases tunnels.len(),
{
    let init = tunnels.drop_last();
    let before = start_effects(init, autostart_only);
    let all = start_effects(tunnels, autostart_only);
    let after = all_started(tunnels, autostart_only);
    let id = all[k]->Spawn_id;
    if k < before.len() {
        lemma_started_at_rest(init, autostart_only, k);
        assert(all[k] == before[k]);
        let done = all_started(init, autostart_only);
        let j = choose|j: int|
            0 <= j < done.len() && (#[trigger] done[j]).id == id && !done[j].running();
        assert(after[j] == done[j]);
    } else {
        let last = tunnels.len() - 1;
        assert(after[last] == after_start(tunnels[last], autostart_only));
        assert(after[last].id == id && !after[last].running());
    }
}

proof fn lemma_stopping_spawns_nothing(tunnels: Seq<TunnelView>, now: u64, k: int)
    requires
        0 <= k < stop_effects(tunnels, now).len(),
    ensures
        stop_effects(tunnels, now)[k] is Signal,
    decreases tunnels.len(),
{
    let before = stop_effects(tunnels.drop_last(), now);
    if k < before.len() {
        lemma_stopping_spawns_nothing(tunnels.drop_last(), now, k);
        assert(stop_effects(tunnels, now)[k] == before[k]);
    }
}

/// Starting automatically spawns processes only for tunnels that have none.
pub proof fn autostart_spawns_for_tunnels_at_rest(a: AppView, now: u64, k: int)
    requires
        0 <= k < a.autostarted(now).1.len(),
    ensures
        a.autostarted(now).1[k] is Spawn,
        is_at_rest(a.autostarted(now).0.tunnels, a.autostarted(now).1[k]->Spawn_id),
{
    lemma_started_at_rest(a.tunnels, true, k);
}

/// Every tunnel that is chosen, has no process and has options that can be split
/// is started, with its arguments.
pub proof fn starting_reaches_every_tunnel(tunnels: Seq<TunnelView>, autostart_only: bool, i: int)
    requires
        0 <= i < tunnels.len(),
        is_chosen(tunnels[i], autostart_only),
        tunnels[i].start_attempted().1 is Some,
    ensures
        start_effects(tunnels, autostart_only).contains(
            EffectView::Spawn { id: tunnels[i].id, args: tunnels[i].start_attempted().1->0 },
        ),
    decreases tunnels.len(),
{
    let init = tunnels.drop_last();
    let before = start_effects(init, autostart_only);
    let all = start_effects(tunnels, autostart_only);
    let wanted = EffectView::Spawn {
        id: tunnels[i].id,
        args: tunnels[i].start_attempted().1->0,
    };
    if i < init.len() {
        starting_reaches_every_tunnel(init, autostart_only, i);
        let k = choose|k: int| 0 <= k < before.len() && before[k] == wanted;
        assert(all[k] == wanted);
    } else {
        assert(all[before.len() as int] == wanted);
    }
}

/// A tunnel that is not to start automatically is left as it is when the program
/// starts.
pub proof fn autostart_leaves_the_others_alone(a: AppView, now: u64, i: int)
    requires
        0 <= i < a.tunnels.len(),
        !a.tunnels[i].config.autostart,
    ensures
        a.autostarted(now).0.tunnels[i] == a.tunnels[i],
{
}

/// A process is only ever spawned for a tunnel that has none.
pub proof fn processes_are_spawned_for_tunnels_at_rest(a: AppView, key: KeyEvent, m: Moment, k: int)
    requires
        a.wf(),
        0 <= k < a.keyed(key, m).1.len(),
        a.keyed(key, m).1[k] is Spawn,
    ensures
        is_at_rest(a.keyed(key, m).0.tunnels, a.keyed(key, m).1[k]->Spawn_id),
{
    let (b, effects) = a.keyed(key, m);
    if a.mode is Normal {
        if key.code == KeyCode::Char('S') {
            lemma_started_at_rest(a.tunnels, false, k);
        } else if key.code == KeyCode::Char('X') {
            lemma_stopping_spawns_nothing(a.tunnels, m.now, k);
        } else {
            let i = a.selected as int;
            assert(b.tunnels[i].id == effects[k]->Spawn_id && !b.tunnels[i].running());
        }
    }
}

} // verus!
