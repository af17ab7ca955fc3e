//! What each key does, and what each event does to the list of tunnels.

use crate::app::{
    all_cleared, count_running, lemma_place, lemma_round, logs_text, place, start_effects,
    stop_effects, tick_signals, AppView, ModeView,
};
use crate::config::ConfigView;
use crate::effects::EffectView;
use crate::form::{ExportView, FormView, Moment};
use crate::keys::{KeyCode, KeyEvent};
use crate::options::split_options;
use crate::procs::ProcView;
use crate::stopping::{wait_stepped, StopStep, StopWait};
use crate::text::joining_puts_the_separator_between;
use crate::tunnel::{log_text, PollView, Signal, SignalRequest, Target, TunnelView};
use vstd::prelude::*;
use vstd::string::*;

verus! {

// ---------------------------------------------------------------------------
// Where nothing is open
// ---------------------------------------------------------------------------

/// The keys for selecting go round the list by one, or to its ends, and do nothing
/// else.
pub proof fn selecting_goes_round_the_list(a: AppView, key: KeyEvent, m: Moment)
    requires
        a.wf(),
        a.mode is Normal,
        a.tunnels.len() > 0,
    ensures
        ({
            let n = a.tunnels.len();
            let (after, effects) = a.keyed(key, m);
            &&& key.code == KeyCode::Down || key.code == KeyCode::Char('j') ==> effects.len() == 0
                && after == (AppView {
                selected: if a.selected + 1 == n {
                    0
                } else {
                    a.selected + 1
                },
                ..a
            })
            &&& key.code == KeyCode::Up || key.code == KeyCode::Char('k') ==> effects.len() == 0
                && after == (AppView {
                selected: if a.selected == 0 {
                    (n - 1) as nat
                } else {
                    (a.selected - 1) as nat
                },
                ..a
            })
            &&& key.code == KeyCode::Home || key.code == KeyCode::Char('g') ==> effects.len() == 0
                && after == (AppView { selected: 0, ..a })
            &&& key.code == KeyCode::End || key.code == KeyCode::Char('G') ==> effects.len() == 0
                && after == (AppView { selected: (n - 1) as nat, ..a })
        }),
{
    lemma_round(a.selected, a.tunnels.len());
}

/// The keys that open something open it, for the selected tunnel where it is about
/// one, and do nothing else.
pub proof fn dialogs_open_for_the_selected(a: AppView, key: KeyEvent, m: Moment)
    requires
        a.wf(),
        a.mode is Normal,
    ensures
        ({
            let (after, effects) = a.keyed(key, m);
            let t = a.tunnels[a.selected as int];
            let some = a.tunnels.len() > 0;
            &&& key.code == KeyCode::Char('a') || key.code == KeyCode::Char('n') ==> effects.len()
                == 0 && after == (AppView { mode: ModeView::Form(FormView::empty()), ..a })
            &&& some && (key.code == KeyCode::Char('e') || key.code == KeyCode::Enter)
                ==> effects.len() == 0 && after == (AppView {
                mode: ModeView::Form(FormView::of(t.id, t.config)),
                ..a
            })
            &&& some && (key.code == KeyCode::Char('d') || key.code == KeyCode::Delete)
                ==> effects.len() == 0 && after == (AppView { mode: ModeView::ConfirmDelete, ..a })
            &&& key.code == KeyCode::Char('?') || key.code == KeyCode::F(1) ==> effects.len() == 0
                && after == (AppView { mode: ModeView::Help, ..a })
            &&& some && key.code == KeyCode::Char('w') ==> effects.len() == 0 && after == (AppView {
                mode: ModeView::Export(ExportView::opened(false, t.config.name, m)),
                ..a
            })
            &&& some && key.code == KeyCode::Char('W') ==> effects.len() == 0 && after == (AppView {
                mode: ModeView::Export(ExportView::opened(true, "all"@, m)),
                ..a
            })
            &&& key.code == KeyCode::Char('l') ==> effects.len() == 0 && after == (AppView {
                show_log: !a.show_log,
                ..a
            })
        }),
{
}

/// What has to be done to start a tunnel: a process for it, with its arguments, where
/// it is at rest and its options can be split.
pub open spec fn starts(t: TunnelView, effects: Seq<EffectView>) -> bool {
    match (t.pid, split_options(t.config.options)) {
        (None, Ok(words)) => effects.len() == 1 && effects[0] == (EffectView::Spawn {
            id: t.id,
            args: t.started_with(Ok(words)).1->0,
        }),
        _ => effects.len() == 0,
    }
}

/// What has to be done to signal the process group of a tunnel.
pub open spec fn signals_group(pid: u32, signal: Signal, effects: Seq<EffectView>) -> bool {
    effects.len() == 1 && effects[0] == EffectView::Signal(
        SignalRequest { target: Target::Group(pid), signal },
    )
}

/// `s` and Space act on the selected tunnel alone: one at rest is started, one that
/// runs is asked to stop, and one that was asked before is killed.
pub proof fn toggling_acts_on_the_selected(a: AppView, key: KeyEvent, m: Moment)
    requires
        a.wf(),
        a.mode is Normal,
        a.tunnels.len() > 0,
        key.code == KeyCode::Char('s') || key.code == KeyCode::Char(' '),
    ensures
        ({
            let (after, effects) = a.keyed(key, m);
            let i = a.selected as int;
            let t = a.tunnels[i];
            &&& after == (AppView { tunnels: after.tunnels, ..a })
            &&& t.pid is None ==> starts(t, effects) && after.tunnels == a.tunnels.update(
                i,
                t.started_with(split_options(t.config.options)).0,
            )
            &&& t.pid is Some && t.stop_requested is None ==> signals_group(
                t.pid->0,
                Signal::Term,
                effects,
            ) && after.tunnels == a.tunnels.update(i, t.stop_step(m.now).0)
            &&& t.pid is Some && t.stop_requested is Some ==> signals_group(
                t.pid->0,
                Signal::Kill,
                effects,
            ) && after.tunnels == a.tunnels.update(i, t.kill_step(m.now).0)
        }),
{
    assert(a.tunnels[a.selected as int].wf());
}

/// `K` kills the selected tunnel alone, if it runs.
pub proof fn killing_acts_on_the_selected(a: AppView, m: Moment)
    requires
        a.wf(),
        a.mode is Normal,
        a.tunnels.len() > 0,
    ensures
        ({
            let key = KeyEvent { code: KeyCode::Char('K'), control: false };
            let (after, effects) = a.keyed(key, m);
            let i = a.selected as int;
            let t = a.tunnels[i];
            &&& t.pid is Some ==> signals_group(t.pid->0, Signal::Kill, effects)
            &&& t.pid is None ==> effects.len() == 0
            &&& after == (AppView { tunnels: a.tunnels.update(i, t.kill_step(m.now).0), ..a })
        }),
{
}

/// `r` starts the selected tunnel where it is at rest; where it runs, it is asked to
/// stop, and a restart is to follow.
pub proof fn restarting_acts_on_the_selected(a: AppView, m: Moment)
    requires
        a.wf(),
        a.mode is Normal,
        a.tunnels.len() > 0,
    ensures
        ({
            let key = KeyEvent { code: KeyCode::Char('r'), control: false };
            let (after, effects) = a.keyed(key, m);
            let i = a.selected as int;
            let t = a.tunnels[i];
            &&& after == (AppView { tunnels: after.tunnels, ..a })
            &&& t.pid is None ==> starts(t, effects) && after.tunnels == a.tunnels.update(
                i,
                t.started_with(split_options(t.config.options)).0,
            )
            &&& t.pid is Some ==> {
                &&& effects.len() == 2
                &&& signals_group(t.pid->0, Signal::Term, effects.take(1))
                &&& effects[1] == (EffectView::Restart { id: t.id })
                &&& after.tunnels == a.tunnels.update(i, t.stop_step(m.now).0)
            }
        }),
{
}

/// `S` and `X` act on every tunnel, and say so.
pub proof fn some_keys_act_on_every_tunnel(a: AppView, m: Moment, i: int)
    requires
        a.wf(),
        a.mode is Normal,
        0 <= i < a.tunnels.len(),
    ensures
        ({
            let t = a.tunnels[i];
            let (started, starting) = a.keyed(
                KeyEvent { code: KeyCode::Char('S'), control: false },
                m,
            );
            let (stopped, stopping) = a.keyed(
                KeyEvent { code: KeyCode::Char('X'), control: false },
                m,
            );
            let (cleared, nothing) = a.keyed(
                KeyEvent { code: KeyCode::Char('C'), control: false },
                m,
            );
            &&& started == (AppView {
                tunnels: started.tunnels,
                status_msg: Some(("started all tunnels"@, m.now)),
                ..a
            })
            &&& started.tunnels.len() == a.tunnels.len()
            &&& started.tunnels[i] == t.started_with(split_options(t.config.options)).0
            &&& starting == start_effects(a.tunnels, false)
            &&& stopped == (AppView {
                tunnels: stopped.tunnels,
                status_msg: Some(("stopping all tunnels"@, m.now)),
                ..a
            })
            &&& stopped.tunnels.len() == a.tunnels.len()
            &&& stopped.tunnels[i] == t.stop_step(m.now).0
            &&& stopping == stop_effects(a.tunnels, m.now)
            &&& cleared == (AppView { tunnels: cleared.tunnels, ..a })
            &&& cleared.tunnels.len() == a.tunnels.len()
            &&& cleared.tunnels[i] == t.cleared(m.now)
            &&& nothing.len() == 0
        }),
{
}

/// What has to be done for a list of tunnels is what has to be done for each, in
/// order; to start automatically, for each that is to.
pub proof fn effects_follow_the_list(tunnels: Seq<TunnelView>, t: TunnelView, now: u64)
    ensures
        start_effects(seq![], true).len() == 0,
        start_effects(seq![], false).len() == 0,
        stop_effects(seq![], now).len() == 0,
        exists|more: Seq<EffectView>| #[trigger]
            starts(t, more) && start_effects(tunnels.push(t), false) == start_effects(
                tunnels,
                false,
            ) + more,
        t.config.autostart ==> exists|more: Seq<EffectView>| #[trigger]
            starts(t, more) && start_effects(tunnels.push(t), true) == start_effects(tunnels, true)
                + more,
        !t.config.autostart ==> start_effects(tunnels.push(t), true) == start_effects(tunnels, true),
        t.pid is None ==> stop_effects(tunnels.push(t), now) == stop_effects(tunnels, now),
        t.pid is Some ==> exists|more: Seq<EffectView>| #[trigger]
            signals_group(t.pid->0, Signal::Term, more) && stop_effects(tunnels.push(t), now)
                == stop_effects(tunnels, now) + more,
{
    let longer = tunnels.push(t);
    assert(longer.drop_last() =~= tunnels);
    let more = crate::effects::spawns(t.id, t.start_attempted().1);
    assert(starts(t, more));
    assert(start_effects(longer, false) == start_effects(tunnels, false) + more);
    if !t.config.autostart {
        assert(start_effects(longer, true) =~= start_effects(tunnels, true));
    }
    let signals = crate::effects::signals(t.stop_step(now).1);
    if t.pid is Some {
        assert(signals_group(t.pid->0, Signal::Term, signals));
    } else {
        assert(stop_effects(longer, now) =~= stop_effects(tunnels, now));
    }
}

/// `c` clears the statistics of the selected tunnel alone.
pub proof fn clearing_acts_on_the_selected(a: AppView, m: Moment)
    requires
        a.wf(),
        a.mode is Normal,
        a.tunnels.len() > 0,
    ensures
        ({
            let key = KeyEvent { code: KeyCode::Char('c'), control: false };
            let i = a.selected as int;
            &&& a.keyed(key, m).0 == (AppView {
                tunnels: a.tunnels.update(i, a.tunnels[i].cleared(m.now)),
                ..a
            })
            &&& a.keyed(key, m).1.len() == 0
        }),
{
}

/// `J` and `U` let the selected tunnel change places with the next one and the one
/// before, take the selection along and have the definitions saved; at the ends of the
/// list they do nothing.
pub proof fn moving_swaps_two_neighbours(a: AppView, m: Moment, k: int)
    requires
        a.wf(),
        a.mode is Normal,
        0 <= k < a.tunnels.len(),
    ensures
        ({
            let i = a.selected as int;
            let (down, e) = a.keyed(KeyEvent { code: KeyCode::Char('J'), control: false }, m);
            let (up, f) = a.keyed(KeyEvent { code: KeyCode::Char('U'), control: false }, m);
            &&& i + 1 == a.tunnels.len() ==> down == a && e.len() == 0
            &&& i == 0 ==> up == a && f.len() == 0
            &&& i + 1 < a.tunnels.len() ==> {
                &&& e.len() == 1 && e[0] is Save
                &&& down == (AppView { tunnels: down.tunnels, selected: a.selected + 1, ..a })
                &&& down.tunnels.len() == a.tunnels.len()
                &&& down.tunnels[k] == a.tunnels[if k == i {
                    i + 1
                } else if k == i + 1 {
                    i
                } else {
                    k
                }]
            }
            &&& i > 0 ==> {
                &&& f.len() == 1 && f[0] is Save
                &&& up == (AppView { tunnels: up.tunnels, selected: (a.selected - 1) as nat, ..a })
                &&& up.tunnels.len() == a.tunnels.len()
                &&& up.tunnels[k] == a.tunnels[if k == i {
                    i - 1
                } else if k == i - 1 {
                    i
                } else {
                    k
                }]
            }
        }),
{
}

/// Any other key does nothing.
pub proof fn other_keys_do_nothing(a: AppView, key: KeyEvent, m: Moment)
    requires
        a.mode is Normal,
        match key.code {
            KeyCode::Char(c) => !"q?jkgGanedS sXrKcClJUwW"@.contains(c),
            KeyCode::F(n) => n != 1,
            KeyCode::Left | KeyCode::Right | KeyCode::Esc | KeyCode::Tab => true,
            KeyCode::BackTab | KeyCode::Backspace | KeyCode::Other => true,
            _ => false,
        },
    ensures
        a.keyed(key, m).0 == a,
        a.keyed(key, m).1.len() == 0,
{
    reveal_strlit("q?jkgGanedS sXrKcClJUwW");
    let all = "q?jkgGanedS sXrKcClJUwW"@;
    if let KeyCode::Char(c) = key.code {
        assert forall|k: int| 0 <= k < all.len() implies all[k] != c by {
            assert(!all.contains(c));
        }
        assert(all[0] != c && all[1] != c && all[2] != c && all[3] != c && all[4] != c);
        assert(all[5] != c && all[6] != c && all[7] != c && all[8] != c && all[9] != c);
        assert(all[10] != c && all[11] != c && all[12] != c && all[13] != c && all[14] != c);
        assert(all[15] != c && all[16] != c && all[17] != c && all[18] != c && all[19] != c);
        assert(all[20] != c && all[21] != c && all[22] != c);
    }
}

/// Without a tunnel, the keys that are about one do nothing.
pub proof fn without_tunnels_there_is_nothing_to_do(a: AppView, key: KeyEvent, m: Moment)
    requires
        a.wf(),
        a.mode is Normal,
        a.tunnels.len() == 0,
        match key.code {
            KeyCode::Char(c) => "jkgGed srKcCJUwW"@.contains(c),
            KeyCode::Down | KeyCode::Up | KeyCode::Home | KeyCode::End => true,
            KeyCode::Enter | KeyCode::Delete => true,
            _ => false,
        },
        !key.control,
    ensures
        a.keyed(key, m).0 == a,
        a.keyed(key, m).1.len() == 0,
{
    reveal_strlit("jkgGed srKcCJUwW");
    assert(all_cleared(a.tunnels, m.now) =~= a.tunnels);
}

// ---------------------------------------------------------------------------
// Forms and dialogs
// ---------------------------------------------------------------------------

/// In the form, Esc closes it, Enter saves it or shows what is wrong with it, and any
/// other key goes to it; nothing else changes until it is saved.
pub proof fn keys_go_to_the_form(a: AppView, key: KeyEvent, m: Moment)
    requires
        a.wf(),
        a.mode is Form,
        !(key.control && key.code == KeyCode::Char('c')),
    ensures
        ({
            let form = a.mode->Form_0;
            let (after, effects) = a.keyed(key, m);
            let closed = AppView { mode: ModeView::Normal, ..a };
            &&& key.code == KeyCode::Esc ==> after == closed && effects.len() == 0
            &&& key.code != KeyCode::Esc && key.code != KeyCode::Enter ==> effects.len() == 0
                && after == (AppView { mode: ModeView::Form(form.keyed(key)), ..a })
            &&& key.code == KeyCode::Enter && form.config_with(
                split_options(form.options.text),
            ) is Err ==> effects.len() == 0 && after == (AppView {
                mode: ModeView::Form(
                    FormView {
                        error: Some(form.config_with(split_options(form.options.text))->Err_0),
                        ..form
                    },
                ),
                ..a
            })
            &&& key.code == KeyCode::Enter && form.config_with(
                split_options(form.options.text),
            ) is Ok ==> effects.len() == 1 && effects[0] is Save && after.mode is Normal
        }),
{
}

/// A form for a new tunnel adds it at the end of the list, with an id of its own, and
/// selects it.
pub proof fn new_tunnels_go_to_the_end(a: AppView, key: KeyEvent, m: Moment)
    requires
        a.wf(),
        a.mode is Form,
        a.mode->Form_0.editing is None,
        a.next_id < u64::MAX,
        key.code == KeyCode::Enter,
        a.mode->Form_0.config_with(split_options(a.mode->Form_0.options.text)) is Ok,
    ensures
        ({
            let c = a.mode->Form_0.config_with(split_options(a.mode->Form_0.options.text))->Ok_0;
            let after = a.keyed(key, m).0;
            &&& after.tunnels.drop_last() == a.tunnels
            &&& after.tunnels.last() == TunnelView::fresh(a.next_id, c, m.now)
            &&& after.selected == a.tunnels.len()
            &&& after.next_id == a.next_id + 1
            &&& after.status_msg == Some(("added; press s to start"@, m.now))
            &&& after.show_log == a.show_log && after.should_quit == a.should_quit
            &&& after.socat_available == a.socat_available
        }),
{
    let after = a.keyed(key, m).0;
    assert(after.tunnels.drop_last() =~= a.tunnels);
}

/// A form for an existing tunnel changes the definition of that tunnel and nothing else
/// of any, and asks for a restart where that makes a difference.
pub proof fn edits_change_one_definition(a: AppView, key: KeyEvent, m: Moment, i: int)
    requires
        a.wf(),
        a.mode is Form,
        0 <= i < a.tunnels.len(),
        a.mode->Form_0.editing == Some(a.tunnels[i].id),
        key.code == KeyCode::Enter,
        a.mode->Form_0.config_with(split_options(a.mode->Form_0.options.text)) is Ok,
    ensures
        ({
            let c = a.mode->Form_0.config_with(split_options(a.mode->Form_0.options.text))->Ok_0;
            let t = a.tunnels[i];
            a.keyed(key, m).0 == (AppView {
                mode: ModeView::Normal,
                tunnels: a.tunnels.update(i, TunnelView { config: c, ..t }),
                status_msg: Some(
                    (
                        if t.pid is Some && t.config != c {
                            "saved; restart (r) to apply the new addresses"@
                        } else {
                            "saved"@
                        },
                        m.now,
                    ),
                ),
                ..a
            })
        }),
{
    lemma_at(a, i);
}

/// A tunnel of the list stands where its id is found.
proof fn lemma_at(a: AppView, i: int)
    requires
        a.wf(),
        0 <= i < a.tunnels.len(),
    ensures
        place(a.tunnels, a.tunnels[i].id) == i,
{
    assert forall|j: int| 0 <= j < i implies (#[trigger] a.tunnels[j]).id != a.tunnels[i].id by {
        assert(a.tunnels[j].id != a.tunnels[i].id);
    }
    lemma_place(a.tunnels, a.tunnels[i].id, i);
}

/// A confirmed deletion of a tunnel at rest takes it out, says so and has the
/// definitions saved; one of a tunnel that runs asks that to stop, and hands it on.
pub proof fn confirmed_deletions_are_done(a: AppView, key: KeyEvent, m: Moment)
    requires
        a.wf(),
        a.mode is ConfirmDelete,
        key.code == KeyCode::Char('y') || key.code == KeyCode::Char('Y') || key.code
            == KeyCode::Enter,
    ensures
        ({
            let t = a.tunnels[a.selected as int];
            let (after, effects) = a.keyed(key, m);
            &&& after == (AppView {
                mode: ModeView::Normal,
                tunnels: after.tunnels,
                selected: after.selected,
                status_msg: after.status_msg,
                ..a
            })
            &&& after.tunnels.len() == a.tunnels.len() - 1
            &&& forall|k: int|
                0 <= k < after.tunnels.len() ==> (#[trigger] after.tunnels[k]) == a.tunnels[if k
                    < a.selected {
                    k
                } else {
                    k + 1
                }]
            &&& a.selected + 1 < a.tunnels.len() ==> after.selected == a.selected
            &&& a.selected + 1 == a.tunnels.len() && a.selected > 0 ==> after.selected + 1
                == a.selected
            &&& a.tunnels.len() == 1 ==> after.selected == 0
            &&& t.pid is None ==> effects.len() == 1 && effects[0] is Save && after.status_msg
                == Some(("deleted "@ + t.config.name, m.now))
            &&& t.pid is Some ==> {
                &&& effects.len() == 2
                &&& signals_group(t.pid->0, Signal::Term, effects.take(1))
                &&& effects[1] == EffectView::Remove(t.stop_step(m.now).0)
                &&& after.status_msg == a.status_msg
            }
        }),
{
}

/// In the export dialog, Esc closes it, Enter exports and leaves it open, and any other
/// key goes to it.
pub proof fn keys_go_to_the_export_dialog(a: AppView, key: KeyEvent, m: Moment)
    requires
        a.wf(),
        a.mode is Export,
        !(key.control && key.code == KeyCode::Char('c')),
    ensures
        ({
            let d = a.mode->Export_0;
            let (after, effects) = a.keyed(key, m);
            &&& key.code == KeyCode::Esc ==> effects.len() == 0 && after == (AppView {
                mode: ModeView::Normal,
                ..a
            })
            &&& key.code == KeyCode::Enter ==> after == a && effects.len() == 1
                && effects[0] is Export
            &&& key.code != KeyCode::Esc && key.code != KeyCode::Enter ==> effects.len() == 0
                && after == (AppView { mode: ModeView::Export(d.keyed(key)), ..a })
        }),
{
}

/// What is exported where the dialog is not for all tunnels is the log of the selected
/// tunnel, whichever that is; and where no path was typed, the path has its name in it.
pub proof fn the_selected_log_is_exported(a: AppView, key: KeyEvent, m: Moment)
    requires
        a.wf(),
        a.mode is Export,
        !a.mode->Export_0.all,
        key.code == KeyCode::Enter,
    ensures
        ({
            let t = a.tunnels[a.selected as int];
            &&& a.keyed(key, m).1.len() == 1
            &&& a.keyed(key, m).1[0] == (EffectView::Export {
                path: a.mode->Export_0.destination(t.config.name, m),
                text: log_text(t),
            })
        }),
{
    let t = a.tunnels[a.selected as int];
    let parts = seq![t].map_values(|t: TunnelView| log_text(t));
    assert(parts =~= seq![log_text(t)]);
    joining_puts_the_separator_between(parts, log_text(t), "\n"@);
}

/// What is exported otherwise are the logs of all tunnels, in the order of the list, with
/// an empty line between each two.
pub proof fn all_logs_are_exported(a: AppView, key: KeyEvent, m: Moment)
    requires
        a.wf(),
        a.mode is Export,
        a.mode->Export_0.all,
        key.code == KeyCode::Enter,
    ensures
        a.keyed(key, m).1.len() == 1,
        a.keyed(key, m).1[0] == (EffectView::Export {
            path: a.mode->Export_0.destination("all"@, m),
            text: logs_text(a.tunnels),
        }),
{
}

/// The logs of some tunnels are that of each, one after the other.
pub proof fn logs_follow_the_list(tunnels: Seq<TunnelView>, t: TunnelView)
    ensures
        logs_text(seq![]) == Seq::<char>::empty(),
        logs_text(seq![t]) == log_text(t),
        tunnels.len() > 0 ==> logs_text(tunnels.push(t)) == logs_text(tunnels) + "\n"@ + log_text(t),
{
    let f = |t: TunnelView| log_text(t);
    let parts = tunnels.map_values(f);
    joining_puts_the_separator_between(parts, log_text(t), "\n"@);
    assert(seq![t].map_values(f) =~= seq![log_text(t)]);
    assert(tunnels.push(t).map_values(f) =~= parts.push(log_text(t)));
    assert(Seq::<TunnelView>::empty().map_values(f) =~= Seq::<Seq<char>>::empty());
    assert(logs_text(seq![]) =~= Seq::<char>::empty());
}

/// An export that went well closes the dialog and tells where to; one that did not
/// leaves it open, with the reason in it.
pub proof fn exports_are_answered(a: AppView, path: Seq<char>, e: Seq<char>, now: u64)
    ensures
        a.mode is Export ==> a.export_finished(path, None, now) == (AppView {
            mode: ModeView::Normal,
            status_msg: Some(("exported to "@ + path, now)),
            ..a
        }),
        a.mode is Export ==> a.export_finished(path, Some(e), now) == (AppView {
            mode: ModeView::Export(ExportView { error: Some(e), ..a.mode->Export_0 }),
            ..a
        }),
        !(a.mode is Export) ==> a.export_finished(path, None, now) == a && a.export_finished(
            path,
            Some(e),
            now,
        ) == a,
{
}

/// Any key closes the help, and does nothing else.
pub proof fn the_help_is_closed_by_any_key(a: AppView, key: KeyEvent, m: Moment)
    requires
        a.mode is Help,
        !(key.control && key.code == KeyCode::Char('c')),
    ensures
        a.keyed(key, m).0 == (AppView { mode: ModeView::Normal, ..a }),
        a.keyed(key, m).1.len() == 0,
{
}

/// Quitting changes nothing but that it is to be.
pub proof fn quitting_changes_nothing_else(a: AppView, key: KeyEvent, m: Moment)
    ensures
        key.control && key.code == KeyCode::Char('c') || a.mode is Normal && key.code
            == KeyCode::Char('q') ==> a.keyed(key, m).0 == (AppView { should_quit: true, ..a })
            && a.keyed(key, m).1.len() == 0,
{
}

// ---------------------------------------------------------------------------
// Events
// ---------------------------------------------------------------------------

/// A tunnel is found by its id, the first where there are several.
pub proof fn tunnels_are_found_by_their_id(tunnels: Seq<TunnelView>, id: u64)
    ensures
        place(tunnels, id) <= tunnels.len(),
        place(tunnels, id) < tunnels.len() ==> tunnels[place(tunnels, id) as int].id == id,
        forall|j: int| 0 <= j < place(tunnels, id) ==> (#[trigger] tunnels[j]).id != id,
    decreases tunnels.len(),
{
    if tunnels.len() > 0 && tunnels[0].id != id {
        let rest = tunnels.drop_first();
        tunnels_are_found_by_their_id(rest, id);
        assert forall|j: int| 0 <= j < place(tunnels, id) implies (#[trigger] tunnels[j]).id
            != id by {
            if j > 0 {
                assert(rest[j - 1].id != id);
            }
        }
    }
}

/// What comes back from outside reaches the tunnel that it is about, and no other: a line
/// of stderr, a process that was spawned or was not, and the end of a wait.
pub proof fn events_reach_their_tunnel(
    a: AppView,
    i: int,
    line: Seq<char>,
    pid: u32,
    e: Seq<char>,
    now: u64,
    w: StopWait,
    poll: PollView,
)
    requires
        a.wf(),
        0 <= i < a.tunnels.len(),
    ensures
        ({
            let t = a.tunnels[i];
            &&& a.heard(t.id, line) == (AppView { tunnels: a.tunnels.update(i, t.heard(line)), ..a })
            &&& a.spawn_noted(t.id, Ok(pid), now) == (AppView {
                tunnels: a.tunnels.update(i, t.spawned(pid, now)),
                ..a
            })
            &&& a.spawn_noted(t.id, Err(e), now) == (AppView {
                tunnels: a.tunnels.update(i, t.spawn_failed(e)),
                ..a
            })
            &&& a.stop_stepped(w, t.id, poll, now) == (
                AppView {
                    tunnels: a.tunnels.update(i, wait_stepped(w, t, poll, now).1),
                    ..a
                },
                wait_stepped(w, t, poll, now).0,
                wait_stepped(w, t, poll, now).2,
            )
            &&& a.restarted(t.id).0 == (AppView {
                tunnels: a.tunnels.update(i, t.started_with(split_options(t.config.options)).0),
                ..a
            })
            &&& starts(t, a.restarted(t.id).1)
        }),
{
    lemma_at(a, i);
}

/// What is about no tunnel of the list changes nothing.
pub proof fn other_events_are_passed_over(
    a: AppView,
    id: u64,
    line: Seq<char>,
    outcome: Result<u32, Seq<char>>,
    now: u64,
    w: StopWait,
    poll: PollView,
)
    requires
        forall|i: int| 0 <= i < a.tunnels.len() ==> (#[trigger] a.tunnels[i]).id != id,
    ensures
        a.heard(id, line) == a,
        a.spawn_noted(id, outcome, now) == a,
        a.stop_stepped(w, id, poll, now) == (a, w, StopStep::Done),
        a.restarted(id).0 == a,
        a.restarted(id).1.len() == 0,
{
    lemma_place(a.tunnels, id, a.tunnels.len() as int);
}

/// A second is a second for each tunnel, with what was found out of its own process, and
/// for nothing else.
pub proof fn ticks_are_for_each_tunnel(
    a: AppView,
    procs: Seq<ProcView>,
    polls: Seq<PollView>,
    now: u64,
    i: int,
)
    requires
        0 <= i < a.tunnels.len(),
    ensures
        a.ticked(procs, polls, now).tunnels.len() == a.tunnels.len(),
        a.ticked(procs, polls, now).tunnels[i] == a.tunnels[i].ticked(procs, polls[i], now).0,
        a.ticked(procs, polls, now) == (AppView {
            tunnels: a.ticked(procs, polls, now).tunnels,
            ..a
        }),
{
}

/// The signals of a second are those of each tunnel, in the order of the list.
pub proof fn tick_signals_follow_the_list(
    tunnels: Seq<TunnelView>,
    t: TunnelView,
    procs: Seq<ProcView>,
    polls: Seq<PollView>,
    now: u64,
)
    ensures
        tick_signals(seq![], procs, polls, now).len() == 0,
        tick_signals(tunnels.push(t), procs, polls, now) == tick_signals(
            tunnels,
            procs,
            polls,
            now,
        ) + t.ticked(procs, polls[tunnels.len() as int], now).1,
{
    assert(tunnels.push(t).drop_last() =~= tunnels);
}

/// The tunnels that run are counted, and no other.
pub proof fn running_tunnels_are_counted(tunnels: Seq<TunnelView>, t: TunnelView)
    ensures
        count_running(seq![]) == 0,
        t.pid is Some ==> count_running(tunnels.push(t)) == count_running(tunnels) + 1,
        t.pid is None ==> count_running(tunnels.push(t)) == count_running(tunnels),
{
    assert(tunnels.push(t).drop_last() =~= tunnels);
}

/// At the start there is a tunnel for each definition, at rest, in order, with ids that
/// count up from one, and nothing is open.
pub proof fn there_is_a_tunnel_for_each_definition(
    configs: Seq<ConfigView>,
    socat_available: bool,
    now: u64,
    i: int,
)
    requires
        0 <= i < configs.len() < u64::MAX,
    ensures
        ({
            let a = AppView::initial(configs, socat_available, now);
            &&& a.tunnels.len() == configs.len()
            &&& a.tunnels[i] == TunnelView::fresh((i + 1) as u64, configs[i], now)
            &&& a.next_id == configs.len() + 1
            &&& a.selected == 0 && a.mode is Normal && a.show_log && !a.should_quit
            &&& a.status_msg is None && a.socat_available == socat_available
        }),
{
}

/// A tunnel that is to start automatically is started, and where there is no socat that is
/// told.
pub proof fn launching_starts_what_is_to_start(a: AppView, now: u64, i: int)
    requires
        0 <= i < a.tunnels.len(),
    ensures
        ({
            let (after, effects) = a.autostarted(now);
            let t = a.tunnels[i];
            &&& after.tunnels.len() == a.tunnels.len()
            &&& t.config.autostart ==> after.tunnels[i] == t.started_with(
                split_options(t.config.options),
            ).0
            &&& !t.config.autostart ==> after.tunnels[i] == t
            &&& effects == start_effects(a.tunnels, true)
            &&& after == (AppView {
                tunnels: after.tunnels,
                status_msg: if a.socat_available {
                    a.status_msg
                } else {
                    Some(("warning: `socat` not found in PATH"@, now))
                },
                ..a
            })
        }),
{
}

/// A message is shown for four seconds, and a new one takes its place.
pub proof fn messages_last_four_seconds(a: AppView, msg: Seq<char>, now: u64, later: u64)
    ensures
        a.with_status(msg, now) == (AppView { status_msg: Some((msg, now)), ..a }),
        later < now + 4_000_000_000 ==> a.with_status(msg, now).shown_status(later) == Some(msg),
        later >= now + 4_000_000_000 ==> a.with_status(msg, now).shown_status(later) is None,
        a.status_msg is None ==> a.shown_status(later) is None,
{
}

/// A tunnel that is gone for good is named, and the definitions are saved.
pub proof fn removals_are_told_and_saved(a: AppView, name: Seq<char>, now: u64)
    ensures
        a.removed(name, now).0 == (AppView {
            status_msg: Some(("deleted "@ + name, now)),
            ..a
        }),
        a.removed(name, now).1.len() == 1,
        a.removed(name, now).1[0] is Save,
{
}

} // verus!
