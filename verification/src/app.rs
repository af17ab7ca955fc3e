//! Application state and key handling.
//!
//! What a key, an event or a second does to the state is worked out here; what
//! is to be done outside is handed back as a list of [`Effect`]s, in order.

use crate::config::{option_view, ConfigView, TunnelConfig};
use crate::effects::{
    effect_views, push_effect, push_signal, push_spawn, signals, spawns, Effect, EffectView,
};
use crate::form::{ExportDialog, ExportView, Form, FormView, Moment};
use crate::keys::{KeyCode, KeyEvent};
use crate::procs::{has_finite_tree, proc_views, ProcInfo, ProcView};
use crate::stopping::{wait_stepped, StopStep, StopWait};
use crate::text::{join, joined, views};
use crate::tunnel::{
    less, log_text, Poll, PollView, ProcEvent, SignalRequest, Status, Tunnel, TunnelView,
};
use vstd::prelude::*;
use vstd::string::*;

verus! {

/// How long a status message is shown.
pub const STATUS_TTL: u64 = 4_000_000_000;

/// What the keys act on.
#[derive(Debug)]
pub enum Mode {
    Normal,
    Form(Form),
    ConfirmDelete,
    Export(ExportDialog),
    Help,
}

/// What the keys act on, with the texts as sequences.
pub enum ModeView {
    Normal,
    Form(FormView),
    ConfirmDelete,
    Export(ExportView),
    Help,
}

impl View for Mode {
    type V = ModeView;

    open spec fn view(&self) -> ModeView {
        match self {
            Mode::Normal => ModeView::Normal,
            Mode::Form(f) => ModeView::Form(f@),
            Mode::ConfirmDelete => ModeView::ConfirmDelete,
            Mode::Export(d) => ModeView::Export(d@),
            Mode::Help => ModeView::Help,
        }
    }
}

/// The whole state.
#[derive(Debug)]
pub struct App {
    pub tunnels: Vec<Tunnel>,
    pub selected: usize,
    pub mode: Mode,
    pub show_log: bool,
    pub should_quit: bool,
    /// A message, and when it came up.
    pub status_msg: Option<(String, u64)>,
    pub socat_available: bool,
    pub next_id: u64,
}

/// The whole state, with the texts as sequences.
pub struct AppView {
    pub tunnels: Seq<TunnelView>,
    pub selected: nat,
    pub mode: ModeView,
    pub show_log: bool,
    pub should_quit: bool,
    pub status_msg: Option<(Seq<char>, u64)>,
    pub socat_available: bool,
    pub next_id: u64,
}

/// The views of a list of tunnels.
pub open spec fn tunnel_views(tunnels: Seq<Tunnel>) -> Seq<TunnelView> {
    tunnels.map_values(|t: Tunnel| t@)
}

/// The views of a list of definitions.
pub open spec fn config_views(configs: Seq<TunnelConfig>) -> Seq<ConfigView> {
    configs.map_values(|c: TunnelConfig| c@)
}

/// The views of a list of poll results.
pub open spec fn poll_views(polls: Seq<Poll>) -> Seq<PollView> {
    polls.map_values(|p: Poll| p@)
}

impl View for App {
    type V = AppView;

    open spec fn view(&self) -> AppView {
        AppView {
            tunnels: tunnel_views(self.tunnels@),
            selected: self.selected as nat,
            mode: self.mode@,
            show_log: self.show_log,
            should_quit: self.should_quit,
            status_msg: match self.status_msg {
                Some((msg, at)) => Some((msg@, at)),
                None => None,
            },
            socat_available: self.socat_available,
            next_id: self.next_id,
        }
    }
}

// ---------------------------------------------------------------------------
// Lists of tunnels
// ---------------------------------------------------------------------------

/// Tunnels that were never started, with ids counting up from `first`.
pub open spec fn fresh_tunnels(configs: Seq<ConfigView>, first: u64, now: u64) -> Seq<TunnelView> {
    Seq::new(configs.len(), |i: int| TunnelView::fresh((first + i) as u64, configs[i], now))
}

/// The place of the first tunnel with an id; the length of the list where there
/// is none.
pub open spec fn place(tunnels: Seq<TunnelView>, id: u64) -> nat
    decreases tunnels.len(),
{
    if tunnels.len() == 0 || tunnels[0].id == id {
        0
    } else {
        1 + place(tunnels.drop_first(), id)
    }
}

/// Which tunnels a start is for.
pub open spec fn is_chosen(t: TunnelView, autostart_only: bool) -> bool {
    !autostart_only || t.config.autostart
}

/// A tunnel after an attempt to start it, if it is chosen.
pub open spec fn after_start(t: TunnelView, autostart_only: bool) -> TunnelView {
    if is_chosen(t, autostart_only) {
        t.start_attempted().0
    } else {
        t
    }
}

/// The tunnels after an attempt to start each that is chosen.
pub open spec fn all_started(tunnels: Seq<TunnelView>, autostart_only: bool) -> Seq<TunnelView> {
    tunnels.map_values(|t: TunnelView| after_start(t, autostart_only))
}

/// The processes to spawn to start each tunnel that is chosen.
pub open spec fn start_effects(tunnels: Seq<TunnelView>, autostart_only: bool) -> Seq<EffectView>
    decreases tunnels.len(),
{
    if tunnels.len() == 0 {
        seq![]
    } else {
        let t = tunnels.last();
        start_effects(tunnels.drop_last(), autostart_only) + (if is_chosen(t, autostart_only) {
            spawns(t.id, t.start_attempted().1)
        } else {
            seq![]
        })
    }
}

/// The tunnels after each was asked to stop.
pub open spec fn all_stopping(tunnels: Seq<TunnelView>, now: u64) -> Seq<TunnelView> {
    tunnels.map_values(|t: TunnelView| t.stop_step(now).0)
}

/// The signals that ask each tunnel to stop.
pub open spec fn stop_effects(tunnels: Seq<TunnelView>, now: u64) -> Seq<EffectView>
    decreases tunnels.len(),
{
    if tunnels.len() == 0 {
        seq![]
    } else {
        stop_effects(tunnels.drop_last(), now) + signals(tunnels.last().stop_step(now).1)
    }
}

/// The tunnels with the statistics of each cleared.
pub open spec fn all_cleared(tunnels: Seq<TunnelView>, now: u64) -> Seq<TunnelView> {
    tunnels.map_values(|t: TunnelView| t.cleared(now))
}

/// The tunnels after the work of one second.
pub open spec fn all_ticked(
    tunnels: Seq<TunnelView>,
    procs: Seq<ProcView>,
    polls: Seq<PollView>,
    now: u64,
) -> Seq<TunnelView> {
    Seq::new(tunnels.len(), |i: int| tunnels[i].ticked(procs, polls[i], now).0)
}

/// The signals of the work of one second.
pub open spec fn tick_signals(
    tunnels: Seq<TunnelView>,
    procs: Seq<ProcView>,
    polls: Seq<PollView>,
    now: u64,
) -> Seq<SignalRequest>
    decreases tunnels.len(),
{
    if tunnels.len() == 0 {
        seq![]
    } else {
        let last = tunnels.len() - 1;
        tick_signals(tunnels.drop_last(), procs, polls, now) + tunnels[last].ticked(
            procs,
            polls[last],
            now,
        ).1
    }
}

/// The logs of some tunnels as text, with an empty line between each two.
pub open spec fn logs_text(tunnels: Seq<TunnelView>) -> Seq<char> {
    joined(tunnels.map_values(|t: TunnelView| log_text(t)), "\n"@)
}

/// How many tunnels have a process.
pub open spec fn count_running(tunnels: Seq<TunnelView>) -> nat
    decreases tunnels.len(),
{
    if tunnels.len() == 0 {
        0
    } else {
        count_running(tunnels.drop_last()) + (if tunnels.last().running() {
            1nat
        } else {
            0
        })
    }
}

// ---------------------------------------------------------------------------
// What happens to the state
// ---------------------------------------------------------------------------

impl AppView {
    /// What always holds: every tunnel is sound, ids are unique and below the
    /// next one, the selection is in the list, and what is open is sound and has
    /// a tunnel to act on.
    pub open spec fn wf(self) -> bool {
        &&& forall|i: int| 0 <= i < self.tunnels.len() ==> (#[trigger] self.tunnels[i]).wf()
        &&& forall|i: int|
            0 <= i < self.tunnels.len() ==> (#[trigger] self.tunnels[i]).id < self.next_id
        &&& forall|i: int, j: int|
            0 <= i < j < self.tunnels.len() ==> (#[trigger] self.tunnels[i]).id != (
            #[trigger] self.tunnels[j]).id
        &&& self.selected < self.tunnels.len() || (self.selected == 0 && self.tunnels.len() == 0)
        &&& match self.mode {
            ModeView::Form(f) => f.wf(),
            ModeView::Export(d) => d.wf() && self.tunnels.len() > 0,
            ModeView::ConfirmDelete => self.tunnels.len() > 0,
            _ => true,
        }
    }

    /// The state at the start.
    pub open spec fn initial(configs: Seq<ConfigView>, socat_available: bool, now: u64) -> AppView {
        AppView {
            tunnels: fresh_tunnels(configs, 1, now),
            selected: 0,
            mode: ModeView::Normal,
            show_log: true,
            should_quit: false,
            status_msg: None,
            socat_available,
            next_id: (1 + configs.len()) as u64,
        }
    }

    /// With a message shown.
    pub open spec fn with_status(self, msg: Seq<char>, now: u64) -> AppView {
        AppView { status_msg: Some((msg, now)), ..self }
    }

    /// With a tunnel replaced.
    pub open spec fn with_tunnel(self, i: int, t: TunnelView) -> AppView {
        AppView { tunnels: self.tunnels.update(i, t), ..self }
    }

    /// The message that is shown.
    pub open spec fn shown_status(self, now: u64) -> Option<Seq<char>> {
        match self.status_msg {
            Some((msg, at)) => if now - at < STATUS_TTL {
                Some(msg)
            } else {
                None
            },
            None => None,
        }
    }

    /// After the tunnels that start automatically were started, with a warning
    /// where there is no socat.
    pub open spec fn autostarted(self, now: u64) -> (AppView, Seq<EffectView>) {
        let started = AppView { tunnels: all_started(self.tunnels, true), ..self };
        (
            if self.socat_available {
                started
            } else {
                started.with_status("warning: `socat` not found in PATH"@, now)
            },
            start_effects(self.tunnels, true),
        )
    }

    /// After the selected tunnel was started, asked to stop, or, if it was asked
    /// before, killed.
    pub open spec fn toggled(self, now: u64) -> (AppView, Seq<EffectView>) {
        if self.selected < self.tunnels.len() {
            let i = self.selected as int;
            let t = self.tunnels[i];
            if t.running() {
                let (after, signal) = if t.status is Stopping {
                    t.kill_step(now)
                } else {
                    t.stop_step(now)
                };
                (self.with_tunnel(i, after), signals(signal))
            } else {
                let (after, args) = t.start_attempted();
                (self.with_tunnel(i, after), spawns(t.id, args))
            }
        } else {
            (self, seq![])
        }
    }

    /// After a restart of the selected tunnel has begun: one that runs is asked
    /// to stop first.
    pub open spec fn restarting(self, now: u64) -> (AppView, Seq<EffectView>) {
        if self.selected < self.tunnels.len() {
            let i = self.selected as int;
            let t = self.tunnels[i];
            if t.running() {
                let (after, signal) = t.stop_step(now);
                (
                    self.with_tunnel(i, after),
                    signals(signal) + seq![EffectView::Restart { id: t.id }],
                )
            } else {
                let (after, args) = t.start_attempted();
                (self.with_tunnel(i, after), spawns(t.id, args))
            }
        } else {
            (self, seq![])
        }
    }

    /// After the wait of a restart is over.
    pub open spec fn restarted(self, id: u64) -> (AppView, Seq<EffectView>) {
        let i = place(self.tunnels, id);
        if i < self.tunnels.len() {
            let (after, args) = self.tunnels[i as int].start_attempted();
            (self.with_tunnel(i as int, after), spawns(id, args))
        } else {
            (self, seq![])
        }
    }

    /// After the selected tunnel has changed places with the one below or above
    /// it, if there is one.
    pub open spec fn moved(self, down: bool) -> (AppView, Seq<EffectView>) {
        let i = self.selected as int;
        let to = if down {
            i + 1
        } else {
            i - 1
        };
        if 0 <= to < self.tunnels.len() && i < self.tunnels.len() {
            (
                AppView {
                    tunnels: self.tunnels.update(i, self.tunnels[to]).update(to, self.tunnels[i]),
                    selected: to as nat,
                    ..self
                },
                seq![EffectView::Save],
            )
        } else {
            (self, seq![])
        }
    }

    /// The label in the path of an export.
    pub open spec fn export_label(self, all: bool) -> Seq<char> {
        if all {
            "all"@
        } else {
            self.tunnels[self.selected as int].config.name
        }
    }

    /// After the export dialog was opened, if there is a tunnel.
    pub open spec fn exporting(self, all: bool, m: Moment) -> AppView {
        if self.tunnels.len() > 0 {
            AppView {
                mode: ModeView::Export(ExportView::opened(all, self.export_label(all), m)),
                ..self
            }
        } else {
            self
        }
    }

    /// The tunnels whose logs are exported.
    pub open spec fn exported(self, all: bool) -> Seq<TunnelView> {
        if all {
            self.tunnels
        } else {
            seq![self.tunnels[self.selected as int]]
        }
    }

    /// What a key does when nothing is open.
    pub open spec fn normal_key(self, key: KeyEvent, m: Moment) -> (AppView, Seq<EffectView>) {
        let n = self.tunnels.len();
        let i = self.selected as int;
        let nothing = Seq::<EffectView>::empty();
        match key.code {
            KeyCode::Char('q') => (AppView { should_quit: true, ..self }, nothing),
            KeyCode::Char('?') | KeyCode::F(1) => (
                AppView { mode: ModeView::Help, ..self },
                nothing,
            ),
            KeyCode::Down | KeyCode::Char('j') => (
                AppView {
                    selected: if n > 0 {
                        (self.selected + 1) % n
                    } else {
                        self.selected
                    },
                    ..self
                },
                nothing,
            ),
            KeyCode::Up | KeyCode::Char('k') => (
                AppView {
                    selected: if n > 0 {
                        ((self.selected + n - 1) % n as int) as nat
                    } else {
                        self.selected
                    },
                    ..self
                },
                nothing,
            ),
            KeyCode::Home | KeyCode::Char('g') => (AppView { selected: 0, ..self }, nothing),
            KeyCode::End | KeyCode::Char('G') => (
                AppView { selected: less(n, 1), ..self },
                nothing,
            ),
            KeyCode::Char('a') | KeyCode::Char('n') => (
                AppView { mode: ModeView::Form(FormView::empty()), ..self },
                nothing,
            ),
            KeyCode::Char('e') | KeyCode::Enter => (
                if i < n {
                    AppView {
                        mode: ModeView::Form(
                            FormView::of(self.tunnels[i].id, self.tunnels[i].config),
                        ),
                        ..self
                    }
                } else {
                    self
                },
                nothing,
            ),
            KeyCode::Char('d') | KeyCode::Delete => (
                if n > 0 {
                    AppView { mode: ModeView::ConfirmDelete, ..self }
                } else {
                    self
                },
                nothing,
            ),
            KeyCode::Char('s') | KeyCode::Char(' ') => self.toggled(m.now),
            KeyCode::Char('r') => self.restarting(m.now),
            KeyCode::Char('K') => if i < n {
                let (after, signal) = self.tunnels[i].kill_step(m.now);
                (self.with_tunnel(i, after), signals(signal))
            } else {
                (self, nothing)
            },
            KeyCode::Char('S') => (
                AppView { tunnels: all_started(self.tunnels, false), ..self }.with_status(
                    "started all tunnels"@,
                    m.now,
                ),
                start_effects(self.tunnels, false),
            ),
            KeyCode::Char('X') => (
                AppView { tunnels: all_stopping(self.tunnels, m.now), ..self }.with_status(
                    "stopping all tunnels"@,
                    m.now,
                ),
                stop_effects(self.tunnels, m.now),
            ),
            KeyCode::Char('c') => (
                if i < n {
                    self.with_tunnel(i, self.tunnels[i].cleared(m.now))
                } else {
                    self
                },
                nothing,
            ),
            KeyCode::Char('C') => (
                AppView { tunnels: all_cleared(self.tunnels, m.now), ..self },
                nothing,
            ),
            KeyCode::Char('l') => (AppView { show_log: !self.show_log, ..self }, nothing),
            KeyCode::Char('J') => self.moved(true),
            KeyCode::Char('U') => self.moved(false),
            KeyCode::Char('w') => (self.exporting(false, m), nothing),
            KeyCode::Char('W') => (self.exporting(true, m), nothing),
            _ => (self, nothing),
        }
    }

    /// After a form was saved: the tunnel that was edited has the definition, or
    /// a new tunnel is at the end of the list and selected. The definitions are
    /// to be saved in either case.
    pub open spec fn committed(self, editing: Option<u64>, cfg: ConfigView, now: u64) -> (
        AppView,
        Seq<EffectView>,
    ) {
        (
            match editing {
                Some(id) => {
                    let i = place(self.tunnels, id);
                    if i < self.tunnels.len() {
                        let t = self.tunnels[i as int];
                        self.with_tunnel(i as int, TunnelView { config: cfg, ..t }).with_status(
                            if t.config != cfg && t.running() {
                                "saved; restart (r) to apply the new addresses"@
                            } else {
                                "saved"@
                            },
                            now,
                        )
                    } else {
                        self
                    }
                },
                None => AppView {
                    tunnels: self.tunnels.push(TunnelView::fresh(self.next_id, cfg, now)),
                    next_id: (self.next_id + 1) as u64,
                    selected: self.tunnels.len(),
                    ..self
                }.with_status("added; press s to start"@, now),
            },
            seq![EffectView::Save],
        )
    }

    /// What a key does when the form is open.
    pub open spec fn form_key(self, form: FormView, key: KeyEvent, m: Moment) -> (
        AppView,
        Seq<EffectView>,
    ) {
        if key.code == KeyCode::Esc {
            (self, seq![])
        } else if key.code == KeyCode::Enter {
            match form.config() {
                Ok(cfg) => self.committed(form.editing, cfg, m.now),
                Err(e) => (
                    AppView {
                        mode: ModeView::Form(FormView { error: Some(e), ..form }),
                        ..self
                    },
                    seq![],
                ),
            }
        } else {
            (AppView { mode: ModeView::Form(form.keyed(key)), ..self }, seq![])
        }
    }

    /// Without the selected tunnel.
    pub open spec fn without_selected(self) -> AppView {
        let tunnels = self.tunnels.remove(self.selected as int);
        AppView {
            tunnels,
            selected: if self.selected >= tunnels.len() {
                less(tunnels.len(), 1)
            } else {
                self.selected
            },
            ..self
        }
    }

    /// After a tunnel with this name is gone for good.
    pub open spec fn removed(self, name: Seq<char>, now: u64) -> (AppView, Seq<EffectView>) {
        (self.with_status("deleted "@ + name, now), seq![EffectView::Save])
    }

    /// What a key does when a deletion is to be confirmed: `y` and Enter delete,
    /// any other key does not. A tunnel that runs is asked to stop, and is gone
    /// for good after that.
    pub open spec fn confirm_key(self, key: KeyEvent, m: Moment) -> (AppView, Seq<EffectView>) {
        let confirmed = key.code == KeyCode::Char('y') || key.code == KeyCode::Char('Y') || key.code
            == KeyCode::Enter;
        if !confirmed || self.selected >= self.tunnels.len() {
            (self, seq![])
        } else {
            let t = self.tunnels[self.selected as int];
            if t.running() {
                let (after, signal) = t.stop_step(m.now);
                (self.without_selected(), signals(signal) + seq![EffectView::Remove(after)])
            } else {
                self.without_selected().removed(t.config.name, m.now)
            }
        }
    }

    /// What a key does when the export dialog is open: Enter exports, and the
    /// dialog stays open until it is known whether the file could be written.
    pub open spec fn export_key(self, d: ExportView, key: KeyEvent, m: Moment) -> (
        AppView,
        Seq<EffectView>,
    ) {
        if key.code == KeyCode::Esc {
            (self, seq![])
        } else if key.code == KeyCode::Enter {
            (
                AppView { mode: ModeView::Export(d), ..self },
                seq![
                    EffectView::Export {
                        path: d.destination(self.export_label(d.all), m),
                        text: logs_text(self.exported(d.all)),
                    },
                ],
            )
        } else {
            (AppView { mode: ModeView::Export(d.keyed(key)), ..self }, seq![])
        }
    }

    /// What a key does: Ctrl-C quits, whatever is open; any key closes the help.
    pub open spec fn keyed(self, key: KeyEvent, m: Moment) -> (AppView, Seq<EffectView>) {
        if key.control && key.code == KeyCode::Char('c') {
            (AppView { should_quit: true, ..self }, seq![])
        } else {
            let closed = AppView { mode: ModeView::Normal, ..self };
            match self.mode {
                ModeView::Normal => closed.normal_key(key, m),
                ModeView::Form(form) => closed.form_key(form, key, m),
                ModeView::ConfirmDelete => closed.confirm_key(key, m),
                ModeView::Export(d) => closed.export_key(d, key, m),
                ModeView::Help => (closed, seq![]),
            }
        }
    }

    /// There is an id left for a tunnel that the key may add.
    pub open spec fn can_press(self, key: KeyEvent) -> bool {
        self.mode is Form && self.mode->Form_0.editing is None && key.code == KeyCode::Enter
            ==> self.next_id < u64::MAX
    }

    /// After an export: the dialog is closed, or shows what went wrong.
    pub open spec fn export_finished(
        self,
        path: Seq<char>,
        error: Option<Seq<char>>,
        now: u64,
    ) -> AppView {
        match (self.mode, error) {
            (ModeView::Export(d), Some(e)) => AppView {
                mode: ModeView::Export(ExportView { error: Some(e), ..d }),
                ..self
            },
            (ModeView::Export(_), None) => AppView {
                mode: ModeView::Normal,
                ..self
            }.with_status("exported to "@ + path, now),
            _ => self,
        }
    }

    /// The tunnel with this id, if there is one, has no process.
    pub open spec fn can_spawn(self, id: u64) -> bool {
        let i = place(self.tunnels, id);
        i < self.tunnels.len() ==> !self.tunnels[i as int].running()
    }

    /// After an attempt to spawn socat for the tunnel with this id.
    pub open spec fn spawn_noted(
        self,
        id: u64,
        outcome: Result<u32, Seq<char>>,
        now: u64,
    ) -> AppView {
        let i = place(self.tunnels, id);
        if i < self.tunnels.len() {
            let t = self.tunnels[i as int];
            self.with_tunnel(
                i as int,
                match outcome {
                    Ok(pid) => t.spawned(pid, now),
                    Err(e) => t.spawn_failed(e),
                },
            )
        } else {
            self
        }
    }

    /// A line whose counters fit, or which is from no tunnel in the list.
    pub open spec fn takes(self, id: u64, line: Seq<char>) -> bool {
        let i = place(self.tunnels, id);
        i < self.tunnels.len() ==> self.tunnels[i as int].takes(line)
    }

    /// After a line of stderr from the tunnel with this id.
    pub open spec fn heard(self, id: u64, line: Seq<char>) -> AppView {
        let i = place(self.tunnels, id);
        if i < self.tunnels.len() {
            self.with_tunnel(i as int, self.tunnels[i as int].heard(line))
        } else {
            self
        }
    }

    /// There is a poll result for each tunnel, and the process trees that are
    /// needed come to an end.
    pub open spec fn can_tick(self, procs: Seq<ProcView>, polls: Seq<PollView>) -> bool {
        &&& polls.len() == self.tunnels.len()
        &&& forall|i: int|
            0 <= i < self.tunnels.len() ==> (#[trigger] self.tunnels[i]).can_tick(procs, polls[i])
    }

    /// After the work of one second.
    pub open spec fn ticked(self, procs: Seq<ProcView>, polls: Seq<PollView>, now: u64) -> AppView {
        AppView { tunnels: all_ticked(self.tunnels, procs, polls, now), ..self }
    }

    /// After one look while waiting for the tunnel with this id to stop.
    pub open spec fn stop_stepped(self, w: StopWait, id: u64, poll: PollView, now: u64) -> (
        AppView,
        StopWait,
        StopStep,
    ) {
        let i = place(self.tunnels, id);
        if i < self.tunnels.len() {
            let (w1, t, step) = wait_stepped(w, self.tunnels[i as int], poll, now);
            (self.with_tunnel(i as int, t), w1, step)
        } else {
            (self, w, StopStep::Done)
        }
    }
}

// ---------------------------------------------------------------------------
// Lemmas
// ---------------------------------------------------------------------------

/// The first place is the one before which no tunnel has the id.
pub(crate) proof fn lemma_place(tunnels: Seq<TunnelView>, id: u64, i: int)
    requires
        0 <= i <= tunnels.len(),
        forall|j: int| 0 <= j < i ==> (#[trigger] tunnels[j]).id != id,
        i < tunnels.len() ==> tunnels[i].id == id,
    ensures
        place(tunnels, id) == i,
    decreases tunnels.len(),
{
    if i > 0 {
        let rest = tunnels.drop_first();
        assert(tunnels[0].id != id);
        assert forall|j: int| 0 <= j < i - 1 implies (#[trigger] rest[j]).id != id by {
            assert(tunnels[j + 1].id != id);
        }
        lemma_place(rest, id, i - 1);
    }
}

/// A sound tunnel in the place of one with the same id leaves the state sound.
proof fn lemma_with_tunnel(a: AppView, i: int, t: TunnelView)
    requires
        a.wf(),
        0 <= i < a.tunnels.len(),
        t.wf(),
        t.id == a.tunnels[i].id,
    ensures
        a.with_tunnel(i, t).wf(),
{
    let b = a.with_tunnel(i, t);
    assert forall|k: int| 0 <= k < b.tunnels.len() implies (#[trigger] b.tunnels[k]).wf()
        && b.tunnels[k].id == a.tunnels[k].id by {
        if k != i {
            assert(b.tunnels[k] == a.tunnels[k]);
        }
    }
    assert forall|k: int, j: int| 0 <= k < j < b.tunnels.len() implies (#[trigger] b.tunnels[k]).id
        != (#[trigger] b.tunnels[j]).id by {
        assert(a.tunnels[k].id != a.tunnels[j].id);
    }
}

/// Sound tunnels with the same ids leave the state sound.
proof fn lemma_same_ids(a: AppView, tunnels: Seq<TunnelView>)
    requires
        a.wf(),
        tunnels.len() == a.tunnels.len(),
        forall|k: int|
            0 <= k < tunnels.len() ==> (#[trigger] tunnels[k]).wf() && tunnels[k].id
                == a.tunnels[k].id,
    ensures
        (AppView { tunnels, ..a }).wf(),
{
    let b = AppView { tunnels, ..a };
    assert forall|k: int, j: int| 0 <= k < j < b.tunnels.len() implies (#[trigger] b.tunnels[k]).id
        != (#[trigger] b.tunnels[j]).id by {
        assert(a.tunnels[k].id != a.tunnels[j].id);
    }
    assert forall|k: int| 0 <= k < b.tunnels.len() implies (#[trigger] b.tunnels[k]).id
        < b.next_id by {
        assert(a.tunnels[k].id < a.next_id);
    }
}

// ---------------------------------------------------------------------------
// The state
// ---------------------------------------------------------------------------

impl App {
    /// The state at the start, with a tunnel for each definition.
    pub fn new(configs: &Vec<TunnelConfig>, socat_available: bool, now: u64) -> (r: App)
        requires
            configs@.len() < u64::MAX,
        ensures
            r@ == AppView::initial(config_views(configs@), socat_available, now),
            r@.wf(),
    {
        let mut tunnels: Vec<Tunnel> = Vec::new();
        let mut next_id: u64 = 1;
        let mut i: usize = 0;
        let ghost want = fresh_tunnels(config_views(configs@), 1, now);
        while i < configs.len()
            invariant
                i <= configs@.len() < u64::MAX,
                next_id == i + 1,
                tunnels@.len() == i,
                want == fresh_tunnels(config_views(configs@), 1, now),
                forall|k: int| 0 <= k < i ==> (#[trigger] tunnels@[k])@ == want[k] && want[k].wf()
                    && want[k].id == k + 1,
            decreases configs@.len() - i,
        {
            tunnels.push(Tunnel::new(next_id, configs[i].clone(), now));
            next_id += 1;
            i += 1;
        }
        assert(tunnel_views(tunnels@) =~= want);
        App {
            tunnels,
            selected: 0,
            mode: Mode::Normal,
            show_log: true,
            should_quit: false,
            status_msg: None,
            socat_available,
            next_id,
        }
    }

    /// Shows a message.
    pub fn set_status(&mut self, msg: String, now: u64)
        ensures
            final(self)@ == old(self)@.with_status(msg@, now),
    {
        self.status_msg = Some((msg, now));
    }

    /// The message that is shown.
    pub fn status_text(&self, now: u64) -> (r: Option<&str>)
        ensures
            match r {
                Some(msg) => self@.shown_status(now) == Some(msg@),
                None => self@.shown_status(now) is None,
            },
    {
        match &self.status_msg {
            Some((msg, at)) => {
                if now.saturating_sub(*at) < STATUS_TTL {
                    Some(msg.as_str())
                } else {
                    None
                }
            },
            None => None,
        }
    }

    /// The selected tunnel.
    pub fn selected_tunnel(&self) -> (r: Option<&Tunnel>)
        ensures
            match r {
                Some(t) => self.selected < self.tunnels@.len() && *t
                    == self.tunnels@[self.selected as int],
                None => self.selected >= self.tunnels@.len(),
            },
    {
        if self.selected < self.tunnels.len() {
            Some(&self.tunnels[self.selected])
        } else {
            None
        }
    }

    /// How many tunnels have a process.
    pub fn running_count(&self) -> (r: usize)
        ensures
            r == count_running(self@.tunnels),
    {
        let mut r: usize = 0;
        let mut i: usize = 0;
        let ghost all = self@.tunnels;
        assert(all.take(0).len() == 0);
        while i < self.tunnels.len()
            invariant
                i <= self.tunnels@.len(),
                all == tunnel_views(self.tunnels@),
                r == count_running(all.take(i as int)),
                r <= i,
            decreases self.tunnels@.len() - i,
        {
            assert(all.take(i + 1).drop_last() == all.take(i as int));
            assert(all.take(i + 1).last() == self.tunnels@[i as int]@);
            if self.tunnels[i].is_running() {
                r += 1;
            }
            i += 1;
        }
        assert(all.take(i as int) == all);
        r
    }

    /// The definitions of all tunnels, to be saved.
    pub fn configs(&self) -> (r: Vec<TunnelConfig>)
        ensures
            config_views(r@) == self@.tunnels.map_values(|t: TunnelView| t.config),
    {
        let mut r: Vec<TunnelConfig> = Vec::new();
        let mut i: usize = 0;
        while i < self.tunnels.len()
            invariant
                i <= self.tunnels@.len(),
                r@.len() == i,
                forall|k: int| 0 <= k < i ==> (#[trigger] r@[k])@ == self.tunnels@[k]@.config,
            decreases self.tunnels@.len() - i,
        {
            r.push(self.tunnels[i].config.clone());
            i += 1;
        }
        assert(config_views(r@) =~= self@.tunnels.map_values(|t: TunnelView| t.config));
        r
    }

    /// Tells that the definitions could not be saved.
    pub fn on_save_failed(&mut self, e: &str, now: u64)
        ensures
            final(self)@ == old(self)@.with_status("failed to save config: "@ + e@, now),
    {
        self.set_status("failed to save config: ".to_owned().concat(e), now);
    }

    /// The place of the tunnel with an id; the length of the list where there is
    /// none.
    fn find(&self, id: u64) -> (r: usize)
        ensures
            r == place(self@.tunnels, id),
            r <= self.tunnels@.len(),
            r < self.tunnels@.len() ==> self.tunnels@[r as int]@.id == id,
    {
        let n: usize = self.tunnels.len();
        let mut i: usize = 0;
        while i < n
            invariant
                i <= n == self.tunnels@.len(),
                forall|j: int| 0 <= j < i ==> (#[trigger] self@.tunnels[j]).id != id,
            decreases n - i,
        {
            if self.tunnels[i].id == id {
                proof {
                    assert(self@.tunnels[i as int].id == id);
                    lemma_place(self@.tunnels, id, i as int);
                }
                return i;
            }
            i += 1;
        }
        proof {
            lemma_place(self@.tunnels, id, n as int);
        }
        n
    }

    /// Begins to start every tunnel that is chosen.
    fn start_all(&mut self, autostart_only: bool) -> (r: Vec<Effect>)
        requires
            old(self)@.wf(),
        ensures
            final(self)@ == (AppView {
                tunnels: all_started(old(self)@.tunnels, autostart_only),
                ..old(self)@
            }),
            final(self)@.wf(),
            effect_views(r@) == start_effects(old(self)@.tunnels, autostart_only),
    {
        let ghost before = self@;
        let ghost done = all_started(before.tunnels, autostart_only);
        let mut effects: Vec<Effect> = Vec::new();
        let n: usize = self.tunnels.len();
        let mut i: usize = 0;
        assert(effect_views(effects@) =~= start_effects(before.tunnels.take(0), autostart_only));
        assert(self@.tunnels =~= done.take(0) + before.tunnels.skip(0));
        while i < n
            invariant
                before.wf(),
                n == before.tunnels.len(),
                i <= n,
                done == all_started(before.tunnels, autostart_only),
                self@ == (AppView {
                    tunnels: done.take(i as int) + before.tunnels.skip(i as int),
                    ..before
                }),
                effect_views(effects@) == start_effects(
                    before.tunnels.take(i as int),
                    autostart_only,
                ),
            decreases n - i,
        {
            let ghost t = before.tunnels[i as int];
            assert(self@.tunnels.len() == n && self@.tunnels[i as int] == t);
            assert(self.tunnels@.len() == n && self.tunnels@[i as int]@ == t);
            let ghost so_far = self@.tunnels;
            assert(before.tunnels.take(i + 1).drop_last() == before.tunnels.take(i as int));
            if !autostart_only || self.tunnels[i].config.autostart {
                let id: u64 = self.tunnels[i].id;
                let args: Option<Vec<String>> = self.tunnels[i].start();
                push_spawn(&mut effects, id, args);
            }
            assert(self@.tunnels =~= so_far.update(i as int, done[i as int]));
            assert(self@.tunnels =~= done.take(i + 1) + before.tunnels.skip(i + 1));
            assert(effect_views(effects@) =~= start_effects(
                before.tunnels.take(i + 1),
                autostart_only,
            ));
            i += 1;
        }
        assert(before.tunnels.take(i as int) == before.tunnels);
        assert(done.take(i as int) + before.tunnels.skip(i as int) =~= done);
        proof {
            assert forall|k: int| 0 <= k < done.len() implies (#[trigger] done[k]).wf()
                && done[k].id == before.tunnels[k].id by {
                assert(before.tunnels[k].wf());
                lemma_start_keeps(before.tunnels[k]);
            }
            lemma_same_ids(before, done);
        }
        effects
    }

    /// Asks every tunnel to stop.
    fn stop_all(&mut self, now: u64) -> (r: Vec<Effect>)
        requires
            old(self)@.wf(),
        ensures
            final(self)@ == (AppView {
                tunnels: all_stopping(old(self)@.tunnels, now),
                ..old(self)@
            }),
            final(self)@.wf(),
            effect_views(r@) == stop_effects(old(self)@.tunnels, now),
    {
        let ghost before = self@;
        let ghost done = all_stopping(before.tunnels, now);
        let mut effects: Vec<Effect> = Vec::new();
        let n: usize = self.tunnels.len();
        let mut i: usize = 0;
        assert(effect_views(effects@) =~= stop_effects(before.tunnels.take(0), now));
        assert(self@.tunnels =~= done.take(0) + before.tunnels.skip(0));
        while i < n
            invariant
                before.wf(),
                n == before.tunnels.len(),
                i <= n,
                done == all_stopping(before.tunnels, now),
                self@ == (AppView {
                    tunnels: done.take(i as int) + before.tunnels.skip(i as int),
                    ..before
                }),
                effect_views(effects@) == stop_effects(before.tunnels.take(i as int), now),
                forall|k: int| 0 <= k < i ==> (#[trigger] done[k]).wf(),
            decreases n - i,
        {
            let ghost t = before.tunnels[i as int];
            assert(self@.tunnels.len() == n && self@.tunnels[i as int] == t);
            assert(self.tunnels@.len() == n && self.tunnels@[i as int]@ == t);
            let ghost so_far = self@.tunnels;
            assert(before.tunnels.take(i + 1).drop_last() == before.tunnels.take(i as int));
            let signal: Option<SignalRequest> = self.tunnels[i].stop(now);
            push_signal(&mut effects, signal);
            assert(self@.tunnels =~= so_far.update(i as int, done[i as int]));
            assert(self@.tunnels =~= done.take(i + 1) + before.tunnels.skip(i + 1));
            assert(effect_views(effects@) =~= stop_effects(before.tunnels.take(i + 1), now));
            i += 1;
        }
        assert(before.tunnels.take(i as int) == before.tunnels);
        assert(done.take(i as int) + before.tunnels.skip(i as int) =~= done);
        proof {
            lemma_same_ids(before, done);
        }
        effects
    }

    /// Clears the statistics of every tunnel.
    fn clear_all(&mut self, now: u64)
        requires
            old(self)@.wf(),
        ensures
            final(self)@ == (AppView {
                tunnels: all_cleared(old(self)@.tunnels, now),
                ..old(self)@
            }),
            final(self)@.wf(),
    {
        let ghost before = self@;
        let ghost done = all_cleared(before.tunnels, now);
        let n: usize = self.tunnels.len();
        let mut i: usize = 0;
        assert(self@.tunnels =~= done.take(0) + before.tunnels.skip(0));
        while i < n
            invariant
                before.wf(),
                n == before.tunnels.len(),
                i <= n,
                done == all_cleared(before.tunnels, now),
                self@ == (AppView {
                    tunnels: done.take(i as int) + before.tunnels.skip(i as int),
                    ..before
                }),
                forall|k: int| 0 <= k < i ==> (#[trigger] done[k]).wf(),
            decreases n - i,
        {
            let ghost t = before.tunnels[i as int];
            assert(self@.tunnels.len() == n && self@.tunnels[i as int] == t);
            assert(self.tunnels@.len() == n && self.tunnels@[i as int]@ == t);
            let ghost so_far = self@.tunnels;
            self.tunnels[i].clear_stats(now);
            assert(self@.tunnels =~= so_far.update(i as int, done[i as int]));
            assert(self@.tunnels =~= done.take(i + 1) + before.tunnels.skip(i + 1));
            i += 1;
        }
        assert(done.take(i as int) + before.tunnels.skip(i as int) =~= done);
        proof {
            lemma_same_ids(before, done);
        }
    }

    /// Starts the tunnels that start automatically, and warns where there is no
    /// socat.
    pub fn autostart(&mut self, now: u64) -> (r: Vec<Effect>)
        requires
            old(self)@.wf(),
        ensures
            (final(self)@, effect_views(r@)) == old(self)@.autostarted(now),
            final(self)@.wf(),
    {
        let effects: Vec<Effect> = self.start_all(true);
        if !self.socat_available {
            self.set_status("warning: `socat` not found in PATH".to_owned(), now);
        }
        effects
    }

    /// Stops every tunnel, before the program ends.
    pub fn shutdown(&mut self, now: u64) -> (r: Vec<Effect>)
        requires
            old(self)@.wf(),
        ensures
            final(self)@ == (AppView {
                tunnels: all_stopping(old(self)@.tunnels, now),
                ..old(self)@
            }),
            final(self)@.wf(),
            effect_views(r@) == stop_effects(old(self)@.tunnels, now),
    {
        self.stop_all(now)
    }

    /// Begins to start the tunnel at a place.
    fn start_at(&mut self, i: usize) -> (r: Vec<Effect>)
        requires
            old(self)@.wf(),
            i < old(self)@.tunnels.len(),
        ensures
            ({
                let t = old(self)@.tunnels[i as int];
                let (after, args) = t.start_attempted();
                &&& final(self)@ == old(self)@.with_tunnel(i as int, after)
                &&& effect_views(r@) == spawns(t.id, args)
            }),
            final(self)@.wf(),
    {
        let ghost t = self@.tunnels[i as int];
        assert(self.tunnels@[i as int]@ == t);
        let mut effects: Vec<Effect> = Vec::new();
        let id: u64 = self.tunnels[i].id;
        let args: Option<Vec<String>> = self.tunnels[i].start();
        push_spawn(&mut effects, id, args);
        proof {
            assert(self@.tunnels =~= old(self)@.tunnels.update(i as int, t.start_attempted().0));
            assert(effect_views(effects@) =~= spawns(t.id, t.start_attempted().1));
            lemma_with_tunnel(old(self)@, i as int, t.start_attempted().0);
        }
        effects
    }

    /// Asks the tunnel at a place to stop.
    fn stop_at(&mut self, i: usize, now: u64) -> (r: Vec<Effect>)
        requires
            old(self)@.wf(),
            i < old(self)@.tunnels.len(),
        ensures
            ({
                let (after, signal) = old(self)@.tunnels[i as int].stop_step(now);
                &&& final(self)@ == old(self)@.with_tunnel(i as int, after)
                &&& effect_views(r@) == signals(signal)
            }),
            final(self)@.wf(),
    {
        let ghost t = self@.tunnels[i as int];
        assert(self.tunnels@[i as int]@ == t);
        let mut effects: Vec<Effect> = Vec::new();
        let signal: Option<SignalRequest> = self.tunnels[i].stop(now);
        push_signal(&mut effects, signal);
        proof {
            assert(self@.tunnels =~= old(self)@.tunnels.update(i as int, t.stop_step(now).0));
            assert(effect_views(effects@) =~= signals(t.stop_step(now).1));
            lemma_with_tunnel(old(self)@, i as int, t.stop_step(now).0);
        }
        effects
    }

    /// Kills the tunnel at a place.
    fn kill_at(&mut self, i: usize, now: u64) -> (r: Vec<Effect>)
        requires
            old(self)@.wf(),
            i < old(self)@.tunnels.len(),
        ensures
            ({
                let (after, signal) = old(self)@.tunnels[i as int].kill_step(now);
                &&& final(self)@ == old(self)@.with_tunnel(i as int, after)
                &&& effect_views(r@) == signals(signal)
            }),
            final(self)@.wf(),
    {
        let ghost t = self@.tunnels[i as int];
        assert(self.tunnels@[i as int]@ == t);
        let mut effects: Vec<Effect> = Vec::new();
        let signal: Option<SignalRequest> = self.tunnels[i].kill_now(now);
        push_signal(&mut effects, signal);
        proof {
            assert(self@.tunnels =~= old(self)@.tunnels.update(i as int, t.kill_step(now).0));
            assert(effect_views(effects@) =~= signals(t.kill_step(now).1));
            lemma_with_tunnel(old(self)@, i as int, t.kill_step(now).0);
        }
        effects
    }

    /// Starts the selected tunnel, asks it to stop, or, if it was asked before,
    /// kills it.
    pub fn toggle_selected(&mut self, now: u64) -> (r: Vec<Effect>)
        requires
            old(self)@.wf(),
        ensures
            (final(self)@, effect_views(r@)) == old(self)@.toggled(now),
            final(self)@.wf(),
    {
        if self.selected >= self.tunnels.len() {
            let r: Vec<Effect> = Vec::new();
            assert(effect_views(r@) =~= seq![]);
            return r;
        }
        let i: usize = self.selected;
        assert(self@.tunnels[i as int] == self.tunnels@[i as int]@);
        if self.tunnels[i].is_running() {
            match self.tunnels[i].status {
                Status::Stopping => self.kill_at(i, now),
                _ => self.stop_at(i, now),
            }
        } else {
            self.start_at(i)
        }
    }

    /// Begins to restart the selected tunnel.
    pub fn restart_selected(&mut self, now: u64) -> (r: Vec<Effect>)
        requires
            old(self)@.wf(),
        ensures
            (final(self)@, effect_views(r@)) == old(self)@.restarting(now),
            final(self)@.wf(),
    {
        if self.selected >= self.tunnels.len() {
            let r: Vec<Effect> = Vec::new();
            assert(effect_views(r@) =~= seq![]);
            return r;
        }
        let i: usize = self.selected;
        assert(self@.tunnels[i as int] == self.tunnels@[i as int]@);
        let id: u64 = self.tunnels[i].id;
        if self.tunnels[i].is_running() {
            let mut effects: Vec<Effect> = self.stop_at(i, now);
            let ghost before = effect_views(effects@);
            push_effect(&mut effects, Effect::Restart { id });
            assert(effect_views(effects@) =~= before + seq![EffectView::Restart { id }]);
            effects
        } else {
            self.start_at(i)
        }
    }

    /// Goes on with a restart when the wait for the tunnel to stop is over.
    pub fn finish_restart(&mut self, id: u64) -> (r: Vec<Effect>)
        requires
            old(self)@.wf(),
        ensures
            (final(self)@, effect_views(r@)) == old(self)@.restarted(id),
            final(self)@.wf(),
    {
        let i: usize = self.find(id);
        if i < self.tunnels.len() {
            self.start_at(i)
        } else {
            let r: Vec<Effect> = Vec::new();
            assert(effect_views(r@) =~= seq![]);
            r
        }
    }

    /// Lets the selected tunnel change places with the one below or above it.
    pub fn move_selected(&mut self, down: bool) -> (r: Vec<Effect>)
        requires
            old(self)@.wf(),
        ensures
            (final(self)@, effect_views(r@)) == old(self)@.moved(down),
            final(self)@.wf(),
    {
        let mut effects: Vec<Effect> = Vec::new();
        let n: usize = self.tunnels.len();
        let i: usize = self.selected;
        assert(effect_views(effects@) =~= seq![]);
        if n < 2 || (down && i + 1 >= n) || (!down && i == 0) {
            return effects;
        }
        let to: usize = if down {
            i + 1
        } else {
            i - 1
        };
        let ghost before = self@;
        swap_tunnels(&mut self.tunnels, i, to);
        self.selected = to;
        push_effect(&mut effects, Effect::Save);
        proof {
            assert(effect_views(effects@) =~= seq![EffectView::Save]);
            let a = before.tunnels[i as int];
            let b = before.tunnels[to as int];
            assert(self@.tunnels =~= before.tunnels.update(i as int, b).update(to as int, a));
            lemma_swapped(before, i as int, to as int);
        }
        effects
    }

    /// The logs of all tunnels, or of the selected one, as text.
    fn export_text(&self, all: bool) -> (r: String)
        requires
            self@.wf(),
            self@.tunnels.len() > 0,
        ensures
            r@ == logs_text(self@.exported(all)),
    {
        let ghost chosen = self@.exported(all);
        let ghost texts = chosen.map_values(|t: TunnelView| log_text(t));
        let mut parts: Vec<String> = Vec::new();
        if all {
            let mut i: usize = 0;
            while i < self.tunnels.len()
                invariant
                    i <= self.tunnels@.len(),
                    texts == self@.tunnels.map_values(|t: TunnelView| log_text(t)),
                    parts@.len() == i,
                    forall|k: int| 0 <= k < i ==> (#[trigger] parts@[k])@ == texts[k],
                decreases self.tunnels@.len() - i,
            {
                let mut part: String = String::new();
                let _ = self.tunnels[i].write_log(&mut part);
                assert(part@ =~= log_text(self.tunnels@[i as int]@));
                parts.push(part);
                i += 1;
            }
        } else {
            let mut part: String = String::new();
            let _ = self.tunnels[self.selected].write_log(&mut part);
            assert(part@ =~= log_text(self.tunnels@[self.selected as int]@));
            parts.push(part);
        }
        assert(views(parts@) =~= texts);
        join(&parts, "\n")
    }

    /// The label in the path of an export.
    fn label_for_export(&self, all: bool) -> (r: String)
        requires
            self@.wf(),
            self@.tunnels.len() > 0,
        ensures
            r@ == self@.export_label(all),
    {
        if all {
            "all".to_owned()
        } else {
            self.tunnels[self.selected].config.name.clone()
        }
    }

    /// Opens the export dialog, if there is a tunnel.
    fn open_export(&mut self, all: bool, m: Moment)
        requires
            old(self)@.wf(),
        ensures
            final(self)@ == old(self)@.exporting(all, m),
            final(self)@.wf(),
    {
        if self.tunnels.len() > 0 {
            let label: String = self.label_for_export(all);
            self.mode = Mode::Export(ExportDialog::open(all, label.as_str(), m));
        }
    }

    /// Does what a key does when nothing is open.
    fn on_key_normal(&mut self, key: KeyEvent, m: Moment) -> (r: Vec<Effect>)
        requires
            old(self)@.wf(),
            old(self)@.mode is Normal,
        ensures
            (final(self)@, effect_views(r@)) == old(self)@.normal_key(key, m),
            final(self)@.wf(),
    {
        let nothing: Vec<Effect> = Vec::new();
        assert(effect_views(nothing@) =~= Seq::<EffectView>::empty());
        let n: usize = self.tunnels.len();
        let i: usize = self.selected;
        match key.code {
            KeyCode::Char('q') => {
                self.should_quit = true;
                nothing
            },
            KeyCode::Char('?') | KeyCode::F(1) => {
                self.mode = Mode::Help;
                nothing
            },
            KeyCode::Down | KeyCode::Char('j') => {
                if n > 0 {
                    proof {
                        lemma_round(i as nat, n as nat);
                    }
                    self.selected = if i + 1 == n {
                        0
                    } else {
                        i + 1
                    };
                }
                nothing
            },
            KeyCode::Up | KeyCode::Char('k') => {
                if n > 0 {
                    proof {
                        lemma_round(i as nat, n as nat);
                    }
                    self.selected = if i == 0 {
                        n - 1
                    } else {
                        i - 1
                    };
                }
                nothing
            },
            KeyCode::Home | KeyCode::Char('g') => {
                self.selected = 0;
                nothing
            },
            KeyCode::End | KeyCode::Char('G') => {
                self.selected = n.saturating_sub(1);
                nothing
            },
            KeyCode::Char('a') | KeyCode::Char('n') => {
                self.mode = Mode::Form(Form::new());
                nothing
            },
            KeyCode::Char('e') | KeyCode::Enter => {
                if i < n {
                    assert(self@.tunnels[i as int] == self.tunnels@[i as int]@);
                    let form: Form = Form::from_config(
                        self.tunnels[i].id,
                        &self.tunnels[i].config,
                    );
                    self.mode = Mode::Form(form);
                }
                nothing
            },
            KeyCode::Char('d') | KeyCode::Delete => {
                if n > 0 {
                    self.mode = Mode::ConfirmDelete;
                }
                nothing
            },
            KeyCode::Char('s') | KeyCode::Char(' ') => self.toggle_selected(m.now),
            KeyCode::Char('r') => self.restart_selected(m.now),
            KeyCode::Char('K') => {
                if i < n {
                    self.kill_at(i, m.now)
                } else {
                    nothing
                }
            },
            KeyCode::Char('S') => {
                let effects: Vec<Effect> = self.start_all(false);
                self.set_status("started all tunnels".to_owned(), m.now);
                effects
            },
            KeyCode::Char('X') => {
                let effects: Vec<Effect> = self.stop_all(m.now);
                self.set_status("stopping all tunnels".to_owned(), m.now);
                effects
            },
            KeyCode::Char('c') => {
                if i < n {
                    let ghost t = self@.tunnels[i as int];
                    assert(self.tunnels@[i as int]@ == t);
                    self.tunnels[i].clear_stats(m.now);
                    proof {
                        assert(self@.tunnels =~= old(self)@.tunnels.update(
                            i as int,
                            t.cleared(m.now),
                        ));
                        lemma_with_tunnel(old(self)@, i as int, t.cleared(m.now));
                    }
                }
                nothing
            },
            KeyCode::Char('C') => {
                self.clear_all(m.now);
                nothing
            },
            KeyCode::Char('l') => {
                self.show_log = !self.show_log;
                nothing
            },
            KeyCode::Char('J') => self.move_selected(true),
            KeyCode::Char('U') => self.move_selected(false),
            KeyCode::Char('w') => {
                self.open_export(false, m);
                nothing
            },
            KeyCode::Char('W') => {
                self.open_export(true, m);
                nothing
            },
            _ => nothing,
        }
    }

    /// Takes over a definition from the form.
    fn commit_form(&mut self, editing: Option<u64>, cfg: TunnelConfig, now: u64) -> (r: Vec<Effect>)
        requires
            old(self)@.wf(),
            old(self)@.mode is Normal,
            editing is None ==> old(self)@.next_id < u64::MAX,
        ensures
            (final(self)@, effect_views(r@)) == old(self)@.committed(editing, cfg@, now),
            final(self)@.wf(),
    {
        let ghost before = self@;
        match editing {
            Some(id) => {
                let i: usize = self.find(id);
                if i < self.tunnels.len() {
                    let ghost t = self@.tunnels[i as int];
                    assert(self.tunnels@[i as int]@ == t);
                    let changed: bool = !self.tunnels[i].config.same_as(&cfg);
                    let running: bool = self.tunnels[i].is_running();
                    self.tunnels[i].config = cfg;
                    proof {
                        let after = TunnelView { config: cfg@, ..t };
                        assert(self@.tunnels =~= before.tunnels.update(i as int, after));
                        assert(after.wf());
                        lemma_with_tunnel(before, i as int, after);
                    }
                    if changed && running {
                        self.set_status(
                            "saved; restart (r) to apply the new addresses".to_owned(),
                            now,
                        );
                    } else {
                        self.set_status("saved".to_owned(), now);
                    }
                }
            },
            None => {
                let id: u64 = self.next_id;
                self.next_id = id + 1;
                self.tunnels.push(Tunnel::new(id, cfg, now));
                self.selected = self.tunnels.len() - 1;
                self.set_status("added; press s to start".to_owned(), now);
                proof {
                    let t = TunnelView::fresh(id, cfg@, now);
                    assert(self@.tunnels =~= before.tunnels.push(t));
                    assert forall|k: int| 0 <= k < self@.tunnels.len() implies (
                    #[trigger] self@.tunnels[k]).wf() && self@.tunnels[k].id < self@.next_id by {
                        if k < before.tunnels.len() {
                            assert(self@.tunnels[k] == before.tunnels[k]);
                        }
                    }
                    assert forall|k: int, j: int| 0 <= k < j < self@.tunnels.len() implies (
                    #[trigger] self@.tunnels[k]).id != (#[trigger] self@.tunnels[j]).id by {
                        assert(self@.tunnels[k] == before.tunnels[k]);
                        if j < before.tunnels.len() {
                            assert(self@.tunnels[j] == before.tunnels[j]);
                        }
                    }
                }
            },
        }
        let mut effects: Vec<Effect> = Vec::new();
        push_effect(&mut effects, Effect::Save);
        assert(effect_views(effects@) =~= seq![EffectView::Save]);
        effects
    }

    /// Does what a key does when the form is open.
    fn on_key_form(&mut self, form: Form, key: KeyEvent, m: Moment) -> (r: Vec<Effect>)
        requires
            old(self)@.wf(),
            old(self)@.mode is Normal,
            form@.wf(),
            form.editing is None && key.code == KeyCode::Enter ==> old(self)@.next_id < u64::MAX,
        ensures
            (final(self)@, effect_views(r@)) == old(self)@.form_key(form@, key, m),
            final(self)@.wf(),
    {
        let mut form: Form = form;
        let nothing: Vec<Effect> = Vec::new();
        assert(effect_views(nothing@) =~= Seq::<EffectView>::empty());
        match key.code {
            KeyCode::Esc => nothing,
            KeyCode::Enter => {
                match form.to_config() {
                    Ok(cfg) => self.commit_form(form.editing, cfg, m.now),
                    Err(e) => {
                        form.error = Some(e);
                        self.mode = Mode::Form(form);
                        nothing
                    },
                }
            },
            _ => {
                form.on_key(key);
                self.mode = Mode::Form(form);
                nothing
            },
        }
    }

    /// Tells that a tunnel is gone for good, and has the definitions saved.
    pub fn finish_delete(&mut self, name: &str, now: u64) -> (r: Vec<Effect>)
        ensures
            (final(self)@, effect_views(r@)) == old(self)@.removed(name@, now),
            old(self)@.wf() ==> final(self)@.wf(),
    {
        self.set_status("deleted ".to_owned().concat(name), now);
        let mut effects: Vec<Effect> = Vec::new();
        push_effect(&mut effects, Effect::Save);
        assert(effect_views(effects@) =~= seq![EffectView::Save]);
        effects
    }

    /// Keeps the selection in the list.
    fn clamp_selection(&mut self)
        ensures
            final(self)@ == (AppView {
                selected: if old(self)@.selected >= old(self)@.tunnels.len() {
                    less(old(self)@.tunnels.len(), 1)
                } else {
                    old(self)@.selected
                },
                ..old(self)@
            }),
    {
        if self.tunnels.is_empty() {
            self.selected = 0;
        } else if self.selected >= self.tunnels.len() {
            self.selected = self.tunnels.len() - 1;
        }
    }

    /// Does what a key does when a deletion is to be confirmed.
    fn on_key_confirm(&mut self, key: KeyEvent, m: Moment) -> (r: Vec<Effect>)
        requires
            old(self)@.wf(),
            old(self)@.mode is Normal,
        ensures
            (final(self)@, effect_views(r@)) == old(self)@.confirm_key(key, m),
            final(self)@.wf(),
    {
        let confirmed: bool = match key.code {
            KeyCode::Char('y') | KeyCode::Char('Y') | KeyCode::Enter => true,
            _ => false,
        };
        if !confirmed || self.selected >= self.tunnels.len() {
            let nothing: Vec<Effect> = Vec::new();
            assert(effect_views(nothing@) =~= Seq::<EffectView>::empty());
            return nothing;
        }
        let ghost before = self@;
        let i: usize = self.selected;
        let mut t: Tunnel = self.tunnels.remove(i);
        assert(t@ == before.tunnels[i as int]);
        assert(self@.tunnels =~= before.tunnels.remove(i as int));
        self.clamp_selection();
        proof {
            assert(self@ == before.without_selected());
            lemma_without_selected(before);
        }
        if t.is_running() {
            let signal: Option<SignalRequest> = t.stop(m.now);
            let mut effects: Vec<Effect> = Vec::new();
            push_signal(&mut effects, signal);
            push_effect(&mut effects, Effect::Remove(t));
            assert(effect_views(effects@) =~= signals(signal) + seq![EffectView::Remove(t@)]);
            effects
        } else {
            self.finish_delete(t.config.name.as_str(), m.now)
        }
    }

    /// Does what a key does when the export dialog is open.
    fn on_key_export(&mut self, dialog: ExportDialog, key: KeyEvent, m: Moment) -> (r: Vec<Effect>)
        requires
            old(self)@.wf(),
            old(self)@.mode is Normal,
            old(self)@.tunnels.len() > 0,
            dialog@.wf(),
        ensures
            (final(self)@, effect_views(r@)) == old(self)@.export_key(dialog@, key, m),
            final(self)@.wf(),
    {
        let mut dialog: ExportDialog = dialog;
        let mut effects: Vec<Effect> = Vec::new();
        assert(effect_views(effects@) =~= Seq::<EffectView>::empty());
        match key.code {
            KeyCode::Esc => effects,
            KeyCode::Enter => {
                let label: String = self.label_for_export(dialog.all);
                let path: String = dialog.target(label.as_str(), m);
                let text: String = self.export_text(dialog.all);
                push_effect(&mut effects, Effect::Export { path, text });
                assert(effect_views(effects@) =~= seq![
                    EffectView::Export { path: path@, text: text@ },
                ]);
                self.mode = Mode::Export(dialog);
                effects
            },
            _ => {
                dialog.on_key(key);
                self.mode = Mode::Export(dialog);
                effects
            },
        }
    }

    /// Does what a key does. Returns what is to be done outside.
    pub fn on_key(&mut self, key: KeyEvent, m: Moment) -> (r: Vec<Effect>)
        requires
            old(self)@.wf(),
            old(self)@.can_press(key),
        ensures
            (final(self)@, effect_views(r@)) == old(self)@.keyed(key, m),
            final(self)@.wf(),
    {
        let nothing: Vec<Effect> = Vec::new();
        assert(effect_views(nothing@) =~= Seq::<EffectView>::empty());
        if key.control && key.code == KeyCode::Char('c') {
            self.should_quit = true;
            return nothing;
        }
        let mut mode: Mode = Mode::Normal;
        std::mem::swap(&mut mode, &mut self.mode);
        match mode {
            Mode::Normal => self.on_key_normal(key, m),
            Mode::Form(form) => self.on_key_form(form, key, m),
            Mode::ConfirmDelete => self.on_key_confirm(key, m),
            Mode::Export(dialog) => self.on_key_export(dialog, key, m),
            // any key closes help
            Mode::Help => nothing,
        }
    }

    /// Closes the export dialog, or shows in it what went wrong.
    pub fn finish_export(&mut self, path: &str, error: Option<String>, now: u64)
        requires
            old(self)@.wf(),
        ensures
            final(self)@ == old(self)@.export_finished(path@, option_view(error), now),
            final(self)@.wf(),
    {
        let mut mode: Mode = Mode::Normal;
        std::mem::swap(&mut mode, &mut self.mode);
        match mode {
            Mode::Export(dialog) => {
                match error {
                    Some(e) => {
                        let mut dialog: ExportDialog = dialog;
                        dialog.error = Some(e);
                        self.mode = Mode::Export(dialog);
                    },
                    None => self.set_status("exported to ".to_owned().concat(path), now),
                }
            },
            other => {
                self.mode = other;
            },
        }
    }

    /// Takes note of whether socat could be spawned for the tunnel with this id.
    pub fn on_spawn(&mut self, id: u64, outcome: Result<u32, String>, now: u64)
        requires
            old(self)@.wf(),
            old(self)@.can_spawn(id),
        ensures
            final(self)@ == old(self)@.spawn_noted(id, spawn_view(outcome), now),
            final(self)@.wf(),
    {
        let i: usize = self.find(id);
        if i < self.tunnels.len() {
            let ghost before = self@;
            let ghost t = self@.tunnels[i as int];
            assert(self.tunnels@[i as int]@ == t);
            match outcome {
                Ok(pid) => {
                    self.tunnels[i].on_spawned(pid, now);
                    proof {
                        assert(self@.tunnels =~= before.tunnels.update(
                            i as int,
                            t.spawned(pid, now),
                        ));
                        lemma_with_tunnel(before, i as int, t.spawned(pid, now));
                    }
                },
                Err(e) => {
                    self.tunnels[i].on_spawn_failed(e.as_str());
                    proof {
                        assert(self@.tunnels =~= before.tunnels.update(
                            i as int,
                            t.spawn_failed(e@),
                        ));
                        lemma_with_tunnel(before, i as int, t.spawn_failed(e@));
                    }
                },
            }
        }
    }

    /// Whether the counters of a line fit: whether [`App::handle_event`] may be
    /// called with it.
    pub fn accepts(&self, ev: &ProcEvent) -> (b: bool)
        requires
            self@.wf(),
        ensures
            b == self@.takes(ev.id, ev.line@),
    {
        let i: usize = self.find(ev.id);
        if i < self.tunnels.len() {
            assert(self@.tunnels[i as int] == self.tunnels@[i as int]@);
            self.tunnels[i].accepts(ev.line.as_str())
        } else {
            true
        }
    }

    /// Hands a line of stderr to the tunnel that it is from.
    pub fn handle_event(&mut self, ev: ProcEvent)
        requires
            old(self)@.wf(),
            old(self)@.takes(ev.id, ev.line@),
        ensures
            final(self)@ == old(self)@.heard(ev.id, ev.line@),
            final(self)@.wf(),
    {
        let i: usize = self.find(ev.id);
        if i < self.tunnels.len() {
            let ghost before = self@;
            let ghost t = self@.tunnels[i as int];
            assert(self.tunnels@[i as int]@ == t);
            let line: String = ev.line;
            self.tunnels[i].handle_line(line);
            proof {
                assert(self@.tunnels =~= before.tunnels.update(i as int, t.heard(line@)));
                lemma_with_tunnel(before, i as int, t.heard(line@));
            }
        }
    }

    /// Whether there is a poll result for each tunnel, and the process trees that
    /// are needed come to an end: whether [`App::on_tick`] may be called.
    pub fn may_tick(&self, procs: &[ProcInfo], polls: &Vec<Poll>) -> (b: bool)
        ensures
            b == self@.can_tick(proc_views(procs@), poll_views(polls@)),
    {
        let ghost pv = proc_views(procs@);
        let ghost qv = poll_views(polls@);
        let n: usize = self.tunnels.len();
        if polls.len() != n {
            return false;
        }
        let mut i: usize = 0;
        while i < n
            invariant
                i <= n == self.tunnels@.len() == polls@.len(),
                pv == proc_views(procs@),
                qv == poll_views(polls@),
                forall|k: int| 0 <= k < i ==> (#[trigger] self@.tunnels[k]).can_tick(pv, qv[k]),
            decreases n - i,
        {
            let t: &Tunnel = &self.tunnels[i];
            assert(self@.tunnels[i as int] == t@);
            let alive: bool = match &polls[i] {
                Poll::Alive => true,
                _ => false,
            };
            if let Some(pid) = t.pid {
                if alive && t.stop_requested.is_none() && !has_finite_tree(procs, pid) {
                    assert(!self@.tunnels[i as int].can_tick(pv, qv[i as int]));
                    return false;
                }
            }
            i += 1;
        }
        true
    }

    /// Does the work of one second for every tunnel, with a fresh process
    /// snapshot and, for each tunnel, what asking whether its process has exited
    /// gave. Returns the signals to send.
    pub fn on_tick(&mut self, procs: &[ProcInfo], polls: &Vec<Poll>, now: u64) -> (r: Vec<
        SignalRequest,
    >)
        requires
            old(self)@.wf(),
            old(self)@.can_tick(proc_views(procs@), poll_views(polls@)),
        ensures
            final(self)@ == old(self)@.ticked(proc_views(procs@), poll_views(polls@), now),
            final(self)@.wf(),
            r@ == tick_signals(
                old(self)@.tunnels,
                proc_views(procs@),
                poll_views(polls@),
                now,
            ),
    {
        let ghost before = self@;
        let ghost pv = proc_views(procs@);
        let ghost qv = poll_views(polls@);
        let ghost done = all_ticked(before.tunnels, pv, qv, now);
        let mut requests: Vec<SignalRequest> = Vec::new();
        let n: usize = self.tunnels.len();
        let mut i: usize = 0;
        assert(requests@ =~= tick_signals(before.tunnels.take(0), pv, qv, now));
        assert(self@.tunnels =~= done.take(0) + before.tunnels.skip(0));
        while i < n
            invariant
                before.wf(),
                before.can_tick(pv, qv),
                pv == proc_views(procs@),
                qv == poll_views(polls@),
                n == before.tunnels.len(),
                i <= n,
                done == all_ticked(before.tunnels, pv, qv, now),
                self@ == (AppView {
                    tunnels: done.take(i as int) + before.tunnels.skip(i as int),
                    ..before
                }),
                requests@ == tick_signals(before.tunnels.take(i as int), pv, qv, now),
                forall|k: int| 0 <= k < i ==> (#[trigger] done[k]).wf(),
            decreases n - i,
        {
            let ghost t = before.tunnels[i as int];
            assert(self@.tunnels.len() == n && self@.tunnels[i as int] == t);
            assert(self.tunnels@.len() == n && self.tunnels@[i as int]@ == t);
            assert(t.can_tick(pv, qv[i as int]));
            let ghost so_far = self@.tunnels;
            assert(before.tunnels.take(i + 1).drop_last() == before.tunnels.take(i as int));
            let mut more: Vec<SignalRequest> = self.tunnels[i].tick(procs, &polls[i], now);
            requests.append(&mut more);
            assert(done[i as int] == t.ticked(pv, qv[i as int], now).0);
            assert(self@.tunnels =~= so_far.update(i as int, done[i as int]));
            assert(self@.tunnels =~= done.take(i + 1) + before.tunnels.skip(i + 1));
            assert(requests@ =~= tick_signals(before.tunnels.take(i + 1), pv, qv, now));
            i += 1;
        }
        assert(before.tunnels.take(i as int) == before.tunnels);
        assert(done.take(i as int) + before.tunnels.skip(i as int) =~= done);
        proof {
            assert forall|k: int| 0 <= k < done.len() implies (#[trigger] done[k]).wf()
                && done[k].id == before.tunnels[k].id by {
                lemma_tick_keeps_id(before.tunnels[k], pv, qv[k], now);
            }
            lemma_same_ids(before, done);
        }
        requests
    }

    /// One look while waiting for the tunnel with this id to stop.
    pub fn step_stop(&mut self, w: &mut StopWait, id: u64, poll: &Poll, now: u64) -> (r: StopStep)
        requires
            old(self)@.wf(),
        ensures
            (final(self)@, *final(w), r) == old(self)@.stop_stepped(*old(w), id, poll@, now),
            final(self)@.wf(),
    {
        let i: usize = self.find(id);
        if i < self.tunnels.len() {
            let ghost before = self@;
            let ghost t = self@.tunnels[i as int];
            assert(self.tunnels@[i as int]@ == t);
            let step: StopStep = w.step(&mut self.tunnels[i], poll, now);
            proof {
                let after = wait_stepped(*old(w), t, poll@, now).1;
                assert(self@.tunnels =~= before.tunnels.update(i as int, after));
                lemma_with_tunnel(before, i as int, after);
            }
            step
        } else {
            StopStep::Done
        }
    }
}

/// Whether a process could be spawned, with the reason as a sequence.
pub open spec fn spawn_view(r: Result<u32, String>) -> Result<u32, Seq<char>> {
    match r {
        Ok(pid) => Ok(pid),
        Err(e) => Err(e@),
    }
}

/// Going round a list of `n` places by one.
pub(crate) proof fn lemma_round(i: nat, n: nat)
    requires
        i < n,
    ensures
        (i + 1) % n == (if i + 1 == n {
            0
        } else {
            i + 1
        }),
        (i + n - 1) % n as int == (if i == 0 {
            n - 1
        } else {
            i - 1
        }),
{
    if i + 1 < n {
        vstd::arithmetic::div_mod::lemma_small_mod(i + 1, n);
    } else {
        vstd::arithmetic::div_mod::lemma_mod_self_0(n as int);
    }
    if i == 0 {
        vstd::arithmetic::div_mod::lemma_small_mod((n - 1) as nat, n);
    } else {
        vstd::arithmetic::div_mod::lemma_mod_add_multiples_vanish((i - 1) as int, n as int);
        vstd::arithmetic::div_mod::lemma_small_mod((i - 1) as nat, n);
    }
}

/// The work of a second keeps the id of a tunnel.
proof fn lemma_tick_keeps_id(t: TunnelView, procs: Seq<ProcView>, poll: PollView, now: u64)
    ensures
        t.ticked(procs, poll, now).0.id == t.id,
{
}

/// Without the selected tunnel, the state is sound.
proof fn lemma_without_selected(a: AppView)
    requires
        a.wf(),
        a.mode is Normal,
        a.selected < a.tunnels.len(),
    ensures
        a.without_selected().wf(),
{
    let b = a.without_selected();
    let s = a.selected as int;
    let from = |k: int|
        if k < s {
            k
        } else {
            k + 1
        };
    assert forall|k: int| 0 <= k < b.tunnels.len() implies (#[trigger] b.tunnels[k]).wf()
        && b.tunnels[k].id < b.next_id by {
        assert(b.tunnels[k] == a.tunnels[from(k)]);
    }
    assert forall|k: int, j: int| 0 <= k < j < b.tunnels.len() implies (#[trigger] b.tunnels[k]).id
        != (#[trigger] b.tunnels[j]).id by {
        assert(b.tunnels[k] == a.tunnels[from(k)]);
        assert(b.tunnels[j] == a.tunnels[from(j)]);
        assert(a.tunnels[from(k)].id != a.tunnels[from(j)].id);
    }
}

/// Lets two tunnels change places.
fn swap_tunnels(v: &mut Vec<Tunnel>, i: usize, j: usize)
    requires
        i < old(v)@.len(),
        j < old(v)@.len(),
        i != j,
    ensures
        final(v)@ == old(v)@.update(i as int, old(v)@[j as int]).update(
            j as int,
            old(v)@[i as int],
        ),
{
    let (lo, hi): (usize, usize) = if i < j {
        (i, j)
    } else {
        (j, i)
    };
    let upper: Tunnel = v.remove(hi);
    let lower: Tunnel = v.remove(lo);
    v.insert(lo, upper);
    v.insert(hi, lower);
    assert(v@ =~= old(v)@.update(i as int, old(v)@[j as int]).update(j as int, old(v)@[i as int]));
}

/// An attempt to start keeps a tunnel sound, and its id.
proof fn lemma_start_keeps(t: TunnelView)
    requires
        t.wf(),
    ensures
        t.start_attempted().0.wf(),
        t.start_attempted().0.id == t.id,
{
}

/// Two tunnels that change places leave the state sound.
proof fn lemma_swapped(a: AppView, i: int, j: int)
    requires
        a.wf(),
        0 <= i < a.tunnels.len(),
        0 <= j < a.tunnels.len(),
        i != j,
    ensures
        (AppView {
            tunnels: a.tunnels.update(i, a.tunnels[j]).update(j, a.tunnels[i]),
            selected: j as nat,
            ..a
        }).wf(),
{
    let b = AppView {
        tunnels: a.tunnels.update(i, a.tunnels[j]).update(j, a.tunnels[i]),
        selected: j as nat,
        ..a
    };
    let from = |k: int|
        if k == i {
            j
        } else if k == j {
            i
        } else {
            k
        };
    assert forall|k: int| 0 <= k < b.tunnels.len() implies (#[trigger] b.tunnels[k]).wf()
        && b.tunnels[k].id < b.next_id by {
        assert(b.tunnels[k] == a.tunnels[from(k)]);
    }
    assert forall|k: int, m: int| 0 <= k < m < b.tunnels.len() implies (#[trigger] b.tunnels[k]).id
        != (#[trigger] b.tunnels[m]).id by {
        assert(b.tunnels[k] == a.tunnels[from(k)]);
        assert(b.tunnels[m] == a.tunnels[from(m)]);
        if from(k) < from(m) {
            assert(a.tunnels[from(k)].id != a.tunnels[from(m)].id);
        } else {
            assert(a.tunnels[from(m)].id != a.tunnels[from(k)].id);
        }
    }
}

} // verus!
