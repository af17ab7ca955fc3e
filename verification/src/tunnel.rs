//! A "tunnel" is one socat invocation: `socat --statistics [opts] SOURCE DESTINATION`.
//!
//! With the `fork` option every connection is handled by a child process with
//! its own counters, so the latest counters are kept per pid and summed.
//!
//! Times are nanoseconds on a clock that never runs backwards.

use crate::config::{ConfigView, TunnelConfig};
use crate::decimal::{decimal, push_decimal, push_signed, signed_decimal};
use crate::ledger::{
    age, checked_total, distinct, folded, has_entry, kept, lemma_fold, lemma_kept_len,
    no_counters, record, recorded, replaced, sum, PidEntry,
};
use crate::options::{split, split_options, split_view};
use crate::procs::{
    below, finite_tree, only_socat_processes_follow, proc_views, root_comes_first, socat_command,
    socat_tree, tree_of, ProcInfo, ProcView,
};
use crate::stats::{parse_line, parsed, Counters, Parsed, Tally};
use crate::text::{trim, trimmed, views};
use std::collections::VecDeque;
use vstd::prelude::*;
use vstd::string::*;

verus! {

/// How many lines of log are kept.
pub const LOG_CAPACITY: usize = 500;

/// After SIGTERM, escalate to SIGKILL if the process is still around.
pub const KILL_AFTER: u64 = 3_000_000_000;

/// The shortest time over which throughput is measured.
pub const SAMPLE_AFTER: u64 = 500_000_000;

// ---------------------------------------------------------------------------
// Status
// ---------------------------------------------------------------------------

/// What a tunnel is doing.
#[derive(Clone, Debug, PartialEq)]
pub enum Status {
    Stopped,
    Running,
    Stopping,
    Exited(Option<i32>),
    Failed(String),
}

/// What a tunnel is doing, with the reason of a failure as a sequence.
pub enum StatusView {
    Stopped,
    Running,
    Stopping,
    Exited(Option<i32>),
    Failed(Seq<char>),
}

impl View for Status {
    type V = StatusView;

    open spec fn view(&self) -> StatusView {
        match self {
            Status::Stopped => StatusView::Stopped,
            Status::Running => StatusView::Running,
            Status::Stopping => StatusView::Stopping,
            Status::Exited(code) => StatusView::Exited(*code),
            Status::Failed(e) => StatusView::Failed(e@),
        }
    }
}

/// The word, or two, for a status.
pub open spec fn label_of(s: StatusView) -> Seq<char> {
    match s {
        StatusView::Stopped => "stopped"@,
        StatusView::Running => "running"@,
        StatusView::Stopping => "stopping"@,
        StatusView::Exited(Some(code)) => if code == 0 {
            "exited"@
        } else {
            "exit "@ + signed_decimal(code as int)
        },
        StatusView::Exited(None) => "killed"@,
        StatusView::Failed(_) => "failed"@,
    }
}

impl Status {
    /// The word, or two, for a status.
    pub fn label(&self) -> (r: String)
        ensures
            r@ == label_of(self@),
    {
        match self {
            Status::Stopped => "stopped".to_owned(),
            Status::Running => "running".to_owned(),
            Status::Stopping => "stopping".to_owned(),
            Status::Exited(Some(code)) => {
                if *code == 0 {
                    "exited".to_owned()
                } else {
                    let mut r: String = "exit ".to_owned();
                    push_signed(&mut r, *code);
                    r
                }
            },
            Status::Exited(None) => "killed".to_owned(),
            Status::Failed(_) => "failed".to_owned(),
        }
    }
}

// ---------------------------------------------------------------------------
// Events and requests
// ---------------------------------------------------------------------------

/// A line of stderr from a tunnel's socat process.
#[derive(Debug)]
pub struct ProcEvent {
    pub id: u64,
    pub line: String,
}

/// A signal that tunnels send.
#[derive(Clone, Copy, Debug, PartialEq, Eq, Structural)]
pub enum Signal {
    /// Please stop.
    Term,
    /// Stop at once.
    Kill,
    /// Report your counters.
    Usr1,
}

/// Who a signal is for.
#[derive(Clone, Copy, Debug, PartialEq, Eq, Structural)]
pub enum Target {
    /// One process.
    Process(u32),
    /// The whole process group of a process.
    Group(u32),
}

/// A signal that is to be sent.
#[derive(Clone, Copy, Debug, PartialEq, Eq, Structural)]
pub struct SignalRequest {
    pub target: Target,
    pub signal: Signal,
}

/// What asking for a child's exit status gave.
#[derive(Debug)]
pub enum Poll {
    /// It has exited, with a code unless a signal ended it; `text` says so in
    /// words.
    Exited { code: Option<i32>, text: String },
    /// It is still there.
    Alive,
    /// The status could not be had.
    Unknown,
}

/// What asking for a child's exit status gave, with the words as a sequence.
pub enum PollView {
    Exited { code: Option<i32>, text: Seq<char> },
    Alive,
    Unknown,
}

impl View for Poll {
    type V = PollView;

    open spec fn view(&self) -> PollView {
        match self {
            Poll::Exited { code, text } => PollView::Exited { code: *code, text: text@ },
            Poll::Alive => PollView::Alive,
            Poll::Unknown => PollView::Unknown,
        }
    }
}

// ---------------------------------------------------------------------------
// The tunnel
// ---------------------------------------------------------------------------

/// Bytes over a span of time.
#[derive(Clone, Copy, Debug, PartialEq, Eq, Structural)]
pub struct Rate {
    pub bytes: u64,
    /// The span, in nanoseconds; never zero.
    pub nanos: u64,
}

/// No throughput.
pub open spec fn no_rate() -> Rate {
    Rate { bytes: 0, nanos: 1_000_000_000 }
}

/// One relay: its definition, its socat process, and what that has transferred.
#[derive(Debug)]
pub struct Tunnel {
    pub id: u64,
    pub config: TunnelConfig,
    pub status: Status,
    /// The socat process, from when it was spawned until its end was noticed.
    pub pid: Option<u32>,
    pub started: Option<u64>,
    pub stop_requested: Option<u64>,
    pub per_pid: Vec<PidEntry>,
    pub archived: Counters,
    pub total: Counters,
    pub prev_total: Counters,
    pub prev_sample: u64,
    /// Throughput, left→right and right→left.
    pub rate_ltr: Rate,
    pub rate_rtl: Rate,
    /// Currently active connections (forked socat workers).
    pub connections: usize,
    /// Distinct socat worker processes seen since stats were last cleared.
    pub sessions: u64,
    pub log: VecDeque<String>,
}

/// A tunnel with its texts as sequences and its totals without a bound.
pub struct TunnelView {
    pub id: u64,
    pub config: ConfigView,
    pub status: StatusView,
    pub pid: Option<u32>,
    pub started: Option<u64>,
    pub stop_requested: Option<u64>,
    pub per_pid: Seq<PidEntry>,
    pub archived: Tally,
    pub total: Tally,
    pub prev_total: Tally,
    pub prev_sample: u64,
    pub rate_ltr: Rate,
    pub rate_rtl: Rate,
    pub connections: nat,
    pub sessions: u64,
    pub log: Seq<Seq<char>>,
}

impl View for Tunnel {
    type V = TunnelView;

    open spec fn view(&self) -> TunnelView {
        TunnelView {
            id: self.id,
            config: self.config@,
            status: self.status@,
            pid: self.pid,
            started: self.started,
            stop_requested: self.stop_requested,
            per_pid: self.per_pid@,
            archived: self.archived@,
            total: self.total@,
            prev_total: self.prev_total@,
            prev_sample: self.prev_sample,
            rate_ltr: self.rate_ltr,
            rate_rtl: self.rate_rtl,
            connections: self.connections as nat,
            sessions: self.sessions,
            log: views(self.log@),
        }
    }
}

/// The command line of a tunnel, for people to read.
pub open spec fn command_text(c: ConfigView) -> Seq<char> {
    "socat --statistics "@ + (if trimmed(c.options).len() > 0 {
        trimmed(c.options) + " "@
    } else {
        seq![]
    }) + c.source + " "@ + c.destination
}

/// The arguments of socat: source and destination verbatim, each as one.
pub open spec fn arguments(c: ConfigView, options: Seq<Seq<char>>) -> Seq<Seq<char>> {
    seq!["--statistics"@] + options + seq![c.source, c.destination]
}

/// A log with one line more, of which the last [`LOG_CAPACITY`] lines are kept.
pub open spec fn with_line(log: Seq<Seq<char>>, line: Seq<char>) -> Seq<Seq<char>> {
    if log.len() >= LOG_CAPACITY {
        log.drop_first().push(line)
    } else {
        log.push(line)
    }
}

/// `a` less `b`, and zero where `b` is more.
pub open spec fn less(a: nat, b: nat) -> nat {
    if a >= b {
        (a - b) as nat
    } else {
        0
    }
}

impl TunnelView {
    /// What holds of every tunnel: no process has two entries, the total is
    /// what is archived and what the entries have, every entry was counted as a
    /// session, the log is not over its capacity, and the status tells whether
    /// there is a process and whether it was asked to stop.
    pub open spec fn wf(self) -> bool {
        &&& distinct(self.per_pid)
        &&& self.total == self.archived.plus(sum(self.per_pid))
        &&& self.total.fits()
        &&& self.prev_total.fits()
        &&& self.rate_ltr.nanos > 0
        &&& self.rate_rtl.nanos > 0
        &&& self.per_pid.len() <= self.sessions
        &&& self.log.len() <= LOG_CAPACITY
        &&& self.pid is Some <==> self.status is Running || self.status is Stopping
        &&& self.pid is Some ==> self.started is Some
        &&& self.pid is Some ==> (self.status is Stopping <==> self.stop_requested is Some)
    }

    /// A tunnel that was never started.
    pub open spec fn fresh(id: u64, config: ConfigView, now: u64) -> TunnelView {
        TunnelView {
            id,
            config,
            status: StatusView::Stopped,
            pid: None,
            started: None,
            stop_requested: None,
            per_pid: seq![],
            archived: Tally::zero(),
            total: Tally::zero(),
            prev_total: Tally::zero(),
            prev_sample: now,
            rate_ltr: no_rate(),
            rate_rtl: no_rate(),
            connections: 0,
            sessions: 0,
            log: seq![],
        }
    }

    /// There is a process.
    pub open spec fn running(self) -> bool {
        self.pid is Some
    }

    /// With one line more in the log.
    pub open spec fn logged(self, line: Seq<char>) -> TunnelView {
        TunnelView { log: with_line(self.log, line), ..self }
    }

    /// After an attempt to start, given what splitting the options gave: the
    /// arguments to spawn socat with, if it is to be spawned.
    pub open spec fn started_with(
        self,
        options: Result<Seq<Seq<char>>, Seq<char>>,
    ) -> (TunnelView, Option<Seq<Seq<char>>>) {
        if self.running() {
            (self, None)
        } else {
            match options {
                Ok(words) => (self, Some(arguments(self.config, words))),
                Err(e) => (
                    TunnelView {
                        status: StatusView::Failed("bad options: "@ + e),
                        ..self
                    }.logged("cannot parse options: "@ + e),
                    None,
                ),
            }
        }
    }

    /// After an attempt to start.
    pub open spec fn start_attempted(self) -> (TunnelView, Option<Seq<Seq<char>>>) {
        self.started_with(split_options(self.config.options))
    }

    /// After socat was spawned.
    pub open spec fn spawned(self, pid: u32, now: u64) -> TunnelView {
        TunnelView {
            pid: Some(pid),
            started: Some(now),
            stop_requested: None,
            status: StatusView::Running,
            connections: 0,
            ..self
        }.logged("started pid "@ + decimal(pid as nat) + ": "@ + command_text(self.config))
    }

    /// After socat could not be spawned.
    pub open spec fn spawn_failed(self, e: Seq<char>) -> TunnelView {
        TunnelView {
            status: StatusView::Failed("spawn failed: "@ + e),
            ..self
        }.logged("failed to start socat: "@ + e)
    }

    /// Asked to stop, at a time.
    pub open spec fn stopping(self, now: u64) -> TunnelView {
        TunnelView { stop_requested: Some(now), status: StatusView::Stopping, ..self }
    }

    /// After the process group was asked to terminate, if there is one.
    pub open spec fn stop_step(self, now: u64) -> (TunnelView, Option<SignalRequest>) {
        match self.pid {
            Some(pid) => (
                self.stopping(now).logged("sent SIGTERM to process group "@ + decimal(pid as nat)),
                Some(SignalRequest { target: Target::Group(pid), signal: Signal::Term }),
            ),
            None => (self, None),
        }
    }

    /// After the process group was killed, if there is one.
    pub open spec fn kill_step(self, now: u64) -> (TunnelView, Option<SignalRequest>) {
        match self.pid {
            Some(pid) => (
                self.stopping(now),
                Some(SignalRequest { target: Target::Group(pid), signal: Signal::Kill }),
            ),
            None => (self, None),
        }
    }

    /// With the statistics cleared.
    pub open spec fn cleared(self, now: u64) -> TunnelView {
        TunnelView {
            per_pid: seq![],
            archived: Tally::zero(),
            total: Tally::zero(),
            prev_total: Tally::zero(),
            prev_sample: now,
            rate_ltr: no_rate(),
            rate_rtl: no_rate(),
            sessions: 0,
            ..self
        }
    }

    /// After a process reported the counters of one direction.
    pub open spec fn reported(self, pid: u32, ltr: bool, packets: u64, bytes: u64) -> TunnelView {
        let per_pid = recorded(self.per_pid, pid, ltr, packets, bytes);
        TunnelView {
            per_pid,
            total: self.archived.plus(sum(per_pid)),
            sessions: if has_entry(self.per_pid, pid) {
                self.sessions
            } else {
                (self.sessions + 1) as u64
            },
            ..self
        }
    }

    /// A line whose counters fit.
    pub open spec fn takes(self, line: Seq<char>) -> bool {
        match parsed(line) {
            Parsed::Stats { pid, ltr, packets, bytes } => {
                &&& self.reported(pid, ltr, packets, bytes).total.fits()
                &&& !has_entry(self.per_pid, pid) ==> self.sessions < u64::MAX
            },
            _ => true,
        }
    }

    /// After a line of stderr: counters are recorded, notices are dropped, and
    /// all else is logged.
    pub open spec fn heard(self, line: Seq<char>) -> TunnelView {
        match parsed(line) {
            Parsed::Stats { pid, ltr, packets, bytes } => self.reported(pid, ltr, packets, bytes),
            Parsed::Noise => self,
            Parsed::Other => self.logged(line),
        }
    }

    /// Asking for statistics needs the tree of processes, which must come to an
    /// end.
    pub open spec fn can_tick(self, procs: Seq<ProcView>, poll: PollView) -> bool {
        self.pid is Some && poll is Alive && self.stop_requested is None ==> finite_tree(
            procs,
            self.pid->0,
        )
    }

    /// After asking whether the process has exited: an exit is noted, a process
    /// that was asked to stop too long ago is killed, and one that was not asked
    /// to is asked for statistics, with all socat processes below it. With the
    /// signals to send go the processes that are known to be alive.
    pub open spec fn polled(
        self,
        procs: Seq<ProcView>,
        poll: PollView,
        now: u64,
    ) -> (TunnelView, Seq<SignalRequest>, Seq<u32>) {
        match (self.pid, poll) {
            (Some(pid), PollView::Exited { code, text }) => (
                TunnelView {
                    status: if self.stop_requested is Some {
                        StatusView::Stopped
                    } else {
                        StatusView::Exited(code)
                    },
                    pid: None,
                    stop_requested: None,
                    connections: 0,
                    ..self
                }.logged("socat "@ + text),
                seq![],
                seq![],
            ),
            (Some(pid), PollView::Alive) => match self.stop_requested {
                Some(t) => (
                    self,
                    if now - t > KILL_AFTER {
                        seq![SignalRequest { target: Target::Group(pid), signal: Signal::Kill }]
                    } else {
                        seq![]
                    },
                    seq![],
                ),
                None => {
                    let tree = tree_of(procs, pid);
                    (
                        TunnelView {
                            connections: if tree.len() > 1 {
                                (tree.len() - 1) as nat
                            } else if has_entry(self.per_pid, pid) {
                                1
                            } else {
                                0
                            },
                            ..self
                        },
                        statistics_requests(tree),
                        tree,
                    )
                },
            },
            _ => (self, seq![], seq![]),
        }
    }

    /// With the entries of processes that have long been gone folded into the
    /// archive.
    pub open spec fn aged(self, alive: Seq<u32>, now: u64) -> TunnelView {
        let archived = self.archived.plus(folded(self.per_pid, alive, now));
        let per_pid = kept(self.per_pid, alive, now);
        TunnelView { per_pid, archived, total: archived.plus(sum(per_pid)), ..self }
    }

    /// With the throughput since the last sample, if that is long enough ago,
    /// and none where there is no process.
    pub open spec fn measured(self, now: u64) -> TunnelView {
        let sampled = if now - self.prev_sample >= SAMPLE_AFTER {
            let nanos = (now - self.prev_sample) as u64;
            TunnelView {
                rate_ltr: Rate {
                    bytes: less(self.total.ltr_bytes, self.prev_total.ltr_bytes) as u64,
                    nanos,
                },
                rate_rtl: Rate {
                    bytes: less(self.total.rtl_bytes, self.prev_total.rtl_bytes) as u64,
                    nanos,
                },
                prev_total: self.total,
                prev_sample: now,
                ..self
            }
        } else {
            self
        };
        if self.pid is None {
            TunnelView { rate_ltr: no_rate(), rate_rtl: no_rate(), ..sampled }
        } else {
            sampled
        }
    }

    /// After the work of one second, with the signals to send.
    pub open spec fn ticked(self, procs: Seq<ProcView>, poll: PollView, now: u64) -> (
        TunnelView,
        Seq<SignalRequest>,
    ) {
        let (polled, signals, alive) = self.polled(procs, poll, now);
        (polled.aged(alive, now).measured(now), signals)
    }

    /// The end of the process noticed while waiting for it.
    pub open spec fn gone(self) -> TunnelView {
        TunnelView { pid: None, status: StatusView::Stopped, ..self }
    }

    /// After one look while waiting for the process to exit.
    pub open spec fn waited(self, poll: PollView, waited: u64, timeout: u64) -> (
        TunnelView,
        WaitStep,
    ) {
        match (self.pid, poll) {
            (None, _) => (self, WaitStep::Gone),
            (Some(_), PollView::Alive) => if waited >= timeout {
                (self, WaitStep::TimedOut)
            } else {
                (self, WaitStep::Again)
            },
            (Some(_), _) => (self.gone(), WaitStep::Gone),
        }
    }
}

/// A request for statistics to each process.
pub open spec fn statistics_requests(pids: Seq<u32>) -> Seq<SignalRequest> {
    pids.map_values(
        |pid: u32| SignalRequest { target: Target::Process(pid), signal: Signal::Usr1 },
    )
}

/// What to do next while waiting for a process to exit.
#[derive(Clone, Copy, Debug, PartialEq, Eq, Structural)]
pub enum WaitStep {
    /// It is gone.
    Gone,
    /// The time is up.
    TimedOut,
    /// Look again a little later.
    Again,
}

// ---------------------------------------------------------------------------
// The log as text
// ---------------------------------------------------------------------------

/// The lines, each with its end.
pub open spec fn lines_text(lines: Seq<Seq<char>>) -> Seq<char>
    decreases lines.len(),
{
    if lines.len() == 0 {
        seq![]
    } else {
        lines_text(lines.drop_last()) + lines.last() + "\n"@
    }
}

/// The line with the transfer counters.
pub open spec fn stats_text(total: Tally, sessions: u64) -> Seq<char> {
    "stats: left->right "@ + decimal(total.ltr_packets) + " packets / "@ + decimal(total.ltr_bytes)
        + " bytes, right->left "@ + decimal(total.rtl_packets) + " packets / "@ + decimal(
        total.rtl_bytes,
    ) + " bytes, "@ + decimal(sessions as nat) + " sessions\n"@
}

/// A tunnel's retained log after a header with the status, the command line,
/// the pid if there is one, and the transfer counters.
pub open spec fn log_text(t: TunnelView) -> Seq<char> {
    "=== "@ + t.config.name + " ["@ + label_of(t.status) + "] ===\n"@ + "command: "@ + command_text(
        t.config,
    ) + "\n"@ + (match t.pid {
        Some(pid) => "pid: "@ + decimal(pid as nat) + "\n"@,
        None => seq![],
    }) + stats_text(t.total, t.sessions) + "\n"@ + lines_text(t.log)
}

impl Tunnel {
    /// A tunnel that was never started.
    pub fn new(id: u64, config: TunnelConfig, now: u64) -> (r: Tunnel)
        ensures
            r@ == TunnelView::fresh(id, config@, now),
            r@.wf(),
    {
        let rate: Rate = Rate { bytes: 0, nanos: 1_000_000_000 };
        let r: Tunnel = Tunnel {
            id,
            config,
            status: Status::Stopped,
            pid: None,
            started: None,
            stop_requested: None,
            per_pid: Vec::new(),
            archived: Counters::default(),
            total: Counters::default(),
            prev_total: Counters::default(),
            prev_sample: now,
            rate_ltr: rate,
            rate_rtl: rate,
            connections: 0,
            sessions: 0,
            log: VecDeque::new(),
        };
        assert(r@.log =~= Seq::<Seq<char>>::empty());
        assert(r@.per_pid =~= Seq::<PidEntry>::empty());
        r
    }

    /// Whether there is a socat process.
    pub fn is_running(&self) -> (b: bool)
        ensures
            b == self@.running(),
    {
        self.pid.is_some()
    }

    /// For how long the process has been running.
    pub fn uptime(&self, now: u64) -> (r: Option<u64>)
        ensures
            match r {
                Some(d) => self.pid is Some && self.started is Some && d == less(
                    now as nat,
                    self.started->0 as nat,
                ),
                None => self.pid is None || self.started is None,
            },
    {
        if self.pid.is_some() {
            match self.started {
                Some(t) => Some(now.saturating_sub(t)),
                None => None,
            }
        } else {
            None
        }
    }

    /// The command line, for people to read.
    pub fn command_line(&self) -> (r: String)
        ensures
            r@ == command_text(self.config@),
    {
        let mut r: String = "socat --statistics ".to_owned();
        let options: String = trim(self.config.options.as_str());
        if !options.as_str().is_empty() {
            r.append(options.as_str());
            r.append(" ");
        }
        r.append(self.config.source.as_str());
        r.append(" ");
        r.append(self.config.destination.as_str());
        assert(r@ =~= command_text(self.config@));
        r
    }

    /// Adds a line to the log, of which the last [`LOG_CAPACITY`] lines are kept.
    pub fn push_log(&mut self, line: String)
        ensures
            final(self)@ == old(self)@.logged(line@),
            old(self)@.wf() ==> final(self)@.wf(),
    {
        if self.log.len() >= LOG_CAPACITY {
            let _ = self.log.pop_front();
        }
        self.log.push_back(line);
        assert(views(self.log@) =~= with_line(views(old(self).log@), line@));
    }

    /// Begins to start socat: the arguments to spawn it with, unless it is
    /// running or its options cannot be split.
    pub fn start(&mut self) -> (r: Option<Vec<String>>)
        requires
            old(self)@.wf(),
        ensures
            (final(self)@, args_view(r)) == old(self)@.start_attempted(),
            final(self)@.wf(),
    {
        let options: Result<Vec<String>, String> = split(self.config.options.as_str());
        self.start_with(options)
    }

    /// Begins to start socat, given what splitting its options gave.
    pub fn start_with(&mut self, options: Result<Vec<String>, String>) -> (r: Option<Vec<String>>)
        requires
            old(self)@.wf(),
        ensures
            (final(self)@, args_view(r)) == old(self)@.started_with(split_view(options)),
            final(self)@.wf(),
    {
        if self.pid.is_some() {
            return None;
        }
        match options {
            Ok(words) => {
                let mut args: Vec<String> = Vec::new();
                args.push("--statistics".to_owned());
                let mut rest: Vec<String> = words;
                args.append(&mut rest);
                args.push(self.config.source.clone());
                args.push(self.config.destination.clone());
                assert(views(args@) =~= arguments(self.config@, views(words@)));
                Some(args)
            },
            Err(e) => {
                self.status = Status::Failed("bad options: ".to_owned().concat(e.as_str()));
                self.push_log("cannot parse options: ".to_owned().concat(e.as_str()));
                None
            },
        }
    }

    /// Takes note that socat was spawned.
    pub fn on_spawned(&mut self, pid: u32, now: u64)
        requires
            old(self)@.wf(),
            !old(self)@.running(),
        ensures
            final(self)@ == old(self)@.spawned(pid, now),
            final(self)@.wf(),
    {
        self.pid = Some(pid);
        self.started = Some(now);
        self.stop_requested = None;
        self.status = Status::Running;
        self.connections = 0;
        let mut line: String = "started pid ".to_owned();
        push_decimal(&mut line, pid as u64);
        line.append(": ");
        line.append(self.command_line().as_str());
        self.push_log(line);
    }

    /// Takes note that socat could not be spawned.
    pub fn on_spawn_failed(&mut self, e: &str)
        requires
            old(self)@.wf(),
            !old(self)@.running(),
        ensures
            final(self)@ == old(self)@.spawn_failed(e@),
            final(self)@.wf(),
    {
        self.status = Status::Failed("spawn failed: ".to_owned().concat(e));
        self.push_log("failed to start socat: ".to_owned().concat(e));
    }

    /// Asks the whole process group to terminate; `tick` escalates to SIGKILL.
    pub fn stop(&mut self, now: u64) -> (r: Option<SignalRequest>)
        requires
            old(self)@.wf(),
        ensures
            (final(self)@, r) == old(self)@.stop_step(now),
            final(self)@.wf(),
    {
        match self.pid {
            Some(pid) => {
                self.stop_requested = Some(now);
                self.status = Status::Stopping;
                let mut line: String = "sent SIGTERM to process group ".to_owned();
                push_decimal(&mut line, pid as u64);
                self.push_log(line);
                Some(SignalRequest { target: Target::Group(pid), signal: Signal::Term })
            },
            None => None,
        }
    }

    /// Kills the whole process group.
    pub fn kill_now(&mut self, now: u64) -> (r: Option<SignalRequest>)
        requires
            old(self)@.wf(),
        ensures
            (final(self)@, r) == old(self)@.kill_step(now),
            final(self)@.wf(),
    {
        match self.pid {
            Some(pid) => {
                self.stop_requested = Some(now);
                self.status = Status::Stopping;
                Some(SignalRequest { target: Target::Group(pid), signal: Signal::Kill })
            },
            None => None,
        }
    }

    /// Clears the statistics.
    pub fn clear_stats(&mut self, now: u64)
        requires
            old(self)@.wf(),
        ensures
            final(self)@ == old(self)@.cleared(now),
            final(self)@.wf(),
    {
        let rate: Rate = Rate { bytes: 0, nanos: 1_000_000_000 };
        self.per_pid = Vec::new();
        self.archived = Counters::default();
        self.total = Counters::default();
        self.prev_total = Counters::default();
        self.prev_sample = now;
        self.rate_ltr = rate;
        self.rate_rtl = rate;
        self.sessions = 0;
        assert(self@.per_pid =~= Seq::<PidEntry>::empty());
    }

    /// Whether the counters of a line fit: whether [`Tunnel::handle_line`] may be
    /// called with it.
    pub fn accepts(&self, line: &str) -> (b: bool)
        requires
            self@.wf(),
        ensures
            b == self@.takes(line@),
    {
        match parse_line(line) {
            Parsed::Stats { pid, ltr, packets, bytes } => {
                let (entries, is_new) = record(&self.per_pid, pid, ltr, packets, bytes);
                let fits: bool = match checked_total(self.archived, &entries) {
                    Some(_) => true,
                    None => false,
                };
                fits && (!is_new || self.sessions < 0xffff_ffff_ffff_ffff)
            },
            _ => true,
        }
    }

    /// Deals with a line of stderr: records counters, drops notices, and logs
    /// all else.
    pub fn handle_line(&mut self, line: String)
        requires
            old(self)@.wf(),
            old(self)@.takes(line@),
        ensures
            final(self)@ == old(self)@.heard(line@),
            final(self)@.wf(),
    {
        match parse_line(line.as_str()) {
            Parsed::Stats { pid, ltr, packets, bytes } => {
                let (entries, is_new) = record(&self.per_pid, pid, ltr, packets, bytes);
                self.per_pid = entries;
                if is_new {
                    self.sessions = self.sessions + 1;
                }
                self.recompute_total();
            },
            Parsed::Noise => {},
            Parsed::Other => self.push_log(line),
        }
    }

    /// Makes the total what is archived and what the entries have.
    fn recompute_total(&mut self)
        requires
            old(self)@.archived.plus(sum(old(self)@.per_pid)).fits(),
        ensures
            final(self)@ == (TunnelView {
                total: old(self)@.archived.plus(sum(old(self)@.per_pid)),
                ..old(self)@
            }),
    {
        if let Some(t) = checked_total(self.archived, &self.per_pid) {
            self.total = t;
        }
    }

    /// One look while waiting for the process to exit, `waited` after the wait
    /// began.
    pub fn wait_exit(&mut self, poll: &Poll, waited: u64, timeout: u64) -> (r: WaitStep)
        requires
            old(self)@.wf(),
        ensures
            (final(self)@, r) == old(self)@.waited(poll@, waited, timeout),
            final(self)@.wf(),
    {
        if self.pid.is_none() {
            return WaitStep::Gone;
        }
        match poll {
            Poll::Alive => {
                if waited >= timeout {
                    WaitStep::TimedOut
                } else {
                    WaitStep::Again
                }
            },
            _ => {
                self.pid = None;
                self.status = Status::Stopped;
                WaitStep::Gone
            },
        }
    }

    /// Appends the retained log, after a header and a summary of the statistics,
    /// to `w`. Returns the number of log lines.
    pub fn write_log(&self, w: &mut String) -> (r: usize)
        ensures
            final(w)@ == old(w)@ + log_text(self@),
            r == self@.log.len(),
    {
        w.append("=== ");
        w.append(self.config.name.as_str());
        w.append(" [");
        w.append(self.status.label().as_str());
        w.append("] ===\n");
        w.append("command: ");
        w.append(self.command_line().as_str());
        w.append("\n");
        assert(w@ =~= old(w)@ + ("=== "@ + self@.config.name + " ["@ + label_of(self@.status)
            + "] ===\n"@ + "command: "@ + command_text(self@.config) + "\n"@));
        let ghost top = w@;
        if let Some(pid) = self.pid {
            w.append("pid: ");
            push_decimal(w, pid as u64);
            w.append("\n");
        }
        assert(w@ =~= top + (match self.pid {
            Some(pid) => "pid: "@ + decimal(pid as nat) + "\n"@,
            None => seq![],
        }));
        self.write_stats(w);
        w.append("\n");
        let ghost header = w@;
        let n: usize = self.log.len();
        let mut i: usize = 0;
        assert(w@ =~= header + lines_text(self@.log.take(0)));
        while i < n
            invariant
                i <= n == self.log@.len(),
                w@ == header + lines_text(self@.log.take(i as int)),
            decreases n - i,
        {
            assert(self@.log.take(i + 1).drop_last() == self@.log.take(i as int));
            w.append(self.log[i].as_str());
            w.append("\n");
            assert(w@ =~= header + lines_text(self@.log.take(i + 1)));
            i += 1;
        }
        assert(self@.log.take(i as int) == self@.log);
        assert(w@ =~= old(w)@ + log_text(self@));
        n
    }

    /// Appends the line with the transfer counters.
    fn write_stats(&self, w: &mut String)
        ensures
            final(w)@ == old(w)@ + stats_text(self@.total, self@.sessions),
    {
        w.append("stats: left->right ");
        push_decimal(w, self.total.ltr_packets);
        w.append(" packets / ");
        push_decimal(w, self.total.ltr_bytes);
        w.append(" bytes, right->left ");
        push_decimal(w, self.total.rtl_packets);
        w.append(" packets / ");
        push_decimal(w, self.total.rtl_bytes);
        w.append(" bytes, ");
        push_decimal(w, self.sessions);
        w.append(" sessions\n");
        assert(w@ =~= old(w)@ + stats_text(self@.total, self@.sessions));
    }

    /// Takes note of what asking whether the process has exited gave. Returns
    /// the signals to send and the processes that are known to be alive.
    fn on_poll(&mut self, procs: &[ProcInfo], poll: &Poll, now: u64) -> (r: (
        Vec<SignalRequest>,
        Vec<u32>,
    ))
        requires
            old(self)@.wf(),
            old(self)@.can_tick(proc_views(procs@), poll@),
        ensures
            (final(self)@, r.0@, r.1@) == old(self)@.polled(proc_views(procs@), poll@, now),
            final(self)@.wf(),
    {
        let mut signals: Vec<SignalRequest> = Vec::new();
        let pid: u32 = match self.pid {
            Some(pid) => pid,
            None => return (signals, Vec::new()),
        };
        match poll {
            Poll::Exited { code, text } => {
                self.status = if self.stop_requested.is_some() {
                    Status::Stopped
                } else {
                    Status::Exited(*code)
                };
                self.pid = None;
                self.stop_requested = None;
                self.connections = 0;
                self.push_log("socat ".to_owned().concat(text.as_str()));
                (signals, Vec::new())
            },
            Poll::Alive => {
                match self.stop_requested {
                    Some(t) => {
                        if now.saturating_sub(t) > KILL_AFTER {
                            signals.push(
                                SignalRequest { target: Target::Group(pid), signal: Signal::Kill },
                            );
                        }
                        (signals, Vec::new())
                    },
                    None => {
                        let tree: Vec<u32> = socat_tree(procs, pid);
                        let mut i: usize = 0;
                        while i < tree.len()
                            invariant
                                i <= tree@.len(),
                                signals@ == statistics_requests(tree@.take(i as int)),
                            decreases tree@.len() - i,
                        {
                            let request: SignalRequest = SignalRequest {
                                target: Target::Process(tree[i]),
                                signal: Signal::Usr1,
                            };
                            assert(statistics_requests(tree@.take(i + 1))
                                =~= statistics_requests(tree@.take(i as int)).push(request));
                            signals.push(request);
                            i += 1;
                        }
                        assert(tree@.take(i as int) == tree@);
                        // fork mode: every extra socat is one connection.
                        // single mode: the root itself carries the traffic
                        // once it has reported counters.
                        self.connections = if tree.len() > 1 {
                            tree.len() - 1
                        } else if self.has_reported(pid) {
                            1
                        } else {
                            0
                        };
                        (signals, tree)
                    },
                }
            },
            Poll::Unknown => (signals, Vec::new()),
        }
    }

    /// Whether a process has an entry of its own.
    fn has_reported(&self, pid: u32) -> (b: bool)
        ensures
            b == has_entry(self@.per_pid, pid),
    {
        let mut i: usize = 0;
        while i < self.per_pid.len()
            invariant
                i <= self.per_pid@.len(),
                forall|j: int| 0 <= j < i ==> (#[trigger] self.per_pid@[j]).pid != pid,
            decreases self.per_pid@.len() - i,
        {
            if self.per_pid[i].pid == pid {
                return true;
            }
            i += 1;
        }
        false
    }

    /// Does the work of one second, with a fresh process snapshot and what
    /// asking whether the process has exited gave. Returns the signals to send.
    pub fn tick(&mut self, procs: &[ProcInfo], poll: &Poll, now: u64) -> (r: Vec<SignalRequest>)
        requires
            old(self)@.wf(),
            old(self)@.can_tick(proc_views(procs@), poll@),
        ensures
            (final(self)@, r@) == old(self)@.ticked(proc_views(procs@), poll@, now),
            final(self)@.wf(),
    {
        let (signals, alive) = self.on_poll(procs, poll, now);
        let ghost polled = self@;
        // Age out pids that are gone, folding their final counters into the
        // archived total after a grace period.
        proof {
            lemma_fold(self.per_pid@, alive@, now);
            lemma_kept_len(self.per_pid@, alive@, now);
        }
        let (stay, gone) = age(&self.per_pid, &alive, now);
        self.per_pid = stay;
        self.archived.add(&gone);
        self.recompute_total();
        assert(self@ == polled.aged(alive@, now));
        // Throughput.
        let dt: u64 = now.saturating_sub(self.prev_sample);
        if dt >= SAMPLE_AFTER {
            self.rate_ltr = Rate {
                bytes: self.total.ltr_bytes.saturating_sub(self.prev_total.ltr_bytes),
                nanos: dt,
            };
            self.rate_rtl = Rate {
                bytes: self.total.rtl_bytes.saturating_sub(self.prev_total.rtl_bytes),
                nanos: dt,
            };
            self.prev_total = self.total;
            self.prev_sample = now;
        }
        if self.pid.is_none() {
            let rate: Rate = Rate { bytes: 0, nanos: 1_000_000_000 };
            self.rate_ltr = rate;
            self.rate_rtl = rate;
        }
        signals
    }
}

/// The arguments to spawn a process with, as sequences.
pub open spec fn args_view(r: Option<Vec<String>>) -> Option<Seq<Seq<char>>> {
    match r {
        Some(args) => Some(views(args@)),
        None => None,
    }
}

// ---------------------------------------------------------------------------
// What holds of every tunnel
// ---------------------------------------------------------------------------

/// The work of a second loses and makes up no counter: whatever is folded into
/// the archive, the total stays as it was.
pub proof fn ticks_keep_the_total(t: TunnelView, procs: Seq<ProcView>, poll: PollView, now: u64)
    requires
        t.wf(),
    ensures
        t.ticked(procs, poll, now).0.total == t.total,
{
    let (polled, signals, alive) = t.polled(procs, poll, now);
    lemma_fold(polled.per_pid, alive, now);
}

/// A process that reports a direction again replaces what it reported before.
pub proof fn a_new_report_replaces_the_old(
    t: TunnelView,
    pid: u32,
    ltr: bool,
    packets: u64,
    bytes: u64,
    more_packets: u64,
    more_bytes: u64,
)
    requires
        t.wf(),
    ensures
        t.reported(pid, ltr, packets, bytes).reported(pid, ltr, more_packets, more_bytes)
            == t.reported(pid, ltr, more_packets, more_bytes),
{
    let once = recorded(t.per_pid, pid, ltr, packets, bytes);
    let twice = recorded(once, pid, ltr, more_packets, more_bytes);
    if has_entry(t.per_pid, pid) {
        let i = choose|i: int| 0 <= i < t.per_pid.len() && (#[trigger] t.per_pid[i]).pid == pid;
        assert(once[i].pid == pid);
    } else {
        assert(once[t.per_pid.len() as int].pid == pid);
        assert forall|i: int| 0 <= i < t.per_pid.len() implies (#[trigger] once[i]).pid != pid by {
            assert(t.per_pid[i].pid != pid);
        }
    }
    assert(has_entry(once, pid));
    assert(twice =~= recorded(t.per_pid, pid, ltr, more_packets, more_bytes));
}

/// A process that reports for the first time adds to the total just what it
/// reports, and is one session more. This holds as well when its pid is that of
/// an earlier process whose counters are in the archive.
pub proof fn a_first_report_adds_to_the_total(
    t: TunnelView,
    pid: u32,
    ltr: bool,
    packets: u64,
    bytes: u64,
)
    requires
        t.wf(),
        !has_entry(t.per_pid, pid),
        t.sessions < u64::MAX,
    ensures
        t.reported(pid, ltr, packets, bytes).total == t.total.plus(
            replaced(no_counters(), ltr, packets, bytes)@,
        ),
        t.reported(pid, ltr, packets, bytes).sessions == t.sessions + 1,
{
    let after = recorded(t.per_pid, pid, ltr, packets, bytes);
    assert(after.drop_last() =~= t.per_pid);
}

/// The log after lines were added to it in turn.
pub open spec fn with_lines(log: Seq<Seq<char>>, lines: Seq<Seq<char>>) -> Seq<Seq<char>>
    decreases lines.len(),
{
    if lines.len() == 0 {
        log
    } else {
        with_line(with_lines(log, lines.drop_last()), lines.last())
    }
}

/// Whatever is logged, the log holds the last [`LOG_CAPACITY`] lines, and all of
/// them as long as there are no more.
pub proof fn logs_keep_the_last_lines(log: Seq<Seq<char>>, lines: Seq<Seq<char>>)
    requires
        log.len() <= LOG_CAPACITY,
    ensures
        with_lines(log, lines) == (if log.len() + lines.len() <= LOG_CAPACITY {
            log + lines
        } else {
            (log + lines).skip(log.len() + lines.len() - LOG_CAPACITY)
        }),
    decreases lines.len(),
{
    if lines.len() == 0 {
        assert(log + lines =~= log);
    } else {
        let init = lines.drop_last();
        logs_keep_the_last_lines(log, init);
        assert((log + init).push(lines.last()) =~= log + lines);
        let all = log + lines;
        let before = with_lines(log, init);
        if all.len() > LOG_CAPACITY {
            assert(with_lines(log, lines) =~= all.skip(all.len() - LOG_CAPACITY));
        }
    }
}

/// Clearing the statistics leaves nothing of what was reported: the total is
/// zero, and the next report of any process is a first report, which makes up the
/// total by itself.
pub proof fn clearing_forgets_every_report(
    t: TunnelView,
    now: u64,
    pid: u32,
    ltr: bool,
    packets: u64,
    bytes: u64,
)
    ensures
        t.cleared(now).total == Tally::zero(),
        t.cleared(now).sessions == 0,
        t.cleared(now).reported(pid, ltr, packets, bytes).total == replaced(
            no_counters(),
            ltr,
            packets,
            bytes,
        )@,
        t.cleared(now).reported(pid, ltr, packets, bytes).sessions == 1,
{
    let after = recorded(seq![], pid, ltr, packets, bytes);
    assert(sum(after) == after[0].counters@) by {
        reveal_with_fuel(sum, 2);
    }
}

/// Statistics are asked for with SIGUSR1 of the tunnel's own process and of
/// socat processes below it, and of no other.
pub proof fn statistics_are_asked_of_socat_only(
    t: TunnelView,
    procs: Seq<ProcView>,
    poll: PollView,
    now: u64,
    k: int,
)
    requires
        0 <= k < t.ticked(procs, poll, now).1.len(),
        t.ticked(procs, poll, now).1[k].signal == Signal::Usr1,
    ensures
        t.pid is Some,
        t.ticked(procs, poll, now).1[k].target == Target::Process(t.pid->0) || exists|i: int|
            0 <= i < procs.len() && t.ticked(procs, poll, now).1[k].target == Target::Process(
                (#[trigger] procs[i]).pid,
            ) && socat_command(procs[i].comm) && below(procs, t.pid->0, procs[i].pid),
{
    let pid = t.pid->0;
    root_comes_first(procs, pid);
    if k > 0 {
        only_socat_processes_follow(procs, pid, k);
    }
}

/// Every other signal goes to the process group of the tunnel, and none is sent
/// for a tunnel that has no process.
pub proof fn signals_need_a_process(t: TunnelView, procs: Seq<ProcView>, poll: PollView, now: u64)
    ensures
        t.stop_step(now).1 is Some ==> t.stop_step(now).1->0.target == Target::Group(t.pid->0),
        t.kill_step(now).1 is Some ==> t.kill_step(now).1->0.target == Target::Group(t.pid->0),
        forall|k: int|
            0 <= k < t.ticked(procs, poll, now).1.len() && (#[trigger] t.ticked(
                procs,
                poll,
                now,
            ).1[k]).signal != Signal::Usr1 ==> t.ticked(procs, poll, now).1[k].target
                == Target::Group(t.pid->0),
        t.stop_step(now).1 is Some <==> t.running(),
        t.kill_step(now).1 is Some <==> t.running(),
        !t.running() ==> t.ticked(procs, poll, now).1.len() == 0,
        !t.running() ==> t.stop_step(now).0 == t && t.kill_step(now).0 == t,
{
}

/// A process that was asked to stop is not asked for statistics any more; it is
/// killed when it is still there too long after.
pub proof fn stopping_escalates(t: TunnelView, procs: Seq<ProcView>, now: u64)
    requires
        t.wf(),
        t.status is Stopping,
    ensures
        t.ticked(procs, PollView::Alive, now).1 == (if now - t.stop_requested->0 > KILL_AFTER {
            seq![SignalRequest { target: Target::Group(t.pid->0), signal: Signal::Kill }]
        } else {
            seq![]
        }),
{
}

/// An exit that was asked for leaves the tunnel stopped; any other leaves it
/// with the exit code. Either way there is no process left, and no throughput.
pub proof fn exits_are_told_apart(
    t: TunnelView,
    procs: Seq<ProcView>,
    code: Option<i32>,
    text: Seq<char>,
    now: u64,
)
    requires
        t.wf(),
        t.running(),
    ensures
        ({
            let after = t.ticked(procs, PollView::Exited { code, text }, now).0;
            &&& !after.running()
            &&& after.connections == 0
            &&& after.rate_ltr == no_rate() && after.rate_rtl == no_rate()
            &&& t.status is Stopping ==> after.status is Stopped
            &&& t.status is Running ==> after.status == StatusView::Exited(code)
        }),
{
}

/// Source and destination reach socat verbatim: each is one argument, the last
/// two, whatever is in them.
pub proof fn addresses_are_passed_verbatim(c: ConfigView, options: Seq<Seq<char>>)
    ensures
        arguments(c, options).len() == options.len() + 3,
        arguments(c, options)[0] == "--statistics"@,
        arguments(c, options)[options.len() as int + 1] == c.source,
        arguments(c, options)[options.len() as int + 2] == c.destination,
{
}

} // verus!
