use socatui::config::TunnelConfig;
use socatui::ledger::DEAD_PID_GRACE;
use socatui::options::split;
use socatui::procs::{snapshot, ProcInfo};
use socatui::stopping::{StopStep, StopWait, KILL_TIMEOUT, TERM_TIMEOUT};
use socatui::tunnel::{
    Poll, Rate, Signal, SignalRequest, Status, Target, Tunnel, WaitStep, KILL_AFTER, LOG_CAPACITY,
};

const SECOND: u64 = 1_000_000_000;

fn config() -> TunnelConfig {
    TunnelConfig {
        name: "web".into(),
        source: "TCP-LISTEN:8080,fork,reuseaddr".into(),
        destination: "TCP:example.com:80".into(),
        options: String::new(),
        autostart: false,
    }
}

fn running(pid: u32, now: u64) -> Tunnel {
    let mut t = Tunnel::new(1, config(), now);
    assert!(t.start().is_some());
    t.on_spawned(pid, now);
    t
}

fn report(t: &mut Tunnel, pid: u32, way: &str, bytes: u64) {
    t.handle_line(format!(
        "socat[{pid}] I STATISTICS: {way}: 1 packets(s), {bytes} byte(s)"
    ));
}

fn procs(text: &str) -> Vec<ProcInfo> {
    snapshot(text)
}

#[test]
fn sums_per_pid_and_archives() {
    let mut t = Tunnel::new(1, TunnelConfig::default(), 0);
    t.handle_line("socat[10] I STATISTICS: left to right: 1 packets(s), 100 byte(s)".into());
    t.handle_line("socat[10] I STATISTICS: right to left: 1 packets(s), 50 byte(s)".into());
    t.handle_line("socat[11] I STATISTICS: left to right: 2 packets(s), 200 byte(s)".into());
    // same pid reporting again replaces, not adds
    t.handle_line("socat[10] I STATISTICS: left to right: 3 packets(s), 300 byte(s)".into());
    assert_eq!(t.total.ltr_bytes, 500);
    assert_eq!(t.total.rtl_bytes, 50);
    assert_eq!(t.sessions, 2);
}

#[test]
fn labels() {
    assert_eq!(Status::Stopped.label(), "stopped");
    assert_eq!(Status::Running.label(), "running");
    assert_eq!(Status::Stopping.label(), "stopping");
    assert_eq!(Status::Exited(Some(0)).label(), "exited");
    assert_eq!(Status::Exited(Some(1)).label(), "exit 1");
    assert_eq!(Status::Exited(Some(-7)).label(), "exit -7");
    assert_eq!(Status::Exited(Some(i32::MIN)).label(), "exit -2147483648");
    assert_eq!(Status::Exited(None).label(), "killed");
    assert_eq!(Status::Failed("x".into()).label(), "failed");
}

#[test]
fn options_are_split_like_a_shell_would() {
    let words = split("-d -d  -T 30 'two words' \"a b\" c\\ d").unwrap();
    assert_eq!(words, ["-d", "-d", "-T", "30", "two words", "a b", "c d"]);
    assert_eq!(split("").unwrap(), Vec::<String>::new());
    assert_eq!(split("'open").unwrap_err(), "missing closing quote");
    assert_eq!(split("\"open").unwrap_err(), "missing closing quote");
}

#[test]
fn command_lines() {
    let mut t = Tunnel::new(1, config(), 0);
    assert_eq!(
        t.command_line(),
        "socat --statistics TCP-LISTEN:8080,fork,reuseaddr TCP:example.com:80"
    );
    t.config.options = "  -d -d ".into();
    assert_eq!(
        t.command_line(),
        "socat --statistics -d -d TCP-LISTEN:8080,fork,reuseaddr TCP:example.com:80"
    );
}

#[test]
fn starting_passes_the_addresses_verbatim() {
    let mut t = Tunnel::new(1, config(), 0);
    t.config.options = "-T '3 0'".into();
    t.config.source = "EXEC:'a b'".into();
    let args = t.start().unwrap();
    assert_eq!(
        args,
        ["--statistics", "-T", "3 0", "EXEC:'a b'", "TCP:example.com:80"]
    );
    assert!(!t.is_running());
    t.on_spawned(77, 5);
    assert!(t.is_running());
    assert_eq!(t.status, Status::Running);
    assert_eq!(t.pid, Some(77));
    assert_eq!(
        t.log.back().unwrap(),
        "started pid 77: socat --statistics -T '3 0' EXEC:'a b' TCP:example.com:80"
    );
    // one that runs is not started again
    assert_eq!(t.start(), None);
    assert_eq!(t.log.len(), 1);
}

#[test]
fn bad_options_fail() {
    let mut t = Tunnel::new(1, config(), 0);
    t.config.options = "-T '30".into();
    assert_eq!(t.start(), None);
    assert_eq!(
        t.status,
        Status::Failed("bad options: missing closing quote".into())
    );
    assert_eq!(
        t.log.back().unwrap(),
        "cannot parse options: missing closing quote"
    );
    let mut t = Tunnel::new(1, config(), 0);
    assert_eq!(t.start_with(Err("why".into())), None);
    assert_eq!(t.status, Status::Failed("bad options: why".into()));
    let mut t = Tunnel::new(1, config(), 0);
    assert_eq!(t.start_with(Ok(vec!["-x".into()])).unwrap()[1], "-x");
}

#[test]
fn failing_to_spawn_is_told() {
    let mut t = Tunnel::new(1, config(), 0);
    t.on_spawn_failed("not found");
    assert_eq!(t.status, Status::Failed("spawn failed: not found".into()));
    assert_eq!(t.log.back().unwrap(), "failed to start socat: not found");
    assert!(!t.is_running());
}

#[test]
fn stopping_and_killing() {
    let mut t = Tunnel::new(1, config(), 0);
    assert_eq!(t.stop(1), None);
    assert_eq!(t.kill_now(1), None);
    assert_eq!(t.status, Status::Stopped);
    let mut t = running(42, 0);
    let group = Target::Group(42);
    assert_eq!(
        t.stop(10),
        Some(SignalRequest { target: group, signal: Signal::Term })
    );
    assert_eq!(t.status, Status::Stopping);
    assert_eq!(t.stop_requested, Some(10));
    assert_eq!(t.log.back().unwrap(), "sent SIGTERM to process group 42");
    assert_eq!(
        t.kill_now(20),
        Some(SignalRequest { target: group, signal: Signal::Kill })
    );
    assert_eq!(t.stop_requested, Some(20));
    assert_eq!(t.log.len(), 2);
}

#[test]
fn uptimes() {
    let mut t = running(42, 10);
    assert_eq!(t.uptime(15), Some(5));
    let gone = Poll::Exited { code: Some(0), text: "exit status: 0".into() };
    t.tick(&[], &gone, 20);
    assert_eq!(t.uptime(25), None);
    assert_eq!(Tunnel::new(1, config(), 0).uptime(9), None);
}

#[test]
fn the_log_keeps_its_last_lines() {
    let mut t = Tunnel::new(1, config(), 0);
    for i in 0..LOG_CAPACITY + 20 {
        t.push_log(format!("line {i}"));
    }
    assert_eq!(t.log.len(), LOG_CAPACITY);
    assert_eq!(t.log.front().unwrap(), "line 20");
    assert_eq!(t.log.back().unwrap(), "line 519");
}

#[test]
fn lines_are_logged_unless_they_are_notices() {
    let mut t = Tunnel::new(1, config(), 0);
    t.handle_line("socat[1] W statistics are experimental".into());
    assert_eq!(t.log.len(), 0);
    t.handle_line("socat[1] E bind: Address already in use".into());
    assert_eq!(t.log.len(), 1);
    report(&mut t, 1, "left to right", 3);
    assert_eq!(t.log.len(), 1);
}

#[test]
fn counters_that_do_not_fit_are_not_accepted() {
    let mut t = Tunnel::new(1, config(), 0);
    report(&mut t, 1, "left to right", u64::MAX);
    let more = "socat[2] I STATISTICS: left to right: 1 packets(s), 1 byte(s)";
    assert!(!t.accepts(more));
    assert!(t.accepts("socat[1] I STATISTICS: left to right: 1 packets(s), 1 byte(s)"));
    assert!(t.accepts("anything else"));
    t.clear_stats(1);
    assert!(t.accepts(more));
}

#[test]
fn clearing_the_statistics() {
    let mut t = running(5, 0);
    report(&mut t, 5, "left to right", 900);
    t.tick(&procs("5 1 socat"), &Poll::Alive, SECOND);
    assert_eq!(t.rate_ltr, Rate { bytes: 900, nanos: SECOND });
    t.clear_stats(2 * SECOND);
    assert_eq!(t.total.ltr_bytes, 0);
    assert_eq!(t.sessions, 0);
    assert_eq!(t.rate_ltr.bytes, 0);
    report(&mut t, 5, "left to right", 40);
    assert_eq!(t.total.ltr_bytes, 40);
    assert_eq!(t.sessions, 1);
}

#[test]
fn ticks_ask_socat_for_statistics() {
    let mut t = running(100, 0);
    let table = procs(
        "  1     0 /sbin/init\n 100   50 socat\n 101 100 socat\n 102 100 /bin/cat\n 103 102 /usr/bin/socat1\n 200 1 socat\n",
    );
    let signals = t.tick(&table, &Poll::Alive, SECOND);
    let asked: Vec<SignalRequest> = [100, 101, 103]
        .iter()
        .map(|p| SignalRequest { target: Target::Process(*p), signal: Signal::Usr1 })
        .collect();
    assert_eq!(signals, asked);
    assert_eq!(t.connections, 2);
}

#[test]
fn a_single_socat_is_a_connection_once_it_reports() {
    let mut t = running(100, 0);
    let table = procs("100 50 socat");
    t.tick(&table, &Poll::Alive, SECOND);
    assert_eq!(t.connections, 0);
    report(&mut t, 100, "left to right", 10);
    t.tick(&table, &Poll::Alive, 2 * SECOND);
    assert_eq!(t.connections, 1);
}

#[test]
fn finished_children_are_folded_after_the_grace_period() {
    let mut t = running(100, 0);
    report(&mut t, 100, "left to right", 10);
    report(&mut t, 101, "left to right", 1000);
    let alone = procs("100 50 socat");
    t.tick(&alone, &Poll::Alive, SECOND);
    assert_eq!(t.per_pid.len(), 2);
    // the last report of a process that is gone still counts as its own
    report(&mut t, 101, "left to right", 1500);
    assert_eq!(t.total.ltr_bytes, 1510);
    t.tick(&alone, &Poll::Alive, SECOND + DEAD_PID_GRACE);
    assert_eq!(t.per_pid.len(), 2);
    t.tick(&alone, &Poll::Alive, SECOND + DEAD_PID_GRACE + 1);
    assert_eq!(t.per_pid.len(), 1);
    assert_eq!(t.archived.ltr_bytes, 1500);
    assert_eq!(t.total.ltr_bytes, 1510);
    // another process under the same pid adds to that
    report(&mut t, 101, "left to right", 7);
    assert_eq!(t.total.ltr_bytes, 1517);
    assert_eq!(t.sessions, 3);
}

#[test]
fn a_process_that_is_back_in_time_keeps_its_slot() {
    let mut t = running(100, 0);
    report(&mut t, 101, "right to left", 8);
    let alone = procs("100 50 socat");
    let both = procs("100 50 socat\n101 100 socat");
    t.tick(&alone, &Poll::Alive, SECOND);
    t.tick(&both, &Poll::Alive, 2 * SECOND);
    t.tick(&alone, &Poll::Alive, 3 * SECOND);
    t.tick(&alone, &Poll::Alive, 6 * SECOND);
    assert_eq!(t.per_pid.len(), 1);
    t.tick(&alone, &Poll::Alive, 6 * SECOND + 1);
    assert_eq!(t.per_pid.len(), 0);
    assert_eq!(t.total.rtl_bytes, 8);
}

#[test]
fn throughput_is_measured_between_samples() {
    let mut t = running(100, 0);
    let table = procs("100 50 socat");
    report(&mut t, 100, "left to right", 500);
    t.tick(&table, &Poll::Alive, SECOND / 2 - 1);
    assert_eq!(t.rate_ltr.bytes, 0);
    t.tick(&table, &Poll::Alive, SECOND / 2);
    assert_eq!(t.rate_ltr, Rate { bytes: 500, nanos: SECOND / 2 });
    report(&mut t, 100, "left to right", 800);
    report(&mut t, 100, "right to left", 50);
    t.tick(&table, &Poll::Alive, SECOND * 3 / 2);
    assert_eq!(t.rate_ltr, Rate { bytes: 300, nanos: SECOND });
    assert_eq!(t.rate_rtl, Rate { bytes: 50, nanos: SECOND });
    // a counter that went back is no throughput
    report(&mut t, 100, "left to right", 1);
    t.tick(&table, &Poll::Alive, SECOND * 5 / 2);
    assert_eq!(t.rate_ltr.bytes, 0);
}

#[test]
fn an_exit_is_noticed() {
    let mut t = running(100, 0);
    let exit = Poll::Exited { code: Some(3), text: "exit status: 3".into() };
    assert_eq!(t.tick(&[], &exit, SECOND), []);
    assert_eq!(t.status, Status::Exited(Some(3)));
    assert_eq!(t.pid, None);
    assert_eq!(t.connections, 0);
    assert_eq!(t.log.back().unwrap(), "socat exit status: 3");
    let mut t = running(100, 0);
    t.stop(1);
    let exit = Poll::Exited { code: Some(143), text: "exit status: 143".into() };
    t.tick(&[], &exit, SECOND);
    assert_eq!(t.status, Status::Stopped);
    assert_eq!(t.stop_requested, None);
}

#[test]
fn a_status_that_cannot_be_had_changes_nothing() {
    let mut t = running(100, 0);
    assert_eq!(t.tick(&[], &Poll::Unknown, 1), []);
    assert_eq!(t.status, Status::Running);
}

#[test]
fn stopping_too_long_ends_in_a_kill() {
    let mut t = running(100, 0);
    t.stop(SECOND);
    assert_eq!(t.tick(&[], &Poll::Alive, SECOND + KILL_AFTER), []);
    assert_eq!(
        t.tick(&[], &Poll::Alive, SECOND + KILL_AFTER + 1),
        [SignalRequest { target: Target::Group(100), signal: Signal::Kill }]
    );
    assert_eq!(t.status, Status::Stopping);
}

#[test]
fn waiting_for_an_exit() {
    let mut t = Tunnel::new(1, config(), 0);
    assert_eq!(t.wait_exit(&Poll::Alive, 0, 5), WaitStep::Gone);
    let mut t = running(100, 0);
    assert_eq!(t.wait_exit(&Poll::Alive, 4, 5), WaitStep::Again);
    assert_eq!(t.wait_exit(&Poll::Alive, 5, 5), WaitStep::TimedOut);
    assert!(t.is_running());
    assert_eq!(t.wait_exit(&Poll::Unknown, 0, 5), WaitStep::Gone);
    assert_eq!(t.status, Status::Stopped);
    assert!(!t.is_running());
}

#[test]
fn waits_escalate_and_end() {
    let mut t = running(100, 0);
    t.stop(0);
    let mut w = StopWait::begin(0);
    assert_eq!(w.step(&mut t, &Poll::Alive, TERM_TIMEOUT - 1), StopStep::Again);
    let kill = SignalRequest { target: Target::Group(100), signal: Signal::Kill };
    assert_eq!(w.step(&mut t, &Poll::Alive, TERM_TIMEOUT), StopStep::Send(kill));
    assert_eq!(
        w.step(&mut t, &Poll::Alive, TERM_TIMEOUT + KILL_TIMEOUT - 1),
        StopStep::Again
    );
    assert_eq!(
        w.step(&mut t, &Poll::Alive, TERM_TIMEOUT + KILL_TIMEOUT),
        StopStep::Done
    );
    assert!(t.is_running());
    let mut w = StopWait::begin(0);
    let exit = Poll::Exited { code: None, text: "signal: 15".into() };
    assert_eq!(w.step(&mut t, &exit, 1), StopStep::Done);
    assert!(!t.is_running());
    assert_eq!(t.status, Status::Stopped);
}

#[test]
fn written_logs() {
    let mut t = running(7, 0);
    report(&mut t, 7, "left to right", 900);
    report(&mut t, 8, "right to left", 20);
    t.push_log("hello".into());
    let mut text = String::from("before\n");
    assert_eq!(t.write_log(&mut text), 2);
    assert_eq!(
        text,
        "before\n\
         === web [running] ===\n\
         command: socat --statistics TCP-LISTEN:8080,fork,reuseaddr TCP:example.com:80\n\
         pid: 7\n\
         stats: left->right 1 packets / 900 bytes, right->left 1 packets / 20 bytes, 2 sessions\n\
         \n\
         started pid 7: socat --statistics TCP-LISTEN:8080,fork,reuseaddr TCP:example.com:80\n\
         hello\n"
    );
    let mut text = String::new();
    assert_eq!(Tunnel::new(1, config(), 0).write_log(&mut text), 0);
    assert!(!text.contains("pid:"));
}
