use socatui::app::{App, Mode, STATUS_TTL};
use socatui::config::TunnelConfig;
use socatui::effects::Effect;
use socatui::form::Moment;
use socatui::keys::{KeyCode, KeyEvent};
use socatui::procs::snapshot;
use socatui::stopping::{StopStep, StopWait, KILL_TIMEOUT, TERM_TIMEOUT};
use socatui::tunnel::{Poll, ProcEvent, Signal, SignalRequest, Status, Target};

const SECOND: u64 = 1_000_000_000;

fn config(name: &str) -> TunnelConfig {
    TunnelConfig {
        name: name.into(),
        source: "TCP-LISTEN:1".into(),
        destination: "TCP:h:2".into(),
        options: String::new(),
        autostart: false,
    }
}

fn app(names: &[&str]) -> App {
    let configs: Vec<TunnelConfig> = names.iter().map(|n| config(n)).collect();
    App::new(&configs, true, 0)
}

fn moment(now: u64) -> Moment {
    Moment { now, unix: 12, salt: 0xabc }
}

fn press(a: &mut App, code: KeyCode) -> Vec<Effect> {
    a.on_key(KeyEvent { code, control: false }, moment(SECOND))
}

fn ch(a: &mut App, c: char) -> Vec<Effect> {
    press(a, KeyCode::Char(c))
}

fn names(a: &App) -> Vec<&str> {
    a.tunnels.iter().map(|t| t.config.name.as_str()).collect()
}

fn term(pid: u32) -> SignalRequest {
    SignalRequest { target: Target::Group(pid), signal: Signal::Term }
}

fn kill(pid: u32) -> SignalRequest {
    SignalRequest { target: Target::Group(pid), signal: Signal::Kill }
}

fn only_signal(effects: &[Effect], request: SignalRequest) -> bool {
    effects.len() == 1 && matches!(&effects[0], Effect::Signal(r) if *r == request)
}

fn only_save(effects: &[Effect]) -> bool {
    effects.len() == 1 && matches!(&effects[0], Effect::Save)
}

fn run(a: &mut App, i: usize, pid: u32) {
    a.selected = i;
    let id = a.tunnels[i].id;
    let effects = ch(a, 's');
    assert!(effects.len() == 1);
    assert!(matches!(&effects[0], Effect::Spawn { id: n, .. } if *n == id));
    a.on_spawn(id, Ok(pid), SECOND);
}

#[test]
fn the_state_at_the_start() {
    let a = app(&["x", "y"]);
    assert_eq!(names(&a), ["x", "y"]);
    assert_eq!(a.tunnels[0].id, 1);
    assert_eq!(a.tunnels[1].id, 2);
    assert_eq!(a.next_id, 3);
    assert!(a.show_log);
    assert!(!a.should_quit);
    assert_eq!(a.running_count(), 0);
    assert_eq!(a.selected_tunnel().unwrap().config.name, "x");
    assert!(app(&[]).selected_tunnel().is_none());
}

#[test]
fn messages_last_for_a_while() {
    let mut a = app(&[]);
    assert_eq!(a.status_text(5), None);
    a.set_status("hello".into(), 10);
    assert_eq!(a.status_text(10 + STATUS_TTL - 1), Some("hello"));
    assert_eq!(a.status_text(10 + STATUS_TTL), None);
    a.on_save_failed("disk full", 20);
    assert_eq!(a.status_text(20), Some("failed to save config: disk full"));
}

#[test]
fn tunnels_start_automatically() {
    let mut configs = vec![config("x"), config("y"), config("z")];
    configs[1].autostart = true;
    configs[1].options = "-d 'a b'".into();
    configs[2].autostart = true;
    configs[2].options = "'".into();
    let mut a = App::new(&configs, false, 0);
    let effects = a.autostart(7);
    assert_eq!(effects.len(), 1);
    match &effects[0] {
        Effect::Spawn { id, args } => {
            assert_eq!(*id, 2);
            assert_eq!(args, &["--statistics", "-d", "a b", "TCP-LISTEN:1", "TCP:h:2"]);
        }
        _ => panic!("expected a process"),
    }
    assert_eq!(a.tunnels[0].status, Status::Stopped);
    assert_eq!(
        a.tunnels[2].status,
        Status::Failed("bad options: missing closing quote".into())
    );
    assert_eq!(a.status_text(7), Some("warning: `socat` not found in PATH"));
    let mut a = App::new(&configs, true, 0);
    a.autostart(7);
    assert_eq!(a.status_text(7), None);
}

#[test]
fn moving_the_selection() {
    let mut a = app(&["x", "y", "z"]);
    ch(&mut a, 'j');
    assert_eq!(a.selected, 1);
    press(&mut a, KeyCode::Down);
    press(&mut a, KeyCode::Down);
    assert_eq!(a.selected, 0);
    ch(&mut a, 'k');
    assert_eq!(a.selected, 2);
    press(&mut a, KeyCode::Up);
    assert_eq!(a.selected, 1);
    ch(&mut a, 'G');
    assert_eq!(a.selected, 2);
    ch(&mut a, 'g');
    assert_eq!(a.selected, 0);
    press(&mut a, KeyCode::End);
    assert_eq!(a.selected, 2);
    press(&mut a, KeyCode::Home);
    assert_eq!(a.selected, 0);
    let mut none = app(&[]);
    for c in ['j', 'k', 'g', 'G', 's', 'r', 'K', 'c', 'C', 'J', 'U', 'e', 'd', 'w', 'W'] {
        assert!(ch(&mut none, c).is_empty());
        assert_eq!(none.selected, 0);
        assert!(matches!(none.mode, Mode::Normal));
    }
}

#[test]
fn reordering_is_saved() {
    let mut a = app(&["x", "y", "z"]);
    assert!(only_save(&ch(&mut a, 'J')));
    assert_eq!(names(&a), ["y", "x", "z"]);
    assert_eq!(a.selected, 1);
    assert!(only_save(&ch(&mut a, 'J')));
    assert!(ch(&mut a, 'J').is_empty());
    assert_eq!(names(&a), ["y", "z", "x"]);
    assert!(only_save(&ch(&mut a, 'U')));
    assert!(only_save(&ch(&mut a, 'U')));
    assert!(ch(&mut a, 'U').is_empty());
    assert_eq!(names(&a), ["x", "y", "z"]);
    assert_eq!(a.selected, 0);
    assert!(app(&["x"]).move_selected(true).is_empty());
    assert_eq!(a.configs()[2].name, "z");
}

#[test]
fn two_keys_quit() {
    let mut a = app(&["x"]);
    ch(&mut a, 'q');
    assert!(a.should_quit);
    for open in ['a', 'd', 'w', '?', 'l'] {
        let mut a = app(&["x"]);
        ch(&mut a, open);
        let e = a.on_key(KeyEvent { code: KeyCode::Char('c'), control: true }, moment(0));
        assert!(e.is_empty());
        assert!(a.should_quit);
    }
    let mut a = app(&["x"]);
    ch(&mut a, 'a');
    ch(&mut a, 'q');
    assert!(!a.should_quit);
}

#[test]
fn any_key_closes_the_help() {
    let mut a = app(&["x"]);
    press(&mut a, KeyCode::F(1));
    assert!(matches!(a.mode, Mode::Help));
    assert!(ch(&mut a, 'q').is_empty());
    assert!(matches!(a.mode, Mode::Normal));
    assert!(!a.should_quit);
    ch(&mut a, '?');
    assert!(matches!(a.mode, Mode::Help));
}

#[test]
fn adding_a_tunnel() {
    let mut a = app(&["x"]);
    ch(&mut a, 'a');
    press(&mut a, KeyCode::Enter);
    match &a.mode {
        Mode::Form(f) => assert_eq!(f.error.as_deref(), Some("name is required")),
        _ => panic!("expected the form"),
    }
    for field in ["new", "A", "B", "-x"] {
        for c in field.chars() {
            ch(&mut a, c);
        }
        press(&mut a, KeyCode::Tab);
    }
    ch(&mut a, ' ');
    assert!(only_save(&press(&mut a, KeyCode::Enter)));
    assert_eq!(names(&a), ["x", "new"]);
    assert_eq!(a.selected, 1);
    assert_eq!(a.tunnels[1].id, 2);
    assert_eq!(a.next_id, 3);
    assert!(a.tunnels[1].config.autostart);
    assert_eq!(a.tunnels[1].config.options, "-x");
    assert_eq!(a.status_text(SECOND), Some("added; press s to start"));
    assert!(matches!(a.mode, Mode::Normal));
}

#[test]
fn editing_a_tunnel() {
    let mut a = app(&["x", "y"]);
    a.selected = 1;
    press(&mut a, KeyCode::Enter);
    ch(&mut a, '2');
    assert!(only_save(&press(&mut a, KeyCode::Enter)));
    assert_eq!(names(&a), ["x", "y2"]);
    assert_eq!(a.status_text(SECOND), Some("saved"));
    run(&mut a, 1, 70);
    ch(&mut a, 'e');
    ch(&mut a, '3');
    press(&mut a, KeyCode::Enter);
    assert_eq!(
        a.status_text(SECOND),
        Some("saved; restart (r) to apply the new addresses")
    );
    ch(&mut a, 'e');
    press(&mut a, KeyCode::Enter);
    assert_eq!(a.status_text(SECOND), Some("saved"));
    assert_eq!(a.tunnels[1].id, 2);
}

#[test]
fn esc_leaves_everything_as_it_was() {
    let mut a = app(&["x"]);
    ch(&mut a, 'e');
    ch(&mut a, 'z');
    assert!(press(&mut a, KeyCode::Esc).is_empty());
    assert_eq!(names(&a), ["x"]);
    assert!(matches!(a.mode, Mode::Normal));
    ch(&mut a, 'w');
    assert!(press(&mut a, KeyCode::Esc).is_empty());
    assert!(matches!(a.mode, Mode::Normal));
    ch(&mut a, 'd');
    assert!(matches!(a.mode, Mode::ConfirmDelete));
    assert!(ch(&mut a, 'n').is_empty());
    assert_eq!(names(&a), ["x"]);
}

#[test]
fn deleting_a_tunnel_at_rest() {
    let mut a = app(&["x", "y"]);
    a.selected = 1;
    ch(&mut a, 'd');
    assert!(only_save(&ch(&mut a, 'y')));
    assert_eq!(names(&a), ["x"]);
    assert_eq!(a.selected, 0);
    assert_eq!(a.status_text(SECOND), Some("deleted y"));
    press(&mut a, KeyCode::Delete);
    assert!(only_save(&press(&mut a, KeyCode::Enter)));
    assert!(a.tunnels.is_empty());
    assert_eq!(a.selected, 0);
}

#[test]
fn deleting_a_tunnel_that_runs() {
    let mut a = app(&["x", "y"]);
    run(&mut a, 0, 90);
    ch(&mut a, 'd');
    let mut effects = ch(&mut a, 'Y');
    assert_eq!(effects.len(), 2);
    assert!(matches!(&effects[0], Effect::Signal(r) if *r == term(90)));
    match effects.pop() {
        Some(Effect::Remove(mut t)) => {
            let mut w = StopWait::begin(0);
            let exit = Poll::Exited { code: None, text: "signal: 15".into() };
            assert_eq!(w.step(&mut t, &exit, 1), StopStep::Done);
            assert!(only_save(&a.finish_delete(&t.config.name, SECOND)));
        }
        _ => panic!("expected a removal"),
    }
    assert_eq!(names(&a), ["y"]);
    assert_eq!(a.status_text(SECOND), Some("deleted x"));
}

#[test]
fn starting_and_stopping() {
    let mut a = app(&["x"]);
    run(&mut a, 0, 90);
    assert_eq!(a.running_count(), 1);
    assert!(only_signal(&ch(&mut a, ' '), term(90)));
    assert_eq!(a.tunnels[0].status, Status::Stopping);
    assert!(only_signal(&ch(&mut a, 's'), kill(90)));
    assert!(only_signal(&ch(&mut a, 'K'), kill(90)));
}

#[test]
fn a_process_that_could_not_be_spawned() {
    let mut a = app(&["x"]);
    ch(&mut a, 's');
    a.on_spawn(1, Err("no such file".into()), SECOND);
    assert_eq!(
        a.tunnels[0].status,
        Status::Failed("spawn failed: no such file".into())
    );
    a.on_spawn(99, Ok(1), SECOND);
    assert_eq!(a.running_count(), 0);
}

#[test]
fn restarting() {
    let mut a = app(&["x"]);
    let effects = ch(&mut a, 'r');
    assert!(matches!(&effects[0], Effect::Spawn { id: 1, .. }));
    a.on_spawn(1, Ok(90), 0);
    let effects = ch(&mut a, 'r');
    assert_eq!(effects.len(), 2);
    assert!(matches!(&effects[0], Effect::Signal(r) if *r == term(90)));
    assert!(matches!(&effects[1], Effect::Restart { id: 1 }));
    let mut w = StopWait::begin(0);
    assert_eq!(a.step_stop(&mut w, 1, &Poll::Alive, 1), StopStep::Again);
    assert_eq!(
        a.step_stop(&mut w, 1, &Poll::Alive, TERM_TIMEOUT),
        StopStep::Send(kill(90))
    );
    // one that outlasts the wait is not started a second time
    let mut late = StopWait { killed: true, since: 0 };
    assert_eq!(
        a.step_stop(&mut late, 1, &Poll::Alive, KILL_TIMEOUT),
        StopStep::Done
    );
    assert!(a.finish_restart(1).is_empty());
    assert_eq!(
        a.step_stop(&mut w, 1, &Poll::Unknown, TERM_TIMEOUT + 1),
        StopStep::Done
    );
    let effects = a.finish_restart(1);
    assert!(matches!(&effects[0], Effect::Spawn { id: 1, .. }));
    assert_eq!(a.step_stop(&mut w, 7, &Poll::Alive, 0), StopStep::Done);
    assert!(a.finish_restart(7).is_empty());
}

#[test]
fn all_at_once() {
    let mut a = app(&["x", "y", "z"]);
    run(&mut a, 1, 90);
    let effects = ch(&mut a, 'S');
    assert_eq!(effects.len(), 2);
    assert!(matches!(&effects[0], Effect::Spawn { id: 1, .. }));
    assert!(matches!(&effects[1], Effect::Spawn { id: 3, .. }));
    assert_eq!(a.status_text(SECOND), Some("started all tunnels"));
    a.on_spawn(3, Ok(91), 0);
    let effects = ch(&mut a, 'X');
    assert_eq!(effects.len(), 2);
    assert!(matches!(&effects[0], Effect::Signal(r) if *r == term(90)));
    assert!(matches!(&effects[1], Effect::Signal(r) if *r == term(91)));
    assert_eq!(a.status_text(SECOND), Some("stopping all tunnels"));
}

#[test]
fn shutting_down_stops_every_tunnel() {
    let mut a = app(&["x", "y", "z"]);
    run(&mut a, 0, 90);
    run(&mut a, 2, 92);
    let effects = a.shutdown(9);
    assert_eq!(effects.len(), 2);
    assert!(matches!(&effects[0], Effect::Signal(r) if *r == term(90)));
    assert!(matches!(&effects[1], Effect::Signal(r) if *r == term(92)));
    assert_eq!(a.tunnels[1].status, Status::Stopped);
}

#[test]
fn lines_go_to_their_tunnel() {
    let mut a = app(&["x", "y"]);
    let line = "socat[5] I STATISTICS: left to right: 2 packets(s), 30 byte(s)";
    let ev = ProcEvent { id: 2, line: line.into() };
    assert!(a.accepts(&ev));
    a.handle_event(ev);
    assert_eq!(a.tunnels[0].total.ltr_bytes, 0);
    assert_eq!(a.tunnels[1].total.ltr_bytes, 30);
    let ev = ProcEvent { id: 9, line: "hello".into() };
    assert!(a.accepts(&ev));
    a.handle_event(ev);
    assert!(a.tunnels.iter().all(|t| t.log.is_empty()));
    let most = format!("socat[6] I STATISTICS: left to right: 1 p, {} b", u64::MAX);
    assert!(!a.accepts(&ProcEvent { id: 2, line: most }));
}

#[test]
fn statistics_are_cleared() {
    let mut a = app(&["x", "y"]);
    for id in [1, 2] {
        let line = "socat[5] I STATISTICS: left to right: 2 packets(s), 30 byte(s)".to_string();
        a.handle_event(ProcEvent { id, line });
    }
    ch(&mut a, 'c');
    assert_eq!(a.tunnels[0].total.ltr_bytes, 0);
    assert_eq!(a.tunnels[1].total.ltr_bytes, 30);
    ch(&mut a, 'C');
    assert_eq!(a.tunnels[1].total.ltr_bytes, 0);
    ch(&mut a, 'l');
    assert!(!a.show_log);
}

#[test]
fn ticks_reach_every_tunnel() {
    let mut a = app(&["x", "y"]);
    run(&mut a, 0, 90);
    run(&mut a, 1, 95);
    let table = snapshot("90 1 socat\n91 90 socat\n95 1 socat\n");
    let polls = vec![Poll::Alive, Poll::Alive];
    assert!(a.may_tick(&table, &polls));
    let signals = a.on_tick(&table, &polls, 2 * SECOND);
    let targets: Vec<Target> = signals.iter().map(|s| s.target).collect();
    assert_eq!(
        targets,
        [Target::Process(90), Target::Process(91), Target::Process(95)]
    );
    assert_eq!(a.tunnels[0].connections, 1);
    let exit = Poll::Exited { code: Some(1), text: "exit status: 1".into() };
    let polls = vec![Poll::Alive, exit];
    a.on_tick(&table, &polls, 3 * SECOND);
    assert_eq!(a.tunnels[0].status, Status::Running);
    assert_eq!(a.tunnels[1].status, Status::Exited(Some(1)));
}

#[test]
fn ticks_need_trees_that_end() {
    let mut a = app(&["x", "y"]);
    run(&mut a, 0, 90);
    let loops = snapshot("91 90 socat\n90 91 socat\n");
    let polls = vec![Poll::Alive, Poll::Unknown];
    assert!(!a.may_tick(&loops, &polls));
    assert!(a.may_tick(&[], &polls));
    assert!(!a.may_tick(&[], &vec![Poll::Alive]));
    a.tunnels[0].stop(SECOND);
    assert!(a.may_tick(&loops, &polls));
}

#[test]
fn exporting_the_selected_log() {
    let mut a = app(&["x", "y"]);
    a.tunnels[0].push_log("hello".into());
    ch(&mut a, 'w');
    let effects = press(&mut a, KeyCode::Enter);
    match &effects[0] {
        Effect::Export { path, text } => {
            assert_eq!(path, "/tmp/socatui-x-12-000abc.log");
            assert_eq!(
                text,
                "=== x [stopped] ===\n\
                 command: socat --statistics TCP-LISTEN:1 TCP:h:2\n\
                 stats: left->right 0 packets / 0 bytes, right->left 0 packets / 0 bytes, 0 sessions\n\
                 \n\
                 hello\n"
            );
        }
        _ => panic!("expected an export"),
    }
    a.finish_export("/tmp/f", Some("denied".into()), SECOND);
    match &a.mode {
        Mode::Export(d) => assert_eq!(d.error.as_deref(), Some("denied")),
        _ => panic!("expected the dialog"),
    }
    a.finish_export("/tmp/f", None, SECOND);
    assert!(matches!(a.mode, Mode::Normal));
    assert_eq!(a.status_text(SECOND), Some("exported to /tmp/f"));
    a.finish_export("/tmp/g", None, SECOND);
    assert_eq!(a.status_text(SECOND), Some("exported to /tmp/f"));
}

#[test]
fn exporting_all_logs() {
    let mut a = app(&["x", "y"]);
    ch(&mut a, 'W');
    a.on_key(KeyEvent { code: KeyCode::Char('u'), control: true }, moment(0));
    for c in "/tmp/all".chars() {
        ch(&mut a, c);
    }
    let effects = press(&mut a, KeyCode::Enter);
    match &effects[0] {
        Effect::Export { path, text } => {
            assert_eq!(path, "/tmp/all");
            let sections: Vec<&str> = text.split("=== ").filter(|s| s.contains("[stopped]")).collect();
            assert_eq!(sections.len(), 2);
            assert!(text.contains("sessions\n\n\n=== y [stopped] ==="));
        }
        _ => panic!("expected an export"),
    }
}
