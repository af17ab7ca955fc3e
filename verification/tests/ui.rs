use socatui::app::{App, Mode};
use socatui::config::TunnelConfig;
use socatui::form::{ExportDialog, Form, Moment};
use socatui::input::Input;
use socatui::keys::{KeyCode, KeyEvent};
use socatui::schedule::{poll_timeout, tick_due, POLL, TICK};
use socatui::tunnel::{Status, Tunnel};
use socatui::ui::{
    centered, confirm_lines, export_scope, footer_height, footer_items, footer_lines, form_footer,
    form_rows, form_title, help_entries, input_window, keybar, log_pane, row_for, status_style,
    summary, Area, Footer, Hint, Tone,
};

const SECOND: u64 = 1_000_000_000;
const M: Moment = Moment { now: 0, unix: 1, salt: 2 };

fn config(name: &str) -> TunnelConfig {
    TunnelConfig {
        name: name.into(),
        source: "S".into(),
        destination: "D".into(),
        options: String::new(),
        autostart: false,
    }
}

fn app(names: &[&str]) -> App {
    let configs: Vec<TunnelConfig> = names.iter().map(|n| config(n)).collect();
    App::new(&configs, true, 0)
}

fn press(a: &mut App, c: char) {
    a.on_key(KeyEvent { code: KeyCode::Char(c), control: false }, M);
}

fn keys_of(hints: &[Hint]) -> Vec<&str> {
    hints.iter().map(|h| h.key).collect()
}

#[test]
fn statuses_look_different() {
    assert_eq!(status_style(&Status::Running), Tone::Good);
    assert_eq!(status_style(&Status::Stopping), Tone::Pending);
    assert_eq!(status_style(&Status::Stopped), Tone::Idle);
    assert_eq!(status_style(&Status::Exited(Some(0))), Tone::Idle);
    assert_eq!(status_style(&Status::Exited(Some(1))), Tone::Bad);
    assert_eq!(status_style(&Status::Exited(None)), Tone::Bad);
    assert_eq!(status_style(&Status::Failed(String::new())), Tone::Broken);
}

#[test]
fn the_summary_counts_tunnels() {
    let mut a = app(&["x", "y"]);
    a.tunnels[1].on_spawned(5, 0);
    assert_eq!(summary(&a), "  2 tunnels, 1 running   ");
}

#[test]
fn rows_of_the_list() {
    let mut t = Tunnel::new(1, config("web"), 0);
    assert_eq!(
        row_for(0, &t, 0, 0, 0),
        ["1", "web", "stopped", "-", "S", "D", "-", "0 B", "0 B", "0 B/s", "0 B/s", "-"]
    );
    t.on_spawned(78913, SECOND);
    t.connections = 2;
    t.handle_line("socat[1] I STATISTICS: left to right: 9 p, 2048 b".into());
    t.handle_line("socat[1] I STATISTICS: right to left: 9 p, 7 b".into());
    assert_eq!(
        row_for(11, &t, 63 * SECOND, 1024, 3),
        [
            "12", "web", "running", "78913", "S", "D", "2", "2.0 KiB", "7 B", "1.0 KiB/s", "3 B/s",
            "1m02s"
        ]
    );
}

#[test]
fn the_log_pane() {
    let mut a = app(&["web"]);
    for i in 0..9 {
        a.tunnels[0].push_log(format!("l{i}"));
    }
    let (title, lines) = log_pane(&a, 5);
    assert_eq!(title, " web — 0 packets → / 0 packets ←, 0 sessions ");
    assert_eq!(lines, ["l6", "l7", "l8"]);
    assert_eq!(log_pane(&a, 99).1.len(), 9);
    assert_eq!(log_pane(&a, 1).1.len(), 0);
    a.tunnels[0].on_spawn_failed("gone");
    let (title, _) = log_pane(&a, 5);
    assert_eq!(
        title,
        " web — 0 packets → / 0 packets ←, 0 sessions — spawn failed: gone "
    );
    let (title, lines) = log_pane(&app(&[]), 5);
    assert_eq!(title, " log ");
    assert!(lines.is_empty());
}

#[test]
fn footers() {
    let mut a = app(&["web"]);
    let hints = footer_items(&a, 0).unwrap();
    assert_eq!(
        keys_of(&hints),
        ["a", "e", "d", "s", "r", "c", "l", "w/W", "S/X", "?", "q"]
    );
    a.set_status("hello".into(), 0);
    assert!(footer_items(&a, 0).is_none());
    assert!(matches!(footer_lines(&a, 80, 0), Footer::Message(m) if m == " hello"));
    assert_eq!(footer_height(&a, 1, 0), 1);
    press(&mut a, 'd');
    assert_eq!(keys_of(&footer_items(&a, 0).unwrap()), ["y", "any"]);
    press(&mut a, 'n');
    press(&mut a, 'a');
    assert_eq!(
        keys_of(&footer_items(&a, 0).unwrap()),
        ["Tab/↑↓", "Space", "Enter", "Esc"]
    );
    assert_eq!(footer_height(&a, 200, 0), 1);
    assert_eq!(footer_height(&a, 0, 0), 4);
    a.mode = Mode::Help;
    assert_eq!(keys_of(&footer_items(&a, 0).unwrap()), ["any key"]);
    a.mode = Mode::Normal;
    press(&mut a, 'w');
    assert_eq!(
        keys_of(&footer_items(&a, 0).unwrap()),
        ["Tab", "Ctrl-U", "Enter", "Esc"]
    );
}

#[test]
fn hints_wrap_onto_more_rows() {
    // widths 8, 9 and 9
    let hints = vec![
        Hint { key: "a", action: "add" },
        Hint { key: "e", action: "edit" },
        Hint { key: "→", action: "next" },
    ];
    let rows = |width: usize| -> Vec<usize> {
        keybar(&hints, width).iter().map(|r| r.len()).collect()
    };
    assert_eq!(rows(26), [3]);
    assert_eq!(rows(25), [2, 1]);
    assert_eq!(rows(17), [2, 1]);
    assert_eq!(rows(16), [1, 1, 1]);
    assert_eq!(rows(0), [1, 1, 1]);
    assert!(keybar(&vec![], 10).is_empty());
    let flat: Vec<&str> = keybar(&hints, 17).iter().flatten().map(|h| h.key).collect();
    assert_eq!(flat, ["a", "e", "→"]);
}

#[test]
fn dialogs_are_centred_and_cut() {
    let area = Area { x: 1, y: 2, width: 100, height: 40 };
    assert_eq!(
        centered(area, 78, 17),
        Area { x: 12, y: 13, width: 78, height: 17 }
    );
    assert_eq!(centered(area, 200, 99), area);
}

#[test]
fn fields_scroll_with_the_cursor() {
    let mut i = Input::with("abcdéfgh");
    assert_eq!(input_window(&i, 4), ("fgh".into(), 3));
    assert_eq!(input_window(&i, 20), ("abcdéfgh".into(), 8));
    assert_eq!(input_window(&i, 0), ("".into(), 0));
    i.left();
    assert_eq!(input_window(&i, 4), ("éfgh".into(), 3));
    i.home();
    assert_eq!(input_window(&i, 4), ("abcd".into(), 0));
    assert_eq!(input_window(&i, 0), ("a".into(), 0));
}

#[test]
fn forms_as_they_are_shown() {
    let mut f = Form::from_config(3, &config("web"));
    assert_eq!(form_title(&f), " edit tunnel ");
    assert_eq!(form_title(&Form::new()), " add tunnel ");
    f.focus = 1;
    f.autostart = true;
    let rows = form_rows(&f, 30);
    let labels: Vec<&str> = rows.iter().map(|r| r.label).collect();
    assert_eq!(labels, ["Name", "Source", "Destination", "Options", "Autostart"]);
    let values: Vec<&str> = rows.iter().map(|r| r.value.as_str()).collect();
    assert_eq!(values, ["web", "S", "D", "", "[x] yes"]);
    let cursors: Vec<Option<usize>> = rows.iter().map(|r| r.cursor).collect();
    assert_eq!(cursors, [None, Some(1), None, None, None]);
    assert!(rows[1].focused && !rows[0].focused);
    assert!(form_footer(&f).starts_with("Enter saves, Esc cancels."));
    f.autostart = false;
    f.error = Some("name is required".into());
    assert_eq!(form_rows(&f, 30)[4].value, "[ ] no");
    assert_eq!(form_footer(&f), "✗ name is required");
}

#[test]
fn questions_before_a_deletion() {
    let mut a = app(&["web"]);
    assert_eq!(
        confirm_lines(&a),
        ["Delete \"web\"?", "", "y = yes, any other key = no"]
    );
    a.tunnels[0].on_spawned(4, 0);
    assert_eq!(confirm_lines(&a)[1], "It is running and will be stopped.");
    assert_eq!(confirm_lines(&app(&[]))[0], "Delete \"\"?");
}

#[test]
fn scopes_of_an_export() {
    let a = app(&["x", "y"]);
    assert_eq!(export_scope(&a, &ExportDialog::open(true, "all", M)), "all 2 tunnels");
    assert_eq!(export_scope(&a, &ExportDialog::open(false, "x", M)), "\"x\" only");
    assert_eq!(export_scope(&app(&[]), &ExportDialog::open(false, "x", M)), "");
}

#[test]
fn the_help_lists_the_keys() {
    let help = help_entries();
    assert_eq!(help.len(), 14);
    assert_eq!(help[0].key, "↑/k ↓/j");
    assert_eq!(help[13].action, "quit (stops all tunnels)");
}

#[test]
fn ticks_come_once_per_second() {
    assert!(!tick_due(5, 5 + TICK - 1));
    assert!(tick_due(5, 5 + TICK));
    assert_eq!(poll_timeout(5, 5), POLL);
    assert_eq!(poll_timeout(5, 5 + TICK - 7), 7);
    assert_eq!(poll_timeout(5, 5 + 2 * TICK), 0);
}
