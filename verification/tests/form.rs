use socatui::config::TunnelConfig;
use socatui::form::{suggest_path, ExportDialog, Form, Moment, FORM_FIELDS};
use socatui::input::Input;
use socatui::keys::{KeyCode, KeyEvent};

fn key(code: KeyCode) -> KeyEvent {
    KeyEvent { code, control: false }
}

fn filled() -> Form {
    let mut f = Form::new();
    f.name = Input::with("  web ");
    f.source = Input::with("TCP-LISTEN:80 ");
    f.destination = Input::with("\tTCP:a:1");
    f.options = Input::with(" -d -d ");
    f
}

const M: Moment = Moment { now: 1, unix: 1758640000, salt: 0xa3f9c1 };

#[test]
fn definitions_are_trimmed() {
    let c = filled().to_config().unwrap();
    let want = TunnelConfig {
        name: "web".into(),
        source: "TCP-LISTEN:80".into(),
        destination: "TCP:a:1".into(),
        options: "-d -d".into(),
        autostart: false,
    };
    assert_eq!(c, want);
    assert!(c.same_as(&want));
    let mut other = want.clone();
    other.autostart = true;
    assert!(!c.same_as(&other));
}

#[test]
fn incomplete_forms_are_refused() {
    let mut f = filled();
    f.options = Input::with("'x");
    assert_eq!(f.to_config().unwrap_err(), "options: missing closing quote");
    f.destination = Input::with(" ");
    assert_eq!(f.to_config().unwrap_err(), "destination address is required");
    f.source = Input::with("");
    assert_eq!(f.to_config().unwrap_err(), "source address is required");
    f.name = Input::with("\u{3000}");
    assert_eq!(f.to_config().unwrap_err(), "name is required");
    assert_eq!(
        filled().to_config_with(Err("why".into())).unwrap_err(),
        "options: why"
    );
    assert!(filled().to_config_with(Ok(vec![])).is_ok());
}

#[test]
fn editing_and_saving_gives_the_definition_back() {
    let c = filled().to_config().unwrap();
    let f = Form::from_config(9, &c);
    assert_eq!(f.editing, Some(9));
    assert_eq!(f.to_config().unwrap(), c);
}

#[test]
fn the_focus_goes_round() {
    let mut f = Form::new();
    for n in 1..=FORM_FIELDS {
        f.on_key(key(if n % 2 == 0 { KeyCode::Tab } else { KeyCode::Down }));
        assert_eq!(f.focus, n % FORM_FIELDS);
    }
    f.on_key(key(KeyCode::Up));
    assert_eq!(f.focus, FORM_FIELDS - 1);
    f.on_key(key(KeyCode::BackTab));
    assert_eq!(f.focus, FORM_FIELDS - 2);
}

#[test]
fn keys_go_to_the_field_in_focus() {
    let mut f = Form::new();
    for (n, c) in ['a', 'b', 'c', 'd'].into_iter().enumerate() {
        assert_eq!(f.focus, n);
        assert!(f.input_mut().is_some());
        f.on_key(key(KeyCode::Char(c)));
        f.on_key(key(KeyCode::Char(' ')));
        f.on_key(key(KeyCode::Tab));
    }
    assert_eq!(f.name.text, "a ");
    assert_eq!(f.source.text, "b ");
    assert_eq!(f.destination.text, "c ");
    assert_eq!(f.options.text, "d ");
    assert!(f.input_mut().is_none());
    assert!(!f.autostart);
    f.on_key(key(KeyCode::Char(' ')));
    assert!(f.autostart);
    f.on_key(key(KeyCode::Char('x')));
    f.on_key(key(KeyCode::Char(' ')));
    assert!(!f.autostart);
}

#[test]
fn random_paths() {
    assert_eq!(
        suggest_path("echo-relay", M),
        "/tmp/socatui-echo-relay-1758640000-a3f9c1.log"
    );
    assert_eq!(
        suggest_path("../a b/ö", Moment { now: 0, unix: 0, salt: 1 }),
        "/tmp/socatui-..-a-b---0-000001.log"
    );
}

#[test]
fn the_export_dialog() {
    let mut d = ExportDialog::open(false, "web", M);
    let random = "/tmp/socatui-web-1758640000-a3f9c1.log";
    assert_eq!(d.path.text, random);
    assert_eq!(d.target("web", M), random);
    d.on_key(key(KeyCode::Tab));
    assert!(d.all);
    d.on_key(KeyEvent { code: KeyCode::Char('u'), control: true });
    assert_eq!(d.path.text, "");
    assert_eq!(d.target("all", M), "/tmp/socatui-all-1758640000-a3f9c1.log");
    for c in " /x/y ".chars() {
        d.on_key(key(KeyCode::Char(c)));
    }
    assert_eq!(d.target("all", M), "/x/y");
}
