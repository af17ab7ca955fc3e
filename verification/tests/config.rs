use socatui::config::{is_empty_file, resolve_path, PathBase, TunnelConfig};

fn path(arg: Option<&str>, env: Option<&str>, dir: bool) -> (PathBase, String) {
    let p = resolve_path(arg.map(str::to_string), env.map(str::to_string), dir);
    (p.base, p.segments.join("/"))
}

#[test]
fn the_argument_comes_first() {
    let nowhere = PathBase::Nowhere;
    assert_eq!(path(Some("a.json"), Some("b"), true), (nowhere, "a.json".into()));
    assert_eq!(path(Some(""), Some("b"), true), (nowhere, "".into()));
    assert_eq!(path(None, Some("b"), true), (nowhere, "b".into()));
    let default = (PathBase::ConfigDir, "socatui/tunnels.json".to_string());
    assert_eq!(path(None, Some(""), true), default);
    assert_eq!(path(None, None, true), default);
    assert_eq!(path(None, None, false), (nowhere, "./socatui/tunnels.json".into()));
}

#[test]
fn blank_files_define_nothing() {
    assert!(is_empty_file(""));
    assert!(is_empty_file(" \n\t\r\u{a0}"));
    assert!(!is_empty_file("[]"));
}

#[test]
fn default_definitions_are_empty() {
    let c = TunnelConfig::default();
    assert_eq!(c.name, "");
    assert_eq!(c.options, "");
    assert!(!c.autostart);
}
