use socatui::input::Input;
use socatui::keys::{KeyCode, KeyEvent};

fn at(text: &str, cursor: usize) -> Input {
    let mut i = Input::with(text);
    i.home();
    for _ in 0..cursor {
        i.right();
    }
    i
}

fn state(i: &Input) -> (&str, usize) {
    (i.text.as_str(), i.cursor)
}

fn key(code: KeyCode) -> KeyEvent {
    KeyEvent { code, control: false }
}

fn ctrl(c: char) -> KeyEvent {
    KeyEvent { code: KeyCode::Char(c), control: true }
}

#[test]
fn fields_start_at_their_end() {
    assert_eq!(state(&Input::with("añb")), ("añb", 3));
    assert_eq!(state(&Input::default()), ("", 0));
}

#[test]
fn inserting_goes_by_characters() {
    let mut i = at("äö", 1);
    i.insert('→');
    assert_eq!(state(&i), ("ä→ö", 2));
    i.backspace();
    assert_eq!(state(&i), ("äö", 1));
    let mut i = Input::default();
    i.insert('x');
    i.insert('y');
    assert_eq!(state(&i), ("xy", 2));
}

#[test]
fn deleting_goes_by_characters() {
    let mut i = at("aé→b", 1);
    i.delete();
    assert_eq!(state(&i), ("a→b", 1));
    i.end();
    i.delete();
    assert_eq!(state(&i), ("a→b", 3));
    i.home();
    i.backspace();
    assert_eq!(state(&i), ("a→b", 0));
}

#[test]
fn the_cursor_stays_in_the_text() {
    let mut i = at("ab", 0);
    i.left();
    assert_eq!(i.cursor, 0);
    i.end();
    i.right();
    assert_eq!(i.cursor, 2);
    i.left();
    assert_eq!(i.cursor, 1);
    i.clear();
    assert_eq!(state(&i), ("", 0));
}

#[test]
fn keys_edit_the_text() {
    let mut i = Input::with("abc");
    i.edit(key(KeyCode::Left));
    i.edit(key(KeyCode::Char('X')));
    assert_eq!(state(&i), ("abXc", 3));
    i.edit(ctrl('a'));
    assert_eq!(i.cursor, 0);
    i.edit(key(KeyCode::Delete));
    assert_eq!(state(&i), ("bXc", 0));
    i.edit(ctrl('e'));
    i.edit(key(KeyCode::Backspace));
    assert_eq!(state(&i), ("bX", 2));
    i.edit(key(KeyCode::Home));
    i.edit(key(KeyCode::Right));
    assert_eq!(i.cursor, 1);
    i.edit(key(KeyCode::End));
    assert_eq!(i.cursor, 2);
    i.edit(ctrl('k'));
    assert_eq!(state(&i), ("bXk", 3));
    i.edit(key(KeyCode::F(5)));
    i.edit(key(KeyCode::Other));
    assert_eq!(state(&i), ("bXk", 3));
    i.edit(ctrl('u'));
    assert_eq!(state(&i), ("", 0));
}

#[test]
fn delete_after_left_does_what_backspace_does() {
    for n in 1..4 {
        let mut a = at("a→c", n);
        let mut b = at("a→c", n);
        a.backspace();
        b.left();
        b.delete();
        assert_eq!(state(&a), state(&b));
    }
}

#[test]
fn a_cursor_beyond_the_end_is_at_the_end() {
    let mut i = Input { text: "ab".into(), cursor: 5 };
    i.delete();
    assert_eq!(state(&i), ("ab", 5));
    i.insert('c');
    assert_eq!(state(&i), ("abc", 6));
    i.right();
    assert_eq!(i.cursor, 3);
}
