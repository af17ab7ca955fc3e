//! A single-line text field.

use crate::keys::{KeyCode, KeyEvent};
use vstd::prelude::*;
use vstd::string::*;

verus! {

/// Simple single-line text input with a cursor (in chars).
#[derive(Debug)]
pub struct Input {
    pub text: String,
    pub cursor: usize,
}

/// The characters of a field, and how many of them stand before the cursor.
pub struct InputView {
    pub text: Seq<char>,
    pub cursor: nat,
}

impl View for Input {
    type V = InputView;

    open spec fn view(&self) -> InputView {
        InputView { text: self.text@, cursor: self.cursor as nat }
    }
}

impl InputView {
    /// The cursor stands within the text or at its end.
    pub open spec fn wf(self) -> bool {
        self.cursor <= self.text.len()
    }

    /// The field with nothing in it.
    pub open spec fn empty() -> InputView {
        InputView { text: seq![], cursor: 0 }
    }

    /// The field with `text` in it and the cursor at the end.
    pub open spec fn holding(text: Seq<char>) -> InputView {
        InputView { text, cursor: text.len() }
    }

    /// `c` put in before the cursor, or at the end where the cursor is beyond it.
    pub open spec fn inserted(self, c: char) -> InputView {
        InputView {
            text: if self.cursor < self.text.len() {
                self.text.insert(self.cursor as int, c)
            } else {
                self.text.push(c)
            },
            cursor: self.cursor + 1,
        }
    }

    /// The character before the cursor taken out.
    pub open spec fn backspaced(self) -> InputView {
        if self.cursor > 0 {
            InputView {
                text: self.text.remove(self.cursor - 1),
                cursor: (self.cursor - 1) as nat,
            }
        } else {
            self
        }
    }

    /// The character after the cursor taken out.
    pub open spec fn deleted(self) -> InputView {
        if self.cursor < self.text.len() {
            InputView { text: self.text.remove(self.cursor as int), ..self }
        } else {
            self
        }
    }

    /// The cursor one character to the left.
    pub open spec fn moved_left(self) -> InputView {
        InputView {
            cursor: if self.cursor > 0 {
                (self.cursor - 1) as nat
            } else {
                0
            },
            ..self
        }
    }

    /// The cursor one character to the right, but not beyond the end.
    pub open spec fn moved_right(self) -> InputView {
        InputView {
            cursor: if self.cursor < self.text.len() {
                self.cursor + 1
            } else {
                self.text.len()
            },
            ..self
        }
    }

    /// The cursor at the front.
    pub open spec fn moved_home(self) -> InputView {
        InputView { cursor: 0, ..self }
    }

    /// The cursor at the end.
    pub open spec fn moved_end(self) -> InputView {
        InputView { cursor: self.text.len(), ..self }
    }

    /// What a key does to a field: Ctrl-U clears it, Ctrl-A and Ctrl-E move to
    /// its ends, other characters are put in, and the editing keys edit.
    pub open spec fn edited(self, key: KeyEvent) -> InputView {
        match key.code {
            KeyCode::Char(c) => if key.control && c == 'u' {
                InputView::empty()
            } else if key.control && c == 'a' {
                self.moved_home()
            } else if key.control && c == 'e' {
                self.moved_end()
            } else {
                self.inserted(c)
            },
            KeyCode::Backspace => self.backspaced(),
            KeyCode::Delete => self.deleted(),
            KeyCode::Left => self.moved_left(),
            KeyCode::Right => self.moved_right(),
            KeyCode::Home => self.moved_home(),
            KeyCode::End => self.moved_end(),
            _ => self,
        }
    }
}

impl Default for Input {
    fn default() -> (r: Input)
        ensures
            r@ == InputView::empty(),
    {
        let r: Input = Input { text: String::new(), cursor: 0 };
        assert(r@.text =~= InputView::empty().text);
        r
    }
}

impl Clone for Input {
    fn clone(&self) -> (r: Input)
        ensures
            r@ == self@,
    {
        Input { text: self.text.clone(), cursor: self.cursor }
    }
}

impl Input {
    /// A field with `text` in it and the cursor at the end.
    pub fn with(text: &str) -> (r: Input)
        ensures
            r@ == InputView::holding(text@),
    {
        Input { text: text.to_owned(), cursor: text.unicode_len() }
    }

    /// Puts `c` in before the cursor.
    pub fn insert(&mut self, c: char)
        requires
            old(self)@.wf() || old(self).cursor < usize::MAX,
        ensures
            final(self)@ == old(self)@.inserted(c),
            old(self)@.wf() ==> final(self)@.wf(),
    {
        let n: usize = self.text.as_str().unicode_len();
        let at: usize = if self.cursor < n {
            self.cursor
        } else {
            n
        };
        let mut text: String = self.text.as_str().substring_char(0, at).to_owned();
        text.push(c);
        text.append(self.text.as_str().substring_char(at, n));
        assert(text@ =~= self@.inserted(c).text);
        let longer: usize = text.as_str().unicode_len();
        assert(longer == n + 1);
        self.text = text;
        self.cursor = self.cursor + 1;
    }

    /// The text without the character at `at`.
    fn text_without(&self, at: usize) -> (r: String)
        requires
            at < self.text@.len(),
        ensures
            r@ == self.text@.remove(at as int),
    {
        let n: usize = self.text.as_str().unicode_len();
        let mut r: String = self.text.as_str().substring_char(0, at).to_owned();
        r.append(self.text.as_str().substring_char(at + 1, n));
        assert(r@ =~= self.text@.remove(at as int));
        r
    }

    /// Takes out the character before the cursor.
    pub fn backspace(&mut self)
        requires
            old(self)@.wf(),
        ensures
            final(self)@ == old(self)@.backspaced(),
            final(self)@.wf(),
    {
        if self.cursor > 0 {
            self.text = self.text_without(self.cursor - 1);
            self.cursor = self.cursor - 1;
        }
    }

    /// Takes out the character after the cursor.
    pub fn delete(&mut self)
        ensures
            final(self)@ == old(self)@.deleted(),
            old(self)@.wf() ==> final(self)@.wf(),
    {
        if self.cursor < self.text.as_str().unicode_len() {
            self.text = self.text_without(self.cursor);
        }
    }

    /// Moves the cursor one character to the left.
    pub fn left(&mut self)
        ensures
            final(self)@ == old(self)@.moved_left(),
            old(self)@.wf() ==> final(self)@.wf(),
    {
        if self.cursor > 0 {
            self.cursor = self.cursor - 1;
        }
    }

    /// Moves the cursor one character to the right, but not beyond the end.
    pub fn right(&mut self)
        ensures
            final(self)@ == old(self)@.moved_right(),
            final(self)@.wf(),
    {
        let n: usize = self.text.as_str().unicode_len();
        if self.cursor < n {
            self.cursor = self.cursor + 1;
        } else {
            self.cursor = n;
        }
    }

    /// Moves the cursor to the front.
    pub fn home(&mut self)
        ensures
            final(self)@ == old(self)@.moved_home(),
            final(self)@.wf(),
    {
        self.cursor = 0;
    }

    /// Moves the cursor to the end.
    pub fn end(&mut self)
        ensures
            final(self)@ == old(self)@.moved_end(),
            final(self)@.wf(),
    {
        self.cursor = self.text.as_str().unicode_len();
    }

    /// Empties the field.
    pub fn clear(&mut self)
        ensures
            final(self)@ == InputView::empty(),
            final(self)@.wf(),
    {
        self.text = String::new();
        self.cursor = 0;
        assert(self@.text =~= InputView::empty().text);
    }

    /// Does what a key does to a field.
    pub fn edit(&mut self, key: KeyEvent)
        requires
            old(self)@.wf(),
        ensures
            final(self)@ == old(self)@.edited(key),
            final(self)@.wf(),
    {
        match key.code {
            KeyCode::Char(c) => {
                if key.control && c == 'u' {
                    self.clear();
                } else if key.control && c == 'a' {
                    self.home();
                } else if key.control && c == 'e' {
                    self.end();
                } else {
                    self.insert(c);
                }
            },
            KeyCode::Backspace => self.backspace(),
            KeyCode::Delete => self.delete(),
            KeyCode::Left => self.left(),
            KeyCode::Right => self.right(),
            KeyCode::Home => self.home(),
            KeyCode::End => self.end(),
            _ => {},
        }
    }
}

// ---------------------------------------------------------------------------
// What holds of every field
// ---------------------------------------------------------------------------

/// No key takes the cursor out of the text.
pub proof fn editing_keeps_the_cursor_in_the_text(i: InputView, key: KeyEvent)
    requires
        i.wf(),
    ensures
        i.edited(key).wf(),
{
}

/// Backspace undoes the character that was just put in.
pub proof fn backspace_undoes_insert(i: InputView, c: char)
    requires
        i.wf(),
    ensures
        i.inserted(c).backspaced() == i,
{
    assert(i.inserted(c).text.remove(i.cursor as int) =~= i.text);
}

/// Putting back the character that backspace took out undoes it.
pub proof fn insert_undoes_backspace(i: InputView)
    requires
        i.wf(),
        i.cursor > 0,
    ensures
        i.backspaced().inserted(i.text[i.cursor - 1]) == i,
{
    assert(i.backspaced().inserted(i.text[i.cursor - 1]).text =~= i.text);
}

/// Delete after a step to the left is backspace.
pub proof fn delete_after_left_is_backspace(i: InputView)
    requires
        i.wf(),
        i.cursor > 0,
    ensures
        i.moved_left().deleted() == i.backspaced(),
{
}

/// A step to the right undoes one to the left, and the other way round.
pub proof fn left_and_right_undo_each_other(i: InputView)
    requires
        i.wf(),
    ensures
        i.cursor > 0 ==> i.moved_left().moved_right() == i,
        i.cursor < i.text.len() ==> i.moved_right().moved_left() == i,
{
}

/// The field after each of the characters was typed.
pub open spec fn typed(i: InputView, text: Seq<char>) -> InputView
    decreases text.len(),
{
    if text.len() == 0 {
        i
    } else {
        typed(i, text.drop_last()).inserted(text.last())
    }
}

/// Text that is typed into an empty field is what the field then holds.
pub proof fn typing_fills_the_field(text: Seq<char>)
    ensures
        typed(InputView::empty(), text) == InputView::holding(text),
    decreases text.len(),
{
    if text.len() == 0 {
        assert(text =~= InputView::empty().text);
    } else {
        let init = text.drop_last();
        typing_fills_the_field(init);
        assert(init.push(text.last()) =~= text);
    }
}

/// A character goes in between what stands before the cursor and what stands after
/// it, and the cursor goes behind it.
pub proof fn characters_go_in_at_the_cursor(i: InputView, c: char)
    requires
        i.wf(),
    ensures
        i.inserted(c).text == i.text.take(i.cursor as int) + seq![c] + i.text.skip(i.cursor as int),
        i.inserted(c).cursor == i.cursor + 1,
{
    assert(i.inserted(c).text =~= i.text.take(i.cursor as int) + seq![c] + i.text.skip(
        i.cursor as int,
    ));
}

/// Backspace takes out the character before the cursor, and Delete the one after it;
/// where there is none, they do nothing.
pub proof fn characters_go_out_at_the_cursor(i: InputView)
    requires
        i.wf(),
    ensures
        i.cursor > 0 ==> {
            &&& i.backspaced().text == i.text.take(i.cursor - 1) + i.text.skip(i.cursor as int)
            &&& i.backspaced().cursor == i.cursor - 1
        },
        i.cursor == 0 ==> i.backspaced() == i,
        i.cursor < i.text.len() ==> {
            &&& i.deleted().text == i.text.take(i.cursor as int) + i.text.skip(i.cursor as int + 1)
            &&& i.deleted().cursor == i.cursor
        },
        i.cursor == i.text.len() ==> i.deleted() == i,
{
    if i.cursor > 0 {
        assert(i.backspaced().text =~= i.text.take(i.cursor - 1) + i.text.skip(i.cursor as int));
    }
    if i.cursor < i.text.len() {
        assert(i.deleted().text =~= i.text.take(i.cursor as int) + i.text.skip(i.cursor as int + 1));
    }
}

/// The keys that move the cursor leave the text alone, and each takes the cursor
/// where it should.
pub proof fn moving_leaves_the_text_alone(i: InputView)
    requires
        i.wf(),
    ensures
        i.moved_left() == (InputView {
            cursor: if i.cursor == 0 {
                0
            } else {
                (i.cursor - 1) as nat
            },
            ..i
        }),
        i.moved_right() == (InputView {
            cursor: if i.cursor == i.text.len() {
                i.cursor
            } else {
                i.cursor + 1
            },
            ..i
        }),
        i.moved_home() == (InputView { cursor: 0, ..i }),
        i.moved_end() == (InputView { cursor: i.text.len(), ..i }),
{
}

/// What each key does to a field.
pub proof fn keys_do_what_they_say(i: InputView, key: KeyEvent)
    requires
        i.wf(),
    ensures
        ({
            let after = i.edited(key);
            match key.code {
                KeyCode::Char('u') if key.control => after.text.len() == 0 && after.cursor == 0,
                KeyCode::Char('a') if key.control => after.text == i.text && after.cursor == 0,
                KeyCode::Char('e') if key.control => after.text == i.text && after.cursor
                    == i.text.len(),
                KeyCode::Char(c) => after == i.inserted(c),
                KeyCode::Backspace => after == i.backspaced(),
                KeyCode::Delete => after == i.deleted(),
                KeyCode::Left => after == i.moved_left(),
                KeyCode::Right => after == i.moved_right(),
                KeyCode::Home => after.text == i.text && after.cursor == 0,
                KeyCode::End => after.text == i.text && after.cursor == i.text.len(),
                _ => after == i,
            }
        }),
{
}

/// A field that is filled in has the cursor at its end.
pub proof fn filled_fields_end_at_the_cursor(text: Seq<char>)
    ensures
        InputView::holding(text).text == text,
        InputView::holding(text).cursor == text.len(),
        InputView::empty().text.len() == 0,
        InputView::empty().cursor == 0,
{
}

} // verus!
