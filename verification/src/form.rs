//! The form in which a tunnel is defined, and the dialog for exporting a log.

use crate::config::{option_view, ConfigView, TunnelConfig};
use crate::decimal::{decimal, hex_char, hex_digits, push_decimal, push_hex};
use crate::input::{Input, InputView};
use crate::keys::{KeyCode, KeyEvent};
use crate::options::{split, split_options, split_view};
use crate::text::{trim, trimmed, trimming_is_idempotent};
use vstd::prelude::*;
use vstd::string::*;

verus! {

/// The fields of the form: four texts, and whether to start automatically.
pub const FORM_FIELDS: usize = 5;

/// The form in which a tunnel is defined.
#[derive(Debug)]
pub struct Form {
    /// The tunnel that is edited; none for a new one.
    pub editing: Option<u64>,
    pub name: Input,
    pub source: Input,
    pub destination: Input,
    pub options: Input,
    pub autostart: bool,
    pub focus: usize,
    pub error: Option<String>,
}

/// The form with its texts as sequences.
pub struct FormView {
    pub editing: Option<u64>,
    pub name: InputView,
    pub source: InputView,
    pub destination: InputView,
    pub options: InputView,
    pub autostart: bool,
    pub focus: nat,
    pub error: Option<Seq<char>>,
}

impl View for Form {
    type V = FormView;

    open spec fn view(&self) -> FormView {
        FormView {
            editing: self.editing,
            name: self.name@,
            source: self.source@,
            destination: self.destination@,
            options: self.options@,
            autostart: self.autostart,
            focus: self.focus as nat,
            error: option_view(self.error),
        }
    }
}

/// A definition or a message, as sequences.
pub open spec fn config_view(r: Result<TunnelConfig, String>) -> Result<ConfigView, Seq<char>> {
    match r {
        Ok(c) => Ok(c@),
        Err(e) => Err(e@),
    }
}

impl FormView {
    /// The focus is on a field, and every cursor is in its text.
    pub open spec fn wf(self) -> bool {
        &&& self.focus < FORM_FIELDS
        &&& self.name.wf()
        &&& self.source.wf()
        &&& self.destination.wf()
        &&& self.options.wf()
    }

    /// The form for a new tunnel.
    pub open spec fn empty() -> FormView {
        FormView {
            editing: None,
            name: InputView::empty(),
            source: InputView::empty(),
            destination: InputView::empty(),
            options: InputView::empty(),
            autostart: false,
            focus: 0,
            error: None,
        }
    }

    /// The form for an existing tunnel.
    pub open spec fn of(id: u64, c: ConfigView) -> FormView {
        FormView {
            editing: Some(id),
            name: InputView::holding(c.name),
            source: InputView::holding(c.source),
            destination: InputView::holding(c.destination),
            options: InputView::holding(c.options),
            autostart: c.autostart,
            focus: 0,
            error: None,
        }
    }

    /// The definition in the form, given what splitting the options gave, or
    /// what is wrong with it. White space around the texts does not count.
    pub open spec fn config_with(self, options: Result<Seq<Seq<char>>, Seq<char>>) -> Result<
        ConfigView,
        Seq<char>,
    > {
        if trimmed(self.name.text).len() == 0 {
            Err("name is required"@)
        } else if trimmed(self.source.text).len() == 0 {
            Err("source address is required"@)
        } else if trimmed(self.destination.text).len() == 0 {
            Err("destination address is required"@)
        } else {
            match options {
                Err(e) => Err("options: "@ + e),
                Ok(_) => Ok(
                    ConfigView {
                        name: trimmed(self.name.text),
                        source: trimmed(self.source.text),
                        destination: trimmed(self.destination.text),
                        options: trimmed(self.options.text),
                        autostart: self.autostart,
                    },
                ),
            }
        }
    }

    /// The definition in the form, or what is wrong with it.
    pub open spec fn config(self) -> Result<ConfigView, Seq<char>> {
        self.config_with(split_options(self.options.text))
    }

    /// What a key does to the text in focus; nothing where no text is.
    pub open spec fn text_edited(self, key: KeyEvent) -> FormView {
        if self.focus == 0 {
            FormView { name: self.name.edited(key), ..self }
        } else if self.focus == 1 {
            FormView { source: self.source.edited(key), ..self }
        } else if self.focus == 2 {
            FormView { destination: self.destination.edited(key), ..self }
        } else if self.focus == 3 {
            FormView { options: self.options.edited(key), ..self }
        } else {
            self
        }
    }

    /// What a key other than Esc and Enter does to the form: Tab and the arrows
    /// move the focus round, Space toggles the last field, and all else edits
    /// the text in focus.
    pub open spec fn keyed(self, key: KeyEvent) -> FormView {
        if key.code == KeyCode::Tab || key.code == KeyCode::Down {
            FormView { focus: (self.focus + 1) % (FORM_FIELDS as nat), ..self }
        } else if key.code == KeyCode::BackTab || key.code == KeyCode::Up {
            FormView {
                focus: ((self.focus + FORM_FIELDS - 1) % FORM_FIELDS as int) as nat,
                ..self
            }
        } else if key.code == KeyCode::Char(' ') && self.focus == FORM_FIELDS - 1 {
            FormView { autostart: !self.autostart, ..self }
        } else {
            self.text_edited(key)
        }
    }
}

impl Form {
    /// The text field of a number.
    pub open spec fn field(self, n: usize) -> Input {
        if n == 0 {
            self.name
        } else if n == 1 {
            self.source
        } else if n == 2 {
            self.destination
        } else {
            self.options
        }
    }

    /// The form with a text field replaced.
    pub open spec fn with_field(self, n: usize, i: Input) -> Form {
        if n == 0 {
            Form { name: i, ..self }
        } else if n == 1 {
            Form { source: i, ..self }
        } else if n == 2 {
            Form { destination: i, ..self }
        } else {
            Form { options: i, ..self }
        }
    }

    /// The form for a new tunnel.
    pub fn new() -> (r: Form)
        ensures
            r@ == FormView::empty(),
            r@.wf(),
    {
        Form {
            editing: None,
            name: Input::default(),
            source: Input::default(),
            destination: Input::default(),
            options: Input::default(),
            autostart: false,
            focus: 0,
            error: None,
        }
    }

    /// The form for an existing tunnel.
    pub fn from_config(id: u64, c: &TunnelConfig) -> (r: Form)
        ensures
            r@ == FormView::of(id, c@),
            r@.wf(),
    {
        Form {
            editing: Some(id),
            name: Input::with(c.name.as_str()),
            source: Input::with(c.source.as_str()),
            destination: Input::with(c.destination.as_str()),
            options: Input::with(c.options.as_str()),
            autostart: c.autostart,
            focus: 0,
            error: None,
        }
    }

    /// The text field in focus.
    pub fn input_mut(&mut self) -> (r: Option<&mut Input>)
        ensures
            match r {
                Some(i) => old(self).focus < 4 && *i == old(self).field(old(self).focus)
                    && *final(self) == old(self).with_field(old(self).focus, *final(i)),
                None => old(self).focus >= 4 && *final(self) == *old(self),
            },
    {
        match self.focus {
            0 => Some(&mut self.name),
            1 => Some(&mut self.source),
            2 => Some(&mut self.destination),
            3 => Some(&mut self.options),
            _ => None,
        }
    }

    /// The definition in the form, or what is wrong with it.
    pub fn to_config(&self) -> (r: Result<TunnelConfig, String>)
        ensures
            config_view(r) == self@.config(),
    {
        let options: Result<Vec<String>, String> = split(self.options.text.as_str());
        self.to_config_with(options)
    }

    /// The definition in the form, given what splitting the options gave, or
    /// what is wrong with it.
    pub fn to_config_with(&self, options: Result<Vec<String>, String>) -> (r: Result<
        TunnelConfig,
        String,
    >)
        ensures
            config_view(r) == self@.config_with(split_view(options)),
    {
        let name: String = trim(self.name.text.as_str());
        let source: String = trim(self.source.text.as_str());
        let destination: String = trim(self.destination.text.as_str());
        if name.as_str().is_empty() {
            return Err("name is required".to_owned());
        }
        if source.as_str().is_empty() {
            return Err("source address is required".to_owned());
        }
        if destination.as_str().is_empty() {
            return Err("destination address is required".to_owned());
        }
        match options {
            Err(e) => Err("options: ".to_owned().concat(e.as_str())),
            Ok(_) => Ok(
                TunnelConfig {
                    name,
                    source,
                    destination,
                    options: trim(self.options.text.as_str()),
                    autostart: self.autostart,
                },
            ),
        }
    }

    /// Does what a key other than Esc and Enter does to the form.
    pub fn on_key(&mut self, key: KeyEvent)
        requires
            old(self)@.wf(),
        ensures
            final(self)@ == old(self)@.keyed(key),
            final(self)@.wf(),
    {
        match key.code {
            KeyCode::Tab | KeyCode::Down => {
                self.focus = (self.focus + 1) % FORM_FIELDS;
            },
            KeyCode::BackTab | KeyCode::Up => {
                self.focus = (self.focus + FORM_FIELDS - 1) % FORM_FIELDS;
            },
            KeyCode::Char(' ') if self.focus == FORM_FIELDS - 1 => {
                self.autostart = !self.autostart;
            },
            _ => {
                if let Some(i) = self.input_mut() {
                    i.edit(key);
                }
            },
        }
    }
}

// ---------------------------------------------------------------------------
// Exporting
// ---------------------------------------------------------------------------

/// The moment of a key press: a clock in nanoseconds that never runs backwards,
/// the seconds of the calendar, and a random number.
#[derive(Clone, Copy, Debug, PartialEq, Eq, Structural)]
pub struct Moment {
    pub now: u64,
    pub unix: u64,
    pub salt: u32,
}

/// The dialog for exporting a log.
#[derive(Debug)]
pub struct ExportDialog {
    /// Whether to export the logs of all tunnels.
    pub all: bool,
    pub path: Input,
    pub error: Option<String>,
}

/// The dialog with its texts as sequences.
pub struct ExportView {
    pub all: bool,
    pub path: InputView,
    pub error: Option<Seq<char>>,
}

impl View for ExportDialog {
    type V = ExportView;

    open spec fn view(&self) -> ExportView {
        ExportView { all: self.all, path: self.path@, error: option_view(self.error) }
    }
}

/// A character that can stand in the name of a file; others become a hyphen.
pub open spec fn file_char(c: char) -> char {
    if ('a' <= c && c <= 'z') || ('A' <= c && c <= 'Z') || ('0' <= c && c <= '9') || c == '-' || c
        == '_' || c == '.' {
        c
    } else {
        '-'
    }
}

/// A random path under `/tmp`, with a label in it.
pub open spec fn random_path(label: Seq<char>, m: Moment) -> Seq<char> {
    "/tmp/socatui-"@ + label.map_values(|c: char| file_char(c)) + "-"@ + decimal(m.unix as nat)
        + "-"@ + hex_digits(m.salt as nat, 6) + ".log"@
}

/// A random path under `/tmp`, with a label in it.
pub fn suggest_path(label: &str, m: Moment) -> (r: String)
    ensures
        r@ == random_path(label@, m),
{
    let mut r: String = "/tmp/socatui-".to_owned();
    let ghost slug = label@.map_values(|c: char| file_char(c));
    for c in it: label.chars()
        invariant
            it.seq() == label@,
            slug == label@.map_values(|c: char| file_char(c)),
            r@ == "/tmp/socatui-"@ + slug.take(it.index() as int),
    {
        let ghost before = r@;
        if ('a' <= c && c <= 'z') || ('A' <= c && c <= 'Z') || ('0' <= c && c <= '9') || c == '-'
            || c == '_' || c == '.' {
            r.push(c);
        } else {
            r.push('-');
        }
        assert(r@ =~= "/tmp/socatui-"@ + slug.take(it.index() as int + 1));
    }
    assert(slug.take(slug.len() as int) == slug);
    r.append("-");
    push_decimal(&mut r, m.unix);
    r.append("-");
    push_hex(&mut r, m.salt, 6);
    r.append(".log");
    assert(r@ =~= random_path(label@, m));
    r
}

impl ExportView {
    /// The cursor is in the path.
    pub open spec fn wf(self) -> bool {
        self.path.wf()
    }

    /// The dialog as it opens, with a random path filled in.
    pub open spec fn opened(all: bool, label: Seq<char>, m: Moment) -> ExportView {
        ExportView { all, path: InputView::holding(random_path(label, m)), error: None }
    }

    /// What a key other than Esc and Enter does to the dialog: Tab switches
    /// between the selected tunnel and all, and all else edits the path.
    pub open spec fn keyed(self, key: KeyEvent) -> ExportView {
        if key.code == KeyCode::Tab {
            ExportView { all: !self.all, ..self }
        } else {
            ExportView { path: self.path.edited(key), ..self }
        }
    }

    /// The path to write to: the one that was typed, or a random one where none
    /// was.
    pub open spec fn destination(self, label: Seq<char>, m: Moment) -> Seq<char> {
        if trimmed(self.path.text).len() == 0 {
            random_path(label, m)
        } else {
            trimmed(self.path.text)
        }
    }
}

impl ExportDialog {
    /// The dialog as it opens, with a random path filled in.
    pub fn open(all: bool, label: &str, m: Moment) -> (r: ExportDialog)
        ensures
            r@ == ExportView::opened(all, label@, m),
            r@.wf(),
    {
        let path: String = suggest_path(label, m);
        ExportDialog { all, path: Input::with(path.as_str()), error: None }
    }

    /// Does what a key other than Esc and Enter does to the dialog.
    pub fn on_key(&mut self, key: KeyEvent)
        requires
            old(self)@.wf(),
        ensures
            final(self)@ == old(self)@.keyed(key),
            final(self)@.wf(),
    {
        match key.code {
            KeyCode::Tab => {
                self.all = !self.all;
            },
            _ => self.path.edit(key),
        }
    }

    /// The path to write to.
    pub fn target(&self, label: &str, m: Moment) -> (r: String)
        ensures
            r@ == self@.destination(label@, m),
    {
        let path: String = trim(self.path.text.as_str());
        if path.as_str().is_empty() {
            suggest_path(label, m)
        } else {
            path
        }
    }
}

// ---------------------------------------------------------------------------
// What holds of every form
// ---------------------------------------------------------------------------

/// A definition that came out of a form has a name and both addresses, and no
/// white space around any text.
pub proof fn saved_definitions_are_complete(f: FormView)
    requires
        f.config() is Ok,
    ensures
        ({
            let c = f.config()->Ok_0;
            &&& c.name.len() > 0 && trimmed(c.name) == c.name
            &&& c.source.len() > 0 && trimmed(c.source) == c.source
            &&& c.destination.len() > 0 && trimmed(c.destination) == c.destination
            &&& trimmed(c.options) == c.options
        }),
{
    trimming_is_idempotent(f.name.text);
    trimming_is_idempotent(f.source.text);
    trimming_is_idempotent(f.destination.text);
    trimming_is_idempotent(f.options.text);
}

/// Editing a complete definition and saving it unchanged gives that definition
/// back, as long as its options can be split.
pub proof fn saving_unchanged_gives_it_back(id: u64, c: ConfigView)
    requires
        c.name.len() > 0 && trimmed(c.name) == c.name,
        c.source.len() > 0 && trimmed(c.source) == c.source,
        c.destination.len() > 0 && trimmed(c.destination) == c.destination,
        trimmed(c.options) == c.options,
        split_options(c.options) is Ok,
    ensures
        FormView::of(id, c).config() == Ok::<ConfigView, Seq<char>>(c),
{
}

/// Moving the focus forward and back again leaves it where it was, and as many
/// moves as there are fields lead all the way round.
pub proof fn focus_goes_round(f: FormView, forward: KeyEvent, back: KeyEvent)
    requires
        f.wf(),
        forward.code == KeyCode::Tab || forward.code == KeyCode::Down,
        back.code == KeyCode::BackTab || back.code == KeyCode::Up,
    ensures
        f.keyed(forward).keyed(back) == f,
        f.keyed(back).keyed(forward) == f,
        f.keyed(forward).keyed(forward).keyed(forward).keyed(forward).keyed(forward) == f,
{
}

/// A random path is that of a file in `/tmp` itself: after `/tmp/` comes no
/// slash, whatever the label is.
pub proof fn random_paths_lie_in_tmp(label: Seq<char>, m: Moment)
    ensures
        random_path(label, m).len() > 5,
        random_path(label, m).take(5) == "/tmp/"@,
        forall|i: int| 5 <= i < random_path(label, m).len() ==> #[trigger] random_path(label, m)[i]
            != '/',
{
    let path = random_path(label, m);
    let slug = label.map_values(|c: char| file_char(c));
    let digits = decimal(m.unix as nat);
    let salt = hex_digits(m.salt as nat, 6);
    reveal_strlit("/tmp/socatui-");
    reveal_strlit("/tmp/");
    reveal_strlit("-");
    reveal_strlit(".log");
    crate::decimal::decimal_denotes_its_number(m.unix as nat);
    lemma_hex_has_no_slash(m.salt as nat, 6);
    assert(path.take(5) =~= "/tmp/"@);
    assert forall|i: int| 5 <= i < path.len() implies #[trigger] path[i] != '/' by {
        let a: int = 13;
        let b = a + slug.len();
        let c = b + 1 + digits.len();
        let d = c + 1 + salt.len();
        if i < a {
            assert(path[i] == "/tmp/socatui-"@[i]);
        } else if i < b {
            assert(path[i] == slug[i - a]);
            assert(slug[i - a] == file_char(label[i - a]));
        } else if i == b {
            assert(path[i] == "-"@[0]);
        } else if i < c {
            assert(path[i] == digits[i - b - 1]);
            assert(crate::text::is_digit(digits[i - b - 1]));
        } else if i == c {
            assert(path[i] == "-"@[0]);
        } else if i < d {
            assert(path[i] == salt[i - c - 1]);
        } else {
            assert(path[i] == ".log"@[i - d]);
        }
    }
}

proof fn lemma_hex_has_no_slash(n: nat, width: nat)
    ensures
        forall|i: int| 0 <= i < hex_digits(n, width).len() ==> #[trigger] hex_digits(n, width)[i]
            != '/',
    decreases width,
{
    if width > 0 {
        let before = hex_digits(n / 16, (width - 1) as nat);
        lemma_hex_has_no_slash(n / 16, (width - 1) as nat);
        let all = hex_digits(n, width);
        assert forall|i: int| 0 <= i < all.len() implies #[trigger] all[i] != '/' by {
            if i < before.len() {
                assert(all[i] == before[i]);
            } else {
                assert(all[i] == hex_char(n % 16));
            }
        }
    }
}

/// A form gives a definition exactly where it has a name and both addresses and its
/// options can be split; the texts are those of the form, trimmed.
pub proof fn definitions_come_from_complete_forms(
    f: FormView,
    options: Result<Seq<Seq<char>>, Seq<char>>,
)
    ensures
        f.config_with(options) is Ok <==> trimmed(f.name.text).len() > 0 && trimmed(
            f.source.text,
        ).len() > 0 && trimmed(f.destination.text).len() > 0 && options is Ok,
        f.config_with(options) is Ok ==> {
            let c = f.config_with(options)->Ok_0;
            &&& c.name == trimmed(f.name.text)
            &&& c.source == trimmed(f.source.text)
            &&& c.destination == trimmed(f.destination.text)
            &&& c.options == trimmed(f.options.text)
            &&& c.autostart == f.autostart
        },
{
}

/// What is wrong with a form is told of its first field that is.
pub proof fn the_first_fault_is_told(f: FormView, options: Result<Seq<Seq<char>>, Seq<char>>)
    requires
        f.config_with(options) is Err,
    ensures
        ({
            let e = f.config_with(options)->Err_0;
            let no_name = trimmed(f.name.text).len() == 0;
            let no_source = trimmed(f.source.text).len() == 0;
            let no_destination = trimmed(f.destination.text).len() == 0;
            &&& no_name ==> e == "name is required"@
            &&& !no_name && no_source ==> e == "source address is required"@
            &&& !no_name && !no_source && no_destination ==> e == "destination address is required"@
            &&& !no_name && !no_source && !no_destination ==> options is Err && e == "options: "@
                + options->Err_0
        }),
{
}

/// A form for a new tunnel is empty, and one for an existing tunnel holds its
/// definition, with the focus on the name.
pub proof fn forms_begin_with_the_definition(id: u64, c: ConfigView)
    ensures
        ({
            let f = FormView::of(id, c);
            &&& f.editing == Some(id)
            &&& f.name.text == c.name && f.name.cursor == c.name.len()
            &&& f.source.text == c.source && f.source.cursor == c.source.len()
            &&& f.destination.text == c.destination && f.destination.cursor == c.destination.len()
            &&& f.options.text == c.options && f.options.cursor == c.options.len()
            &&& f.autostart == c.autostart && f.focus == 0 && f.error is None
        }),
        ({
            let f = FormView::empty();
            &&& f.editing is None && f.focus == 0 && f.error is None && !f.autostart
            &&& f.name.text.len() == 0 && f.name.cursor == 0
            &&& f.source.text.len() == 0 && f.source.cursor == 0
            &&& f.destination.text.len() == 0 && f.destination.cursor == 0
            &&& f.options.text.len() == 0 && f.options.cursor == 0
        }),
{
}

/// The keys that move the focus move it by one, round the five fields, and touch
/// nothing else.
pub proof fn the_focus_moves_by_one(f: FormView, key: KeyEvent)
    requires
        f.wf(),
    ensures
        key.code == KeyCode::Tab || key.code == KeyCode::Down ==> f.keyed(key) == (FormView {
            focus: if f.focus == 4 {
                0
            } else {
                f.focus + 1
            },
            ..f
        }),
        key.code == KeyCode::BackTab || key.code == KeyCode::Up ==> f.keyed(key) == (FormView {
            focus: if f.focus == 0 {
                4
            } else {
                (f.focus - 1) as nat
            },
            ..f
        }),
{
}

/// Any other key edits the text in focus and no other; on the last field Space turns
/// the start at launch on and off, and nothing else does anything.
pub proof fn keys_edit_the_field_in_focus(f: FormView, key: KeyEvent)
    requires
        f.wf(),
        key.code != KeyCode::Tab && key.code != KeyCode::Down,
        key.code != KeyCode::BackTab && key.code != KeyCode::Up,
    ensures
        f.focus == 0 ==> f.keyed(key) == (FormView { name: f.name.edited(key), ..f }),
        f.focus == 1 ==> f.keyed(key) == (FormView { source: f.source.edited(key), ..f }),
        f.focus == 2 ==> f.keyed(key) == (FormView { destination: f.destination.edited(key), ..f }),
        f.focus == 3 ==> f.keyed(key) == (FormView { options: f.options.edited(key), ..f }),
        f.focus == 4 && key.code == KeyCode::Char(' ') ==> f.keyed(key) == (FormView {
            autostart: !f.autostart,
            ..f
        }),
        f.focus == 4 && key.code != KeyCode::Char(' ') ==> f.keyed(key) == f,
{
}

/// A random path is made of the label, with a hyphen for whatever has no place in the
/// name of a file, the seconds of the calendar and six hexadecimal digits.
pub proof fn random_paths_are_made_of_their_parts(label: Seq<char>, m: Moment)
    ensures
        exists|slug: Seq<char>|
            {
                &&& slug.len() == label.len()
                &&& forall|i: int|
                    0 <= i < label.len() ==> #[trigger] slug[i] == (if "-_."@.contains(label[i])
                        || 'a' <= label[i] <= 'z' || 'A' <= label[i] <= 'Z' || '0' <= label[i]
                        <= '9' {
                        label[i]
                    } else {
                        '-'
                    })
                &&& random_path(label, m) == #[trigger] ("/tmp/socatui-"@ + slug) + "-"@ + decimal(
                    m.unix as nat,
                ) + "-"@ + hex_digits(m.salt as nat, 6) + ".log"@
            },
{
    reveal_strlit("-_.");
    let slug = label.map_values(|c: char| file_char(c));
    assert("-_."@[0] == '-' && "-_."@[1] == '_' && "-_."@[2] == '.');
    assert forall|i: int| 0 <= i < label.len() implies #[trigger] slug[i] == (if "-_."@.contains(
        label[i],
    ) || 'a' <= label[i] <= 'z' || 'A' <= label[i] <= 'Z' || '0' <= label[i] <= '9' {
        label[i]
    } else {
        '-'
    }) by {
        assert(slug[i] == file_char(label[i]));
    }
    assert(random_path(label, m) == ("/tmp/socatui-"@ + slug) + "-"@ + decimal(m.unix as nat)
        + "-"@ + hex_digits(m.salt as nat, 6) + ".log"@);
}

/// The export dialog opens with a random path in it; Tab changes what is exported, and
/// any other key edits the path; and what is written to is the path as it stands,
/// trimmed, or a random one where there is none.
pub proof fn exports_go_where_the_dialog_says(
    all: bool,
    label: Seq<char>,
    d: ExportView,
    key: KeyEvent,
    m: Moment,
)
    ensures
        ({
            let o = ExportView::opened(all, label, m);
            &&& o.all == all && o.error is None
            &&& o.path.text == random_path(label, m)
            &&& o.path.cursor == random_path(label, m).len()
        }),
        key.code == KeyCode::Tab ==> d.keyed(key) == (ExportView { all: !d.all, ..d }),
        key.code != KeyCode::Tab ==> d.keyed(key) == (ExportView {
            path: d.path.edited(key),
            ..d
        }),
        trimmed(d.path.text).len() > 0 ==> d.destination(label, m) == trimmed(d.path.text),
        trimmed(d.path.text).len() == 0 ==> d.destination(label, m) == random_path(label, m),
{
}

/// The text fields are numbered in the order in which they are shown, and replacing one
/// leaves the others as they are.
pub proof fn fields_are_numbered_in_order(f: Form, i: Input)
    ensures
        f.field(0) == f.name,
        f.field(1) == f.source,
        f.field(2) == f.destination,
        f.field(3) == f.options,
        f.with_field(0, i) == (Form { name: i, ..f }),
        f.with_field(1, i) == (Form { source: i, ..f }),
        f.with_field(2, i) == (Form { destination: i, ..f }),
        f.with_field(3, i) == (Form { options: i, ..f }),
{
}

} // verus!
