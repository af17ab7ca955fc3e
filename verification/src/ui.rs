//! What is shown: the texts, and where they go.

use crate::app::{count_running, App, AppView, Mode, ModeView};
use crate::decimal::{decimal, decimal_of, push_decimal};
use crate::form::{ExportDialog, Form, FormView, FORM_FIELDS};
use crate::input::{Input, InputView};
use crate::text::views;
use crate::tunnel::{label_of, less, Status, StatusView, Tunnel, TunnelView};
use crate::units::{
    bytes_text, duration_text, human_bytes, human_duration, human_rate, rate_text,
};
use vstd::prelude::*;
use vstd::string::*;

verus! {

/// The columns that there are to draw in: at least one.
pub open spec fn columns(width: nat) -> nat {
    if width > 0 {
        width
    } else {
        1
    }
}

fn columns_of(width: usize) -> (r: usize)
    ensures
        r == columns(width as nat),
{
    if width > 0 {
        width
    } else {
        1
    }
}

// ---------------------------------------------------------------------------
// The list of tunnels
// ---------------------------------------------------------------------------

/// How a status is to look.
#[derive(Clone, Copy, Debug, PartialEq, Eq, Structural)]
pub enum Tone {
    Good,
    Pending,
    Idle,
    Bad,
    Broken,
}

/// How a status is to look: one that was not asked for stands out.
pub open spec fn tone_of(s: StatusView) -> Tone {
    match s {
        StatusView::Running => Tone::Good,
        StatusView::Stopping => Tone::Pending,
        StatusView::Stopped => Tone::Idle,
        StatusView::Exited(code) => if code == Some(0i32) {
            Tone::Idle
        } else {
            Tone::Bad
        },
        StatusView::Failed(_) => Tone::Broken,
    }
}

/// How a status is to look.
pub fn status_style(s: &Status) -> (r: Tone)
    ensures
        r == tone_of(s@),
{
    match s {
        Status::Running => Tone::Good,
        Status::Stopping => Tone::Pending,
        Status::Stopped => Tone::Idle,
        Status::Exited(Some(code)) => {
            if *code == 0 {
                Tone::Idle
            } else {
                Tone::Bad
            }
        },
        Status::Exited(None) => Tone::Bad,
        Status::Failed(_) => Tone::Broken,
    }
}

/// How many tunnels there are, and how many of them run.
pub open spec fn summary_text(a: AppView) -> Seq<char> {
    "  "@ + decimal(a.tunnels.len()) + " tunnels, "@ + decimal(count_running(a.tunnels))
        + " running   "@
}

/// How many tunnels there are, and how many of them run.
pub fn summary(app: &App) -> (r: String)
    ensures
        r@ == summary_text(app@),
{
    let mut r: String = "  ".to_owned();
    push_decimal(&mut r, app.tunnels.len() as u64);
    r.append(" tunnels, ");
    push_decimal(&mut r, app.running_count() as u64);
    r.append(" running   ");
    assert(r@ =~= summary_text(app@));
    r
}

/// The cells of a row: number, name, status, pid, source, destination,
/// connections, bytes and rate each way, and uptime. A hyphen stands for what a
/// tunnel without a process does not have.
pub open spec fn cells_of(i: nat, t: TunnelView, now: u64, ltr_bps: u64, rtl_bps: u64) -> Seq<
    Seq<char>,
> {
    seq![
        decimal(i + 1),
        t.config.name,
        label_of(t.status),
        match t.pid {
            Some(pid) => decimal(pid as nat),
            None => "-"@,
        },
        t.config.source,
        t.config.destination,
        if t.running() {
            decimal(t.connections)
        } else {
            "-"@
        },
        bytes_text(t.total.ltr_bytes),
        bytes_text(t.total.rtl_bytes),
        rate_text(ltr_bps as nat),
        rate_text(rtl_bps as nat),
        if t.pid is Some && t.started is Some {
            duration_text(less(now as nat, t.started->0 as nat) / 1_000_000_000)
        } else {
            "-"@
        },
    ]
}

/// The cells of the row of the tunnel at place `i`, with its throughput in whole
/// bytes per second.
pub fn row_for(i: usize, t: &Tunnel, now: u64, ltr_bps: u64, rtl_bps: u64) -> (r: Vec<String>)
    requires
        i < u64::MAX,
    ensures
        views(r@) == cells_of(i as nat, t@, now, ltr_bps, rtl_bps),
{
    let mut r: Vec<String> = Vec::new();
    r.push(decimal_of(i as u64 + 1));
    r.push(t.config.name.clone());
    r.push(t.status.label());
    r.push(
        match t.pid {
            Some(pid) => decimal_of(pid as u64),
            None => "-".to_owned(),
        },
    );
    r.push(t.config.source.clone());
    r.push(t.config.destination.clone());
    r.push(
        if t.is_running() {
            decimal_of(t.connections as u64)
        } else {
            "-".to_owned()
        },
    );
    r.push(human_bytes(t.total.ltr_bytes));
    r.push(human_bytes(t.total.rtl_bytes));
    r.push(human_rate(ltr_bps));
    r.push(human_rate(rtl_bps));
    r.push(
        match t.uptime(now) {
            Some(d) => human_duration(d / 1_000_000_000),
            None => "-".to_owned(),
        },
    );
    assert(views(r@) =~= cells_of(i as nat, t@, now, ltr_bps, rtl_bps));
    r
}

// ---------------------------------------------------------------------------
// The log pane
// ---------------------------------------------------------------------------

/// The title of the log pane, of a tunnel.
pub open spec fn title_of(t: TunnelView) -> Seq<char> {
    " "@ + t.config.name + " — "@ + decimal(t.total.ltr_packets) + " packets → / "@ + decimal(
        t.total.rtl_packets,
    ) + " packets ←, "@ + decimal(t.sessions as nat) + " sessions"@ + (match t.status {
        StatusView::Failed(e) => " — "@ + e,
        _ => seq![],
    }) + " "@
}

fn log_title(t: &Tunnel) -> (r: String)
    ensures
        r@ == title_of(t@),
{
    let mut r: String = " ".to_owned();
    r.append(t.config.name.as_str());
    r.append(" — ");
    push_decimal(&mut r, t.total.ltr_packets);
    r.append(" packets → / ");
    push_decimal(&mut r, t.total.rtl_packets);
    r.append(" packets ←, ");
    push_decimal(&mut r, t.sessions);
    r.append(" sessions");
    if let Status::Failed(e) = &t.status {
        r.append(" — ");
        r.append(e.as_str());
    }
    r.append(" ");
    assert(r@ =~= title_of(t@));
    r
}

/// The last `n` of some lines.
pub open spec fn last_lines(lines: Seq<Seq<char>>, n: nat) -> Seq<Seq<char>> {
    lines.skip(less(lines.len(), n) as int)
}

/// The last `n` lines of the log.
fn log_tail(t: &Tunnel, n: usize) -> (r: Vec<String>)
    ensures
        views(r@) == last_lines(t@.log, n as nat),
{
    let len: usize = t.log.len();
    let start: usize = len.saturating_sub(n);
    let mut r: Vec<String> = Vec::new();
    let mut i: usize = start;
    assert(views(r@) =~= t@.log.subrange(start as int, start as int));
    while i < len
        invariant
            start <= i <= len == t.log@.len(),
            views(r@) == t@.log.subrange(start as int, i as int),
        decreases len - i,
    {
        let line: String = t.log[i].clone();
        assert(views(r@.push(line)) =~= views(r@).push(line@));
        assert(t@.log.subrange(start as int, i + 1) =~= t@.log.subrange(
            start as int,
            i as int,
        ).push(line@));
        r.push(line);
        i += 1;
    }
    assert(t@.log.subrange(start as int, i as int) =~= last_lines(t@.log, n as nat));
    r
}

/// The title of the log pane and the lines in it, as sequences: of the selected
/// tunnel, and as many of its last lines as fit within the two rows of the border.
pub open spec fn log_pane_of(a: AppView, height: nat) -> (Seq<char>, Seq<Seq<char>>) {
    if a.selected < a.tunnels.len() {
        let t = a.tunnels[a.selected as int];
        (title_of(t), last_lines(t.log, less(height, 2)))
    } else {
        (" log "@, seq![])
    }
}

/// The title of the log pane and the lines in it, in `height` rows with a border.
pub fn log_pane(app: &App, height: u16) -> (r: (String, Vec<String>))
    ensures
        (r.0@, views(r.1@)) == log_pane_of(app@, height as nat),
{
    match app.selected_tunnel() {
        Some(t) => (log_title(t), log_tail(t, height.saturating_sub(2) as usize)),
        None => {
            let r: (String, Vec<String>) = (" log ".to_owned(), Vec::new());
            assert(views(r.1@) =~= seq![]);
            r
        },
    }
}

// ---------------------------------------------------------------------------
// The footer
// ---------------------------------------------------------------------------

/// A key and what it does.
#[derive(Clone, Copy, Debug)]
pub struct Hint {
    pub key: &'static str,
    pub action: &'static str,
}

/// A key and what it does, as sequences.
pub struct HintView {
    pub key: Seq<char>,
    pub action: Seq<char>,
}

impl View for Hint {
    type V = HintView;

    open spec fn view(&self) -> HintView {
        HintView { key: self.key@, action: self.action@ }
    }
}

/// The views of a list of hints.
pub open spec fn hint_views(hints: Seq<Hint>) -> Seq<HintView> {
    hints.map_values(|h: Hint| h@)
}

/// A hint as sequences.
pub open spec fn hint(key: &'static str, action: &'static str) -> HintView {
    HintView { key: key@, action: action@ }
}

/// The hints in the bottom bar; none where a message takes their place.
pub open spec fn hints_of(a: AppView, now: u64) -> Option<Seq<HintView>> {
    match a.mode {
        ModeView::Form(_) => Some(
            seq![
                hint("Tab/↑↓", "field"),
                hint("Space", "toggle"),
                hint("Enter", "save"),
                hint("Esc", "cancel"),
            ],
        ),
        ModeView::ConfirmDelete => Some(seq![hint("y", "confirm delete"), hint("any", "cancel")]),
        ModeView::Export(_) => Some(
            seq![
                hint("Tab", "selected/all"),
                hint("Ctrl-U", "clear path"),
                hint("Enter", "write"),
                hint("Esc", "cancel"),
            ],
        ),
        ModeView::Help => Some(seq![hint("any key", "close")]),
        ModeView::Normal => if a.shown_status(now) is Some {
            None
        } else {
            Some(
                seq![
                    hint("a", "add"),
                    hint("e", "edit"),
                    hint("d", "del"),
                    hint("s", "start/stop"),
                    hint("r", "restart"),
                    hint("c", "clear stats"),
                    hint("l", "log"),
                    hint("w/W", "export"),
                    hint("S/X", "all"),
                    hint("?", "help"),
                    hint("q", "quit"),
                ],
            )
        },
    }
}

fn push_hint(hints: &mut Vec<Hint>, key: &'static str, action: &'static str)
    ensures
        hint_views(final(hints)@) == hint_views(old(hints)@).push(hint(key, action)),
{
    hints.push(Hint { key, action });
    assert(hint_views(hints@) =~= hint_views(old(hints)@).push(hint(key, action)));
}

/// A list of hints, if there is one, as sequences.
pub open spec fn option_hint_views(r: Option<Vec<Hint>>) -> Option<Seq<HintView>> {
    match r {
        Some(hints) => Some(hint_views(hints@)),
        None => None,
    }
}

/// Keys and what they do in the present mode, for the bottom bar; `None` when a
/// transient status message replaces the bar.
pub fn footer_items(app: &App, now: u64) -> (r: Option<Vec<Hint>>)
    ensures
        option_hint_views(r) == hints_of(app@, now),
{
    let mut hints: Vec<Hint> = Vec::new();
    assert(hint_views(hints@) =~= seq![]);
    match &app.mode {
        Mode::Form(_) => {
            push_hint(&mut hints, "Tab/↑↓", "field");
            push_hint(&mut hints, "Space", "toggle");
            push_hint(&mut hints, "Enter", "save");
            push_hint(&mut hints, "Esc", "cancel");
        },
        Mode::ConfirmDelete => {
            push_hint(&mut hints, "y", "confirm delete");
            push_hint(&mut hints, "any", "cancel");
        },
        Mode::Export(_) => {
            push_hint(&mut hints, "Tab", "selected/all");
            push_hint(&mut hints, "Ctrl-U", "clear path");
            push_hint(&mut hints, "Enter", "write");
            push_hint(&mut hints, "Esc", "cancel");
        },
        Mode::Help => {
            push_hint(&mut hints, "any key", "close");
        },
        Mode::Normal => {
            if app.status_text(now).is_some() {
                return None;
            }
            push_hint(&mut hints, "a", "add");
            push_hint(&mut hints, "e", "edit");
            push_hint(&mut hints, "d", "del");
            push_hint(&mut hints, "s", "start/stop");
            push_hint(&mut hints, "r", "restart");
            push_hint(&mut hints, "c", "clear stats");
            push_hint(&mut hints, "l", "log");
            push_hint(&mut hints, "w/W", "export");
            push_hint(&mut hints, "S/X", "all");
            push_hint(&mut hints, "?", "help");
            push_hint(&mut hints, "q", "quit");
        },
    }
    assert(hint_views(hints@) =~= hints_of(app@, now)->0);
    Some(hints)
}

/// The columns that a hint takes up: a space, the key with a space on either
/// side, and the action after a space.
pub open spec fn hint_width(h: HintView) -> nat {
    1 + (h.key.len() + 2) + (h.action.len() + 1)
}

/// The rows of hints, and how many columns the last row takes up. A hint goes on
/// the next row whenever it would not fit in `width`.
pub open spec fn laid_out(hints: Seq<HintView>, width: nat) -> (Seq<Seq<HintView>>, nat)
    decreases hints.len(),
{
    if hints.len() == 0 {
        (seq![], 0)
    } else {
        let (rows, used) = laid_out(hints.drop_last(), width);
        let h = hints.last();
        let w = hint_width(h);
        if rows.len() == 0 || used + w > width {
            (rows.push(seq![h]), w)
        } else {
            (rows.drop_last().push(rows.last().push(h)), used + w)
        }
    }
}

/// The rows of a list of rows of hints, as sequences.
pub open spec fn row_views(rows: Seq<Vec<Hint>>) -> Seq<Seq<HintView>> {
    rows.map_values(|r: Vec<Hint>| hint_views(r@))
}

/// Lays hints out in rows, going on to another row whenever the next hint would
/// not fit in `width`.
pub fn keybar(hints: &Vec<Hint>, width: usize) -> (r: Vec<Vec<Hint>>)
    ensures
        row_views(r@) == laid_out(hint_views(hints@), columns(width as nat)).0,
{
    let limit: u128 = columns_of(width) as u128;
    let ghost all = hint_views(hints@);
    let mut done: Vec<Vec<Hint>> = Vec::new();
    let mut row: Vec<Hint> = Vec::new();
    let mut used: u128 = 0;
    let mut i: usize = 0;
    assert(row_views(done@) =~= seq![]);
    assert(all.take(0).len() == 0);
    while i < hints.len()
        invariant
            i <= hints@.len(),
            all == hint_views(hints@),
            limit <= 0xffff_ffff_ffff_ffff,
            used <= 0x8_0000_0000_0000_0000,
            i == 0 <==> row@.len() == 0,
            i == 0 ==> used == 0,
            i > 0 ==> used > 0,
            ({
                let (rows, u) = laid_out(all.take(i as int), limit as nat);
                &&& u == used
                &&& if i == 0 {
                    rows == row_views(done@) && rows.len() == 0
                } else {
                    rows == row_views(done@).push(hint_views(row@))
                }
            }),
        decreases hints@.len() - i,
    {
        let h: Hint = hints[i];
        let k: usize = h.key.unicode_len();
        let a: usize = h.action.unicode_len();
        let w: u128 = 4 + k as u128 + a as u128;
        proof {
            assert(all.take(i + 1).drop_last() == all.take(i as int));
            assert(all.take(i + 1).last() == h@);
            assert(hint_width(h@) == w);
        }
        if used > 0 && used + w > limit {
            proof {
                assert(row_views(done@.push(row)) =~= row_views(done@).push(hint_views(row@)));
            }
            done.push(row);
            row = Vec::new();
            used = 0;
        }
        let ghost before = row@;
        row.push(h);
        used += w;
        proof {
            assert(hint_views(row@) =~= hint_views(before).push(h@));
            let (rows, u) = laid_out(all.take(i as int), limit as nat);
            let (next, v) = laid_out(all.take(i + 1), limit as nat);
            if before.len() == 0 {
                assert(hint_views(row@) =~= seq![h@]);
                assert(next =~= row_views(done@).push(hint_views(row@)));
            } else {
                assert(rows.drop_last() =~= row_views(done@));
                assert(next =~= row_views(done@).push(hint_views(row@)));
            }
        }
        i += 1;
    }
    assert(all.take(i as int) == all);
    if row.len() > 0 {
        proof {
            assert(row_views(done@.push(row)) =~= row_views(done@).push(hint_views(row@)));
        }
        done.push(row);
    }
    done
}

/// What the footer shows: a message, or rows of hints.
#[derive(Debug)]
pub enum Footer {
    Message(String),
    Keys(Vec<Vec<Hint>>),
}

/// What the footer shows, as sequences.
pub enum FooterView {
    Message(Seq<char>),
    Keys(Seq<Seq<HintView>>),
}

impl View for Footer {
    type V = FooterView;

    open spec fn view(&self) -> FooterView {
        match self {
            Footer::Message(m) => FooterView::Message(m@),
            Footer::Keys(rows) => FooterView::Keys(row_views(rows@)),
        }
    }
}

/// What the footer shows in `width` columns: the message that takes the place of
/// the hints while it lasts, or the hints.
pub open spec fn footer_of(a: AppView, width: nat, now: u64) -> FooterView {
    match hints_of(a, now) {
        Some(hints) => FooterView::Keys(laid_out(hints, columns(width)).0),
        None => FooterView::Message(" "@ + a.shown_status(now)->0),
    }
}

/// What the footer shows in `width` columns.
pub fn footer_lines(app: &App, width: u16, now: u64) -> (r: Footer)
    ensures
        r@ == footer_of(app@, width as nat, now),
{
    match footer_items(app, now) {
        Some(hints) => Footer::Keys(keybar(&hints, width as usize)),
        None => {
            let mut m: String = " ".to_owned();
            if let Some(text) = app.status_text(now) {
                m.append(text);
            }
            Footer::Message(m)
        },
    }
}

/// The number of rows that the footer takes up: at least one.
pub open spec fn footer_rows(a: AppView, width: nat, now: u64) -> nat {
    match footer_of(a, width, now) {
        FooterView::Keys(rows) => if rows.len() > 0 {
            rows.len()
        } else {
            1
        },
        FooterView::Message(_) => 1,
    }
}

/// There are no more rows than hints.
proof fn lemma_rows(hints: Seq<HintView>, width: nat)
    ensures
        laid_out(hints, width).0.len() <= hints.len(),
    decreases hints.len(),
{
    if hints.len() > 0 {
        lemma_rows(hints.drop_last(), width);
    }
}

/// Number of rows the footer needs at this width.
pub fn footer_height(app: &App, width: u16, now: u64) -> (r: u16)
    ensures
        r == footer_rows(app@, width as nat, now),
{
    match footer_lines(app, width, now) {
        Footer::Message(_) => 1,
        Footer::Keys(rows) => {
            proof {
                let hints = hints_of(app@, now)->0;
                lemma_rows(hints, columns(width as nat));
                assert(hints.len() <= 11);
                assert(row_views(rows@).len() == rows@.len());
            }
            if rows.len() > 0 {
                rows.len() as u16
            } else {
                1
            }
        },
    }
}

// ---------------------------------------------------------------------------
// Dialogs
// ---------------------------------------------------------------------------

/// A rectangle of cells.
#[derive(Clone, Copy, Debug, PartialEq, Eq, Structural)]
pub struct Area {
    pub x: u16,
    pub y: u16,
    pub width: u16,
    pub height: u16,
}

/// The smaller of two numbers.
pub open spec fn smaller(a: u16, b: u16) -> u16 {
    if a < b {
        a
    } else {
        b
    }
}

/// A rectangle of a size in the middle of another, cut to fit.
pub open spec fn middle_of(area: Area, width: u16, height: u16) -> Area {
    let w = smaller(width, area.width);
    let h = smaller(height, area.height);
    Area {
        x: (area.x + (area.width - w) / 2) as u16,
        y: (area.y + (area.height - h) / 2) as u16,
        width: w,
        height: h,
    }
}

/// A rectangle of a size in the middle of another, cut to fit.
pub fn centered(area: Area, width: u16, height: u16) -> (r: Area)
    requires
        area.x + (area.width - smaller(width, area.width)) / 2 <= u16::MAX,
        area.y + (area.height - smaller(height, area.height)) / 2 <= u16::MAX,
    ensures
        r == middle_of(area, width, height),
{
    let w: u16 = if width < area.width {
        width
    } else {
        area.width
    };
    let h: u16 = if height < area.height {
        height
    } else {
        area.height
    };
    Area {
        x: area.x + (area.width - w) / 2,
        y: area.y + (area.height - h) / 2,
        width: w,
        height: h,
    }
}

/// The first character of a field that is shown in `width` columns: such that the
/// cursor is in sight.
pub open spec fn window_start(i: InputView, width: nat) -> nat {
    less(i.cursor, less(columns(width), 1))
}

/// The part of a field that is shown in `width` columns.
pub open spec fn window_text(i: InputView, width: nat) -> Seq<char> {
    let start = window_start(i, width);
    let end = start + columns(width);
    if start >= i.text.len() {
        seq![]
    } else if end >= i.text.len() {
        i.text.skip(start as int)
    } else {
        i.text.subrange(start as int, end as int)
    }
}

/// The part of a field that is shown in `width` columns, scrolled so that the
/// cursor is always visible, and the column of the cursor.
pub fn input_window(i: &Input, width: usize) -> (r: (String, usize))
    ensures
        r.0@ == window_text(i@, width as nat),
        r.1 == i@.cursor - window_start(i@, width as nat),
{
    let n: usize = i.text.as_str().unicode_len();
    let shown: usize = columns_of(width);
    let start: usize = i.cursor.saturating_sub(shown - 1);
    let column: usize = i.cursor - start;
    if start >= n {
        let nothing: String = String::new();
        assert(nothing@ =~= window_text(i@, width as nat));
        return (nothing, column);
    }
    let end: usize = if shown < n - start {
        start + shown
    } else {
        n
    };
    let text: String = i.text.as_str().substring_char(start, end).to_owned();
    assert(text@ =~= window_text(i@, width as nat));
    (text, column)
}

/// One field of the form as it is shown.
#[derive(Debug)]
pub struct FormRow {
    pub label: &'static str,
    pub value: String,
    pub hint: &'static str,
    pub focused: bool,
    /// The column of the cursor, where the focus is on a text.
    pub cursor: Option<usize>,
}

/// One field of the form as it is shown, as sequences.
pub struct FormRowView {
    pub label: Seq<char>,
    pub value: Seq<char>,
    pub hint: Seq<char>,
    pub focused: bool,
    pub cursor: Option<nat>,
}

impl View for FormRow {
    type V = FormRowView;

    open spec fn view(&self) -> FormRowView {
        FormRowView {
            label: self.label@,
            value: self.value@,
            hint: self.hint@,
            focused: self.focused,
            cursor: match self.cursor {
                Some(c) => Some(c as nat),
                None => None,
            },
        }
    }
}

/// The title of the form.
pub open spec fn form_title_of(f: FormView) -> Seq<char> {
    if f.editing is Some {
        " edit tunnel "@
    } else {
        " add tunnel "@
    }
}

/// The title of the form.
pub fn form_title(f: &Form) -> (r: &'static str)
    ensures
        r@ == form_title_of(f@),
{
    if f.editing.is_some() {
        " edit tunnel "
    } else {
        " add tunnel "
    }
}

/// The row of a text field, `n`th of the form.
pub open spec fn text_row(
    f: FormView,
    n: nat,
    label: &'static str,
    hint: &'static str,
    i: InputView,
    width: nat,
) -> FormRowView {
    FormRowView {
        label: label@,
        value: window_text(i, width),
        hint: hint@,
        focused: f.focus == n,
        cursor: if f.focus == n {
            Some((i.cursor - window_start(i, width)) as nat)
        } else {
            None
        },
    }
}

/// The rows of the form, with texts in `width` columns.
pub open spec fn form_rows_of(f: FormView, width: nat) -> Seq<FormRowView> {
    seq![
        text_row(f, 0, "Name", "a label for the list", f.name, width),
        text_row(
            f,
            1,
            "Source",
            "left address, e.g. TCP-LISTEN:8080,fork,reuseaddr",
            f.source,
            width,
        ),
        text_row(
            f,
            2,
            "Destination",
            "right address, e.g. TCP:example.com:80",
            f.destination,
            width,
        ),
        text_row(f, 3, "Options", "extra socat flags, e.g. -d -d -T 30", f.options, width),
        FormRowView {
            label: "Autostart"@,
            value: if f.autostart {
                "[x] yes"@
            } else {
                "[ ] no"@
            },
            hint: "start this tunnel when socatui launches"@,
            focused: f.focus == 4,
            cursor: None,
        },
    ]
}

/// The views of the rows of a form.
pub open spec fn form_row_views(rows: Seq<FormRow>) -> Seq<FormRowView> {
    rows.map_values(|r: FormRow| r@)
}

fn form_text_row(
    i: &Input,
    focused: bool,
    label: &'static str,
    hint: &'static str,
    width: usize,
) -> (r: FormRow)
    ensures
        r@ == (FormRowView {
            label: label@,
            value: window_text(i@, width as nat),
            hint: hint@,
            focused,
            cursor: if focused {
                Some((i@.cursor - window_start(i@, width as nat)) as nat)
            } else {
                None
            },
        }),
{
    let (value, column) = input_window(i, width);
    FormRow {
        label,
        value,
        hint,
        focused,
        cursor: if focused {
            Some(column)
        } else {
            None
        },
    }
}

/// The rows of the form, with texts in `width` columns.
pub fn form_rows(f: &Form, width: usize) -> (r: Vec<FormRow>)
    ensures
        form_row_views(r@) == form_rows_of(f@, width as nat),
        r@.len() == FORM_FIELDS,
{
    let mut r: Vec<FormRow> = Vec::new();
    r.push(form_text_row(&f.name, f.focus == 0, "Name", "a label for the list", width));
    r.push(
        form_text_row(
            &f.source,
            f.focus == 1,
            "Source",
            "left address, e.g. TCP-LISTEN:8080,fork,reuseaddr",
            width,
        ),
    );
    r.push(
        form_text_row(
            &f.destination,
            f.focus == 2,
            "Destination",
            "right address, e.g. TCP:example.com:80",
            width,
        ),
    );
    r.push(
        form_text_row(
            &f.options,
            f.focus == 3,
            "Options",
            "extra socat flags, e.g. -d -d -T 30",
            width,
        ),
    );
    r.push(
        FormRow {
            label: "Autostart",
            value: if f.autostart {
                "[x] yes".to_owned()
            } else {
                "[ ] no".to_owned()
            },
            hint: "start this tunnel when socatui launches",
            focused: f.focus == 4,
            cursor: None,
        },
    );
    assert(form_row_views(r@) =~= form_rows_of(f@, width as nat));
    r
}

/// The last line of the form: what is wrong with it, or how to leave it.
pub open spec fn form_footer_of(f: FormView) -> Seq<char> {
    match f.error {
        Some(e) => "✗ "@ + e,
        None =>
        "Enter saves, Esc cancels. Addresses are passed to socat verbatim (no shell quoting)."@,
    }
}

/// The last line of the form: what is wrong with it, or how to leave it.
pub fn form_footer(f: &Form) -> (r: String)
    ensures
        r@ == form_footer_of(f@),
{
    match &f.error {
        Some(e) => "✗ ".to_owned().concat(e.as_str()),
        None =>
        "Enter saves, Esc cancels. Addresses are passed to socat verbatim (no shell quoting).".to_owned(),
    }
}

/// The lines in which a deletion is to be confirmed.
pub open spec fn confirm_lines_of(a: AppView) -> Seq<Seq<char>> {
    let chosen = a.selected < a.tunnels.len();
    let name = if chosen {
        a.tunnels[a.selected as int].config.name
    } else {
        seq![]
    };
    seq!["Delete \""@ + name + "\"?"@] + (if chosen && a.tunnels[a.selected as int].running() {
        seq!["It is running and will be stopped."@]
    } else {
        seq![]
    }) + seq![""@, "y = yes, any other key = no"@]
}

/// The lines in which a deletion is to be confirmed.
pub fn confirm_lines(app: &App) -> (r: Vec<String>)
    ensures
        views(r@) == confirm_lines_of(app@),
{
    let mut question: String = "Delete \"".to_owned();
    let mut running: bool = false;
    if let Some(t) = app.selected_tunnel() {
        question.append(t.config.name.as_str());
        running = t.is_running();
    }
    question.append("\"?");
    let mut r: Vec<String> = Vec::new();
    r.push(question);
    if running {
        r.push("It is running and will be stopped.".to_owned());
    }
    r.push("".to_owned());
    r.push("y = yes, any other key = no".to_owned());
    proof {
        let want = confirm_lines_of(app@);
        assert(r@[0]@ =~= want[0]);
        assert(views(r@) =~= want);
    }
    r
}

/// What an export is of.
pub open spec fn export_scope_of(a: AppView, all: bool) -> Seq<char> {
    if all {
        "all "@ + decimal(a.tunnels.len()) + " tunnels"@
    } else if a.selected < a.tunnels.len() {
        "\""@ + a.tunnels[a.selected as int].config.name + "\" only"@
    } else {
        seq![]
    }
}

/// What an export is of.
pub fn export_scope(app: &App, dialog: &ExportDialog) -> (r: String)
    ensures
        r@ == export_scope_of(app@, dialog.all),
{
    let mut r: String = String::new();
    if dialog.all {
        r.append("all ");
        push_decimal(&mut r, app.tunnels.len() as u64);
        r.append(" tunnels");
    } else if let Some(t) = app.selected_tunnel() {
        r.append("\"");
        r.append(t.config.name.as_str());
        r.append("\" only");
    }
    assert(r@ =~= export_scope_of(app@, dialog.all));
    r
}

/// The keys, for the help.
pub open spec fn help_of() -> Seq<HintView> {
    seq![
        hint("↑/k ↓/j", "select tunnel"),
        hint("g / G", "first / last"),
        hint("a", "add tunnel"),
        hint("e / Enter", "edit selected"),
        hint("d", "delete selected"),
        hint("s / Space", "start / stop selected (press again while stopping = SIGKILL)"),
        hint("r", "restart selected"),
        hint("K", "SIGKILL selected"),
        hint("S / X", "start all / stop all"),
        hint("c / C", "clear stats: selected / all"),
        hint("J / U", "move selected down / up"),
        hint("l", "toggle log pane"),
        hint("w / W", "export log of selected / all tunnels to a file"),
        hint("q / Ctrl-C", "quit (stops all tunnels)"),
    ]
}

/// The keys, for the help.
pub fn help_entries() -> (r: Vec<Hint>)
    ensures
        hint_views(r@) == help_of(),
{
    let mut r: Vec<Hint> = Vec::new();
    assert(hint_views(r@) =~= seq![]);
    push_hint(&mut r, "↑/k ↓/j", "select tunnel");
    push_hint(&mut r, "g / G", "first / last");
    push_hint(&mut r, "a", "add tunnel");
    push_hint(&mut r, "e / Enter", "edit selected");
    push_hint(&mut r, "d", "delete selected");
    push_hint(
        &mut r,
        "s / Space",
        "start / stop selected (press again while stopping = SIGKILL)",
    );
    push_hint(&mut r, "r", "restart selected");
    push_hint(&mut r, "K", "SIGKILL selected");
    push_hint(&mut r, "S / X", "start all / stop all");
    push_hint(&mut r, "c / C", "clear stats: selected / all");
    push_hint(&mut r, "J / U", "move selected down / up");
    push_hint(&mut r, "l", "toggle log pane");
    push_hint(&mut r, "w / W", "export log of selected / all tunnels to a file");
    push_hint(&mut r, "q / Ctrl-C", "quit (stops all tunnels)");
    assert(hint_views(r@) =~= help_of());
    r
}

// ---------------------------------------------------------------------------
// What holds of everything shown
// ---------------------------------------------------------------------------

/// The columns that a row of hints takes up.
pub open spec fn row_width(row: Seq<HintView>) -> nat
    decreases row.len(),
{
    if row.len() == 0 {
        0
    } else {
        row_width(row.drop_last()) + hint_width(row.last())
    }
}

/// All hints of some rows, row after row.
pub open spec fn all_hints(rows: Seq<Seq<HintView>>) -> Seq<HintView>
    decreases rows.len(),
{
    if rows.len() == 0 {
        seq![]
    } else {
        all_hints(rows.drop_last()) + rows.last()
    }
}

/// Whether a row holds something, and is no wider than it may be unless it holds a
/// single hint.
pub open spec fn row_fits(row: Seq<HintView>, width: nat) -> bool {
    row.len() > 0 && (row_width(row) <= width || row.len() == 1)
}

/// Whether the first hint of row `i` has no room in the row before.
pub open spec fn row_is_needed(rows: Seq<Seq<HintView>>, i: int, width: nat) -> bool {
    row_width(rows[i - 1]) + hint_width(rows[i][0]) > width
}

/// Laying hints out loses none and keeps their order; no row is wider than it may
/// be unless it holds a single hint; and no row is begun while there is room in the
/// row before.
pub proof fn hints_are_laid_out_in_full(hints: Seq<HintView>, width: nat)
    ensures
        all_hints(laid_out(hints, width).0) == hints,
        forall|i: int|
            0 <= i < laid_out(hints, width).0.len() ==> #[trigger] row_fits(
                laid_out(hints, width).0[i],
                width,
            ),
        forall|i: int|
            0 < i < laid_out(hints, width).0.len() ==> #[trigger] row_is_needed(
                laid_out(hints, width).0,
                i,
                width,
            ),
        hints.len() > 0 ==> laid_out(hints, width).0.len() > 0 && laid_out(hints, width).1
            == row_width(laid_out(hints, width).0.last()),
    decreases hints.len(),
{
    let (rows, used) = laid_out(hints, width);
    if hints.len() == 0 {
        assert(all_hints(rows) =~= hints);
    } else {
        let init = hints.drop_last();
        let h = hints.last();
        hints_are_laid_out_in_full(init, width);
        let (before, u) = laid_out(init, width);
        if before.len() == 0 || u + hint_width(h) > width {
            let single = seq![h];
            assert(rows.drop_last() =~= before);
            assert(row_width(single) == hint_width(h)) by {
                reveal_with_fuel(row_width, 2);
            }
            assert(all_hints(rows) =~= hints);
            assert forall|i: int| 0 <= i < rows.len() implies #[trigger] row_fits(
                rows[i],
                width,
            ) by {
                if i < before.len() {
                    assert(row_fits(before[i], width));
                }
            }
        } else {
            let last = before.last().push(h);
            assert(rows.drop_last() =~= before.drop_last());
            assert(last.drop_last() =~= before.last());
            assert(all_hints(before) == all_hints(before.drop_last()) + before.last());
            assert(all_hints(rows) =~= all_hints(before).push(h));
            assert(all_hints(rows) =~= hints);
            assert(row_fits(before[before.len() - 1], width));
            assert forall|i: int| 0 <= i < rows.len() implies #[trigger] row_fits(
                rows[i],
                width,
            ) by {
                if i < rows.len() - 1 {
                    assert(row_fits(before[i], width));
                }
            }
        }
        assert forall|i: int| 0 < i < rows.len() implies #[trigger] row_is_needed(
            rows,
            i,
            width,
        ) by {
            if i < before.len() {
                assert(row_is_needed(before, i, width));
                assert(row_fits(before[i], width));
            }
        }
    }
}

/// The cursor is always in sight: its column is one of those that are shown.
pub proof fn cursors_are_in_sight(i: InputView, width: nat)
    requires
        i.wf(),
    ensures
        window_start(i, width) <= i.cursor,
        i.cursor - window_start(i, width) < columns(width),
        window_text(i, width).len() <= columns(width),
        i.cursor - window_start(i, width) <= window_text(i, width).len(),
{
}

/// A dialog lies within the area that it is centred in.
pub proof fn dialogs_lie_within(area: Area, width: u16, height: u16)
    requires
        area.x + area.width <= u16::MAX,
        area.y + area.height <= u16::MAX,
    ensures
        ({
            let r = middle_of(area, width, height);
            &&& area.x <= r.x && r.x + r.width <= area.x + area.width
            &&& area.y <= r.y && r.y + r.height <= area.y + area.height
        }),
{
}

} // verus!
