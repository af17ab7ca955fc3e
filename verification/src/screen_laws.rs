//! What is shown of what there is.

use crate::app::{count_running, AppView};
use crate::decimal::decimal;
use crate::form::FormView;
use crate::input::InputView;
use crate::tunnel::{label_of, StatusView, TunnelView};
use crate::ui::{
    cells_of, confirm_lines_of, export_scope_of, footer_of, footer_rows, form_footer_of, form_rows_of,
    form_title_of, help_of, hint_width, hints_of, last_lines, laid_out, log_pane_of,
    middle_of, summary_text, title_of, tone_of, window_start, window_text, Area, FooterView,
    HintView, Tone,
};
use crate::units::{bytes_text, duration_text, rate_text};
use vstd::prelude::*;
use vstd::string::*;

verus! {

// ---------------------------------------------------------------------------
// The list
// ---------------------------------------------------------------------------

/// What a status looks like.
pub proof fn statuses_look_as_they_are(code: Option<i32>, e: Seq<char>)
    ensures
        tone_of(StatusView::Running) == Tone::Good,
        tone_of(StatusView::Stopping) == Tone::Pending,
        tone_of(StatusView::Stopped) == Tone::Idle,
        tone_of(StatusView::Exited(Some(0))) == Tone::Idle,
        code != Some(0i32) ==> tone_of(StatusView::Exited(code)) == Tone::Bad,
        tone_of(StatusView::Failed(e)) == Tone::Broken,
{
}

/// The header tells how many tunnels there are, and how many run.
pub proof fn the_header_counts_tunnels(a: AppView)
    ensures
        summary_text(a) == "  "@ + decimal(a.tunnels.len()) + " tunnels, "@ + decimal(
            count_running(a.tunnels),
        ) + " running   "@,
{
}

/// A row shows, in this order, the number of the tunnel from one on, its name, status,
/// pid, addresses, connections, what went each way, how fast, and for how long it has
/// run.
pub proof fn rows_show_the_tunnel(i: nat, t: TunnelView, now: u64, ltr_bps: u64, rtl_bps: u64)
    requires
        t.wf(),
    ensures
        ({
            let cells = cells_of(i, t, now, ltr_bps, rtl_bps);
            &&& cells.len() == 12
            &&& cells[0] == decimal(i + 1)
            &&& cells[1] == t.config.name
            &&& cells[2] == label_of(t.status)
            &&& cells[4] == t.config.source
            &&& cells[5] == t.config.destination
            &&& cells[7] == bytes_text(t.total.ltr_bytes)
            &&& cells[8] == bytes_text(t.total.rtl_bytes)
            &&& cells[9] == rate_text(ltr_bps as nat)
            &&& cells[10] == rate_text(rtl_bps as nat)
            &&& t.pid is Some ==> {
                &&& cells[3] == decimal(t.pid->0 as nat)
                &&& cells[6] == decimal(t.connections)
                &&& t.started->0 <= now ==> cells[11] == duration_text(
                    ((now - t.started->0) / 1_000_000_000) as nat,
                )
                &&& t.started->0 > now ==> cells[11] == duration_text(0)
            }
            &&& t.pid is None ==> cells[3] == "-"@ && cells[6] == "-"@ && cells[11] == "-"@
        }),
{
}

// ---------------------------------------------------------------------------
// The log pane
// ---------------------------------------------------------------------------

/// The log pane shows the last lines of the selected tunnel, in order, as many as fit
/// within its border.
pub proof fn the_log_pane_shows_the_last_lines(a: AppView, height: nat)
    requires
        a.selected < a.tunnels.len(),
    ensures
        ({
            let t = a.tunnels[a.selected as int];
            let (title, lines) = log_pane_of(a, height);
            let room = height - 2;
            &&& title == title_of(t)
            &&& room <= 0 ==> lines.len() == 0
            &&& room >= t.log.len() ==> lines == t.log
            &&& 0 < room < t.log.len() ==> lines.len() == room && forall|k: int|
                0 <= k < room ==> #[trigger] lines[k] == t.log[t.log.len() - room + k]
        }),
{
    let t = a.tunnels[a.selected as int];
    if height - 2 >= t.log.len() {
        assert(last_lines(t.log, (height - 2) as nat) =~= t.log);
    }
}

/// Without a tunnel, the log pane is empty.
pub proof fn without_a_tunnel_there_is_no_log(a: AppView, height: nat)
    requires
        a.selected >= a.tunnels.len(),
    ensures
        log_pane_of(a, height).0 == " log "@,
        log_pane_of(a, height).1.len() == 0,
{
}

/// The title of the log pane names the tunnel and counts its packets and sessions, and
/// tells why it failed where it did.
pub proof fn titles_tell_the_counts(t: TunnelView)
    ensures
        ({
            let counts = " "@ + t.config.name + " — "@ + decimal(t.total.ltr_packets)
                + " packets → / "@ + decimal(t.total.rtl_packets) + " packets ←, "@ + decimal(
                t.sessions as nat,
            ) + " sessions"@;
            &&& !(t.status is Failed) ==> title_of(t) == counts + " "@
            &&& t.status is Failed ==> title_of(t) == counts + (" — "@ + t.status->Failed_0) + " "@
        }),
{
    let counts = " "@ + t.config.name + " — "@ + decimal(t.total.ltr_packets) + " packets → / "@
        + decimal(t.total.rtl_packets) + " packets ←, "@ + decimal(t.sessions as nat)
        + " sessions"@;
    assert(counts + Seq::<char>::empty() =~= counts);
}

// ---------------------------------------------------------------------------
// The footer
// ---------------------------------------------------------------------------

/// A key and what it does, as two texts.
pub open spec fn pairs(hints: Seq<HintView>) -> Seq<(Seq<char>, Seq<char>)> {
    hints.map_values(|h: HintView| (h.key, h.action))
}

/// What the footer names in each mode; a message takes its place only where nothing is
/// open, and only as long as it is shown.
pub proof fn footers_name_the_keys(a: AppView, now: u64)
    ensures
        hints_of(a, now) is None <==> a.mode is Normal && a.shown_status(now) is Some,
        a.mode is Normal && a.shown_status(now) is None ==> pairs(hints_of(a, now)->0) == seq![
            ("a"@, "add"@),
            ("e"@, "edit"@),
            ("d"@, "del"@),
            ("s"@, "start/stop"@),
            ("r"@, "restart"@),
            ("c"@, "clear stats"@),
            ("l"@, "log"@),
            ("w/W"@, "export"@),
            ("S/X"@, "all"@),
            ("?"@, "help"@),
            ("q"@, "quit"@),
        ],
        a.mode is Form ==> pairs(hints_of(a, now)->0) == seq![
            ("Tab/↑↓"@, "field"@),
            ("Space"@, "toggle"@),
            ("Enter"@, "save"@),
            ("Esc"@, "cancel"@),
        ],
        a.mode is ConfirmDelete ==> pairs(hints_of(a, now)->0) == seq![
            ("y"@, "confirm delete"@),
            ("any"@, "cancel"@),
        ],
        a.mode is Export ==> pairs(hints_of(a, now)->0) == seq![
            ("Tab"@, "selected/all"@),
            ("Ctrl-U"@, "clear path"@),
            ("Enter"@, "write"@),
            ("Esc"@, "cancel"@),
        ],
        a.mode is Help ==> pairs(hints_of(a, now)->0) == seq![("any key"@, "close"@)],
{
    if a.mode is Normal && a.shown_status(now) is None {
        assert(pairs(hints_of(a, now)->0) =~= seq![
            ("a"@, "add"@),
            ("e"@, "edit"@),
            ("d"@, "del"@),
            ("s"@, "start/stop"@),
            ("r"@, "restart"@),
            ("c"@, "clear stats"@),
            ("l"@, "log"@),
            ("w/W"@, "export"@),
            ("S/X"@, "all"@),
            ("?"@, "help"@),
            ("q"@, "quit"@),
        ]);
    }
    if a.mode is Form {
        assert(pairs(hints_of(a, now)->0) =~= seq![
            ("Tab/↑↓"@, "field"@),
            ("Space"@, "toggle"@),
            ("Enter"@, "save"@),
            ("Esc"@, "cancel"@),
        ]);
    }
    if a.mode is ConfirmDelete {
        assert(pairs(hints_of(a, now)->0) =~= seq![
            ("y"@, "confirm delete"@),
            ("any"@, "cancel"@),
        ]);
    }
    if a.mode is Export {
        assert(pairs(hints_of(a, now)->0) =~= seq![
            ("Tab"@, "selected/all"@),
            ("Ctrl-U"@, "clear path"@),
            ("Enter"@, "write"@),
            ("Esc"@, "cancel"@),
        ]);
    }
    if a.mode is Help {
        assert(pairs(hints_of(a, now)->0) =~= seq![("any key"@, "close"@)]);
    }
}

/// The footer is the message, or the hints in rows as wide as the screen; and it has a row
/// for each, and always one.
pub proof fn footers_have_their_rows(a: AppView, width: nat, now: u64)
    ensures
        match footer_of(a, width, now) {
            FooterView::Message(text) => hints_of(a, now) is None && text == " "@
                + a.shown_status(now)->0 && footer_rows(a, width, now) == 1,
            FooterView::Keys(rows) => {
                &&& hints_of(a, now) is Some
                &&& rows == laid_out(
                    hints_of(a, now)->0,
                    if width == 0 {
                        1
                    } else {
                        width
                    },
                ).0
                &&& rows.len() > 0 ==> footer_rows(a, width, now) == rows.len()
                &&& rows.len() == 0 ==> footer_rows(a, width, now) == 1
            },
        },
{
}

/// A hint takes up the key, the action and four blanks.
pub proof fn hints_take_up_their_texts(h: HintView)
    ensures
        hint_width(h) == h.key.len() + h.action.len() + 4,
{
}

/// What the help tells of the keys.
pub proof fn the_help_tells_of_every_key()
    ensures
        pairs(help_of()) == seq![
            ("↑/k ↓/j"@, "select tunnel"@),
            ("g / G"@, "first / last"@),
            ("a"@, "add tunnel"@),
            ("e / Enter"@, "edit selected"@),
            ("d"@, "delete selected"@),
            ("s / Space"@, "start / stop selected (press again while stopping = SIGKILL)"@),
            ("r"@, "restart selected"@),
            ("K"@, "SIGKILL selected"@),
            ("S / X"@, "start all / stop all"@),
            ("c / C"@, "clear stats: selected / all"@),
            ("J / U"@, "move selected down / up"@),
            ("l"@, "toggle log pane"@),
            ("w / W"@, "export log of selected / all tunnels to a file"@),
            ("q / Ctrl-C"@, "quit (stops all tunnels)"@),
        ],
{
    assert(pairs(help_of()) =~= seq![
        ("↑/k ↓/j"@, "select tunnel"@),
        ("g / G"@, "first / last"@),
        ("a"@, "add tunnel"@),
        ("e / Enter"@, "edit selected"@),
        ("d"@, "delete selected"@),
        ("s / Space"@, "start / stop selected (press again while stopping = SIGKILL)"@),
        ("r"@, "restart selected"@),
        ("K"@, "SIGKILL selected"@),
        ("S / X"@, "start all / stop all"@),
        ("c / C"@, "clear stats: selected / all"@),
        ("J / U"@, "move selected down / up"@),
        ("l"@, "toggle log pane"@),
        ("w / W"@, "export log of selected / all tunnels to a file"@),
        ("q / Ctrl-C"@, "quit (stops all tunnels)"@),
    ]);
}

// ---------------------------------------------------------------------------
// Dialogs
// ---------------------------------------------------------------------------

/// A dialog has the size that is asked for, cut to that of the area, and as much room on
/// one side as on the other, but for a single cell.
pub proof fn dialogs_stand_in_the_middle(area: Area, width: u16, height: u16)
    requires
        area.x + area.width <= u16::MAX,
        area.y + area.height <= u16::MAX,
    ensures
        ({
            let r = middle_of(area, width, height);
            let left = r.x - area.x;
            let right = area.x + area.width - r.x - r.width;
            let above = r.y - area.y;
            let below = area.y + area.height - r.y - r.height;
            &&& r.width == (if width < area.width {
                width
            } else {
                area.width
            })
            &&& r.height == (if height < area.height {
                height
            } else {
                area.height
            })
            &&& 0 <= left <= right <= left + 1
            &&& 0 <= above <= below <= above + 1
        }),
{
}

/// A field shows its text from the front as long as the cursor is in sight there, and
/// otherwise as far on as it must for the cursor to stand in the last column.
pub proof fn fields_show_what_is_around_the_cursor(i: InputView, width: nat)
    requires
        i.wf(),
        width > 0,
    ensures
        i.cursor < width ==> window_start(i, width) == 0,
        i.cursor >= width ==> window_start(i, width) + width == i.cursor + 1,
        forall|k: int|
            0 <= k < window_text(i, width).len() ==> #[trigger] window_text(i, width)[k]
                == i.text[window_start(i, width) + k],
        window_text(i, width).len() == width || window_start(i, width) + window_text(i, width).len()
            == i.text.len(),
        window_start(i, 0) == window_start(i, 1),
        window_text(i, 0) == window_text(i, 1),
{
}

/// The rows of a form show its fields in order, with the cursor in the text in focus and
/// nowhere else.
pub proof fn forms_show_their_fields(f: FormView, width: nat, k: int)
    requires
        f.wf(),
        0 <= k < 5,
    ensures
        ({
            let rows = form_rows_of(f, width);
            let fields = seq![f.name, f.source, f.destination, f.options];
            &&& rows.len() == 5
            &&& rows[k].label == seq![
                "Name"@,
                "Source"@,
                "Destination"@,
                "Options"@,
                "Autostart"@,
            ][k]
            &&& rows[k].hint == seq![
                "a label for the list"@,
                "left address, e.g. TCP-LISTEN:8080,fork,reuseaddr"@,
                "right address, e.g. TCP:example.com:80"@,
                "extra socat flags, e.g. -d -d -T 30"@,
                "start this tunnel when socatui launches"@,
            ][k]
            &&& rows[k].focused <==> f.focus == k
            &&& k < 4 ==> rows[k].value == window_text(fields[k], width)
            &&& k < 4 && f.focus == k ==> rows[k].cursor == Some(
                (fields[k].cursor - window_start(fields[k], width)) as nat,
            )
            &&& k == 4 || f.focus != k ==> rows[k].cursor is None
            &&& k == 4 && f.autostart ==> rows[k].value == "[x] yes"@
            &&& k == 4 && !f.autostart ==> rows[k].value == "[ ] no"@
        }),
{
}

/// A form tells whether it adds or edits, and what is wrong with it, if anything.
pub proof fn forms_tell_what_they_do(f: FormView)
    ensures
        f.editing is Some ==> form_title_of(f) == " edit tunnel "@,
        f.editing is None ==> form_title_of(f) == " add tunnel "@,
        f.error is Some ==> form_footer_of(f) == "✗ "@ + f.error->0,
        f.error is None ==> form_footer_of(f)
            == "Enter saves, Esc cancels. Addresses are passed to socat verbatim (no shell quoting)."@,
{
}

/// A deletion that is to be confirmed names the selected tunnel, and warns where it runs.
pub proof fn deletions_name_the_selected(a: AppView)
    requires
        a.selected < a.tunnels.len(),
    ensures
        ({
            let t = a.tunnels[a.selected as int];
            let question = "Delete \""@ + t.config.name + "\"?"@;
            let keys = "y = yes, any other key = no"@;
            &&& t.pid is None ==> confirm_lines_of(a) == seq![question, ""@, keys]
            &&& t.pid is Some ==> confirm_lines_of(a) == seq![
                question,
                "It is running and will be stopped."@,
                ""@,
                keys,
            ]
        }),
{
    let t = a.tunnels[a.selected as int];
    let question = "Delete \""@ + t.config.name + "\"?"@;
    let keys = "y = yes, any other key = no"@;
    if t.pid is None {
        assert(confirm_lines_of(a) =~= seq![question, ""@, keys]);
    } else {
        assert(confirm_lines_of(a) =~= seq![
            question,
            "It is running and will be stopped."@,
            ""@,
            keys,
        ]);
    }
}

/// An export names the selected tunnel, or counts all.
pub proof fn exports_name_the_selected(a: AppView)
    ensures
        export_scope_of(a, true) == "all "@ + decimal(a.tunnels.len()) + " tunnels"@,
        a.selected < a.tunnels.len() ==> export_scope_of(a, false) == "\""@
            + a.tunnels[a.selected as int].config.name + "\" only"@,
        a.selected >= a.tunnels.len() ==> export_scope_of(a, false).len() == 0,
{
}

} // verus!
