//! Transfer counters, and the lines in which socat reports them.
//!
//! socat 1.8+ prints transfer counters to stderr on exit and whenever it
//! receives SIGUSR1, one pair of lines per process:
//!
//! ```text
//! 2026/09/23 16:41:03 socat[75527] I STATISTICS: left to right: 1 packets(s), 5000 byte(s)
//! 2026/09/23 16:41:03 socat[75527] I STATISTICS: right to left: 1 packets(s), 5000 byte(s)
//! ```

use crate::decimal::{
    all_digits, decimal, decimal_denotes_its_number, decimal_is_read_back, digits_value, numbers,
    read_numbers, read_unsigned, unsigned, values,
};
use crate::text::{
    chars_of, contains, contains_text, find, find_text, is_digit, lemma_find_text, lemma_no_run,
    lemma_one_run, lemma_runs, lemma_runs_meet, occurs_at, runs, runs_stand_in_the_text,
    searches_find_the_first_place, slice_of, stands_in, starts_with, starts_with_text,
    what_is_contained_stands_in, Class,
};
use vstd::prelude::*;
use vstd::string::*;

verus! {

// ---------------------------------------------------------------------------
// Counters
// ---------------------------------------------------------------------------

/// Packets and bytes that went from left to right and from right to left.
#[derive(Clone, Copy, Debug, PartialEq, Eq, Structural)]
pub struct Counters {
    pub ltr_packets: u64,
    pub ltr_bytes: u64,
    pub rtl_packets: u64,
    pub rtl_bytes: u64,
}

/// Counters without a bound.
pub struct Tally {
    pub ltr_packets: nat,
    pub ltr_bytes: nat,
    pub rtl_packets: nat,
    pub rtl_bytes: nat,
}

impl View for Counters {
    type V = Tally;

    open spec fn view(&self) -> Tally {
        Tally {
            ltr_packets: self.ltr_packets as nat,
            ltr_bytes: self.ltr_bytes as nat,
            rtl_packets: self.rtl_packets as nat,
            rtl_bytes: self.rtl_bytes as nat,
        }
    }
}

impl Tally {
    /// Nothing transferred.
    pub open spec fn zero() -> Tally {
        Tally { ltr_packets: 0, ltr_bytes: 0, rtl_packets: 0, rtl_bytes: 0 }
    }

    /// Both together.
    pub open spec fn plus(self, o: Tally) -> Tally {
        Tally {
            ltr_packets: self.ltr_packets + o.ltr_packets,
            ltr_bytes: self.ltr_bytes + o.ltr_bytes,
            rtl_packets: self.rtl_packets + o.rtl_packets,
            rtl_bytes: self.rtl_bytes + o.rtl_bytes,
        }
    }

    /// Each count is at most that of `o`.
    pub open spec fn at_most(self, o: Tally) -> bool {
        &&& self.ltr_packets <= o.ltr_packets
        &&& self.ltr_bytes <= o.ltr_bytes
        &&& self.rtl_packets <= o.rtl_packets
        &&& self.rtl_bytes <= o.rtl_bytes
    }

    /// Each count fits in a machine word.
    pub open spec fn fits(self) -> bool {
        &&& self.ltr_packets <= u64::MAX
        &&& self.ltr_bytes <= u64::MAX
        &&& self.rtl_packets <= u64::MAX
        &&& self.rtl_bytes <= u64::MAX
    }
}

impl Default for Counters {
    fn default() -> (r: Counters)
        ensures
            r@ == Tally::zero(),
    {
        Counters { ltr_packets: 0, ltr_bytes: 0, rtl_packets: 0, rtl_bytes: 0 }
    }
}

impl Counters {
    /// Adds the counts of `o`. The sums must fit.
    pub fn add(&mut self, o: &Counters)
        requires
            old(self)@.plus(o@).fits(),
        ensures
            final(self)@ == old(self)@.plus(o@),
    {
        self.ltr_packets = self.ltr_packets + o.ltr_packets;
        self.ltr_bytes = self.ltr_bytes + o.ltr_bytes;
        self.rtl_packets = self.rtl_packets + o.rtl_packets;
        self.rtl_bytes = self.rtl_bytes + o.rtl_bytes;
    }

    /// The counts together with those of `o`, where the sums fit.
    pub fn checked_sum(&self, o: &Counters) -> (r: Option<Counters>)
        ensures
            match r {
                Some(sum) => sum@ == self@.plus(o@),
                None => !self@.plus(o@).fits(),
            },
    {
        match (
            self.ltr_packets.checked_add(o.ltr_packets),
            self.ltr_bytes.checked_add(o.ltr_bytes),
            self.rtl_packets.checked_add(o.rtl_packets),
            self.rtl_bytes.checked_add(o.rtl_bytes),
        ) {
            (Some(ltr_packets), Some(ltr_bytes), Some(rtl_packets), Some(rtl_bytes)) => Some(
                Counters { ltr_packets, ltr_bytes, rtl_packets, rtl_bytes },
            ),
            _ => None,
        }
    }
}

// ---------------------------------------------------------------------------
// Lines
// ---------------------------------------------------------------------------

/// What a line of stderr tells.
pub enum Parsed {
    /// Counters of one direction.
    Stats { pid: u32, ltr: bool, packets: u64, bytes: u64 },
    /// A notice that statistics are asked for; not worth showing.
    Noise,
    /// Anything else.
    Other,
}

/// The process id in the first `socat[...]` of a line.
pub open spec fn pid_of(line: Seq<char>) -> Option<u32> {
    match find_text(line, "socat["@) {
        None => None,
        Some(at) => {
            let tail = line.skip(at + "socat["@.len());
            match find_text(tail, "]"@) {
                None => None,
                Some(end) => match unsigned(tail.take(end), u32::MAX as nat) {
                    None => None,
                    Some(pid) => Some(pid as u32),
                },
            }
        },
    }
}

/// What follows the first `STATISTICS: ` of a line.
pub open spec fn report_of(line: Seq<char>) -> Option<Seq<char>> {
    match find_text(line, "STATISTICS: "@) {
        None => None,
        Some(at) => Some(line.skip(at + "STATISTICS: "@.len())),
    }
}

/// The direction that a report begins with, and what follows it.
pub open spec fn direction_of(report: Seq<char>) -> Option<(bool, Seq<char>)> {
    if starts_with_text(report, "left to right: "@) {
        Some((true, report.skip("left to right: "@.len() as int)))
    } else if starts_with_text(report, "right to left: "@) {
        Some((false, report.skip("right to left: "@.len() as int)))
    } else {
        None
    }
}

/// A notice that statistics are asked for.
pub open spec fn is_noise(line: Seq<char>) -> bool {
    contains_text(line, "statistics are experimental"@) || contains_text(
        line,
        "transfer engine not yet started"@,
    )
}

/// What a line of stderr tells: counters where it names a process and a
/// direction and the first two numbers that follow, and no notice.
pub open spec fn parsed(line: Seq<char>) -> Parsed {
    if is_noise(line) {
        Parsed::Noise
    } else {
        match (report_of(line), pid_of(line)) {
            (Some(report), Some(pid)) => match direction_of(report) {
                Some((ltr, counts)) => if numbers(counts).len() >= 2 {
                    Parsed::Stats {
                        pid,
                        ltr,
                        packets: numbers(counts)[0],
                        bytes: numbers(counts)[1],
                    }
                } else {
                    Parsed::Other
                },
                None => Parsed::Other,
            },
            _ => Parsed::Other,
        }
    }
}

/// The characters of `v` after the first `n`.
fn tail_of(v: &Vec<char>, n: usize) -> (r: Vec<char>)
    requires
        n <= v@.len(),
    ensures
        r@ == v@.skip(n as int),
{
    let len: usize = v.len();
    slice_of(v, n, len)
}

/// The process id in the first `socat[...]` of a line.
fn extract_pid(line: &Vec<char>) -> (r: Option<u32>)
    ensures
        r == pid_of(line@),
{
    let at: usize = match find(line, "socat[") {
        Some(at) => at,
        None => return None,
    };
    let skipped: usize = "socat[".unicode_len();
    let len: usize = line.len();
    assert(at + skipped <= len);
    let tail: Vec<char> = tail_of(line, at + skipped);
    let end: usize = match find(&tail, "]") {
        Some(end) => end,
        None => return None,
    };
    let digits: Vec<char> = slice_of(&tail, 0, end);
    assert(digits@ == tail@.take(end as int));
    match read_unsigned(&digits, 0xffff_ffff) {
        Some(pid) => Some(pid as u32),
        None => None,
    }
}

/// What one line of socat's stderr tells.
pub fn parse_line(line: &str) -> (r: Parsed)
    ensures
        r == parsed(line@),
{
    let v: Vec<char> = chars_of(line);
    if contains(&v, "statistics are experimental") || contains(
        &v,
        "transfer engine not yet started",
    ) {
        return Parsed::Noise;
    }
    let at: usize = match find(&v, "STATISTICS: ") {
        Some(at) => at,
        None => return Parsed::Other,
    };
    let pid: u32 = match extract_pid(&v) {
        Some(pid) => pid,
        None => return Parsed::Other,
    };
    let skipped: usize = "STATISTICS: ".unicode_len();
    let len: usize = v.len();
    assert(at + skipped <= len);
    let report: Vec<char> = tail_of(&v, at + skipped);
    let ltr: bool = if starts_with(&report, "left to right: ") {
        true
    } else if starts_with(&report, "right to left: ") {
        false
    } else {
        return Parsed::Other;
    };
    let head: usize = if ltr {
        "left to right: ".unicode_len()
    } else {
        "right to left: ".unicode_len()
    };
    let counts: Vec<u64> = read_numbers(&tail_of(&report, head));
    if counts.len() >= 2 {
        Parsed::Stats { pid, ltr, packets: counts[0], bytes: counts[1] }
    } else {
        Parsed::Other
    }
}

// ---------------------------------------------------------------------------
// What socat reports is read
// ---------------------------------------------------------------------------

/// The text between the process id and the direction.
pub open spec fn direction_text(ltr: bool) -> Seq<char> {
    if ltr {
        "left to right: "@
    } else {
        "right to left: "@
    }
}

/// The counts of a report.
pub open spec fn counts_text(packets: u64, bytes: u64) -> Seq<char> {
    decimal(packets as nat) + " packets(s), "@ + decimal(bytes as nat) + " byte(s)"@
}

/// The line in which socat reports the counters of one direction, after a
/// time stamp.
pub open spec fn report_line(
    stamp: Seq<char>,
    pid: u32,
    ltr: bool,
    packets: u64,
    bytes: u64,
) -> Seq<char> {
    stamp + "socat["@ + decimal(pid as nat) + "] I STATISTICS: "@ + direction_text(ltr)
        + counts_text(packets, bytes)
}

/// The characters of which time stamps are made.
pub open spec fn is_stamp(s: Seq<char>) -> bool {
    forall|i: int|
        0 <= i < s.len() ==> {
            let c = #[trigger] s[i];
            is_digit(c) || c == '/' || c == ':' || c == ' ' || c == '.' || c == '-'
        }
}

/// The two counts of a report are its two numbers.
proof fn lemma_counts(packets: u64, bytes: u64)
    ensures
        numbers(counts_text(packets, bytes)) == seq![packets, bytes],
{
    let p = decimal(packets as nat);
    let b = decimal(bytes as nat);
    let m = " packets(s), "@;
    let e = " byte(s)"@;
    reveal_strlit(" packets(s), ");
    reveal_strlit(" byte(s)");
    decimal_denotes_its_number(packets as nat);
    decimal_denotes_its_number(bytes as nat);
    assert forall|i: int| 0 <= i < p.len() implies Class::Digit.has(#[trigger] p[i]) by {
        assert(is_digit(p[i]));
    }
    assert forall|i: int| 0 <= i < b.len() implies Class::Digit.has(#[trigger] b[i]) by {
        assert(is_digit(b[i]));
    }
    lemma_one_run(p, Class::Digit);
    lemma_one_run(b, Class::Digit);
    lemma_no_run(m, Class::Digit);
    lemma_no_run(e, Class::Digit);
    lemma_runs_meet(p, m, Class::Digit);
    assert((p + m).last() == ' ');
    lemma_runs_meet(p + m, b, Class::Digit);
    lemma_runs_meet(p + m + b, e, Class::Digit);
    let found = runs(counts_text(packets, bytes), Class::Digit);
    assert(found =~= seq![p, b]);
    assert(found.drop_last() =~= seq![p]);
    assert(found.drop_last().drop_last() =~= Seq::<Seq<char>>::empty());
    assert(values(found.drop_last().drop_last()) =~= Seq::<u64>::empty());
    assert(values(found.drop_last()) =~= seq![packets]);
    assert(values(found) =~= seq![packets, bytes]);
}

/// A character does not occur in `s`.
spec fn lacks(s: Seq<char>, c: char) -> bool {
    forall|i: int| 0 <= i < s.len() ==> #[trigger] s[i] != c
}

proof fn lemma_lacks_both(a: Seq<char>, b: Seq<char>, c: char)
    requires
        lacks(a, c),
        lacks(b, c),
    ensures
        lacks(a + b, c),
{
    let s = a + b;
    assert forall|i: int| 0 <= i < s.len() implies #[trigger] s[i] != c by {
        if i < a.len() {
            assert(s[i] == a[i]);
        } else {
            assert(s[i] == b[i - a.len()]);
        }
    }
}

/// The digits of a number are nothing but digits.
proof fn lemma_number_lacks(n: nat, c: char)
    requires
        !is_digit(c),
    ensures
        lacks(decimal(n), c),
{
    decimal_denotes_its_number(n);
    assert forall|i: int| 0 <= i < decimal(n).len() implies #[trigger] decimal(n)[i] != c by {
        assert(is_digit(decimal(n)[i]));
    }
}

/// A text that holds a character which `s` lacks is not in `s`.
proof fn lemma_wanting(s: Seq<char>, p: Seq<char>, k: int)
    requires
        0 <= k < p.len(),
        lacks(s, p[k]),
    ensures
        !contains_text(s, p),
{
    assert forall|i: int| !occurs_at(s, p, i) by {
        if occurs_at(s, p, i) {
            assert(s.subrange(i, i + p.len())[k] == p[k]);
            assert(s[i + k] == p[k]);
        }
    }
}

/// After a text that lacks its first character, `p` is found where it stands.
proof fn lemma_found(before: Seq<char>, p: Seq<char>, after: Seq<char>)
    requires
        p.len() > 0,
        lacks(before, p[0]),
    ensures
        find_text(before + p + after, p) == Some(before.len() as int),
        (before + p + after).take(before.len() as int) == before,
        (before + p + after).skip(before.len() as int + p.len()) == after,
{
    let s = before + p + after;
    let at = before.len() as int;
    assert(s.subrange(at, at + p.len()) =~= p);
    assert forall|j: int| j < at implies !occurs_at(s, p, j) by {
        if occurs_at(s, p, j) {
            assert(s.subrange(j, j + p.len())[0] == p[0]);
            assert(s[j] == before[j]);
        }
    }
    lemma_find_text(s, p, at);
    assert(s.take(at) =~= before);
    assert(s.skip(at + p.len()) =~= after);
}

/// A report lacks a letter that is in none of its words.
proof fn lemma_report_lacks(
    stamp: Seq<char>,
    pid: u32,
    ltr: bool,
    packets: u64,
    bytes: u64,
    c: char,
)
    requires
        is_stamp(stamp),
        c == 'x' || c == 'd',
    ensures
        lacks(report_line(stamp, pid, ltr, packets, bytes), c),
{
    reveal_strlit("socat[");
    reveal_strlit("] I STATISTICS: ");
    reveal_strlit("left to right: ");
    reveal_strlit("right to left: ");
    reveal_strlit(" packets(s), ");
    reveal_strlit(" byte(s)");
    let name = "socat["@;
    let digits = decimal(pid as nat);
    let middle = "] I STATISTICS: "@;
    let dir = direction_text(ltr);
    let p = decimal(packets as nat);
    let q = decimal(bytes as nat);
    lemma_number_lacks(pid as nat, c);
    lemma_number_lacks(packets as nat, c);
    lemma_number_lacks(bytes as nat, c);
    assert(lacks(stamp, c));
    lemma_lacks_both(stamp, name, c);
    lemma_lacks_both(stamp + name, digits, c);
    lemma_lacks_both(stamp + name + digits, middle, c);
    lemma_lacks_both(stamp + name + digits + middle, dir, c);
    lemma_lacks_both(p, " packets(s), "@, c);
    lemma_lacks_both(p + " packets(s), "@, q, c);
    lemma_lacks_both(p + " packets(s), "@ + q, " byte(s)"@, c);
    lemma_lacks_both(stamp + name + digits + middle + dir, counts_text(packets, bytes), c);
}

/// Every line in which socat reports counters is read as what it reports: the
/// process, the direction, and both counts, whatever the time stamp.
pub proof fn reports_are_read(stamp: Seq<char>, pid: u32, ltr: bool, packets: u64, bytes: u64)
    requires
        is_stamp(stamp),
    ensures
        parsed(report_line(stamp, pid, ltr, packets, bytes)) == (Parsed::Stats {
            pid,
            ltr,
            packets,
            bytes,
        }),
{
    let line = report_line(stamp, pid, ltr, packets, bytes);
    let counts = counts_text(packets, bytes);
    let report = direction_text(ltr) + counts;
    assert(!is_noise(line)) by {
        reveal_strlit("statistics are experimental");
        reveal_strlit("transfer engine not yet started");
        lemma_report_lacks(stamp, pid, ltr, packets, bytes, 'x');
        lemma_report_lacks(stamp, pid, ltr, packets, bytes, 'd');
        lemma_wanting(line, "statistics are experimental"@, 16);
        lemma_wanting(line, "transfer engine not yet started"@, 30);
    }
    lemma_report_pid(stamp, pid, ltr, packets, bytes);
    lemma_report_found(stamp, pid, ltr, packets, bytes);
    assert(direction_of(report) == Some((ltr, counts))) by {
        reveal_strlit("left to right: ");
        reveal_strlit("right to left: ");
        assert(report.subrange(0, 15) =~= direction_text(ltr));
        assert(report.skip(15) =~= counts);
        if !ltr {
            assert(report.subrange(0, 15)[0] == 'r');
        }
    }
    lemma_counts(packets, bytes);
}

/// The process id of a report is found.
proof fn lemma_report_pid(stamp: Seq<char>, pid: u32, ltr: bool, packets: u64, bytes: u64)
    requires
        is_stamp(stamp),
    ensures
        pid_of(report_line(stamp, pid, ltr, packets, bytes)) == Some(pid),
{
    let line = report_line(stamp, pid, ltr, packets, bytes);
    let digits = decimal(pid as nat);
    let report = direction_text(ltr) + counts_text(packets, bytes);
    reveal_strlit("socat[");
    reveal_strlit("]");
    let rest = "] I STATISTICS: "@ + report;
    assert(lacks(stamp, 's'));
    assert(line =~= stamp + "socat["@ + (digits + rest));
    lemma_found(stamp, "socat["@, digits + rest);
    lemma_number_lacks(pid as nat, ']');
    assert(digits + rest =~= digits + "]"@ + rest.skip(1)) by {
        reveal_strlit("] I STATISTICS: ");
    }
    lemma_found(digits, "]"@, rest.skip(1));
    decimal_is_read_back(pid as nat, u32::MAX as nat);
}

/// What a report says is found.
proof fn lemma_report_found(stamp: Seq<char>, pid: u32, ltr: bool, packets: u64, bytes: u64)
    requires
        is_stamp(stamp),
    ensures
        report_of(report_line(stamp, pid, ltr, packets, bytes)) == Some(
            direction_text(ltr) + counts_text(packets, bytes),
        ),
{
    let line = report_line(stamp, pid, ltr, packets, bytes);
    let digits = decimal(pid as nat);
    let report = direction_text(ltr) + counts_text(packets, bytes);
    let mark = "STATISTICS: "@;
    reveal_strlit("socat[");
    reveal_strlit("] I STATISTICS: ");
    reveal_strlit("STATISTICS: ");
    let tail = "] I STATISTICS: "@.take(4);
    assert("] I STATISTICS: "@ =~= tail + mark);
    let before = stamp + "socat["@ + digits + tail;
    assert(line =~= before + mark + report);
    assert(lacks(stamp, 'S'));
    lemma_number_lacks(pid as nat, 'S');
    lemma_lacks_both(stamp, "socat["@, 'S');
    lemma_lacks_both(stamp + "socat["@, digits, 'S');
    lemma_lacks_both(stamp + "socat["@ + digits, tail, 'S');
    lemma_found(before, mark, report);
}

/// What follows a report does not matter, unless it makes the line a notice.
pub proof fn what_follows_a_report_does_not_matter(
    stamp: Seq<char>,
    pid: u32,
    ltr: bool,
    packets: u64,
    bytes: u64,
    tail: Seq<char>,
)
    requires
        is_stamp(stamp),
        !stands_in(
            report_line(stamp, pid, ltr, packets, bytes) + tail,
            "statistics are experimental"@,
        ),
        !stands_in(
            report_line(stamp, pid, ltr, packets, bytes) + tail,
            "transfer engine not yet started"@,
        ),
    ensures
        parsed(report_line(stamp, pid, ltr, packets, bytes) + tail) == (Parsed::Stats {
            pid,
            ltr,
            packets,
            bytes,
        }),
{
    let line = report_line(stamp, pid, ltr, packets, bytes) + tail;
    only_two_notices_are_dropped(line);
    let dir = direction_text(ltr);
    let counts = counts_text(packets, bytes) + tail;
    let report = dir + counts;
    lemma_longer_report(stamp, pid, ltr, packets, bytes, tail);
    assert(direction_of(report) == Some((ltr, counts))) by {
        reveal_strlit("left to right: ");
        reveal_strlit("right to left: ");
        assert(report.subrange(0, 15) =~= dir);
        assert(report.skip(15) =~= counts);
        if !ltr {
            assert(report.subrange(0, 15)[0] == 'r');
        }
    }
    lemma_counts(packets, bytes);
    let a = runs(counts_text(packets, bytes), Class::Digit);
    let b = runs(tail, Class::Digit);
    assert(!is_digit(counts_text(packets, bytes).last())) by {
        reveal_strlit(" byte(s)");
        assert(counts_text(packets, bytes).last() == ')');
    }
    lemma_runs_meet(counts_text(packets, bytes), tail, Class::Digit);
    lemma_values_of_both(a, b);
    assert(numbers(counts) == seq![packets, bytes] + values(b));
    assert(numbers(counts)[0] == packets && numbers(counts)[1] == bytes);
}

proof fn lemma_values_of_both(a: Seq<Seq<char>>, b: Seq<Seq<char>>)
    ensures
        values(a + b) == values(a) + values(b),
    decreases b.len(),
{
    if b.len() == 0 {
        assert(a + b =~= a);
        assert(values(a) + values(b) =~= values(a));
    } else {
        assert((a + b).drop_last() =~= a + b.drop_last());
        lemma_values_of_both(a, b.drop_last());
        assert(values(a + b) =~= values(a) + values(b));
    }
}

proof fn lemma_longer_report(
    stamp: Seq<char>,
    pid: u32,
    ltr: bool,
    packets: u64,
    bytes: u64,
    tail: Seq<char>,
)
    requires
        is_stamp(stamp),
    ensures
        pid_of(report_line(stamp, pid, ltr, packets, bytes) + tail) == Some(pid),
        report_of(report_line(stamp, pid, ltr, packets, bytes) + tail) == Some(
            direction_text(ltr) + (counts_text(packets, bytes) + tail),
        ),
{
    let line = report_line(stamp, pid, ltr, packets, bytes) + tail;
    let digits = decimal(pid as nat);
    let name = "socat["@;
    let report = direction_text(ltr) + (counts_text(packets, bytes) + tail);
    let mark = "STATISTICS: "@;
    let middle = "] I STATISTICS: "@;
    let rest = middle + report;
    reveal_strlit("socat[");
    reveal_strlit("]");
    reveal_strlit("STATISTICS: ");
    reveal_strlit("] I STATISTICS: ");
    assert(line =~= stamp + name + (digits + rest));
    assert(lacks(stamp, 's'));
    lemma_found(stamp, name, digits + rest);
    lemma_number_lacks(pid as nat, ']');
    assert(digits + rest =~= digits + "]"@ + rest.skip(1));
    lemma_found(digits, "]"@, rest.skip(1));
    decimal_is_read_back(pid as nat, u32::MAX as nat);
    let head = middle.take(4);
    assert(middle =~= head + mark);
    let before = stamp + name + digits + head;
    assert(line =~= before + mark + report);
    assert(lacks(stamp, 'S'));
    lemma_number_lacks(pid as nat, 'S');
    lemma_lacks_both(stamp, name, 'S');
    lemma_lacks_both(stamp + name, digits, 'S');
    lemma_lacks_both(stamp + name + digits, head, 'S');
    lemma_found(before, mark, report);
}

// ---------------------------------------------------------------------------
// What else is read, and what is not
// ---------------------------------------------------------------------------

/// Two notices are dropped, and no other line is.
pub proof fn only_two_notices_are_dropped(line: Seq<char>)
    ensures
        parsed(line) is Noise <==> {
            ||| stands_in(line, "statistics are experimental"@)
            ||| stands_in(line, "transfer engine not yet started"@)
        },
{
    what_is_contained_stands_in(line, "statistics are experimental"@);
    what_is_contained_stands_in(line, "transfer engine not yet started"@);
}

/// A line that is no notice and no statistics, or that names no socat process, is
/// like any other output.
pub proof fn lines_without_statistics_are_other(line: Seq<char>)
    requires
        !stands_in(line, "statistics are experimental"@),
        !stands_in(line, "transfer engine not yet started"@),
        !stands_in(line, "STATISTICS: left to right: "@) && !stands_in(
            line,
            "STATISTICS: right to left: "@,
        ) || !stands_in(line, "socat["@),
    ensures
        parsed(line) is Other,
{
    only_two_notices_are_dropped(line);
    if parsed(line) is Stats {
        statistics_are_what_the_line_says(line);
        if !stands_in(line, "socat["@) {
            searches_find_the_first_place(line, "socat["@);
        }
    }
}

/// Counters are taken from a line only where it has the mark and the direction, a
/// process id between brackets, and the two numbers themselves.
pub proof fn statistics_are_what_the_line_says(line: Seq<char>)
    requires
        parsed(line) is Stats,
    ensures
        parsed(line)->ltr ==> stands_in(line, "STATISTICS: left to right: "@),
        !parsed(line)->ltr ==> stands_in(line, "STATISTICS: right to left: "@),
        exists|digits: Seq<char>|
            #![trigger unsigned(digits, u32::MAX as nat)]
            stands_in(line, "socat["@ + digits + "]"@) && unsigned(digits, u32::MAX as nat) == Some(
                parsed(line)->pid as nat,
            ),
        exists|digits: Seq<char>|
            #![trigger all_digits(digits)]
            stands_in(line, digits) && all_digits(digits) && digits_value(digits)
                == parsed(line)->packets,
        exists|digits: Seq<char>|
            #![trigger all_digits(digits)]
            stands_in(line, digits) && all_digits(digits) && digits_value(digits)
                == parsed(line)->bytes,
{
    let front = lemma_mark_stands(line);
    let counts = (direction_of(report_of(line)->0)->0).1;
    lemma_pid_stands(line);
    lemma_number_stands(line, front, counts, 0);
    lemma_number_stands(line, front, counts, 1);
}

/// The mark and the direction stand before the counts.
proof fn lemma_mark_stands(line: Seq<char>) -> (front: Seq<char>)
    requires
        parsed(line) is Stats,
    ensures
        line == front + (direction_of(report_of(line)->0)->0).1,
        stands_in(
            line,
            if parsed(line)->ltr {
                "STATISTICS: left to right: "@
            } else {
                "STATISTICS: right to left: "@
            },
        ),
{
    let ltr = parsed(line)->ltr;
    let mark = "STATISTICS: "@;
    searches_find_the_first_place(line, mark);
    let before = line.take(find_text(line, mark)->0);
    let report = report_of(line)->0;
    let counts = (direction_of(report)->0).1;
    let dir = direction_text(ltr);
    lemma_direction(report);
    lemma_marks(ltr);
    lemma_regroup(before, mark, dir, counts);
    assert(line == before + (mark + dir) + counts);
    before + (mark + dir)
}

/// A report is its direction and its counts.
proof fn lemma_direction(report: Seq<char>)
    requires
        direction_of(report) is Some,
    ensures
        report == direction_text((direction_of(report)->0).0) + (direction_of(report)->0).1,
{
    let dir = direction_text((direction_of(report)->0).0);
    assert(report.subrange(0, dir.len() as int) == dir);
    assert(report =~= dir + (direction_of(report)->0).1);
}

proof fn lemma_marks(ltr: bool)
    ensures
        "STATISTICS: "@ + direction_text(ltr) == (if ltr {
            "STATISTICS: left to right: "@
        } else {
            "STATISTICS: right to left: "@
        }),
{
    reveal_strlit("STATISTICS: ");
    reveal_strlit("left to right: ");
    reveal_strlit("right to left: ");
    reveal_strlit("STATISTICS: left to right: ");
    reveal_strlit("STATISTICS: right to left: ");
    assert("STATISTICS: "@ + direction_text(ltr) =~= (if ltr {
        "STATISTICS: left to right: "@
    } else {
        "STATISTICS: right to left: "@
    }));
}

proof fn lemma_regroup(a: Seq<char>, b: Seq<char>, c: Seq<char>, d: Seq<char>)
    ensures
        a + b + (c + d) == a + (b + c) + d,
{
    assert(a + b + (c + d) =~= a + (b + c) + d);
}

/// The process id stands between brackets.
proof fn lemma_pid_stands(line: Seq<char>)
    requires
        pid_of(line) is Some,
    ensures
        exists|digits: Seq<char>|
            #![trigger unsigned(digits, u32::MAX as nat)]
            stands_in(line, "socat["@ + digits + "]"@) && unsigned(digits, u32::MAX as nat) == Some(
                pid_of(line)->0 as nat,
            ),
{
    let name = "socat["@;
    let end = "]"@;
    searches_find_the_first_place(line, name);
    let p = find_text(line, name)->0;
    let tail = line.skip(p + name.len());
    searches_find_the_first_place(tail, end);
    let q = find_text(tail, end)->0;
    let digits = tail.take(q);
    let rest = tail.skip(q + end.len());
    assert(line == line.take(p) + name + (digits + end + rest));
    assert(line.take(p) + name + (digits + end + rest) =~= line.take(p) + (name + digits + end)
        + rest);
    assert(unsigned(digits, u32::MAX as nat) == Some(pid_of(line)->0 as nat));
}

/// A number that was found in the end of a line stands in the line.
proof fn lemma_number_stands(line: Seq<char>, front: Seq<char>, counts: Seq<char>, i: int)
    requires
        line == front + counts,
        0 <= i < numbers(counts).len(),
    ensures
        exists|digits: Seq<char>|
            #![trigger all_digits(digits)]
            stands_in(line, digits) && all_digits(digits) && digits_value(digits) == numbers(
                counts,
            )[i],
{
    let found = runs(counts, Class::Digit);
    let k = lemma_value_from(found, i);
    let digits = found[k];
    lemma_runs(counts, Class::Digit);
    assert forall|j: int| 0 <= j < digits.len() implies is_digit(#[trigger] digits[j]) by {
        assert(Class::Digit.has(found[k][j]));
    }
    runs_stand_in_the_text(counts, Class::Digit, k);
    let (a, b) = choose|a: Seq<char>, b: Seq<char>| counts == #[trigger] (a + digits + b);
    assert(line =~= (front + a) + digits + b);
    assert(all_digits(digits));
}

proof fn lemma_value_from(found: Seq<Seq<char>>, i: int) -> (k: int)
    requires
        0 <= i < values(found).len(),
    ensures
        0 <= k < found.len(),
        digits_value(found[k]) == values(found)[i],
    decreases found.len(),
{
    let before = values(found.drop_last());
    if i < before.len() {
        lemma_value_from(found.drop_last(), i)
    } else {
        found.len() - 1
    }
}

} // verus!
