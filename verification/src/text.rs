//! Text as sequences of characters: trimming, searching, splitting, joining.

use vstd::prelude::*;
use vstd::string::*;

verus! {

/// `String::push` appends one character at the end of the string.
pub assume_specification[ String::push ](s: &mut String, c: char)
    ensures
        final(s)@ == old(s)@.push(c),
;

// ---------------------------------------------------------------------------
// Characters
// ---------------------------------------------------------------------------

/// The characters with the Unicode property `White_Space`.
pub open spec fn is_white(c: char) -> bool {
    let u = c as u32;
    ||| 0x09 <= u <= 0x0d
    ||| u == 0x20
    ||| u == 0x85
    ||| u == 0xa0
    ||| u == 0x1680
    ||| 0x2000 <= u <= 0x200a
    ||| u == 0x2028
    ||| u == 0x2029
    ||| u == 0x202f
    ||| u == 0x205f
    ||| u == 0x3000
}

/// Whether `c` is white space.
pub fn white(c: char) -> (b: bool)
    ensures
        b == is_white(c),
{
    let u: u32 = c as u32;
    (0x09 <= u && u <= 0x0d) || u == 0x20 || u == 0x85 || u == 0xa0 || u == 0x1680 || (0x2000 <= u
        && u <= 0x200a) || u == 0x2028 || u == 0x2029 || u == 0x202f || u == 0x205f || u == 0x3000
}

/// The ASCII decimal digits.
pub open spec fn is_digit(c: char) -> bool {
    '0' <= c && c <= '9'
}

/// Whether `c` is an ASCII decimal digit.
pub fn digit(c: char) -> (b: bool)
    ensures
        b == is_digit(c),
{
    '0' <= c && c <= '9'
}

// ---------------------------------------------------------------------------
// Strings and vectors of characters
// ---------------------------------------------------------------------------

/// The characters of `s`, in order.
pub fn chars_of(s: &str) -> (r: Vec<char>)
    ensures
        r@ == s@,
{
    let mut r: Vec<char> = Vec::new();
    for c in it: s.chars()
        invariant
            it.seq() == s@,
            r@ == s@.take(it.index() as int),
    {
        r.push(c);
    }
    r
}

/// The characters of `v` from `lo` up to, and not including, `hi`.
pub fn slice_of(v: &Vec<char>, lo: usize, hi: usize) -> (r: Vec<char>)
    requires
        lo <= hi <= v@.len(),
    ensures
        r@ == v@.subrange(lo as int, hi as int),
{
    let mut r: Vec<char> = Vec::new();
    let mut i: usize = lo;
    while i < hi
        invariant
            lo <= i <= hi <= v@.len(),
            r@ == v@.subrange(lo as int, i as int),
        decreases hi - i,
    {
        r.push(v[i]);
        i += 1;
    }
    r
}

/// The string with the characters of `v`.
pub fn string_of(v: &Vec<char>) -> (r: String)
    ensures
        r@ == v@,
{
    let mut r: String = String::new();
    let mut i: usize = 0;
    while i < v.len()
        invariant
            i <= v@.len(),
            r@ == v@.take(i as int),
        decreases v@.len() - i,
    {
        r.push(v[i]);
        i += 1;
    }
    r
}

/// The views of the strings in `v`.
pub open spec fn views(v: Seq<String>) -> Seq<Seq<char>> {
    v.map_values(|s: String| s@)
}

// ---------------------------------------------------------------------------
// Trimming
// ---------------------------------------------------------------------------

/// `s` without its leading white space.
pub open spec fn trim_front(s: Seq<char>) -> Seq<char>
    decreases s.len(),
{
    if s.len() > 0 && is_white(s[0]) {
        trim_front(s.drop_first())
    } else {
        s
    }
}

/// `s` without its trailing white space.
pub open spec fn trim_back(s: Seq<char>) -> Seq<char>
    decreases s.len(),
{
    if s.len() > 0 && is_white(s.last()) {
        trim_back(s.drop_last())
    } else {
        s
    }
}

/// `s` without the white space at its two ends.
pub open spec fn trimmed(s: Seq<char>) -> Seq<char> {
    trim_back(trim_front(s))
}

/// A copy of `s` without the white space at its two ends.
pub fn trim(s: &str) -> (r: String)
    ensures
        r@ == trimmed(s@),
{
    let v: Vec<char> = chars_of(s);
    let n: usize = v.len();
    let mut lo: usize = 0;
    assert(v@.skip(0) == v@);
    while lo < n && white(v[lo])
        invariant
            lo <= n == v@.len(),
            trim_front(v@) == trim_front(v@.skip(lo as int)),
        decreases n - lo,
    {
        assert(v@.skip(lo as int).drop_first() == v@.skip(lo + 1));
        lo += 1;
    }
    let mut hi: usize = n;
    assert(v@.skip(lo as int) == v@.subrange(lo as int, hi as int));
    while lo < hi && white(v[hi - 1])
        invariant
            lo <= hi <= n == v@.len(),
            trimmed(v@) == trim_back(v@.subrange(lo as int, hi as int)),
        decreases hi - lo,
    {
        assert(v@.subrange(lo as int, hi as int).drop_last() == v@.subrange(lo as int, hi - 1));
        hi -= 1;
    }
    string_of(&slice_of(&v, lo, hi))
}

/// Whether `s` holds nothing but white space.
pub fn is_blank(s: &str) -> (b: bool)
    ensures
        b == (trimmed(s@).len() == 0),
{
    trim(s).as_str().is_empty()
}

/// What is left after trimming has no white space at its ends, and is a
/// stretch of what was there.
pub proof fn lemma_trimmed(s: Seq<char>)
    ensures
        trimmed(s).len() > 0 ==> !is_white(trimmed(s)[0]) && !is_white(trimmed(s).last()),
        exists|lo: int, hi: int| 0 <= lo <= hi <= s.len() && trimmed(s) == s.subrange(lo, hi),
{
    let lo = lemma_trim_front(s);
    let f = trim_front(s);
    let hi = lemma_trim_back(f);
    assert(trimmed(s) == s.subrange(lo, lo + hi));
}

proof fn lemma_trim_front(s: Seq<char>) -> (lo: int)
    ensures
        0 <= lo <= s.len(),
        trim_front(s) == s.skip(lo),
        trim_front(s).len() > 0 ==> !is_white(trim_front(s)[0]),
    decreases s.len(),
{
    if s.len() > 0 && is_white(s[0]) {
        let k = lemma_trim_front(s.drop_first());
        assert(s.drop_first().skip(k) == s.skip(k + 1));
        k + 1
    } else {
        assert(s.skip(0) == s);
        0
    }
}

proof fn lemma_trim_back(s: Seq<char>) -> (hi: int)
    ensures
        0 <= hi <= s.len(),
        trim_back(s) == s.take(hi),
        trim_back(s).len() > 0 ==> !is_white(trim_back(s).last()),
    decreases s.len(),
{
    if s.len() > 0 && is_white(s.last()) {
        let k = lemma_trim_back(s.drop_last());
        assert(s.drop_last().take(k) == s.take(k));
        k
    } else {
        assert(s.take(s.len() as int) == s);
        s.len() as int
    }
}

/// Trimming a second time changes nothing.
pub proof fn trimming_is_idempotent(s: Seq<char>)
    ensures
        trimmed(trimmed(s)) == trimmed(s),
{
    lemma_trimmed(s);
}

// ---------------------------------------------------------------------------
// Searching
// ---------------------------------------------------------------------------

/// `p` stands in `s` at position `i`.
pub open spec fn occurs_at(s: Seq<char>, p: Seq<char>, i: int) -> bool {
    0 <= i && i + p.len() <= s.len() && s.subrange(i, i + p.len()) == p
}

/// `p` stands somewhere in `s`.
pub open spec fn contains_text(s: Seq<char>, p: Seq<char>) -> bool {
    exists|i: int| occurs_at(s, p, i)
}

/// The first place at which `p` stands in `s` is `i`.
pub open spec fn first_at(s: Seq<char>, p: Seq<char>, i: int) -> bool {
    &&& occurs_at(s, p, i)
    &&& forall|j: int| j < i ==> !occurs_at(s, p, j)
}

/// The first place at which `p` stands in `s`, if there is one.
pub open spec fn find_text(s: Seq<char>, p: Seq<char>) -> Option<int> {
    if exists|i: int| first_at(s, p, i) {
        Some(choose|i: int| first_at(s, p, i))
    } else {
        None
    }
}

/// A first place is the one that `find_text` gives.
pub proof fn lemma_find_text(s: Seq<char>, p: Seq<char>, i: int)
    requires
        first_at(s, p, i),
    ensures
        find_text(s, p) == Some(i),
{
    let k = choose|k: int| first_at(s, p, k);
    assert(first_at(s, p, k));
    if k < i {
        assert(!occurs_at(s, p, k));
    }
    if i < k {
        assert(!occurs_at(s, p, i));
    }
}

/// Whether the text of `p` stands in `s` at position `i`.
fn matches_at(s: &Vec<char>, p: &Vec<char>, i: usize) -> (b: bool)
    requires
        i + p@.len() <= s@.len(),
    ensures
        b == occurs_at(s@, p@, i as int),
{
    let n: usize = s.len();
    let mut k: usize = 0;
    while k < p.len()
        invariant
            k <= p@.len(),
            i + p@.len() <= s@.len() == n,
            forall|j: int| 0 <= j < k ==> s@[i + j] == p@[j],
        decreases p@.len() - k,
    {
        if s[i + k] != p[k] {
            assert(s@.subrange(i as int, i + p@.len())[k as int] != p@[k as int]);
            return false;
        }
        k += 1;
    }
    assert(s@.subrange(i as int, i + p@.len()) == p@);
    true
}

/// The first place at which `p` stands in `s`.
pub fn find(s: &Vec<char>, p: &str) -> (r: Option<usize>)
    ensures
        match r {
            Some(i) => find_text(s@, p@) == Some(i as int) && first_at(s@, p@, i as int),
            None => find_text(s@, p@) is None && !contains_text(s@, p@),
        },
{
    let wanted: Vec<char> = chars_of(p);
    let n: usize = s.len();
    let m: usize = wanted.len();
    if m > n {
        return None;
    }
    let mut i: usize = 0;
    while i <= n - m
        invariant_except_break
            i <= n - m,
        invariant
            n == s@.len(),
            m == p@.len(),
            wanted@ == p@,
            m <= n,
            forall|j: int| j < i ==> !occurs_at(s@, p@, j),
        ensures
            forall|j: int| !occurs_at(s@, p@, j),
        decreases n - m + 1 - i,
    {
        if matches_at(s, &wanted, i) {
            proof {
                lemma_find_text(s@, p@, i as int);
            }
            return Some(i);
        }
        if i == n - m {
            break ;
        }
        i += 1;
    }
    None
}

/// Whether `p` stands somewhere in `s`.
pub fn contains(s: &Vec<char>, p: &str) -> (b: bool)
    ensures
        b == contains_text(s@, p@),
{
    match find(s, p) {
        Some(i) => true,
        None => false,
    }
}

/// `s` begins with `p`.
pub open spec fn starts_with_text(s: Seq<char>, p: Seq<char>) -> bool {
    occurs_at(s, p, 0)
}

/// Whether `s` begins with `p`.
pub fn starts_with(s: &Vec<char>, p: &str) -> (b: bool)
    ensures
        b == starts_with_text(s@, p@),
{
    let wanted: Vec<char> = chars_of(p);
    wanted.len() <= s.len() && matches_at(s, &wanted, 0)
}

// ---------------------------------------------------------------------------
// Splitting and joining
// ---------------------------------------------------------------------------

/// A kind of character of which runs are collected.
pub enum Class {
    /// ASCII digits.
    Digit,
    /// Anything but white space.
    Word,
}

impl Class {
    /// The characters of the kind.
    pub open spec fn has(self, c: char) -> bool {
        match self {
            Class::Digit => is_digit(c),
            Class::Word => !is_white(c),
        }
    }

    fn holds(&self, c: char) -> (b: bool)
        ensures
            b == self.has(c),
    {
        match self {
            Class::Digit => digit(c),
            Class::Word => !white(c),
        }
    }
}

/// The maximal runs of characters of a kind in `s`, from left to right.
pub open spec fn runs(s: Seq<char>, class: Class) -> Seq<Seq<char>>
    decreases s.len(),
{
    if s.len() == 0 {
        seq![]
    } else {
        let before = s.drop_last();
        let found = runs(before, class);
        if !class.has(s.last()) {
            found
        } else if before.len() > 0 && class.has(before.last()) {
            found.drop_last().push(found.last().push(s.last()))
        } else {
            found.push(seq![s.last()])
        }
    }
}

/// Every run is non-empty and of its kind; where `s` ends in the kind, there is
/// a run.
pub proof fn lemma_runs(s: Seq<char>, class: Class)
    ensures
        s.len() > 0 && class.has(s.last()) ==> runs(s, class).len() > 0,
        forall|i: int| 0 <= i < runs(s, class).len() ==> (#[trigger] runs(s, class)[i]).len() > 0,
        forall|i: int, j: int|
            0 <= i < runs(s, class).len() && 0 <= j < runs(s, class)[i].len() ==> class.has(
                #[trigger] runs(s, class)[i][j],
            ),
    decreases s.len(),
{
    if s.len() > 0 {
        let before = s.drop_last();
        lemma_runs(before, class);
        let found = runs(before, class);
        let all = runs(s, class);
        assert forall|i: int, j: int|
            0 <= i < all.len() && 0 <= j < all[i].len() implies class.has(#[trigger] all[i][j]) by {
            if i < found.len() && j < found[i].len() {
                assert(class.has(found[i][j]));
            }
        }
    }
}

/// Where two texts meet and no run goes across, the runs of the whole are those
/// of the two.
pub proof fn lemma_runs_meet(a: Seq<char>, b: Seq<char>, class: Class)
    requires
        a.len() > 0 && b.len() > 0 ==> !(class.has(a.last()) && class.has(b[0])),
    ensures
        runs(a + b, class) == runs(a, class) + runs(b, class),
    decreases b.len(),
{
    if b.len() == 0 {
        assert(a + b =~= a);
        assert(runs(a, class) + runs(b, class) =~= runs(a, class));
    } else {
        let whole = a + b;
        let init = b.drop_last();
        assert(whole.drop_last() =~= a + init);
        lemma_runs_meet(a, init, class);
        lemma_runs(init, class);
        if init.len() > 0 {
            assert((a + init).last() == init.last());
        } else if a.len() > 0 {
            assert((a + init).last() == a.last());
        }
        assert(runs(whole, class) =~= runs(a, class) + runs(b, class));
    }
}

/// A text of one kind throughout is one run.
pub proof fn lemma_one_run(s: Seq<char>, class: Class)
    requires
        s.len() > 0,
        forall|i: int| 0 <= i < s.len() ==> class.has(#[trigger] s[i]),
    ensures
        runs(s, class) == seq![s],
    decreases s.len(),
{
    let init = s.drop_last();
    assert(class.has(s[s.len() - 1]));
    if init.len() > 0 {
        assert forall|i: int| 0 <= i < init.len() implies class.has(#[trigger] init[i]) by {
            assert(init[i] == s[i]);
        }
        lemma_one_run(init, class);
        assert(init.last() == s[s.len() - 2]);
        assert(init.push(s.last()) =~= s);
    } else {
        assert(runs(init, class).len() == 0);
        assert(seq![s.last()] =~= s);
    }
    assert(runs(s, class) =~= seq![s]);
}

/// A text without a character of the kind has no run.
pub proof fn lemma_no_run(s: Seq<char>, class: Class)
    requires
        forall|i: int| 0 <= i < s.len() ==> !class.has(#[trigger] s[i]),
    ensures
        runs(s, class) == Seq::<Seq<char>>::empty(),
    decreases s.len(),
{
    if s.len() > 0 {
        let init = s.drop_last();
        assert forall|i: int| 0 <= i < init.len() implies !class.has(#[trigger] init[i]) by {
            assert(init[i] == s[i]);
        }
        lemma_no_run(init, class);
        assert(!class.has(s[s.len() - 1]));
    }
}

/// The maximal runs of characters of a kind in `s`, from left to right.
pub fn collect_runs(s: &Vec<char>, class: Class) -> (r: Vec<Vec<char>>)
    ensures
        r@.len() == runs(s@, class).len(),
        forall|i: int| 0 <= i < r@.len() ==> (#[trigger] r@[i])@ == runs(s@, class)[i],
{
    let mut r: Vec<Vec<char>> = Vec::new();
    let mut current: Vec<char> = Vec::new();
    let mut i: usize = 0;
    assert(s@.take(0).len() == 0);
    while i < s.len()
        invariant
            i <= s@.len(),
            current@.len() > 0 <==> i > 0 && class.has(s@[i - 1]),
            ({
                let found = runs(s@.take(i as int), class);
                let done = if current@.len() > 0 {
                    found.drop_last()
                } else {
                    found
                };
                &&& r@.len() == done.len()
                &&& forall|k: int| 0 <= k < r@.len() ==> (#[trigger] r@[k])@ == done[k]
                &&& current@.len() > 0 ==> found.len() > 0 && found.last() == current@
            }),
        decreases s@.len() - i,
    {
        let c: char = s[i];
        proof {
            let next = s@.take(i + 1);
            assert(next.drop_last() == s@.take(i as int));
            assert(next.last() == c);
            if i > 0 {
                assert(s@.take(i as int).last() == s@[i - 1]);
            }
            lemma_runs(s@.take(i as int), class);
        }
        if class.holds(c) {
            current.push(c);
        } else if current.len() > 0 {
            r.push(current);
            current = Vec::new();
        }
        i += 1;
    }
    assert(s@.take(i as int) == s@);
    if current.len() > 0 {
        r.push(current);
    }
    r
}

/// The pieces of `s` between the separators.
pub open spec fn pieces(s: Seq<char>, sep: char) -> Seq<Seq<char>>
    decreases s.len(),
{
    if s.len() == 0 {
        seq![seq![]]
    } else {
        let found = pieces(s.drop_last(), sep);
        if s.last() == sep {
            found.push(seq![])
        } else {
            found.drop_last().push(found.last().push(s.last()))
        }
    }
}

/// The pieces of `s` between the separators.
pub fn split(s: &Vec<char>, sep: char) -> (r: Vec<Vec<char>>)
    ensures
        r@.len() == pieces(s@, sep).len(),
        forall|i: int| 0 <= i < r@.len() ==> (#[trigger] r@[i])@ == pieces(s@, sep)[i],
{
    let mut r: Vec<Vec<char>> = Vec::new();
    let mut current: Vec<char> = Vec::new();
    let mut i: usize = 0;
    assert(s@.take(0).len() == 0);
    while i < s.len()
        invariant
            i <= s@.len(),
            ({
                let found = pieces(s@.take(i as int), sep);
                &&& r@.len() + 1 == found.len()
                &&& forall|k: int| 0 <= k < r@.len() ==> (#[trigger] r@[k])@ == found[k]
                &&& found.last() == current@
            }),
        decreases s@.len() - i,
    {
        let c: char = s[i];
        proof {
            let next = s@.take(i + 1);
            assert(next.drop_last() == s@.take(i as int));
            assert(next.last() == c);
        }
        if c == sep {
            r.push(current);
            current = Vec::new();
        } else {
            current.push(c);
        }
        i += 1;
    }
    assert(s@.take(i as int) == s@);
    r.push(current);
    r
}

/// The parts one after the other, with `sep` between each two.
pub open spec fn joined(parts: Seq<Seq<char>>, sep: Seq<char>) -> Seq<char>
    decreases parts.len(),
{
    if parts.len() == 0 {
        seq![]
    } else if parts.len() == 1 {
        parts[0]
    } else {
        joined(parts.drop_last(), sep) + sep + parts.last()
    }
}

/// The strings one after the other, with `sep` between each two.
pub fn join(parts: &Vec<String>, sep: &str) -> (r: String)
    ensures
        r@ == joined(views(parts@), sep@),
{
    let mut r: String = String::new();
    let mut i: usize = 0;
    while i < parts.len()
        invariant
            i <= parts@.len(),
            r@ == joined(views(parts@).take(i as int), sep@),
        decreases parts@.len() - i,
    {
        proof {
            let next = views(parts@).take(i + 1);
            assert(next.drop_last() == views(parts@).take(i as int));
            assert(next.last() == parts@[i as int]@);
            assert(i == 0 ==> r@ + parts@[0]@ == parts@[0]@);
        }
        if i > 0 {
            r.append(sep);
        }
        r.append(parts[i].as_str());
        i += 1;
    }
    assert(views(parts@).take(i as int) == views(parts@));
    r
}

// ---------------------------------------------------------------------------
// What holds of every text
// ---------------------------------------------------------------------------

/// `p` stands somewhere in `s`, with something or nothing before and after it.
pub open spec fn stands_in(s: Seq<char>, p: Seq<char>) -> bool {
    exists|a: Seq<char>, b: Seq<char>| s == #[trigger] (a + p + b)
}

/// A text is contained exactly where the whole can be taken apart around it.
pub proof fn what_is_contained_stands_in(s: Seq<char>, p: Seq<char>)
    ensures
        contains_text(s, p) <==> stands_in(s, p),
{
    if contains_text(s, p) {
        let i = choose|i: int| occurs_at(s, p, i);
        let a = s.take(i);
        let b = s.skip(i + p.len());
        assert(s.subrange(i, i + p.len()) == p);
        assert(s =~= a + p + b);
    }
    if stands_in(s, p) {
        let (a, b) = choose|a: Seq<char>, b: Seq<char>| s == #[trigger] (a + p + b);
        assert(s.subrange(a.len() as int, (a.len() + p.len()) as int) =~= p);
        assert(occurs_at(s, p, a.len() as int));
    }
}

/// A search finds the first place: the text stands there, and it does not stand in
/// what comes before its last character.
pub proof fn searches_find_the_first_place(s: Seq<char>, p: Seq<char>)
    ensures
        find_text(s, p) is Some <==> stands_in(s, p),
        find_text(s, p) is Some ==> {
            let i = find_text(s, p)->0;
            &&& 0 <= i && i + p.len() <= s.len()
            &&& s == s.take(i) + p + s.skip(i + p.len())
            &&& p.len() > 0 ==> !stands_in(s.take(i + p.len() - 1), p)
        },
{
    what_is_contained_stands_in(s, p);
    if contains_text(s, p) {
        let k = choose|k: int| occurs_at(s, p, k);
        lemma_some_first(s, p, k);
        let i = find_text(s, p)->0;
        assert(first_at(s, p, i));
        assert(s.subrange(i, i + p.len()) == p);
        assert(s =~= s.take(i) + p + s.skip(i + p.len()));
        if p.len() > 0 {
            let front = s.take(i + p.len() - 1);
            what_is_contained_stands_in(front, p);
            if contains_text(front, p) {
                let j = choose|j: int| occurs_at(front, p, j);
                assert(s.subrange(j, j + p.len()) =~= front.subrange(j, j + p.len()));
                assert(occurs_at(s, p, j));
            }
        }
    } else if find_text(s, p) is Some {
        let i = find_text(s, p)->0;
        assert(first_at(s, p, i));
        assert(occurs_at(s, p, i));
    }
}

/// Where a text occurs, it occurs a first time.
proof fn lemma_some_first(s: Seq<char>, p: Seq<char>, k: int)
    requires
        occurs_at(s, p, k),
    ensures
        exists|i: int| first_at(s, p, i),
    decreases k,
{
    if exists|j: int| j < k && occurs_at(s, p, j) {
        let j = choose|j: int| j < k && occurs_at(s, p, j);
        lemma_some_first(s, p, j);
    } else {
        assert(first_at(s, p, k));
    }
}

/// Trimming takes away white space from the two ends, all of it and nothing else.
pub proof fn trimming_takes_white_space_only(s: Seq<char>) -> (at: (int, int))
    ensures
        0 <= at.0 <= at.1 <= s.len(),
        trimmed(s) == s.subrange(at.0, at.1),
        forall|i: int| 0 <= i < at.0 ==> is_white(#[trigger] s[i]),
        forall|i: int| at.1 <= i < s.len() ==> is_white(#[trigger] s[i]),
        at.0 < at.1 ==> !is_white(s[at.0]) && !is_white(s[at.1 - 1]),
{
    let lo = lemma_trim_front(s);
    lemma_front_is_white(s, lo);
    let f = trim_front(s);
    let hi = lemma_trim_back(f);
    lemma_back_is_white(f, hi);
    assert(trimmed(s) =~= s.subrange(lo, lo + hi));
    assert forall|i: int| lo + hi <= i < s.len() implies is_white(#[trigger] s[i]) by {
        assert(f[i - lo] == s[i]);
    }
    if hi > 0 {
        assert(trim_back(f).last() == s[lo + hi - 1]);
        assert(trim_back(f).len() > 0);
        assert(f.len() > 0);
        assert(f[0] == s[lo]);
    }
    (lo, lo + hi)
}

proof fn lemma_front_is_white(s: Seq<char>, lo: int)
    requires
        0 <= lo <= s.len(),
        trim_front(s) == s.skip(lo),
    ensures
        forall|i: int| 0 <= i < lo ==> is_white(#[trigger] s[i]),
    decreases s.len(),
{
    if s.len() > 0 && is_white(s[0]) {
        let rest = s.drop_first();
        let k = lemma_trim_front(rest);
        assert(trim_front(s).len() == s.len() - lo);
        assert(trim_front(rest).len() == rest.len() - k);
        lemma_front_is_white(rest, k);
        assert forall|i: int| 0 <= i < lo implies is_white(#[trigger] s[i]) by {
            if i > 0 {
                assert(rest[i - 1] == s[i]);
            }
        }
    } else {
        assert(s.skip(lo).len() == s.len());
    }
}

proof fn lemma_back_is_white(s: Seq<char>, hi: int)
    requires
        0 <= hi <= s.len(),
        trim_back(s) == s.take(hi),
    ensures
        forall|i: int| hi <= i < s.len() ==> is_white(#[trigger] s[i]),
    decreases s.len(),
{
    if s.len() > 0 && is_white(s.last()) {
        let init = s.drop_last();
        let k = lemma_trim_back(init);
        assert(trim_back(s).len() == hi);
        assert(trim_back(init).len() == k);
        lemma_back_is_white(init, k);
        assert forall|i: int| hi <= i < s.len() implies is_white(#[trigger] s[i]) by {
            if i < init.len() {
                assert(init[i] == s[i]);
            }
        }
    } else {
        assert(s.take(hi).len() == s.len());
    }
}

/// White space is the blank, the tab, the ends of lines and pages, and the other
/// spaces of Unicode.
pub proof fn white_space_is_what_unicode_says(c: char)
    ensures
        is_white(c) <==> seq![
            ' ', '\t', '\n', '\u{b}', '\u{c}', '\r', '\u{85}', '\u{a0}', '\u{1680}', '\u{2000}',
            '\u{2001}', '\u{2002}', '\u{2003}', '\u{2004}', '\u{2005}', '\u{2006}', '\u{2007}',
            '\u{2008}', '\u{2009}', '\u{200a}', '\u{2028}', '\u{2029}', '\u{202f}', '\u{205f}',
            '\u{3000}',
        ].contains(c),
{
    let all = seq![
        ' ', '\t', '\n', '\u{b}', '\u{c}', '\r', '\u{85}', '\u{a0}', '\u{1680}', '\u{2000}',
        '\u{2001}', '\u{2002}', '\u{2003}', '\u{2004}', '\u{2005}', '\u{2006}', '\u{2007}',
        '\u{2008}', '\u{2009}', '\u{200a}', '\u{2028}', '\u{2029}', '\u{202f}', '\u{205f}',
        '\u{3000}',
    ];
    if is_white(c) {
        let u = c as int;
        let k: int = if u == 0x20 {
            0
        } else if u <= 0x0d {
            u - 8
        } else if u == 0x85 {
            6
        } else if u == 0xa0 {
            7
        } else if u == 0x1680 {
            8
        } else if u <= 0x200a {
            u - 0x2000 + 9
        } else if u == 0x2028 {
            20
        } else if u == 0x2029 {
            21
        } else if u == 0x202f {
            22
        } else if u == 0x205f {
            23
        } else {
            24
        };
        assert(all[k] == c);
    }
}

/// The digits are the ten from zero to nine.
pub proof fn digits_are_ten(c: char)
    ensures
        is_digit(c) <==> seq!['0', '1', '2', '3', '4', '5', '6', '7', '8', '9'].contains(c),
{
    let all = seq!['0', '1', '2', '3', '4', '5', '6', '7', '8', '9'];
    if is_digit(c) {
        assert(all[c as int - 48] == c);
    }
}

/// Joining puts the separator between each two parts, and nowhere else.
pub proof fn joining_puts_the_separator_between(
    parts: Seq<Seq<char>>,
    part: Seq<char>,
    sep: Seq<char>,
)
    ensures
        joined(seq![], sep) == Seq::<char>::empty(),
        joined(seq![part], sep) == part,
        parts.len() > 0 ==> joined(parts.push(part), sep) == joined(parts, sep) + sep + part,
{
    assert(parts.push(part).drop_last() =~= parts);
}

/// The pieces of two texts with a separator between them are those of the one and
/// then those of the other, and a text without a separator is one piece.
pub proof fn pieces_part_at_separators(a: Seq<char>, b: Seq<char>, sep: char)
    ensures
        pieces(a.push(sep) + b, sep) == pieces(a, sep) + pieces(b, sep),
        !b.contains(sep) ==> pieces(b, sep) == seq![b],
    decreases b.len(),
{
    let whole = a.push(sep) + b;
    if b.len() == 0 {
        assert(whole =~= a.push(sep));
        assert(whole.drop_last() =~= a);
        assert(pieces(whole, sep) =~= pieces(a, sep) + pieces(b, sep));
        assert(b =~= Seq::<char>::empty());
    } else {
        let init = b.drop_last();
        pieces_part_at_separators(a, init, sep);
        assert(whole.drop_last() =~= a.push(sep) + init);
        lemma_some_piece(init, sep);
        assert(pieces(whole, sep) =~= pieces(a, sep) + pieces(b, sep));
        if !b.contains(sep) {
            assert(b[b.len() - 1] != sep);
            assert forall|i: int| 0 <= i < init.len() implies init[i] != sep by {
                assert(b[i] != sep);
            }
            assert(init.push(b.last()) =~= b);
            assert(pieces(b, sep) =~= seq![b]);
        }
    }
}

proof fn lemma_some_piece(s: Seq<char>, sep: char)
    ensures
        pieces(s, sep).len() > 0,
    decreases s.len(),
{
    if s.len() > 0 {
        lemma_some_piece(s.drop_last(), sep);
    }
}

/// Every run stands in the text that it was found in.
pub proof fn runs_stand_in_the_text(s: Seq<char>, class: Class, i: int)
    requires
        0 <= i < runs(s, class).len(),
    ensures
        stands_in(s, runs(s, class)[i]),
    decreases s.len(),
{
    let at = lemma_run_at(s, class, i);
    let run = runs(s, class)[i];
    assert(s =~= s.take(at) + run + s.skip(at + run.len()));
}

proof fn lemma_run_at(s: Seq<char>, class: Class, i: int) -> (at: int)
    requires
        0 <= i < runs(s, class).len(),
    ensures
        0 <= at,
        at + runs(s, class)[i].len() <= s.len(),
        s.subrange(at, at + runs(s, class)[i].len()) == runs(s, class)[i],
        i == runs(s, class).len() - 1 && class.has(s.last()) ==> at + runs(s, class)[i].len()
            == s.len(),
    decreases s.len(),
{
    let before = s.drop_last();
    let found = runs(before, class);
    let all = runs(s, class);
    lemma_runs(before, class);
    if !class.has(s.last()) {
        let at = lemma_run_at(before, class, i);
        assert(s.subrange(at, at + all[i].len()) =~= before.subrange(at, at + all[i].len()));
        at
    } else if before.len() > 0 && class.has(before.last()) {
        let at = lemma_run_at(before, class, i);
        if i == all.len() - 1 {
            assert(s.subrange(at, at + all[i].len()) =~= all[i]);
        } else {
            assert(s.subrange(at, at + all[i].len()) =~= before.subrange(at, at + all[i].len()));
        }
        at
    } else if i < found.len() {
        let at = lemma_run_at(before, class, i);
        assert(s.subrange(at, at + all[i].len()) =~= before.subrange(at, at + all[i].len()));
        at
    } else {
        assert(s.subrange(s.len() - 1, s.len() as int) =~= all[i]);
        s.len() - 1
    }
}

} // verus!
