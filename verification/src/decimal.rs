//! Decimal numbers: writing them, and reading them back.

use crate::text::{collect_runs, digit, is_digit, lemma_runs, runs, slice_of, Class};
use vstd::prelude::*;
use vstd::string::*;

verus! {

// ---------------------------------------------------------------------------
// Writing
// ---------------------------------------------------------------------------

/// The character of a digit below ten.
pub open spec fn digit_char(d: nat) -> char {
    (48 + d) as char
}

/// The decimal digits of `n`, without leading zeros.
pub open spec fn decimal(n: nat) -> Seq<char>
    decreases n,
{
    if n < 10 {
        seq![digit_char(n)]
    } else {
        decimal(n / 10).push(digit_char(n % 10))
    }
}

/// The decimal digits of an integer, after a minus sign where it is negative.
pub open spec fn signed_decimal(n: int) -> Seq<char> {
    if n < 0 {
        seq!['-'] + decimal((-n) as nat)
    } else {
        decimal(n as nat)
    }
}

/// Two decimal digits, the first of which may be zero.
pub open spec fn two_digits(n: nat) -> Seq<char> {
    seq![digit_char(n / 10), digit_char(n % 10)]
}

/// The character of a digit below sixteen, in lower case.
pub open spec fn hex_char(d: nat) -> char {
    if d < 10 {
        (48 + d) as char
    } else {
        (87 + d) as char
    }
}

/// The last `width` hexadecimal digits of `n`.
pub open spec fn hex_digits(n: nat, width: nat) -> Seq<char>
    decreases width,
{
    if width == 0 {
        seq![]
    } else {
        hex_digits(n / 16, (width - 1) as nat).push(hex_char(n % 16))
    }
}

/// Appends the decimal digits of `n`.
pub fn push_decimal(s: &mut String, n: u64)
    ensures
        final(s)@ == old(s)@ + decimal(n as nat),
    decreases n,
{
    if n >= 10 {
        push_decimal(s, n / 10);
    }
    let d: u8 = (n % 10) as u8;
    s.push((48u8 + d) as char);
    assert(s@ =~= old(s)@ + decimal(n as nat));
}

/// Appends the decimal digits of `n`, after a minus sign where it is negative.
pub fn push_signed(s: &mut String, n: i32)
    ensures
        final(s)@ == old(s)@ + signed_decimal(n as int),
{
    if n < 0 {
        s.push('-');
        push_decimal(s, (-(n as i64)) as u64);
    } else {
        push_decimal(s, n as u64);
    }
    assert(s@ =~= old(s)@ + signed_decimal(n as int));
}

/// Appends the two decimal digits of `n`.
pub fn push_two_digits(s: &mut String, n: u64)
    requires
        n < 100,
    ensures
        final(s)@ == old(s)@ + two_digits(n as nat),
{
    let tens: u8 = (n / 10) as u8;
    let ones: u8 = (n % 10) as u8;
    s.push((48u8 + tens) as char);
    s.push((48u8 + ones) as char);
    assert(s@ =~= old(s)@ + two_digits(n as nat));
}

/// Appends the last `width` hexadecimal digits of `n`.
pub fn push_hex(s: &mut String, n: u32, width: u8)
    ensures
        final(s)@ == old(s)@ + hex_digits(n as nat, width as nat),
    decreases width,
{
    if width > 0 {
        push_hex(s, n / 16, width - 1);
        let d: u8 = (n % 16) as u8;
        if d < 10 {
            s.push((48u8 + d) as char);
        } else {
            s.push((87u8 + d) as char);
        }
    }
    assert(s@ =~= old(s)@ + hex_digits(n as nat, width as nat));
}

/// The decimal digits of `n` as a string.
pub fn decimal_of(n: u64) -> (r: String)
    ensures
        r@ == decimal(n as nat),
{
    let mut r: String = String::new();
    push_decimal(&mut r, n);
    assert(r@ =~= decimal(n as nat));
    r
}

// ---------------------------------------------------------------------------
// Reading
// ---------------------------------------------------------------------------

/// Nothing but decimal digits.
pub open spec fn all_digits(s: Seq<char>) -> bool {
    forall|i: int| 0 <= i < s.len() ==> is_digit(#[trigger] s[i])
}

/// The number that a sequence of decimal digits denotes.
pub open spec fn digits_value(s: Seq<char>) -> nat
    decreases s.len(),
{
    if s.len() == 0 {
        0
    } else {
        (digits_value(s.drop_last()) * 10 + (s.last() as int - 48)) as nat
    }
}

/// The number that `s` denotes, where it is an optional plus sign and then one
/// or more digits, of a value of at most `max`.
pub open spec fn unsigned(s: Seq<char>, max: nat) -> Option<nat> {
    let body = if s.len() > 0 && s[0] == '+' {
        s.drop_first()
    } else {
        s
    };
    if body.len() > 0 && all_digits(body) && digits_value(body) <= max {
        Some(digits_value(body))
    } else {
        None
    }
}

/// The values of those among `found` that fit in 64 bits.
pub open spec fn values(found: Seq<Seq<char>>) -> Seq<u64>
    decreases found.len(),
{
    if found.len() == 0 {
        seq![]
    } else {
        let before = values(found.drop_last());
        let v = digits_value(found.last());
        if v <= u64::MAX {
            before.push(v as u64)
        } else {
            before
        }
    }
}

/// The numbers that stand in `s` as runs of digits and fit in 64 bits, from
/// left to right.
pub open spec fn numbers(s: Seq<char>) -> Seq<u64> {
    values(runs(s, Class::Digit))
}

/// More digits never denote a smaller number.
proof fn lemma_value_grows(s: Seq<char>, i: int)
    requires
        0 <= i <= s.len(),
        all_digits(s),
    ensures
        digits_value(s.take(i)) <= digits_value(s),
    decreases s.len() - i,
{
    if i < s.len() {
        lemma_value_grows(s, i + 1);
        assert(s.take(i + 1).drop_last() == s.take(i));
        assert(is_digit(s[i]));
    } else {
        assert(s.take(i) == s);
    }
}

/// The number that the digits denote, where it is at most `max`.
fn read_digits(s: &Vec<char>, max: u64) -> (r: Option<u64>)
    requires
        all_digits(s@),
    ensures
        match r {
            Some(v) => v == digits_value(s@) && v <= max,
            None => digits_value(s@) > max,
        },
{
    let mut v: u64 = 0;
    let mut i: usize = 0;
    while i < s.len()
        invariant
            i <= s@.len(),
            all_digits(s@),
            v == digits_value(s@.take(i as int)),
            v <= max,
        decreases s@.len() - i,
    {
        let c: char = s[i];
        assert(is_digit(s@[i as int]));
        let d: u64 = (c as u32 - 48) as u64;
        proof {
            assert(s@.take(i + 1).drop_last() == s@.take(i as int));
            lemma_value_grows(s@, i + 1);
        }
        if d > max || v > max / 10 || v * 10 > max - d {
            return None;
        }
        v = v * 10 + d;
        i += 1;
    }
    assert(s@.take(i as int) == s@);
    Some(v)
}

/// The number that `s` denotes, where it is an optional plus sign and then one
/// or more digits, of a value of at most `max`.
pub fn read_unsigned(s: &Vec<char>, max: u64) -> (r: Option<u64>)
    ensures
        match r {
            Some(v) => unsigned(s@, max as nat) == Some(v as nat),
            None => unsigned(s@, max as nat) is None,
        },
{
    let n: usize = s.len();
    let start: usize = if n > 0 && s[0] == '+' {
        1
    } else {
        0
    };
    let body: Vec<char> = slice_of(s, start, n);
    assert(body@ == (if s@.len() > 0 && s@[0] == '+' {
        s@.drop_first()
    } else {
        s@
    }));
    if body.len() == 0 {
        return None;
    }
    let mut i: usize = 0;
    while i < body.len()
        invariant
            i <= body@.len(),
            unsigned(s@, max as nat) is Some ==> all_digits(body@),
            forall|j: int| 0 <= j < i ==> is_digit(#[trigger] body@[j]),
        decreases body@.len() - i,
    {
        if !digit(body[i]) {
            assert(!all_digits(body@));
            return None;
        }
        i += 1;
    }
    read_digits(&body, max)
}

/// The numbers that stand in `s` as runs of digits and fit in 64 bits, from
/// left to right.
pub fn read_numbers(s: &Vec<char>) -> (r: Vec<u64>)
    ensures
        r@ == numbers(s@),
{
    let found: Vec<Vec<char>> = collect_runs(s, Class::Digit);
    let ghost all = runs(s@, Class::Digit);
    let mut r: Vec<u64> = Vec::new();
    let mut i: usize = 0;
    proof {
        lemma_runs(s@, Class::Digit);
    }
    while i < found.len()
        invariant
            i <= found@.len() == all.len(),
            forall|k: int| 0 <= k < found@.len() ==> (#[trigger] found@[k])@ == all[k],
            forall|k: int, j: int|
                0 <= k < all.len() && 0 <= j < all[k].len() ==> Class::Digit.has(
                    #[trigger] all[k][j],
                ),
            r@ == values(all.take(i as int)),
        decreases found@.len() - i,
    {
        let run: &Vec<char> = &found[i];
        proof {
            assert(all.take(i + 1).drop_last() == all.take(i as int));
            assert(all.take(i + 1).last() == run@);
            assert forall|j: int| 0 <= j < run@.len() implies is_digit(#[trigger] run@[j]) by {
                assert(Class::Digit.has(all[i as int][j]));
            }
        }
        if let Some(v) = read_digits(run, u64::MAX) {
            r.push(v);
        }
        i += 1;
    }
    assert(all.take(i as int) == all);
    r
}

// ---------------------------------------------------------------------------
// What is written is read back
// ---------------------------------------------------------------------------

/// The digits that are written for a number are digits, at least one, and
/// denote that number.
pub proof fn decimal_denotes_its_number(n: nat)
    ensures
        decimal(n).len() > 0,
        all_digits(decimal(n)),
        digits_value(decimal(n)) == n,
    decreases n,
{
    if n >= 10 {
        decimal_denotes_its_number(n / 10);
        assert(decimal(n).drop_last() == decimal(n / 10));
    } else {
        assert(decimal(n).drop_last().len() == 0);
        assert(digits_value(decimal(n).drop_last()) == 0);
    }
}

/// A number that is written and then read is the number.
pub proof fn decimal_is_read_back(n: nat, max: nat)
    requires
        n <= max,
    ensures
        unsigned(decimal(n), max) == Some(n),
{
    decimal_denotes_its_number(n);
    assert(is_digit(decimal(n)[0]));
}

/// Two numbers that are written alike are the same.
pub proof fn decimal_is_injective(a: nat, b: nat)
    requires
        decimal(a) == decimal(b),
    ensures
        a == b,
{
    decimal_denotes_its_number(a);
    decimal_denotes_its_number(b);
}

/// What is read as a number is digits, after a plus sign or not, that denote it; and
/// all such digits are read, unless they denote more than is allowed.
pub proof fn numbers_are_read_as_they_stand(digits: Seq<char>, max: nat)
    requires
        digits.len() > 0,
        all_digits(digits),
    ensures
        digits_value(digits) <= max ==> unsigned(digits, max) == Some(digits_value(digits)),
        digits_value(digits) <= max ==> unsigned(seq!['+'] + digits, max) == Some(
            digits_value(digits),
        ),
        digits_value(digits) > max ==> unsigned(digits, max) is None,
{
    assert(is_digit(digits[0]));
    assert((seq!['+'] + digits).drop_first() =~= digits);
}

/// A text with anything else in it is not read as a number.
pub proof fn only_numbers_are_read(s: Seq<char>, max: nat)
    ensures
        unsigned(s, max) is Some ==> {
            &&& unsigned(s, max)->0 <= max
            &&& exists|digits: Seq<char>|
                #![trigger all_digits(digits)]
                digits.len() > 0 && all_digits(digits) && (s == digits || s == seq!['+'] + digits)
                    && digits_value(digits) == unsigned(s, max)->0
        },
{
    if unsigned(s, max) is Some {
        if s[0] == '+' {
            assert(seq!['+'] + s.drop_first() =~= s);
            assert(all_digits(s.drop_first()));
        } else {
            assert(all_digits(s));
        }
    }
}

/// One digit more makes ten times the number, and the digit.
pub proof fn digits_count_in_tens(digits: Seq<char>, d: nat)
    requires
        d < 10,
    ensures
        digits_value(seq![]) == 0,
        digits_value(digits.push("0123456789"@[d as int])) == 10 * digits_value(digits) + d,
{
    reveal_strlit("0123456789");
    let c = "0123456789"@[d as int];
    assert(digits.push(c).drop_last() =~= digits);
    assert(c as int == 48 + d);
}

/// Two digits are two digits, and denote their number.
pub proof fn two_digits_denote_their_number(n: nat)
    requires
        n < 100,
    ensures
        two_digits(n).len() == 2,
        two_digits(n)[0] == "0123456789"@[n as int / 10],
        two_digits(n)[1] == "0123456789"@[n as int % 10],
{
    reveal_strlit("0123456789");
}

/// Hexadecimal digits come from the right, sixteen by sixteen, as many as are wanted.
pub proof fn hex_digits_count_in_sixteens(n: nat, d: nat, width: nat)
    requires
        d < 16,
    ensures
        hex_digits(n, 0) == Seq::<char>::empty(),
        hex_digits(16 * n + d, width + 1) == hex_digits(n, width).push(
            "0123456789abcdef"@[d as int],
        ),
{
    reveal_strlit("0123456789abcdef");
    assert((16 * n + d) / 16 == n);
    assert((16 * n + d) % 16 == d);
}

/// A negative number has a minus sign before the digits of its opposite.
pub proof fn negative_numbers_have_a_sign(n: nat)
    ensures
        signed_decimal(n as int) == decimal(n),
        n > 0 ==> signed_decimal(-(n as int)) == seq!['-'] + decimal(n),
{
}

/// Of the digits that were found, those that denote a number of 64 bits are kept, in
/// order, and the others are passed over.
pub proof fn numbers_that_fit_are_kept(found: Seq<Seq<char>>, digits: Seq<char>)
    ensures
        values(seq![]) == Seq::<u64>::empty(),
        digits_value(digits) <= 0xffff_ffff_ffff_ffff ==> values(found.push(digits)) == values(
            found,
        ).push(digits_value(digits) as u64),
        digits_value(digits) > 0xffff_ffff_ffff_ffff ==> values(found.push(digits)) == values(
            found,
        ),
{
    assert(found.push(digits).drop_last() =~= found);
}

} // verus!
