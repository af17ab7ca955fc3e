//! Amounts for people to read: bytes, rates, durations.

use crate::decimal::{decimal, push_decimal, push_two_digits, two_digits};
use vstd::prelude::*;
use vstd::string::*;

verus! {

/// `n` divided by `d`, to the nearest integer, and to the even one of two that
/// are equally near.
pub open spec fn nearest(n: nat, d: nat) -> nat {
    let q = n / d;
    let r = n % d;
    if 2 * r > d || (2 * r == d && q % 2 == 1) {
        q + 1
    } else {
        q
    }
}

/// The distance between neighbouring double-precision numbers around `b`: `unit`
/// doubled until `b` is below two to the power 53 of it.
pub open spec fn spacing(b: nat, unit: nat) -> nat
    decreases
            if b >= 0x20_0000_0000_0000 * unit && unit > 0 {
                b - 0x20_0000_0000_0000 * unit + 1
            } else {
                0
            },
{
    if unit == 0 || b < 0x20_0000_0000_0000 * unit {
        unit
    } else {
        spacing(b, 2 * unit)
    }
}

/// The double-precision number that is nearest to `b`.
pub open spec fn as_double(b: nat) -> nat {
    let unit = spacing(b, 1);
    nearest(b, unit) * unit
}

/// The index of the unit in which an amount is told: B, KiB, MiB, GiB, TiB, PiB.
pub open spec fn magnitude(m: nat) -> nat {
    if m < 0x400 {
        0
    } else if m < 0x10_0000 {
        1
    } else if m < 0x4000_0000 {
        2
    } else if m < 0x100_0000_0000 {
        3
    } else if m < 0x4_0000_0000_0000 {
        4
    } else {
        5
    }
}

/// How many bytes a unit has.
pub open spec fn unit_size(i: nat) -> nat {
    if i == 0 {
        1
    } else if i == 1 {
        0x400
    } else if i == 2 {
        0x10_0000
    } else if i == 3 {
        0x4000_0000
    } else if i == 4 {
        0x100_0000_0000
    } else {
        0x4_0000_0000_0000
    }
}

/// The name of a unit.
pub open spec fn unit_name(i: nat) -> Seq<char> {
    if i == 0 {
        "B"@
    } else if i == 1 {
        "KiB"@
    } else if i == 2 {
        "MiB"@
    } else if i == 3 {
        "GiB"@
    } else if i == 4 {
        "TiB"@
    } else {
        "PiB"@
    }
}

/// An amount of bytes: below a kibibyte exactly; otherwise, as the nearest
/// double-precision number, to a tenth of its unit, or from a hundred units on
/// to a whole one.
pub open spec fn bytes_text(b: nat) -> Seq<char> {
    if b < 1024 {
        decimal(b) + " B"@
    } else {
        let m = as_double(b);
        let i = magnitude(m);
        let d = unit_size(i);
        if m >= 100 * d {
            decimal(nearest(m, d)) + " "@ + unit_name(i)
        } else {
            let tenths = nearest(10 * m, d);
            decimal(tenths / 10) + "."@ + decimal(tenths % 10) + " "@ + unit_name(i)
        }
    }
}

/// A rate in bytes per second.
pub open spec fn rate_text(bps: nat) -> Seq<char> {
    bytes_text(bps) + "/s"@
}

/// A duration in seconds, as hours, minutes and seconds.
pub open spec fn duration_text(secs: nat) -> Seq<char> {
    let h = secs / 3600;
    let m = (secs % 3600) / 60;
    let s = secs % 60;
    if h > 0 {
        decimal(h) + "h"@ + two_digits(m) + "m"@ + two_digits(s) + "s"@
    } else if m > 0 {
        decimal(m) + "m"@ + two_digits(s) + "s"@
    } else {
        decimal(s) + "s"@
    }
}

/// `n` divided by `d`, to the nearest integer, and to the even one of two that
/// are equally near.
fn divide(n: u128, d: u128) -> (r: u128)
    requires
        0 < d <= 0x4_0000_0000_0000,
        n < 0x1_0000_0000_0000_0000_0000,
    ensures
        r == nearest(n as nat, d as nat),
        r <= n + 1,
{
    let q: u128 = n / d;
    let r: u128 = n % d;
    proof {
        vstd::arithmetic::div_mod::lemma_div_is_ordered_by_denominator(n as int, 1, d as int);
        vstd::arithmetic::div_mod::lemma_div_by_self(1);
    }
    if 2 * r > d || (2 * r == d && q % 2 == 1) {
        q + 1
    } else {
        q
    }
}

/// The double-precision number that is nearest to `b`.
fn double(b: u64) -> (r: u128)
    ensures
        r == as_double(b as nat),
        r < 0x2_0000_0000_0000_0000,
{
    let b: u128 = b as u128;
    let mut unit: u128 = 1;
    while b >= 0x20_0000_0000_0000 * unit
        invariant
            b <= 0xffff_ffff_ffff_ffff,
            1 <= unit < 4096,
            spacing(b as nat, 1) == spacing(b as nat, unit as nat),
        decreases 4096 - unit,
    {
        unit = 2 * unit;
    }
    let q: u128 = divide(b, unit);
    proof {
        assert(spacing(b as nat, unit as nat) == unit);
        let n = b as nat;
        let d = unit as nat;
        assert(n / d * d <= n) by (nonlinear_arith)
            requires
                d > 0,
        ;
        assert(q <= n / d + 1);
        assert(q * d <= (n / d + 1) * d) by (nonlinear_arith)
            requires
                q <= n / d + 1,
        ;
        assert((n / d + 1) * d == n / d * d + d) by (nonlinear_arith);
    }
    q * unit
}

/// An amount of bytes for people to read.
pub fn human_bytes(b: u64) -> (r: String)
    ensures
        r@ == bytes_text(b as nat),
{
    let mut r: String = String::new();
    if b < 1024 {
        push_decimal(&mut r, b);
        r.append(" B");
        assert(r@ =~= bytes_text(b as nat));
        return r;
    }
    let m: u128 = double(b);
    let (d, name): (u128, &str) = if m < 0x400 {
        (1, "B")
    } else if m < 0x10_0000 {
        (0x400, "KiB")
    } else if m < 0x4000_0000 {
        (0x10_0000, "MiB")
    } else if m < 0x100_0000_0000 {
        (0x4000_0000, "GiB")
    } else if m < 0x4_0000_0000_0000 {
        (0x100_0000_0000, "TiB")
    } else {
        (0x4_0000_0000_0000, "PiB")
    };
    assert(d == unit_size(magnitude(m as nat)));
    assert(name@ == unit_name(magnitude(m as nat)));
    if m >= 100 * d {
        let whole: u128 = divide(m, d);
        assert(whole <= 0xffff_ffff_ffff_ffff) by {
            lemma_nearest_small(m as nat, d as nat);
        }
        push_decimal(&mut r, whole as u64);
    } else {
        let tenths: u128 = divide(10 * m, d);
        assert(tenths <= 0xffff_ffff_ffff_ffff) by {
            lemma_nearest_small((10 * m) as nat, d as nat);
        }
        push_decimal(&mut r, (tenths / 10) as u64);
        r.append(".");
        push_decimal(&mut r, (tenths % 10) as u64);
    }
    r.append(" ");
    r.append(name);
    assert(r@ =~= bytes_text(b as nat));
    r
}

/// A division by a large number gives a small one.
proof fn lemma_nearest_small(n: nat, d: nat)
    requires
        n < 0x20_0000_0000_0000_0000,
        d >= 1,
        n < 1024 * 0x400 || d >= 0x400,
    ensures
        nearest(n, d) <= 0xffff_ffff_ffff_ffff,
{
    if d >= 0x400 {
        vstd::arithmetic::div_mod::lemma_div_is_ordered_by_denominator(
            n as int,
            0x400,
            d as int,
        );
    } else {
        vstd::arithmetic::div_mod::lemma_div_is_ordered_by_denominator(n as int, 1, d as int);
    }
}

/// A rate in whole bytes per second, for people to read.
pub fn human_rate(bps: u64) -> (r: String)
    ensures
        r@ == rate_text(bps as nat),
{
    human_bytes(bps).concat("/s")
}

/// A duration in whole seconds, for people to read.
pub fn human_duration(secs: u64) -> (r: String)
    ensures
        r@ == duration_text(secs as nat),
{
    let h: u64 = secs / 3600;
    let m: u64 = (secs % 3600) / 60;
    let s: u64 = secs % 60;
    let mut r: String = String::new();
    if h > 0 {
        push_decimal(&mut r, h);
        r.append("h");
        push_two_digits(&mut r, m);
        r.append("m");
        push_two_digits(&mut r, s);
    } else if m > 0 {
        push_decimal(&mut r, m);
        r.append("m");
        push_two_digits(&mut r, s);
    } else {
        push_decimal(&mut r, s);
    }
    r.append("s");
    assert(r@ =~= duration_text(secs as nat));
    r
}

// ---------------------------------------------------------------------------
// What holds of every amount
// ---------------------------------------------------------------------------

/// A division to the nearest integer is off by at most a half.
pub proof fn nearest_is_near(n: nat, d: nat)
    requires
        d > 0,
    ensures
        2 * (nearest(n, d) * d - n) <= d,
        2 * (n - nearest(n, d) * d) <= d,
{
    let q = n / d;
    let r = n % d;
    vstd::arithmetic::div_mod::lemma_fundamental_div_mod(n as int, d as int);
    assert(q * d == d * q) by (nonlinear_arith);
    assert((q + 1) * d == q * d + d) by (nonlinear_arith);
}

/// Below two to the power 53 every amount is a double-precision number, so that
/// what is shown is within half of the last digit of the amount itself.
pub proof fn amounts_are_told_to_the_last_digit(b: nat)
    requires
        1024 <= b < 0x20_0000_0000_0000,
    ensures
        as_double(b) == b,
        ({
            let d = unit_size(magnitude(b));
            if b >= 100 * d {
                2 * (nearest(b, d) * d - b) <= d && 2 * (b - nearest(b, d) * d) <= d
            } else {
                2 * (nearest(10 * b, d) * d - 10 * b) <= d && 2 * (10 * b - nearest(10 * b, d) * d)
                    <= d
            }
        }),
{
    assert(spacing(b, 1) == 1);
    assert(nearest(b, 1) == b);
    let d = unit_size(magnitude(b));
    nearest_is_near(b, d);
    nearest_is_near(10 * b, d);
}

/// A duration is told in hours, minutes and seconds that make it up, the larger ones
/// only from where they count.
pub proof fn durations_are_made_up(h: nat, m: nat, s: nat)
    requires
        m < 60,
        s < 60,
    ensures
        ({
            let text = duration_text(3600 * h + 60 * m + s);
            &&& h > 0 ==> text == decimal(h) + "h"@ + two_digits(m) + "m"@ + two_digits(s) + "s"@
            &&& h == 0 && m > 0 ==> text == decimal(m) + "m"@ + two_digits(s) + "s"@
            &&& h == 0 && m == 0 ==> text == decimal(s) + "s"@
        }),
{
    let secs = 3600 * h + 60 * m + s;
    assert(secs / 3600 == h);
    assert(secs % 3600 == 60 * m + s);
    assert((60 * m + s) / 60 == m);
    assert(secs % 60 == s);
}

/// Small amounts are told exactly, and a rate is an amount per second.
pub proof fn small_amounts_are_exact(b: nat)
    ensures
        b < 1024 ==> bytes_text(b) == decimal(b) + " B"@,
        rate_text(b) == bytes_text(b) + "/s"@,
{
}

/// The units that amounts are told in.
pub open spec fn is_unit(size: nat, name: Seq<char>) -> bool {
    ||| size == 0x400 && name == "KiB"@
    ||| size == 0x10_0000 && name == "MiB"@
    ||| size == 0x4000_0000 && name == "GiB"@
    ||| size == 0x100_0000_0000 && name == "TiB"@
    ||| size == 0x4_0000_0000_0000 && name == "PiB"@
}

/// An amount below two to the power 53 is told in the unit of which it has at least
/// one and fewer than 1024: to a tenth below a hundred, and whole from there.
pub proof fn amounts_are_told_in_their_unit(b: nat, size: nat, name: Seq<char>)
    requires
        b < 0x20_0000_0000_0000,
        is_unit(size, name),
        (size <= b),
        (1024 * size > b),
    ensures
        (b >= 100 * size) ==> bytes_text(b) == decimal(nearest(b, size)) + " "@ + name,
        (b < 100 * size) ==> bytes_text(b) == decimal(nearest(10 * b, size) / 10) + "."@ + decimal(
            nearest(10 * b, size) % 10,
        ) + " "@ + name,
{
    amounts_are_told_to_the_last_digit(b);
}

/// Of two integers that are equally near, the even one is taken.
pub proof fn ties_go_to_the_even(n: nat, d: nat)
    requires
        d > 0,
        2 * (n % d) == d,
    ensures
        nearest(n, d) % 2 == 0,
{
}

} // verus!
