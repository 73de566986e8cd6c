//! Sizes for display, rounded the way double-precision arithmetic rounds them.

use vstd::prelude::*;

use crate::text::{decimal, digit, push_decimal};

verus! {

/// Numbers up to this one have an exact double-precision value.
pub const EXACT: u64 = 0x20_0000_0000_0000;

/// Distance between neighbouring double-precision numbers around `n`.
pub open spec fn spacing(n: nat) -> nat
    decreases n,
{
    if n < EXACT {
        1
    } else {
        2 * spacing(n / 2)
    }
}

/// `n / unit` rounded to the nearest integer, halves to the even one.
pub open spec fn half_even(n: nat, unit: nat) -> nat
    recommends
        unit > 0,
{
    let q = n / unit;
    let r = n % unit;
    if 2 * r < unit {
        q
    } else if 2 * r > unit {
        q + 1
    } else {
        q + q % 2
    }
}

/// The double-precision number nearest to `n`, which is an integer.
pub open spec fn nearest_double(n: nat) -> nat {
    half_even(n, spacing(n)) * spacing(n)
}

/// Tenths of `unit` in the double-precision value of `n`, rounded for printing.
pub open spec fn tenths(n: nat, unit: nat) -> nat {
    half_even(10 * nearest_double(n), unit)
}

/// A number of tenths with its decimal point.
pub open spec fn with_point(t: nat) -> Seq<char> {
    decimal(t / 10) + seq!['.', digit((t % 10) as int)]
}

/// Whole units of 1024 in the double-precision value of `n`, halves rounded up.
pub open spec fn whole_kib(n: nat) -> nat {
    (nearest_double(n) + 512) / 1024
}

/// A size for display: bytes as they are, larger sizes with one decimal.
pub open spec fn size_text(bytes: nat) -> Seq<char> {
    if bytes < 1024 {
        decimal(bytes) + " B"@
    } else if bytes < 1024 * 1024 {
        with_point(tenths(bytes, 1024)) + " K"@
    } else if bytes < 1024 * 1024 * 1024 {
        with_point(tenths(bytes, 1024 * 1024)) + " M"@
    } else {
        with_point(tenths(bytes, 1024 * 1024 * 1024)) + " G"@
    }
}

/// The spacing around a number is a small part of it.
proof fn lemma_spacing(n: nat)
    ensures
        spacing(n) >= 1,
        n < EXACT ==> spacing(n) == 1,
        n >= EXACT ==> spacing(n) * 0x10_0000_0000_0000 <= n,
    decreases n,
{
    if n >= EXACT {
        lemma_spacing(n / 2);
    }
}

fn spacing_of(n: u64) -> (u: u64)
    ensures
        u == spacing(n as nat),
        1 <= u <= 4096,
    decreases n,
{
    proof {
        lemma_spacing(n as nat);
    }
    if n < EXACT {
        1
    } else {
        let half = spacing_of(n / 2);
        2 * half
    }
}

fn round_half_even(n: u128, unit: u128) -> (r: u128)
    requires
        1 <= unit <= 0x4000_0000,
        n <= 0x1000_0000_0000_0000_0000,
    ensures
        r == half_even(n as nat, unit as nat),
{
    let q: u128 = n / unit;
    let rest: u128 = n % unit;
    if 2 * rest < unit {
        q
    } else if 2 * rest > unit {
        q + 1
    } else {
        q + q % 2
    }
}

/// The double-precision number nearest to `n`.
fn to_double(n: u64) -> (m: u128)
    ensures
        m == nearest_double(n as nat),
        m <= 0x1_0000_0000_0000_1000,
{
    let u: u64 = spacing_of(n);
    let q: u128 = round_half_even(n as u128, u as u128);
    assert(q * u <= n + u) by (nonlinear_arith)
        requires
            q <= n / u + 1,
            u >= 1,
    ;
    q * (u as u128)
}

fn push_with_point(s: &mut String, t: u128)
    requires
        t / 10 <= u64::MAX,
    ensures
        final(s)@ == old(s)@ + with_point(t as nat),
{
    push_decimal(s, (t / 10) as u64);
    s.push('.');
    let d: u64 = (t % 10) as u64;
    push_decimal(s, d);
    assert(s@ =~= old(s)@ + with_point(t as nat));
}

fn push_tenths(s: &mut String, bytes: u64, unit: u128)
    requires
        1024 <= unit <= 0x4000_0000,
    ensures
        final(s)@ == old(s)@ + with_point(tenths(bytes as nat, unit as nat)),
{
    let m: u128 = to_double(bytes);
    let t: u128 = round_half_even(10 * m, unit);
    assert(t <= 10 * m + 1) by {
        assert((10 * m) / (unit as int) <= 10 * m) by (nonlinear_arith)
            requires
                unit >= 1,
                m >= 0,
        ;
    }
    assert(t / 10 <= u64::MAX) by {
        assert((10 * m) / (unit as int) <= (10 * m) / 1024) by (nonlinear_arith)
            requires
                unit >= 1024,
                m >= 0,
        ;
    }
    push_with_point(s, t);
}

/// Formats a file size for display.
pub fn format_size(bytes: u64) -> (r: String)
    ensures
        r@ == size_text(bytes as nat),
{
    let mut r = String::new();
    if bytes < 1024 {
        push_decimal(&mut r, bytes);
        r.append(" B");
    } else if bytes < 1024 * 1024 {
        push_tenths(&mut r, bytes, 1024);
        r.append(" K");
    } else if bytes < 1024 * 1024 * 1024 {
        push_tenths(&mut r, bytes, 1024 * 1024);
        r.append(" M");
    } else {
        push_tenths(&mut r, bytes, 1024 * 1024 * 1024);
        r.append(" G");
    }
    assert(r@ =~= size_text(bytes as nat));
    r
}

/// Whole units of 1024 in `n`, rounded.
pub fn kib(n: u64) -> (r: u64)
    ensures
        r == whole_kib(n as nat),
{
    let m: u128 = to_double(n);
    ((m + 512) / 1024) as u64
}

/// Rounding to the nearest number of units is off by half a unit at most.
pub proof fn law_half_even(n: nat, unit: nat)
    requires
        unit > 0,
    ensures
        -(unit as int) <= 2 * (half_even(n, unit) * unit - n) <= unit,
        2 * (half_even(n, unit) * unit - n) == unit || 2 * (half_even(n, unit) * unit - n)
            == -(unit as int) ==> half_even(n, unit) % 2 == 0,
{
    let (q, r) = (n / unit, n % unit);
    assert(n == q * unit + r && 0 <= r < unit) by (nonlinear_arith)
        requires
            unit > 0,
            q == n / unit,
            r == n % unit,
    ;
    assert((q + 1) * unit == q * unit + unit) by (nonlinear_arith);
    if 2 * r == unit {
        assert(q % 2 == 0 || q % 2 == 1);
    }
}

/// Sizes below nine pebibytes are exact.
proof fn lemma_exact(n: nat)
    requires
        n < EXACT,
    ensures
        nearest_double(n) == n,
{
    assert(spacing(n) == 1);
    assert(n / 1 == n && n % 1 == 0);
    assert(half_even(n, 1) == n);
}

/// The kibibytes of a size are rounded to the nearest whole one, halves up.
pub proof fn law_kib(n: nat)
    requires
        n < EXACT,
    ensures
        n - 512 < 1024 * whole_kib(n) <= n + 512,
{
    lemma_exact(n);
}

/// A size below one kibibyte is shown in bytes as it is.
pub proof fn law_size_in_bytes(n: nat)
    requires
        n < 1024,
    ensures
        size_text(n) == decimal(n) + " B"@,
{
}

/// A larger size is shown in the largest unit that it reaches, with one decimal that is off by
/// half a tenth at most.
pub proof fn law_size_in_units(n: nat, t: nat)
    requires
        1024 <= n < EXACT,
    ensures
        n < 1024 * 1024 && -1024 < 2 * (t * 1024 - 10 * n) < 1024 ==> size_text(n) == with_point(t)
            + " K"@,
        1024 * 1024 <= n < 1024 * 1024 * 1024 && -1048576 < 2 * (t * 1048576 - 10 * n) < 1048576
            ==> size_text(n) == with_point(t) + " M"@,
        1024 * 1024 * 1024 <= n && -1073741824 < 2 * (t * 1073741824 - 10 * n) < 1073741824
            ==> size_text(n) == with_point(t) + " G"@,
{
    lemma_exact(n);
    law_half_even(10 * n, 1024);
    law_half_even(10 * n, 1048576);
    law_half_even(10 * n, 1073741824);
}

/// A number of tenths is shown as the whole part, a point and the last digit.
pub proof fn law_with_point(t: nat)
    ensures
        with_point(t) == decimal(t / 10) + seq!['.'] + decimal(t % 10),
{
    assert(with_point(t) =~= decimal(t / 10) + seq!['.'] + decimal(t % 10));
}

} // verus!
