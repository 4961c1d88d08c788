//! Arithmetic in single precision. A number is counted in units of one part in [`ONE`] and is
//! rounded to 24 significant bits after every step; halfway values go to the even neighbour.
use vstd::prelude::*;

use crate::clock::SECOND;
use crate::round;

verus! {

/// The units in one: 2 to the 53rd. They are fine enough for every number of single precision
/// that is not below one part in 2 to the 30th.
pub const ONE: u128 = 0x20_0000_0000_0000;

/// Numbers of 24 bits stay below this.
pub const PRECISION: u128 = 0x100_0000;

/// How far the numbers of single precision around `n` units are apart: the smallest power of two
/// of which `n` holds fewer than [`PRECISION`].
pub open spec fn grain(n: nat) -> nat
    decreases n,
{
    if n < PRECISION {
        1
    } else {
        2 * grain(n / 2)
    }
}

/// `n / d` units in single precision.
pub open spec fn rounded(n: nat, d: nat) -> nat {
    round::to_even(n, d * grain(n / d)) * grain(n / d)
}

/// `n / d` in single precision, where `n` and `d` are taken in single precision first. Below one
/// part in 2 to the 30th it is rounded to the unit.
pub open spec fn quotient(n: nat, d: nat) -> nat {
    rounded(rounded(n, 1) * ONE as nat, rounded(d, 1))
}

/// A time in seconds: the whole seconds and the fraction, each in single precision, and then
/// their sum.
pub open spec fn seconds(nanos: nat) -> nat {
    rounded(
        rounded(nanos / SECOND as nat * ONE as nat, 1) + quotient(
            nanos % SECOND as nat,
            SECOND as nat,
        ),
        1,
    )
}

/// The whole seconds of a time, rounded up from single precision.
pub open spec fn whole_seconds(nanos: nat) -> nat {
    (seconds(nanos) + ONE - 1) as nat / ONE as nat
}

/// `n` units in tenths, as they are written with one digit after the point.
pub open spec fn tenths(n: nat) -> nat {
    round::to_even(10 * n, ONE as nat)
}

/// `n` units in tenths, where they are rounded as a number and not as a text: ten times `n` in
/// single precision, with halfway values up.
pub open spec fn nearest_tenths(n: nat) -> nat {
    round::half_up(rounded(10 * n, 1), ONE as nat)
}

/// A number of tenths as it is written without digits after the point, from single precision.
pub open spec fn whole_of_tenths(n: nat) -> nat {
    round::to_even(rounded(n * ONE as nat, 10), ONE as nat)
}

proof fn lemma_grain(n: nat)
    ensures
        grain(n) >= 1,
        n >= 1 ==> grain(n) <= n,
        grain(n) == 1 || 2 * grain(n) <= n,
    decreases n,
{
    if n >= PRECISION {
        lemma_grain(n / 2);
    }
}

/// Rounding to single precision keeps the size of a number: it stays at least half of what it
/// was, and at most twice that and a unit.
proof fn lemma_rounded_bounds(n: nat, d: nat)
    requires
        d > 0,
    ensures
        n / d <= 2 * rounded(n, d),
        rounded(n, d) <= 2 * (n / d) + 1,
        d * grain(n / d) > 0,
        d * grain(n / d) <= n || grain(n / d) == 1,
{
    let q = n / d;
    let g = grain(q);
    lemma_grain(q);
    assert(d * g > 0) by (nonlinear_arith)
        requires
            d > 0,
            g >= 1,
    ;
    vstd::arithmetic::div_mod::lemma_div_denominator(n as int, d as int, g as int);
    let whole = n / (d * g);
    assert(whole == q / g);
    vstd::arithmetic::div_mod::lemma_fundamental_div_mod(q as int, g as int);
    vstd::arithmetic::div_mod::lemma_fundamental_div_mod(n as int, d as int);
    assert(whole * g <= q && q < whole * g + g) by (nonlinear_arith)
        requires
            whole == q / g,
            q == g * (q / g) + q % g,
            0 <= q % g < g,
    ;
    assert((whole + 1) * g == whole * g + g) by (nonlinear_arith);
    if g > 1 {
        assert(d * g <= n) by (nonlinear_arith)
            requires
                g <= q,
                n == d * q + n % d,
                n % d >= 0,
                d > 0,
        ;
    }
}

proof fn lemma_zero(d: nat)
    requires
        d > 0,
    ensures
        rounded(0, d) == 0,
{
    assert(0nat / d == 0 && 0nat % d == 0) by (nonlinear_arith)
        requires
            d > 0,
    ;
    assert(grain(0) == 1);
    assert(d * 1 == d);
}

/// `n / d` units in single precision.
pub fn round_to_single(n: u128, d: u128) -> (res: u128)
    requires
        0 < d,
        n < 0x1000_0000_0000_0000_0000_0000_0000_0000,
    ensures
        res == rounded(n as nat, d as nat),
        n / d <= 2 * res,
        res <= 2 * (n / d) + 1,
{
    let whole: u128 = n / d;
    let mut rest: u128 = whole;
    let mut g: u128 = 1;
    assert(whole <= n) by (nonlinear_arith)
        requires
            whole == n / d,
            d > 0,
    ;
    while rest >= PRECISION
        invariant
            g >= 1,
            g * rest <= whole,
            whole <= n,
            g * grain(rest as nat) == grain(whole as nat),
        decreases rest,
    {
        assert(2 * g <= whole && (2 * g) * (rest / 2) <= whole && (2 * g) * grain(
            (rest / 2) as nat,
        ) == g * (2 * grain((rest / 2) as nat))) by (nonlinear_arith)
            requires
                g * rest <= whole,
                rest >= 2,
                g >= 1,
        ;
        rest = rest / 2;
        g = 2 * g;
    }
    proof {
        lemma_rounded_bounds(n as nat, d as nat);
        assert(g * 1 == g);
        assert(g == grain(whole as nat));
    }
    round::nearest(n, d * g) * g
}

/// `n / d` in single precision, where `n` and `d` are taken in single precision first.
pub fn divide(n: u32, d: u32) -> (res: u128)
    requires
        0 < d,
    ensures
        res == quotient(n as nat, d as nat),
        res <= 0x1_0000_0000_0000_0000_0000_0000,
{
    let over: u128 = round_to_single(n as u128, 1);
    let under: u128 = round_to_single(d as u128, 1);
    round_to_single(over * ONE, under)
}

/// The whole seconds of a time, rounded up from single precision.
pub fn seconds_up(nanos: u64) -> (res: u64)
    ensures
        res == whole_seconds(nanos as nat),
{
    let whole: u128 = round_to_single((nanos / SECOND) as u128 * ONE, 1);
    let fraction: u128 = divide((nanos % SECOND) as u32, SECOND as u32);
    let sum: u128 = round_to_single(whole + fraction, 1);
    ((sum + (ONE - 1)) / ONE) as u64
}

/// `n` thousandths in tenths, as they are written with one digit after the point.
pub fn thousandths_in_tenths(n: u32) -> (res: u64)
    ensures
        res == tenths(quotient(n as nat, 1000)),
{
    round::nearest(10 * divide(n, 1000), ONE) as u64
}

/// `n` units in tenths, with halfway values up.
pub fn to_nearest_tenths(n: u128) -> (res: u64)
    requires
        n < 0x1_0000_0000_0000_0000_0000_0000_0000,
    ensures
        res == nearest_tenths(n as nat),
{
    round::ratio(round_to_single(10 * n, 1), ONE) as u64
}

/// A number of tenths as it is written without digits after the point.
pub fn to_whole_of_tenths(n: u64) -> (res: u64)
    ensures
        res == whole_of_tenths(n as nat),
{
    round::nearest(round_to_single(n as u128 * ONE, 10), ONE) as u64
}

/// No time is shown as none unless none is left.
pub proof fn lemma_seconds_run_out(nanos: nat)
    ensures
        whole_seconds(nanos) == 0 <==> nanos == 0,
{
    let one = ONE as nat;
    let second = SECOND as nat;
    let whole = nanos / second * one;
    let part = nanos % second;
    let over = rounded(part, 1) * one;
    let under = rounded(second, 1);
    lemma_rounded_bounds(whole, 1);
    lemma_rounded_bounds(part, 1);
    lemma_rounded_bounds(second, 1);
    lemma_rounded_bounds(over, under);
    lemma_rounded_bounds(rounded(whole, 1) + quotient(part, second), 1);
    if part > 0 {
        assert(over / under >= 1) by (nonlinear_arith)
            requires
                over >= under,
                under > 0,
        ;
    }
    lemma_zero(1);
    lemma_zero(under);
}

/// Rounding to single precision is off by at most one part in 2 to the 24th, where the number is
/// not too small for the unit.
pub proof fn lemma_rounded_is_near(n: nat, d: nat)
    requires
        d > 0,
        n / d >= 0x80_0000,
    ensures
        -n <= 0x100_0000 * (rounded(n, d) * d - n) <= n,
{
    let q = n / d;
    let g = grain(q);
    lemma_rounded_bounds(n, d);
    lemma_grain_is_fine(q);
    let k = round::to_even(n, d * g);
    vstd::arithmetic::div_mod::lemma_fundamental_div_mod(n as int, (d * g) as int);
    vstd::arithmetic::div_mod::lemma_fundamental_div_mod(n as int, d as int);
    let step = d * g;
    let w = n / step;
    let r = n % step;
    assert(step * w == w * step && (w + 1) * step == w * step + step) by (nonlinear_arith);
    assert(-step <= 2 * (k * step - n) <= step);
    assert(k * step == k * g * d) by (nonlinear_arith)
        requires
            step == d * g,
    ;
    assert(0x80_0000 * step <= n) by (nonlinear_arith)
        requires
            step == d * g,
            0x80_0000 * g <= q,
            n == d * q + n % d,
            n % d >= 0,
    ;
}

proof fn lemma_grain_is_fine(n: nat)
    ensures
        n >= 0x80_0000 ==> 0x80_0000 * grain(n) <= n,
    decreases n,
{
    if n >= PRECISION {
        lemma_grain_is_fine(n / 2);
    }
}

/// Whether `n` is a whole number of steps.
pub open spec fn divides(step: nat, n: nat) -> bool {
    step > 0 && n % step == 0
}

proof fn lemma_grain_divides(q: nat, k: nat)
    requires
        q < 0x100_0000,
    ensures
        divides(grain(q * vstd::arithmetic::power2::pow2(k)), q * vstd::arithmetic::power2::pow2(k)),
    decreases k,
{
    let p = vstd::arithmetic::power2::pow2(k);
    let n = q * p;
    vstd::arithmetic::power2::lemma_pow2_pos(k);
    if n < PRECISION {
        assert(grain(n) == 1);
    } else if k == 0 {
        vstd::arithmetic::power2::lemma2_to64();
        assert(n == q) by (nonlinear_arith)
            requires
                n == q * p,
                p == 1,
        ;
    } else {
        let half = vstd::arithmetic::power2::pow2((k - 1) as nat);
        vstd::arithmetic::power2::lemma_pow2_unfold(k);
        lemma_grain_divides(q, (k - 1) as nat);
        let m = q * half;
        assert(n == 2 * m) by (nonlinear_arith)
            requires
                n == q * p,
                p == 2 * half,
                m == q * half,
        ;
        assert(n / 2 == m);
        let g = grain(m);
        assert(grain(n) == 2 * g);
        vstd::arithmetic::div_mod::lemma_fundamental_div_mod(m as int, g as int);
        let c = m / g;
        assert(n == c * (2 * g)) by (nonlinear_arith)
            requires
                n == 2 * m,
                m == g * c,
        ;
        vstd::arithmetic::div_mod::lemma_mod_multiples_basic(c as int, (2 * g) as int);
    }
}

/// A quotient that is a whole number of at most 24 bits is exact.
pub proof fn lemma_whole_numbers_are_exact(d: nat, q: nat)
    requires
        d > 0,
        q < 0x100_0000,
    ensures
        rounded(q * d * ONE as nat, d) == q * ONE,
{
    let one = ONE as nat;
    let n = q * d * one;
    let whole = q * one;
    assert(one == vstd::arithmetic::power2::pow2(53)) by {
        vstd::arithmetic::power2::lemma2_to64();
        vstd::arithmetic::power2::lemma2_to64_rest();
    }
    lemma_grain_divides(q, 53);
    assert(n == whole * d) by (nonlinear_arith)
        requires
            n == q * d * one,
            whole == q * one,
    ;
    vstd::arithmetic::div_mod::lemma_div_multiples_vanish(whole as int, d as int);
    assert(d * whole == whole * d) by (nonlinear_arith);
    assert(n / d == whole);
    let g = grain(whole);
    lemma_rounded_bounds(n, d);
    vstd::arithmetic::div_mod::lemma_fundamental_div_mod(whole as int, g as int);
    let c = whole / g;
    assert(n == c * (d * g)) by (nonlinear_arith)
        requires
            n == whole * d,
            whole == g * c,
    ;
    vstd::arithmetic::div_mod::lemma_mod_multiples_basic(c as int, (d * g) as int);
    vstd::arithmetic::div_mod::lemma_div_multiples_vanish(c as int, (d * g) as int);
    assert((d * g) * c == c * (d * g)) by (nonlinear_arith);
    assert(c * g == whole) by (nonlinear_arith)
        requires
            whole == g * c,
    ;
}

/// A whole number of units is off by at most one part in 2 to the 24th, however small it is.
pub proof fn lemma_rounded_units_are_near(n: nat)
    ensures
        -n <= 0x100_0000 * (rounded(n, 1) - n) <= n,
        n < 0x100_0000 ==> rounded(n, 1) == n,
{
    assert(n / 1 == n);
    if n < 0x100_0000 {
        assert(grain(n) == 1);
        assert(round::to_even(n, 1) == n);
    } else {
        lemma_rounded_is_near(n, 1);
    }
}

/// Thousands and the nanoseconds of a second are numbers of single precision.
proof fn lemma_exact_divisors()
    ensures
        rounded(1000, 1) == 1000,
        rounded(1_000_000_000, 1) == 1_000_000_000,
{
    lemma_rounded_units_are_near(1000);
    let n: nat = 1_000_000_000;
    reveal_with_fuel(grain, 8);
    assert(n / 2 / 2 / 2 / 2 / 2 / 2 == 15_625_000);
    assert(grain(15_625_000) == 1);
    assert(grain(31_250_000) == 2);
    assert(grain(62_500_000) == 4);
    assert(grain(125_000_000) == 8);
    assert(grain(250_000_000) == 16);
    assert(grain(500_000_000) == 32);
    assert(grain(n) == 64);
    assert(n / 1 == n);
    assert(round::to_even(n, 1 * 64) == 15_625_000);
}

/// The seconds of a time are off by at most one part in 2 to the 22nd.
pub proof fn lemma_seconds_are_near(nanos: nat)
    ensures
        -(nanos * 0x20_0000_0000_0000) <= 0x40_0000 * (seconds(nanos) * 1_000_000_000 - nanos
            * 0x20_0000_0000_0000) <= nanos * 0x20_0000_0000_0000,
{
    let one = ONE as nat;
    let q = nanos / SECOND as nat;
    let part = nanos % SECOND as nat;
    vstd::arithmetic::div_mod::lemma_fundamental_div_mod(nanos as int, SECOND as int);
    lemma_exact_divisors();
    let w = rounded(q * one, 1);
    lemma_rounded_units_are_near(q * one);
    let rp = rounded(part, 1);
    lemma_rounded_units_are_near(part);
    let f = quotient(part, SECOND as nat);
    if rp > 0 {
        assert(rp * one / 1_000_000_000 >= 0x80_0000);
        lemma_rounded_is_near(rp * one, 1_000_000_000);
    } else {
        lemma_zero(1_000_000_000);
    }
    lemma_rounded_units_are_near(w + f);
}

/// The whole seconds of a time are rounded up, but for one part in 2 to the 22nd; a whole number of
/// them is exact.
pub proof fn lemma_seconds_are_rounded_up(nanos: nat, q: nat)
    requires
        nanos > 0,
        q < 0x100_0000,
    ensures
        0x40_0000 * 1_000_000_000 * whole_seconds(nanos) >= 0x3f_ffff * nanos,
        0x40_0000 * 1_000_000_000 * (whole_seconds(nanos) - 1) < 0x40_0001 * nanos,
        whole_seconds(q * 1_000_000_000) == q,
{
    let one = ONE as nat;
    lemma_seconds_are_near(nanos);
    let near = seconds(nanos);
    let up = whole_seconds(nanos);
    assert(near <= up * 0x20_0000_0000_0000 < near + 0x20_0000_0000_0000);
    let margin = 4_194_304_000_000_000 * up - 4_194_303 * nanos;
    assert(0x20_0000_0000_0000 * margin >= 0);
    assert(margin >= 0);
    let n = q * 1_000_000_000;
    assert(n / SECOND as nat == q && n % SECOND as nat == 0);
    lemma_whole_numbers_are_exact(1, q);
    assert(q * 1 * one == q * one) by (nonlinear_arith);
    lemma_exact_divisors();
    lemma_rounded_units_are_near(0);
    lemma_zero(1_000_000_000);
    assert(quotient(0, SECOND as nat) == 0);
    assert(seconds(n) == q * one);
}

/// Thousandths that are written in tenths are the nearest ones, but for one part in 2 to the 22nd.
pub proof fn lemma_thousandths_are_near(n: nat)
    ensures
        -n <= 0x40_0000 * (100 * tenths(quotient(n, 1000)) - n + 50),
        0x40_0000 * (100 * tenths(quotient(n, 1000)) - n - 50) <= n,
{
    let one = ONE as nat;
    lemma_exact_divisors();
    let rn = rounded(n, 1);
    lemma_rounded_units_are_near(n);
    let f = quotient(n, 1000);
    if rn > 0 {
        assert(rn * one / 1000 >= 0x80_0000);
        lemma_rounded_is_near(rn * one, 1000);
    } else {
        lemma_zero(1000);
    }
    round::lemma_rounded_quotient_is_near(10 * f, one);
}

/// Rounding to tenths and tenths to whole numbers goes to a nearest one, but for one part in 2 to
/// the 22nd.
pub proof fn lemma_tenths_are_near(n: nat)
    ensures
        -(10 * n) <= 0x40_0000 * (nearest_tenths(n) * 0x20_0000_0000_0000 - 10 * n
            + 0x10_0000_0000_0000),
        0x40_0000 * (nearest_tenths(n) * 0x20_0000_0000_0000 - 10 * n - 0x10_0000_0000_0000) <= 10
            * n,
        -n <= 0x40_0000 * (10 * whole_of_tenths(n) - n + 5),
        0x40_0000 * (10 * whole_of_tenths(n) - n - 5) <= n,
{
    let one = ONE as nat;
    lemma_rounded_units_are_near(10 * n);
    round::lemma_rounded_quotient_is_near(rounded(10 * n, 1), one);
    if n > 0 {
        assert(n * one / 10 >= 0x80_0000);
        lemma_rounded_is_near(n * one, 10);
    } else {
        lemma_zero(10);
    }
    round::lemma_rounded_quotient_is_near(rounded(n * one, 10), one);
}

}
