//! Rounded division.
use vstd::prelude::*;

verus! {

/// `n / d` rounded to the nearest integer; halfway values go to the even neighbour.
pub open spec fn to_even(n: nat, d: nat) -> nat {
    if 2 * (n % d) < d || (2 * (n % d) == d && (n / d) % 2 == 0) {
        n / d
    } else {
        n / d + 1
    }
}

/// `n / d` rounded to the nearest integer; halfway values go up.
pub open spec fn half_up(n: nat, d: nat) -> nat {
    if 2 * (n % d) < d {
        n / d
    } else {
        n / d + 1
    }
}

/// `n` if it fits in 32 bits, and else the largest number that does.
pub open spec fn clamp_u32(n: nat) -> u32 {
    if n <= u32::MAX {
        n as u32
    } else {
        u32::MAX
    }
}

/// `n / d` rounded to the nearest integer that fits in 32 bits; halfway values go up.
pub fn ratio_u32(n: u128, d: u128) -> (res: u32)
    requires
        d > 0,
    ensures
        res == clamp_u32(half_up(n as nat, d as nat)),
{
    let quotient: u128 = n / d;
    let rest: u128 = n % d;
    if quotient >= u32::MAX as u128 {
        u32::MAX
    } else if rest < d - rest {
        quotient as u32
    } else {
        quotient as u32 + 1
    }
}

/// `n / d` rounded to the nearest integer; halfway values go to the even neighbour.
pub fn nearest(n: u128, d: u128) -> (res: u128)
    requires
        d > 0,
    ensures
        res == to_even(n as nat, d as nat),
{
    let quotient: u128 = n / d;
    let rest: u128 = n % d;
    if rest < d - rest || (rest == d - rest && quotient % 2 == 0) {
        quotient
    } else {
        assert(quotient < u128::MAX) by (nonlinear_arith)
            requires
                quotient == n / d,
                rest == n % d,
                rest > 0,
                d > 0,
                n <= u128::MAX,
        ;
        quotient + 1
    }
}

/// `n / d` rounded to the nearest integer; halfway values go up.
pub fn ratio(n: u128, d: u128) -> (res: u128)
    requires
        d > 0,
    ensures
        res == half_up(n as nat, d as nat),
{
    let quotient: u128 = n / d;
    let rest: u128 = n % d;
    if rest < d - rest {
        quotient
    } else {
        assert(quotient < u128::MAX) by (nonlinear_arith)
            requires
                quotient == n / d,
                rest == n % d,
                rest > 0,
                d > 0,
                n <= u128::MAX,
        ;
        quotient + 1
    }
}

/// A rounded quotient is off by at most one half. Exactly halfway the one rounding goes to the even
/// neighbour and the other one up.
pub proof fn lemma_rounded_quotient_is_near(n: nat, d: nat)
    requires
        d > 0,
    ensures
        -d <= 2 * (to_even(n, d) * d - n) <= d,
        -d < 2 * (half_up(n, d) * d - n) <= d,
        2 * (n % d) == d ==> to_even(n, d) % 2 == 0 && half_up(n, d) == n / d + 1,
        2 * (n % d) != d ==> to_even(n, d) == half_up(n, d),
{
    vstd::arithmetic::div_mod::lemma_fundamental_div_mod(n as int, d as int);
    let q = n / d;
    assert(d * q == q * d && (q + 1) * d == q * d + d) by (nonlinear_arith);
}

/// A number of at most 32 bits stays what it is, and a larger one becomes the largest.
pub proof fn lemma_clamped_number(n: nat)
    ensures
        n <= 0xffff_ffff ==> clamp_u32(n) == n,
        n > 0xffff_ffff ==> clamp_u32(n) == 0xffff_ffff,
{
}

}
