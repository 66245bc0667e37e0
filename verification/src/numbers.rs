//! The smaller and the larger of two numbers, how far a number is from 0, and
//! rounding to the nearest one.

use vstd::prelude::*;

verus! {

pub open spec fn least(a: int, b: int) -> int {
    if a <= b {
        a
    } else {
        b
    }
}

pub open spec fn most(a: int, b: int) -> int {
    if a >= b {
        a
    } else {
        b
    }
}

pub open spec fn magnitude(v: int) -> int {
    if v < 0 {
        -v
    } else {
        v
    }
}

/// The smaller of two coordinates.
pub open spec fn lesser(a: i32, b: i32) -> i32 {
    if a <= b {
        a
    } else {
        b
    }
}

/// The larger of two coordinates.
pub open spec fn greater(a: i32, b: i32) -> i32 {
    if a >= b {
        a
    } else {
        b
    }
}

/// The larger of two bytes.
pub open spec fn larger(a: u8, b: u8) -> u8 {
    if a >= b {
        a
    } else {
        b
    }
}

/// `n / d` rounded to the nearest integer, halves away from zero.
pub open spec fn nearest(n: int, d: int) -> int {
    if n >= 0 {
        (2 * n + d) / (2 * d)
    } else {
        -((2 * (-n) + d) / (2 * d))
    }
}

/// Rounding gives an integer that is no more than half a unit away, and of
/// two equally near the one farther from zero.
pub proof fn rounding_is_to_the_nearest(n: int, d: int)
    requires
        d > 0,
    ensures
        ({
            let off = 2 * (nearest(n, d) * d - n);
            &&& -d <= off <= d
            &&& n > 0 ==> off != -d
            &&& n < 0 ==> off != d
        }),
{
    let m = magnitude(n);
    let q = (2 * m + d) / (2 * d);
    vstd::arithmetic::div_mod::lemma_fundamental_div_mod(2 * m + d, 2 * d);
    let r = (2 * m + d) % (2 * d);
    assert((2 * d) * q == 2 * (q * d)) by (nonlinear_arith);
    assert((-q) * d == -(q * d)) by (nonlinear_arith);
}

pub(crate) proof fn nearest_is_no_further(n: int, d: int)
    requires
        d > 0,
    ensures
        magnitude(nearest(n, d)) <= magnitude(n),
        n >= 0 ==> nearest(n, d) >= 0,
        n <= 0 ==> nearest(n, d) <= 0,
{
    let m = magnitude(n);
    assert(0 <= (2 * m + d) / (2 * d) <= m) by (nonlinear_arith)
        requires
            m >= 0,
            d > 0,
    ;
}

pub(crate) fn to_nearest(n: i128, d: i128) -> (r: i128)
    requires
        -0x3000_0000_0000_0000_0000_0000_0000_0000 <= n <= 0x3000_0000_0000_0000_0000_0000_0000_0000,
        0 < d <= 0x1_0000_0000_0000_0000,
    ensures
        r == nearest(n as int, d as int),
{
    if n >= 0 {
        (2 * n + d) / (2 * d)
    } else {
        -((2 * (-n) + d) / (2 * d))
    }
}

pub(crate) proof fn nearest_grows(a: int, b: int, d: int)
    requires
        a <= b,
        d > 0,
    ensures
        nearest(a, d) <= nearest(b, d),
{
    if a >= 0 {
        vstd::arithmetic::div_mod::lemma_div_is_ordered(2 * a + d, 2 * b + d, 2 * d);
    } else {
        assert((2 * (-a) + d) / (2 * d) >= 0) by (nonlinear_arith)
            requires
                a < 0,
                d > 0,
        ;
        if b >= 0 {
            assert((2 * b + d) / (2 * d) >= 0) by (nonlinear_arith)
                requires
                    b >= 0,
                    d > 0,
            ;
        } else {
            vstd::arithmetic::div_mod::lemma_div_is_ordered(2 * (-b) + d, 2 * (-a) + d, 2 * d);
        }
    }
}

} // verus!
