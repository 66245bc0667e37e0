//! Whole numbers of 256 bits, for products that are not to be rounded.

use vstd::prelude::*;

verus! {

/// One more than the largest number of 128 bits.
pub open spec fn limb() -> int {
    0x1_0000_0000_0000_0000_0000_0000_0000_0000int
}

/// A number from 0: `hi` counts in `limb()`.
#[derive(Clone, Copy, Debug, PartialEq, Eq, Structural)]
pub struct Wide {
    pub hi: u128,
    pub lo: u128,
}

impl Wide {
    pub open spec fn value(self) -> int {
        self.hi * limb() + self.lo
    }

    /// The product of two numbers.
    pub fn product(a: u128, b: u128) -> (r: Wide)
        ensures
            r.value() == a * b,
    {
        let half: u128 = 0x1_0000_0000_0000_0000;
        let (a1, a0): (u128, u128) = (a / half, a % half);
        let (b1, b0): (u128, u128) = (b / half, b % half);
        proof {
            half_product(a1 as int, b1 as int);
            half_product(a1 as int, b0 as int);
            half_product(a0 as int, b1 as int);
            half_product(a0 as int, b0 as int);
        }
        let (high, left, right, low): (u128, u128, u128, u128) = (a1 * b1, a1 * b0, a0 * b1, a0 * b0);
        let mid: u128 = left % half + right % half + low / half;
        let hi: u128 = high + left / half + right / half + mid / half;
        let lo: u128 = mid % half * half + low % half;
        proof {
            let h = half as int;
            let (x1, x0, y1, y0) = (a1 as int, a0 as int, b1 as int, b0 as int);
            split_product(x1, x0, y1, y0, h);
            assert(h * h == limb()) by (nonlinear_arith)
                requires
                    h == 0x1_0000_0000_0000_0000,
            ;
            assert(a == x1 * h + x0 && b == y1 * h + y0);
        }
        Wide { hi, lo }
    }

    /// The sum of two numbers that fits.
    pub fn plus(self, other: Wide) -> (r: Wide)
        requires
            self.value() + other.value() < limb() * limb(),
        ensures
            r.value() == self.value() + other.value(),
    {
        let room: u128 = u128::MAX - self.lo;
        if other.lo <= room {
            proof {
                no_carry(self.hi + other.hi, self.lo + other.lo);
            }
            Wide { hi: self.hi + other.hi, lo: self.lo + other.lo }
        } else {
            let lo: u128 = other.lo - room - 1;
            proof {
                no_carry(self.hi + other.hi + 1, lo as int);
            }
            Wide { hi: self.hi + other.hi + 1, lo }
        }
    }

    pub fn is_less(self, other: Wide) -> (r: bool)
        ensures
            r <==> self.value() < other.value(),
    {
        self.hi < other.hi || self.hi == other.hi && self.lo < other.lo
    }

    /// The difference to a number that is no larger.
    pub fn minus(self, other: Wide) -> (r: Wide)
        requires
            other.value() <= self.value(),
        ensures
            r.value() == self.value() - other.value(),
    {
        if other.lo <= self.lo {
            Wide { hi: self.hi - other.hi, lo: self.lo - other.lo }
        } else {
            Wide { hi: self.hi - other.hi - 1, lo: u128::MAX - other.lo + self.lo + 1 }
        }
    }

    /// The number divided by `by`, rounded down; `None` where that is a limb
    /// or more. A limb is `times` times `by`.
    pub fn quotient(self, by: u128, times: u128) -> (r: Option<u128>)
        requires
            by > 0,
            by * times == limb(),
        ensures
            match r {
                Some(q) => q == self.value() / (by as int),
                None => self.value() / (by as int) >= limb(),
            },
    {
        let rest: u128 = self.lo / by;
        proof {
            let (v, b, t, hi, lo) = (self.value(), by as int, times as int, self.hi as int, self.lo as int);
            assert(t > 0) by (nonlinear_arith)
                requires
                    b * t == 0x1_0000_0000_0000_0000_0000_0000_0000_0000int,
                    b > 0,
            ;
            assert(v == b * (hi * t) + lo) by (nonlinear_arith)
                requires
                    v == hi * (b * t) + lo,
            ;
            vstd::arithmetic::div_mod::lemma_fundamental_div_mod(lo, b);
            let (q, r) = (lo / b, lo % b);
            assert(v == (hi * t + q) * b + r) by (nonlinear_arith)
                requires
                    v == b * (hi * t) + lo,
                    lo == b * q + r,
            ;
            vstd::arithmetic::div_mod::lemma_fundamental_div_mod_converse(v, b, hi * t + lo / b, lo % b);
            // What is below a limb gives less than `times`.
            assert(lo / b < t) by (nonlinear_arith)
                requires
                    lo < b * t,
                    b > 0,
                    lo >= 0,
            ;
            if b > hi {
                assert(hi * t + lo / b < b * t) by (nonlinear_arith)
                    requires
                        hi < b,
                        lo / b < t,
                        t > 0,
                ;
                assert(hi * t >= 0) by (nonlinear_arith)
                    requires
                        hi >= 0,
                        t > 0,
                ;
            } else {
                assert(hi * t >= b * t) by (nonlinear_arith)
                    requires
                        hi >= b,
                        t > 0,
                ;
            }
        }
        if self.hi < by {
            Some(self.hi * times + rest)
        } else {
            None
        }
    }
}

proof fn split_product(x1: int, x0: int, y1: int, y0: int, h: int)
    ensures
        (x1 * h + x0) * (y1 * h + y0) == x1 * y1 * (h * h) + (x1 * y0 + x0 * y1) * h + x0 * y0,
{
    let y = y1 * h + y0;
    assert((x1 * h + x0) * y == x1 * h * y + x0 * y) by (nonlinear_arith);
    assert(x1 * h * y == x1 * y1 * (h * h) + x1 * y0 * h) by (nonlinear_arith)
        requires
            y == y1 * h + y0,
    ;
    assert(x0 * y == x0 * y1 * h + x0 * y0) by (nonlinear_arith)
        requires
            y == y1 * h + y0,
    ;
    assert((x1 * y0 + x0 * y1) * h == x1 * y0 * h + x0 * y1 * h) by (nonlinear_arith);
}

proof fn half_product(a: int, b: int)
    requires
        0 <= a < 0x1_0000_0000_0000_0000,
        0 <= b < 0x1_0000_0000_0000_0000,
    ensures
        0 <= a * b <= 0xffff_ffff_ffff_fffe_0000_0000_0000_0001,
{
    assert(0 <= a * b <= 0xffff_ffff_ffff_ffff * 0xffff_ffff_ffff_ffff) by (nonlinear_arith)
        requires
            0 <= a <= 0xffff_ffff_ffff_ffff,
            0 <= b <= 0xffff_ffff_ffff_ffff,
    ;
}

/// The upper half of a number that fits is no limb.
proof fn no_carry(hi: int, lo: int)
    requires
        hi * limb() + lo < limb() * limb(),
        lo >= 0,
    ensures
        hi < limb(),
{
}

} // verus!
