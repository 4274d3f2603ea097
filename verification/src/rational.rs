use vstd::arithmetic::div_mod::{
    lemma_div_is_ordered, lemma_div_multiples_vanish, lemma_div_pos_is_pos,
    lemma_fundamental_div_mod_converse,
};
use vstd::arithmetic::mul::{lemma_mul_inequality, lemma_mul_nonnegative};
use vstd::prelude::*;

verus! {

/// An exact nonnegative ratio of two machine integers. The denominator is
/// always positive; values are kept unreduced, and every operation either
/// returns an exact result or reports that it does not fit, never wrapping
/// or truncating silently. Conversion of a ratio times an integer amount to
/// an integer is an explicit operation with a documented rounding direction
/// (`floor_mul` rounds down, `ceil_mul` rounds up).
#[derive(Clone, Copy, Debug, PartialEq, Eq, Structural)]
pub struct Rational {
    pub num: u64,
    pub den: u64,
}

/// The square of the largest `u64`, an upper bound for any product of two.
pub proof fn lemma_u64_mul_bounds(a: u64, b: u64)
    by (nonlinear_arith)
    ensures
        0 <= a * b <= 0xfffffffffffffffe0000000000000001,
        a >= 1 && b >= 1 ==> a * b >= 1,
{
}

/// Multiplying by a ratio no greater than one and rounding down never
/// exceeds the amount itself, and never goes negative.
pub proof fn lemma_floor_ratio_le(amount: int, num: int, den: int)
    requires
        0 <= amount,
        0 <= num <= den,
        0 < den,
    ensures
        0 <= (amount * num) / den <= amount,
{
    lemma_mul_nonnegative(amount, num);
    lemma_div_pos_is_pos(amount * num, den);
    lemma_mul_inequality(num, den, amount);
    assert(amount * num == num * amount && amount * den == den * amount)
        by (nonlinear_arith);
    lemma_div_is_ordered(amount * num, amount * den, den);
    lemma_div_multiples_vanish(amount, den);
}

/// Multiplying by a ratio no greater than one and rounding up never exceeds
/// the amount itself; rounding up is never below rounding down.
pub proof fn lemma_ceil_ratio_le(amount: int, num: int, den: int)
    requires
        0 <= amount,
        0 <= num <= den,
        0 < den,
    ensures
        0 <= (amount * num + den - 1) / den <= amount,
        (amount * num + den - 1) / den >= (amount * num) / den,
{
    lemma_mul_nonnegative(amount, num);
    lemma_div_pos_is_pos(amount * num + den - 1, den);
    lemma_mul_inequality(num, den, amount);
    assert(amount * num == num * amount && amount * den == den * amount)
        by (nonlinear_arith);
    lemma_fundamental_div_mod_converse(amount * den + den - 1, den, amount, den - 1);
    lemma_div_is_ordered(amount * num + den - 1, amount * den + den - 1, den);
    lemma_div_is_ordered(amount * num, amount * num + den - 1, den);
}

impl Rational {
    /// A ratio is well formed when its denominator is positive.
    pub open spec fn wf(self) -> bool {
        self.den > 0
    }

    /// Order on ratios, by cross multiplication; exact, with no division.
    pub open spec fn spec_le(self, other: Rational) -> bool {
        self.num * other.den <= other.num * self.den
    }

    /// The ratio is at most one.
    pub open spec fn le_one(self) -> bool {
        self.num <= self.den
    }

    /// Builds a ratio, rejecting a zero denominator.
    pub fn new(num: u64, den: u64) -> (r: Option<Rational>)
        ensures
            den > 0 ==> r == Some(Rational { num, den }),
            den == 0 ==> r is None,
    {
        if den > 0 {
            Some(Rational { num, den })
        } else {
            None
        }
    }

    /// Compares two ratios by cross multiplication on wide integers.
    pub fn le(&self, other: &Rational) -> (r: bool)
        requires
            self.wf(),
            other.wf(),
        ensures
            r == self.spec_le(*other),
    {
        proof {
            lemma_u64_mul_bounds(self.num, other.den);
            lemma_u64_mul_bounds(other.num, self.den);
        }
        (self.num as u128) * (other.den as u128) <= (other.num as u128) * (self.den as u128)
    }

    /// Exact addition; `None` when the exact result does not fit.
    pub fn checked_add(&self, other: &Rational) -> (r: Option<Rational>)
        requires
            self.wf(),
            other.wf(),
        ensures
            ({
                let n = self.num * other.den + other.num * self.den;
                let d = self.den * other.den;
                if n <= u64::MAX && d <= u64::MAX {
                    r == Some(Rational { num: n as u64, den: d as u64 }) && r->Some_0.wf()
                } else {
                    r is None
                }
            }),
    {
        proof {
            lemma_u64_mul_bounds(self.num, other.den);
            lemma_u64_mul_bounds(other.num, self.den);
            lemma_u64_mul_bounds(self.den, other.den);
        }
        let t1: u128 = (self.num as u128) * (other.den as u128);
        let t2: u128 = (other.num as u128) * (self.den as u128);
        let d: u128 = (self.den as u128) * (other.den as u128);
        if t1 > u64::MAX as u128 || t2 > u64::MAX as u128 {
            return None;
        }
        let n: u128 = t1 + t2;
        if n > u64::MAX as u128 || d > u64::MAX as u128 {
            None
        } else {
            Some(Rational { num: n as u64, den: d as u64 })
        }
    }

    /// Exact subtraction; `None` when the exact result would be negative or
    /// does not fit.
    pub fn checked_sub(&self, other: &Rational) -> (r: Option<Rational>)
        requires
            self.wf(),
            other.wf(),
        ensures
            ({
                let lhs = self.num * other.den;
                let rhs = other.num * self.den;
                let d = self.den * other.den;
                if lhs >= rhs && lhs - rhs <= u64::MAX && d <= u64::MAX {
                    r == Some(Rational { num: (lhs - rhs) as u64, den: d as u64 })
                        && r->Some_0.wf()
                } else {
                    r is None
                }
            }),
    {
        proof {
            lemma_u64_mul_bounds(self.num, other.den);
            lemma_u64_mul_bounds(other.num, self.den);
            lemma_u64_mul_bounds(self.den, other.den);
        }
        let t1: u128 = (self.num as u128) * (other.den as u128);
        let t2: u128 = (other.num as u128) * (self.den as u128);
        let d: u128 = (self.den as u128) * (other.den as u128);
        if t1 < t2 {
            return None;
        }
        let n: u128 = t1 - t2;
        if n > u64::MAX as u128 || d > u64::MAX as u128 {
            None
        } else {
            Some(Rational { num: n as u64, den: d as u64 })
        }
    }

    /// Exact multiplication; `None` when the exact result does not fit.
    pub fn checked_mul(&self, other: &Rational) -> (r: Option<Rational>)
        requires
            self.wf(),
            other.wf(),
        ensures
            ({
                let n = self.num * other.num;
                let d = self.den * other.den;
                if n <= u64::MAX && d <= u64::MAX {
                    r == Some(Rational { num: n as u64, den: d as u64 }) && r->Some_0.wf()
                } else {
                    r is None
                }
            }),
    {
        proof {
            lemma_u64_mul_bounds(self.num, other.num);
            lemma_u64_mul_bounds(self.den, other.den);
        }
        let n: u128 = (self.num as u128) * (other.num as u128);
        let d: u128 = (self.den as u128) * (other.den as u128);
        if n > u64::MAX as u128 || d > u64::MAX as u128 {
            None
        } else {
            Some(Rational { num: n as u64, den: d as u64 })
        }
    }

    /// The integer amount times this ratio, rounded down; `None` when the
    /// exact quotient does not fit.
    pub fn floor_mul(&self, amount: u64) -> (r: Option<u64>)
        requires
            self.wf(),
        ensures
            ({
                let q = (amount * self.num) / (self.den as int);
                if q <= u64::MAX {
                    r == Some(q as u64)
                } else {
                    r is None
                }
            }),
    {
        proof {
            lemma_u64_mul_bounds(amount, self.num);
            lemma_mul_nonnegative(amount as int, self.num as int);
            lemma_div_pos_is_pos(amount * self.num, self.den as int);
        }
        let prod: u128 = (amount as u128) * (self.num as u128);
        let q: u128 = prod / (self.den as u128);
        if q > u64::MAX as u128 {
            None
        } else {
            Some(q as u64)
        }
    }

    /// The integer amount times this ratio, rounded up; `None` when the
    /// exact quotient does not fit.
    pub fn ceil_mul(&self, amount: u64) -> (r: Option<u64>)
        requires
            self.wf(),
        ensures
            ({
                let q = (amount * self.num + self.den - 1) / (self.den as int);
                if q <= u64::MAX {
                    r == Some(q as u64)
                } else {
                    r is None
                }
            }),
    {
        proof {
            lemma_u64_mul_bounds(amount, self.num);
            lemma_mul_nonnegative(amount as int, self.num as int);
            lemma_div_pos_is_pos(amount * self.num + self.den - 1, self.den as int);
        }
        let prod: u128 = (amount as u128) * (self.num as u128);
        let q: u128 = (prod + (self.den as u128 - 1)) / (self.den as u128);
        if q > u64::MAX as u128 {
            None
        } else {
            Some(q as u64)
        }
    }
}

} // verus!
