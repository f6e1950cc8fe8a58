//! Exact rational scalars for ray parameters.
//!
//! A ray cast through integer geometry meets an axis-aligned slab at a
//! parameter that is a ratio of two machine integers, so `t` values are kept
//! as `num / den` pairs with a positive denominator and compared exactly by
//! cross-multiplication in 128-bit arithmetic. No rounding ever happens to a
//! ray parameter.

use vstd::prelude::*;

verus! {

/// A rational number `num / den`. Valid values keep `den > 0`.
#[derive(Debug, Clone, Copy)]
pub struct Rat {
    pub num: i64,
    pub den: i64,
}

/// Validity: the denominator is positive.
pub open spec fn rat_wf(a: Rat) -> bool {
    0 < a.den
}

/// `a <= b` as rationals: `a.num / a.den <= b.num / b.den`.
pub open spec fn rat_le(a: Rat, b: Rat) -> bool {
    a.num * b.den <= b.num * a.den
}

/// `a < b` as rationals.
pub open spec fn rat_lt(a: Rat, b: Rat) -> bool {
    a.num * b.den < b.num * a.den
}

/// `a == b` as rationals (equal values, not necessarily equal pairs).
pub open spec fn rat_eq(a: Rat, b: Rat) -> bool {
    a.num * b.den == b.num * a.den
}

/// The rational order is transitive; strictness propagates through either side.
pub proof fn lemma_rat_trans(a: Rat, b: Rat, c: Rat)
    by (nonlinear_arith)
    requires
        rat_wf(a),
        rat_wf(b),
        rat_wf(c),
    ensures
        rat_le(a, b) && rat_le(b, c) ==> rat_le(a, c),
        rat_le(a, b) && rat_lt(b, c) ==> rat_lt(a, c),
        rat_lt(a, b) && rat_le(b, c) ==> rat_lt(a, c),
{
}

impl Rat {
    /// The rational with value `v`.
    pub fn from_int(v: i64) -> (r: Rat)
        ensures
            rat_wf(r),
            r.num == v,
            r.den == 1,
    {
        Rat { num: v, den: 1 }
    }

    /// Exact comparison `self <= other`, by cross-multiplication.
    pub fn le(&self, other: &Rat) -> (r: bool)
        requires
            rat_wf(*self),
            rat_wf(*other),
        ensures
            r == rat_le(*self, *other),
    {
        proof {
            lemma_i64_mul_in_i128(self.num, other.den);
            lemma_i64_mul_in_i128(other.num, self.den);
        }
        (self.num as i128) * (other.den as i128) <= (other.num as i128) * (self.den as i128)
    }

    /// Exact comparison `self < other`.
    pub fn lt(&self, other: &Rat) -> (r: bool)
        requires
            rat_wf(*self),
            rat_wf(*other),
        ensures
            r == rat_lt(*self, *other),
    {
        proof {
            lemma_i64_mul_in_i128(self.num, other.den);
            lemma_i64_mul_in_i128(other.num, self.den);
        }
        (self.num as i128) * (other.den as i128) < (other.num as i128) * (self.den as i128)
    }

    /// Exact value equality.
    pub fn eq_val(&self, other: &Rat) -> (r: bool)
        requires
            rat_wf(*self),
            rat_wf(*other),
        ensures
            r == rat_eq(*self, *other),
    {
        proof {
            lemma_i64_mul_in_i128(self.num, other.den);
            lemma_i64_mul_in_i128(other.num, self.den);
        }
        (self.num as i128) * (other.den as i128) == (other.num as i128) * (self.den as i128)
    }

    /// The larger of the two values (`other` on ties).
    pub fn max(self, other: Rat) -> (r: Rat)
        requires
            rat_wf(self),
            rat_wf(other),
        ensures
            rat_wf(r),
            r == (if rat_le(other, self) { self } else { other }),
            rat_le(self, r),
            rat_le(other, r),
    {
        if other.le(&self) {
            self
        } else {
            other
        }
    }

    /// The smaller of the two values (`other` on ties).
    pub fn min(self, other: Rat) -> (r: Rat)
        requires
            rat_wf(self),
            rat_wf(other),
        ensures
            rat_wf(r),
            r == (if rat_le(self, other) { self } else { other }),
            rat_le(r, self),
            rat_le(r, other),
    {
        if self.le(&other) {
            self
        } else {
            other
        }
    }
}

/// A product of two `i64` values always fits in `i128`.
proof fn lemma_i64_mul_in_i128(a: i64, b: i64)
    by (nonlinear_arith)
    ensures
        i128::MIN <= a * b <= i128::MAX,
{
}

} // verus!
