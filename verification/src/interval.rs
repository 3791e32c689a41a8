//! Interval arithmetic over the fixed-point scalar domain.
//!
//! An interval `[low, high]` is a conservative enclosure of a scalar value.
//! Every operation carries two guarantees: an exact description of the
//! bounds it computes, and a soundness clause stating that the result
//! encloses the scalar operation applied to any enclosed operands.

use vstd::prelude::*;
use crate::fixed::{
    Fixed, FRAC, MAX_RAW, wf_raw, sat, add_s, sub_s, neg_s, mul_s, div_s, min_s, max_s, abs_s,
    sin_s, cos_s, sqrt_s, is_sqrt_of, isqrt_s, lemma_isqrt_unique, lemma_isqrt_monotone,
};

verus! {

/// A conservative enclosure `[low, high]` of a scalar value.
#[derive(Clone, Copy, PartialEq, Eq, Structural, Debug)]
pub struct Interval {
    pub low: Fixed,
    pub high: Fixed,
}

/// Build an interval from its bounds.
pub fn interval(low: Fixed, high: Fixed) -> (r: Interval)
    requires
        low@ <= high@,
    ensures
        r.low == low,
        r.high == high,
{
    Interval { low, high }
}

impl Interval {
    /// The interval invariant: ordered bounds, both within the scalar range.
    pub open spec fn wf(self) -> bool {
        self.low@ <= self.high@ && wf_raw(self.low@) && wf_raw(self.high@)
    }

    /// The raw scalar values this interval encloses.
    pub open spec fn contains(self, x: int) -> bool {
        self.low@ <= x <= self.high@
    }

    /// An exact (width zero) interval around one scalar.
    pub fn exact(v: Fixed) -> (r: Interval)
        requires
            v.wf(),
        ensures
            r.low == v,
            r.high == v,
            r.wf(),
            r.contains(v@),
    {
        Interval { low: v, high: v }
    }

    pub fn neg(self) -> (r: Interval)
        requires
            self.wf(),
        ensures
            r.wf(),
            r.low@ == neg_s(self.high@),
            r.high@ == neg_s(self.low@),
            forall|x: int| self.contains(x) ==> r.contains(#[trigger] neg_s(x)),
    {
        Interval { low: self.high.neg(), high: self.low.neg() }
    }

    pub fn add(self, rhs: Interval) -> (r: Interval)
        requires
            self.wf(),
            rhs.wf(),
        ensures
            r.wf(),
            r.low@ == add_s(self.low@, rhs.low@),
            r.high@ == add_s(self.high@, rhs.high@),
            forall|x: int, y: int|
                self.contains(x) && rhs.contains(y) ==> r.contains(#[trigger] add_s(x, y)),
    {
        Interval { low: self.low.add(rhs.low), high: self.high.add(rhs.high) }
    }

    /// Interval subtraction flips the bounds of the subtrahend.
    pub fn sub(self, rhs: Interval) -> (r: Interval)
        requires
            self.wf(),
            rhs.wf(),
        ensures
            r.wf(),
            r.low@ == sub_s(self.low@, rhs.high@),
            r.high@ == sub_s(self.high@, rhs.low@),
            forall|x: int, y: int|
                self.contains(x) && rhs.contains(y) ==> r.contains(#[trigger] sub_s(x, y)),
    {
        Interval { low: self.low.sub(rhs.high), high: self.high.sub(rhs.low) }
    }

    /// Shift both bounds by an exact scalar.
    pub fn add_scalar(self, rhs: Fixed) -> (r: Interval)
        requires
            self.wf(),
            rhs.wf(),
        ensures
            r.wf(),
            r.low@ == add_s(self.low@, rhs@),
            r.high@ == add_s(self.high@, rhs@),
            forall|x: int| self.contains(x) ==> r.contains(#[trigger] add_s(x, rhs@)),
    {
        Interval { low: self.low.add(rhs), high: self.high.add(rhs) }
    }

    pub fn sub_scalar(self, rhs: Fixed) -> (r: Interval)
        requires
            self.wf(),
            rhs.wf(),
        ensures
            r.wf(),
            r.low@ == sub_s(self.low@, rhs@),
            r.high@ == sub_s(self.high@, rhs@),
            forall|x: int| self.contains(x) ==> r.contains(#[trigger] sub_s(x, rhs@)),
    {
        Interval { low: self.low.sub(rhs), high: self.high.sub(rhs) }
    }

    /// An exact scalar minus an interval.
    pub fn scalar_sub(lhs: Fixed, rhs: Interval) -> (r: Interval)
        requires
            lhs.wf(),
            rhs.wf(),
        ensures
            r.wf(),
            r.low@ == sub_s(lhs@, rhs.high@),
            r.high@ == sub_s(lhs@, rhs.low@),
            forall|y: int| rhs.contains(y) ==> r.contains(#[trigger] sub_s(lhs@, y)),
    {
        Interval { low: lhs.sub(rhs.high), high: lhs.sub(rhs.low) }
    }

    /// Scale by an exact scalar; a negative factor swaps the bounds.
    pub fn mul_scalar(self, rhs: Fixed) -> (r: Interval)
        requires
            self.wf(),
        ensures
            r.wf(),
            rhs@ >= 0 ==> r.low@ == mul_s(self.low@, rhs@) && r.high@ == mul_s(self.high@, rhs@),
            rhs@ < 0 ==> r.low@ == mul_s(self.high@, rhs@) && r.high@ == mul_s(self.low@, rhs@),
            forall|x: int| self.contains(x) ==> r.contains(#[trigger] mul_s(x, rhs@)),
    {
        proof {
            lemma_mul_s_ordered_in_lhs(self.low@, self.high@, rhs@);
            assert forall|x: int| self.contains(x) implies
                (if rhs@ >= 0 {
                    mul_s(self.low@, rhs@) <= mul_s(x, rhs@) <= mul_s(self.high@, rhs@)
                } else {
                    mul_s(self.high@, rhs@) <= mul_s(x, rhs@) <= mul_s(self.low@, rhs@)
                }) by {
                lemma_mul_s_ordered_in_lhs(self.low@, x, rhs@);
                lemma_mul_s_ordered_in_lhs(x, self.high@, rhs@);
            }
        }
        if rhs.raw >= 0 {
            Interval { low: self.low.mul(rhs), high: self.high.mul(rhs) }
        } else {
            Interval { low: self.high.mul(rhs), high: self.low.mul(rhs) }
        }
    }

    /// Sound product: the extremes over the four corner products.
    pub fn mul(self, rhs: Interval) -> (r: Interval)
        requires
            self.wf(),
            rhs.wf(),
        ensures
            r.wf(),
            r.low@ == min_s(
                min_s(mul_s(self.low@, rhs.low@), mul_s(self.low@, rhs.high@)),
                min_s(mul_s(self.high@, rhs.low@), mul_s(self.high@, rhs.high@)),
            ),
            r.high@ == max_s(
                max_s(mul_s(self.low@, rhs.low@), mul_s(self.low@, rhs.high@)),
                max_s(mul_s(self.high@, rhs.low@), mul_s(self.high@, rhs.high@)),
            ),
            forall|x: int, y: int|
                self.contains(x) && rhs.contains(y) ==> r.contains(#[trigger] mul_s(x, y)),
    {
        let x1y1 = self.low.mul(rhs.low);
        let x1y2 = self.low.mul(rhs.high);
        let x2y1 = self.high.mul(rhs.low);
        let x2y2 = self.high.mul(rhs.high);
        let r = Interval {
            low: x1y1.min(x1y2).min(x2y1.min(x2y2)),
            high: x1y1.max(x1y2).max(x2y1.max(x2y2)),
        };
        proof {
            assert forall|x: int, y: int| self.contains(x) && rhs.contains(y) implies
                r.contains(#[trigger] mul_s(x, y)) by {
                lemma_mul_s_corner_bounds(self.low@, self.high@, rhs.low@, rhs.high@, x, y);
            }
        }
        r
    }

    /// Sound quotient, over a divisor interval that excludes zero: the
    /// extremes over the four corner quotients.
    pub fn div(self, rhs: Interval) -> (r: Interval)
        requires
            self.wf(),
            rhs.wf(),
            rhs.low@ > 0 || rhs.high@ < 0,
        ensures
            r.wf(),
            r.low@ == min_s(
                min_s(div_s(self.low@, rhs.low@), div_s(self.low@, rhs.high@)),
                min_s(div_s(self.high@, rhs.low@), div_s(self.high@, rhs.high@)),
            ),
            r.high@ == max_s(
                max_s(div_s(self.low@, rhs.low@), div_s(self.low@, rhs.high@)),
                max_s(div_s(self.high@, rhs.low@), div_s(self.high@, rhs.high@)),
            ),
            forall|x: int, y: int|
                self.contains(x) && rhs.contains(y) ==> r.contains(#[trigger] div_s(x, y)),
    {
        let x1y1 = self.low.div(rhs.low);
        let x1y2 = self.low.div(rhs.high);
        let x2y1 = self.high.div(rhs.low);
        let x2y2 = self.high.div(rhs.high);
        let r = Interval {
            low: x1y1.min(x1y2).min(x2y1.min(x2y2)),
            high: x1y1.max(x1y2).max(x2y1.max(x2y2)),
        };
        proof {
            assert forall|x: int, y: int| self.contains(x) && rhs.contains(y) implies
                r.contains(#[trigger] div_s(x, y)) by {
                lemma_div_s_corner_bounds(self.low@, self.high@, rhs.low@, rhs.high@, x, y);
            }
        }
        r
    }

    /// Absolute value: keeps a positive interval, flips a negative one, and
    /// otherwise spans from zero to the larger magnitude.
    pub fn abs(self) -> (r: Interval)
        requires
            self.wf(),
        ensures
            r.wf(),
            forall|x: int| self.contains(x) ==> r.contains(#[trigger] abs_s(x)),
            r.low@ >= 0,
            self.high@ < 0 ==> r.low@ == neg_s(self.high@) && r.high@ == neg_s(self.low@),
            self.low@ > 0 ==> r == self,
            !(self.high@ < 0) && !(self.low@ > 0) ==> r.low@ == 0 && r.high@ == max_s(
                neg_s(self.low@),
                self.high@,
            ),
    {
        if self.high.raw() < 0 {
            self.neg()
        } else if self.low.raw() > 0 {
            self
        } else {
            Interval { low: Fixed::zero(), high: self.low.neg().max(self.high) }
        }
    }

    /// Square root: the lower bound is clamped to zero first, so the result
    /// encloses the scalar square root of every nonnegative enclosed value.
    pub fn sqrt(self) -> (r: Interval)
        requires
            self.wf(),
            self.high@ >= 0,
        ensures
            r.wf(),
            r.low@ == sqrt_s(max_s(self.low@, 0)),
            r.high@ == sqrt_s(self.high@),
            forall|x: int| self.contains(x) && x >= 0 ==> r.contains(#[trigger] sqrt_s(x)),
    {
        let lo = if self.low.raw() < 0 {
            Fixed::zero()
        } else {
            self.low
        };
        let r = Interval { low: lo.sqrt(), high: self.high.sqrt() };
        proof {
            assert forall|x: int| self.contains(x) && x >= 0 implies
                r.contains(#[trigger] sqrt_s(x)) by {
                lemma_sqrt_s_ordered(lo@, x);
                lemma_sqrt_s_ordered(x, self.high@);
            }
        }
        r
    }

    /// Sine, conservatively widened to exactly the full `[-1, 1]` range:
    /// a documented over-approximation, kept loose on purpose.
    pub fn sin(self) -> (r: Interval)
        ensures
            r.wf(),
            r.low@ == -(FRAC as int),
            r.high@ == FRAC as int,
            forall|x: int| r.contains(#[trigger] sin_s(x)),
    {
        Interval { low: Fixed::one().neg(), high: Fixed::one() }
    }

    /// Cosine, conservatively widened to exactly the full `[-1, 1]` range.
    pub fn cos(self) -> (r: Interval)
        ensures
            r.wf(),
            r.low@ == -(FRAC as int),
            r.high@ == FRAC as int,
            forall|x: int| r.contains(#[trigger] cos_s(x)),
    {
        Interval { low: Fixed::one().neg(), high: Fixed::one() }
    }
}

/// The scalar product is ordered in its left operand, by the sign of the
/// right operand.
pub proof fn lemma_mul_s_ordered_in_lhs(a: int, b: int, k: int)
    requires
        a <= b,
    ensures
        k >= 0 ==> mul_s(a, k) <= mul_s(b, k),
        k < 0 ==> mul_s(b, k) <= mul_s(a, k),
{
    if k >= 0 {
        vstd::arithmetic::mul::lemma_mul_inequality(a, b, k);
        vstd::arithmetic::div_mod::lemma_div_is_ordered(a * k, b * k, FRAC as int);
    } else {
        vstd::arithmetic::mul::lemma_mul_inequality(a, b, -k);
        assert(a * (-k) == -(a * k) && b * (-k) == -(b * k)) by (nonlinear_arith);
        vstd::arithmetic::div_mod::lemma_div_is_ordered(b * k, a * k, FRAC as int);
    }
}

/// The product of values drawn from two ranges lies between the least and
/// greatest of the four corner products.
pub proof fn lemma_prod_corner_bounds(a: int, b: int, c: int, d: int, x: int, y: int)
    requires
        a <= x <= b,
        c <= y <= d,
    ensures
        min_s(min_s(a * c, a * d), min_s(b * c, b * d)) <= x * y,
        x * y <= max_s(max_s(a * c, a * d), max_s(b * c, b * d)),
{
    if y >= 0 {
        vstd::arithmetic::mul::lemma_mul_inequality(a, x, y);
        vstd::arithmetic::mul::lemma_mul_inequality(x, b, y);
    } else {
        assert(x * y <= a * y && b * y <= x * y) by (nonlinear_arith)
            requires
                a <= x <= b,
                y < 0,
        ;
    }
    assert((a >= 0 ==> a * c <= a * y <= a * d) && (a < 0 ==> a * d <= a * y <= a * c))
        by (nonlinear_arith)
        requires
            c <= y <= d,
    ;
    assert((b >= 0 ==> b * c <= b * y <= b * d) && (b < 0 ==> b * d <= b * y <= b * c))
        by (nonlinear_arith)
        requires
            c <= y <= d,
    ;
}

/// The saturating fixed-point product of enclosed values lies between the
/// least and greatest of the four corner products.
pub proof fn lemma_mul_s_corner_bounds(a: int, b: int, c: int, d: int, x: int, y: int)
    requires
        a <= x <= b,
        c <= y <= d,
    ensures
        min_s(min_s(mul_s(a, c), mul_s(a, d)), min_s(mul_s(b, c), mul_s(b, d))) <= mul_s(x, y),
        mul_s(x, y) <= max_s(max_s(mul_s(a, c), mul_s(a, d)), max_s(mul_s(b, c), mul_s(b, d))),
{
    lemma_prod_corner_bounds(a, b, c, d, x, y);
    let m = min_s(min_s(a * c, a * d), min_s(b * c, b * d));
    let mm = max_s(max_s(a * c, a * d), max_s(b * c, b * d));
    vstd::arithmetic::div_mod::lemma_div_is_ordered(m, x * y, FRAC as int);
    vstd::arithmetic::div_mod::lemma_div_is_ordered(x * y, mm, FRAC as int);
    vstd::arithmetic::div_mod::lemma_div_is_ordered(m, a * c, FRAC as int);
    vstd::arithmetic::div_mod::lemma_div_is_ordered(m, a * d, FRAC as int);
    vstd::arithmetic::div_mod::lemma_div_is_ordered(m, b * c, FRAC as int);
    vstd::arithmetic::div_mod::lemma_div_is_ordered(m, b * d, FRAC as int);
    vstd::arithmetic::div_mod::lemma_div_is_ordered(a * c, mm, FRAC as int);
    vstd::arithmetic::div_mod::lemma_div_is_ordered(a * d, mm, FRAC as int);
    vstd::arithmetic::div_mod::lemma_div_is_ordered(b * c, mm, FRAC as int);
    vstd::arithmetic::div_mod::lemma_div_is_ordered(b * d, mm, FRAC as int);
}

/// For a positive divisor, the Euclidean quotient is ordered against the
/// divisor, in the direction given by the dividend's sign.
pub proof fn lemma_div_denominator_ordered(p: int, y1: int, y2: int)
    requires
        1 <= y1 <= y2,
    ensures
        p >= 0 ==> p / y2 <= p / y1,
        p <= 0 ==> p / y1 <= p / y2,
{
    if p >= 0 {
        vstd::arithmetic::div_mod::lemma_div_is_ordered_by_denominator(p, y1, y2);
    } else {
        vstd::arithmetic::div_mod::lemma_fundamental_div_mod(p, y1);
        vstd::arithmetic::div_mod::lemma_mod_bound(p, y1);
        vstd::arithmetic::div_mod::lemma_fundamental_div_mod(p, y2);
        vstd::arithmetic::div_mod::lemma_mod_bound(p, y2);
        let q1 = p / y1;
        let r1 = p % y1;
        let q2 = p / y2;
        let r2 = p % y2;
        assert(q1 <= 0 && q2 <= 0) by (nonlinear_arith)
            requires
                p == y1 * q1 + r1,
                p == y2 * q2 + r2,
                0 <= r1 < y1,
                0 <= r2 < y2,
                1 <= y1 <= y2,
                p <= 0,
        ;
        assert(q1 <= q2) by (nonlinear_arith)
            requires
                p == y1 * q1 + r1,
                p == y2 * q2 + r2,
                0 <= r1 < y1,
                0 <= r2 < y2,
                1 <= y1 <= y2,
                q1 <= 0,
                q2 <= 0,
        ;
    }
}

/// Core bound for quotients with a positive divisor range: the scaled
/// Euclidean quotient lies between the four corner quotients.
proof fn lemma_div_quotient_bounds_pos(a: int, b: int, c: int, d: int, x: int, y: int)
    requires
        a <= x <= b,
        c <= y <= d,
        c >= 1,
    ensures
        (x * FRAC as int) / y >= min_s(
            min_s((a * FRAC as int) / c, (a * FRAC as int) / d),
            min_s((b * FRAC as int) / c, (b * FRAC as int) / d),
        ),
        (x * FRAC as int) / y <= max_s(
            max_s((a * FRAC as int) / c, (a * FRAC as int) / d),
            max_s((b * FRAC as int) / c, (b * FRAC as int) / d),
        ),
{
    let s = FRAC as int;
    vstd::arithmetic::mul::lemma_mul_inequality(a, x, s);
    vstd::arithmetic::mul::lemma_mul_inequality(x, b, s);
    vstd::arithmetic::div_mod::lemma_div_is_ordered(a * s, x * s, y);
    vstd::arithmetic::div_mod::lemma_div_is_ordered(x * s, b * s, y);
    lemma_div_denominator_ordered(a * s, c, y);
    lemma_div_denominator_ordered(a * s, y, d);
    lemma_div_denominator_ordered(b * s, c, y);
    lemma_div_denominator_ordered(b * s, y, d);
}

/// The saturating fixed-point quotient of enclosed values lies between the
/// least and greatest of the four corner quotients, for any divisor range
/// that excludes zero.
pub proof fn lemma_div_s_corner_bounds(a: int, b: int, c: int, d: int, x: int, y: int)
    requires
        a <= x <= b,
        c <= y <= d,
        c > 0 || d < 0,
    ensures
        min_s(min_s(div_s(a, c), div_s(a, d)), min_s(div_s(b, c), div_s(b, d))) <= div_s(x, y),
        div_s(x, y) <= max_s(max_s(div_s(a, c), div_s(a, d)), max_s(div_s(b, c), div_s(b, d))),
{
    if c > 0 {
        lemma_div_quotient_bounds_pos(a, b, c, d, x, y);
    } else {
        lemma_div_quotient_bounds_pos(a, b, -d, -c, x, -y);
    }
}

/// The fixed-point square root is monotone.
pub proof fn lemma_sqrt_s_ordered(a: int, b: int)
    requires
        0 <= a <= b,
    ensures
        sqrt_s(a) <= sqrt_s(b),
{
    lemma_isqrt_exists(a * FRAC as int);
    lemma_isqrt_exists(b * FRAC as int);
    vstd::arithmetic::mul::lemma_mul_inequality(a, b, FRAC as int);
    assert(is_sqrt_of(a * FRAC as int, isqrt_s(a * FRAC as int)));
    assert(is_sqrt_of(b * FRAC as int, isqrt_s(b * FRAC as int)));
    lemma_isqrt_monotone(
        a * FRAC as int,
        b * FRAC as int,
        isqrt_s(a * FRAC as int),
        isqrt_s(b * FRAC as int),
    );
}

/// Every nonnegative integer has an integer square root.
pub proof fn lemma_isqrt_exists(n: int)
    requires
        n >= 0,
    ensures
        exists|r: int| is_sqrt_of(n, r),
    decreases n,
{
    if n == 0 {
        assert(is_sqrt_of(0, 0));
    } else {
        lemma_isqrt_exists(n - 1);
        let r = choose|r: int| #[trigger] is_sqrt_of(n - 1, r);
        if n == (r + 1) * (r + 1) {
            assert(is_sqrt_of(n, r + 1)) by (nonlinear_arith)
                requires
                    n == (r + 1) * (r + 1),
                    r >= 0,
            ;
        } else {
            assert(is_sqrt_of(n, r));
        }
    }
}

} // verus!
