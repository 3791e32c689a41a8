//! Forward-mode automatic differentiation over the fixed-point domain:
//! a value paired with its 3D gradient, propagated analytically through
//! every operation, used to compute surface normals without finite
//! differencing.
//!
//! Arithmetic follows the standard calculus rules, expressed exactly in the
//! scalar domain's own operations: `(f*g)' = f'*g + g'*f`,
//! `(f/g)' = (f'*g - g'*f)/g^2`, `sqrt(f)' = f'/(2*sqrt(f))`,
//! `sin(f)' = f'*cos(f)`, `cos(f)' = -f'*sin(f)`. `min`/`max`/`abs` select
//! the entire dual of whichever branch's value wins.
//!
//! The ghost types [`DualS`] and [`Dual3S`] are the mathematical model:
//! every executable operation's contract says exactly which model-level
//! dual operation it performs.

use vstd::prelude::*;
use crate::fixed::{
    Fixed, FRAC, add_s, sub_s, neg_s, mul_s, div_s, min_s, max_s, abs_s, clamp_s, sin_s, cos_s,
    sqrt_s,
};
use crate::vector::{Vector3, dot3_s, mag3_s, lemma_dot3_self_nonneg};

verus! {

/// The model of a dual number: a raw value and its raw gradient.
pub ghost struct DualS {
    pub v: int,
    pub dx: int,
    pub dy: int,
    pub dz: int,
}

/// The model of a dual point: three dual components.
pub ghost struct Dual3S {
    pub x: DualS,
    pub y: DualS,
    pub z: DualS,
}

/// A constant in the dual model: zero gradient.
pub open spec fn dconst(v: int) -> DualS {
    DualS { v: v, dx: 0, dy: 0, dz: 0 }
}

pub open spec fn dadd(a: DualS, b: DualS) -> DualS {
    DualS {
        v: add_s(a.v, b.v),
        dx: add_s(a.dx, b.dx),
        dy: add_s(a.dy, b.dy),
        dz: add_s(a.dz, b.dz),
    }
}

pub open spec fn dsub(a: DualS, b: DualS) -> DualS {
    DualS {
        v: sub_s(a.v, b.v),
        dx: sub_s(a.dx, b.dx),
        dy: sub_s(a.dy, b.dy),
        dz: sub_s(a.dz, b.dz),
    }
}

pub open spec fn dneg(a: DualS) -> DualS {
    DualS { v: neg_s(a.v), dx: neg_s(a.dx), dy: neg_s(a.dy), dz: neg_s(a.dz) }
}

/// The product rule.
pub open spec fn dmul(a: DualS, b: DualS) -> DualS {
    DualS {
        v: mul_s(a.v, b.v),
        dx: add_s(mul_s(a.dx, b.v), mul_s(b.dx, a.v)),
        dy: add_s(mul_s(a.dy, b.v), mul_s(b.dy, a.v)),
        dz: add_s(mul_s(a.dz, b.v), mul_s(b.dz, a.v)),
    }
}

/// The quotient rule.
pub open spec fn ddiv(a: DualS, b: DualS) -> DualS {
    DualS {
        v: div_s(a.v, b.v),
        dx: div_s(sub_s(mul_s(a.dx, b.v), mul_s(b.dx, a.v)), mul_s(b.v, b.v)),
        dy: div_s(sub_s(mul_s(a.dy, b.v), mul_s(b.dy, a.v)), mul_s(b.v, b.v)),
        dz: div_s(sub_s(mul_s(a.dz, b.v), mul_s(b.dz, a.v)), mul_s(b.v, b.v)),
    }
}

/// Selection of the smaller value, gradient included.
pub open spec fn dmin(a: DualS, b: DualS) -> DualS {
    if a.v < b.v {
        a
    } else {
        b
    }
}

/// Selection of the larger value, gradient included.
pub open spec fn dmax(a: DualS, b: DualS) -> DualS {
    if a.v >= b.v {
        a
    } else {
        b
    }
}

pub open spec fn dclamp(a: DualS, lo: DualS, hi: DualS) -> DualS {
    dmin(dmax(a, lo), hi)
}

/// Selection by sign; the gradient is inherited wholesale from the chosen
/// branch, the standard subdifferential choice at the crease.
pub open spec fn dabs(a: DualS) -> DualS {
    if a.v > 0 {
        a
    } else {
        dneg(a)
    }
}

/// The chain rule through the square root.
pub open spec fn dsqrt(a: DualS) -> DualS {
    DualS {
        v: sqrt_s(a.v),
        dx: div_s(a.dx, mul_s(sqrt_s(a.v), 2 * FRAC as int)),
        dy: div_s(a.dy, mul_s(sqrt_s(a.v), 2 * FRAC as int)),
        dz: div_s(a.dz, mul_s(sqrt_s(a.v), 2 * FRAC as int)),
    }
}

/// The chain rule through the sine.
pub open spec fn dsin(a: DualS) -> DualS {
    DualS {
        v: sin_s(a.v),
        dx: mul_s(a.dx, cos_s(a.v)),
        dy: mul_s(a.dy, cos_s(a.v)),
        dz: mul_s(a.dz, cos_s(a.v)),
    }
}

/// The chain rule through the cosine.
pub open spec fn dcos(a: DualS) -> DualS {
    DualS {
        v: cos_s(a.v),
        dx: mul_s(a.dx, neg_s(sin_s(a.v))),
        dy: mul_s(a.dy, neg_s(sin_s(a.v))),
        dz: mul_s(a.dz, neg_s(sin_s(a.v))),
    }
}

/// Blending with a dual weight, in dual arithmetic.
pub open spec fn dmix(t: DualS, start: DualS, end: DualS) -> DualS {
    dadd(dmul(start, dsub(dconst(FRAC as int), t)), dmul(end, t))
}

/// Dot product of dual points.
pub open spec fn ddot(a: Dual3S, b: Dual3S) -> DualS {
    dadd(dadd(dmul(a.x, b.x), dmul(a.y, b.y)), dmul(a.z, b.z))
}

/// Magnitude of a dual point.
pub open spec fn dmag(a: Dual3S) -> DualS {
    dsqrt(ddot(a, a))
}

/// A dual number: a value `v` and its gradient `d` in three dimensions.
#[derive(Clone, Copy, PartialEq, Eq, Structural, Debug)]
pub struct Deriv {
    pub v: Fixed,
    pub d: Vector3,
}

impl View for Deriv {
    type V = DualS;

    open spec fn view(&self) -> DualS {
        DualS { v: self.v@, dx: self.d.x@, dy: self.d.y@, dz: self.d.z@ }
    }
}

/// A dual point: a 3D point whose components each carry a full 3D gradient.
#[derive(Clone, Copy, PartialEq, Eq, Structural, Debug)]
pub struct Deriv3 {
    pub x: Deriv,
    pub y: Deriv,
    pub z: Deriv,
}

impl View for Deriv3 {
    type V = Dual3S;

    open spec fn view(&self) -> Dual3S {
        Dual3S { x: self.x@, y: self.y@, z: self.z@ }
    }
}

impl Deriv {
    /// A constant: zero gradient.
    pub fn new(v: Fixed) -> (r: Deriv)
        ensures
            r@ == dconst(v@),
            r.v == v,
    {
        Deriv { v, d: Vector3::new(Fixed::zero(), Fixed::zero(), Fixed::zero()) }
    }

    pub fn new_with_deriv(v: Fixed, d: Vector3) -> (r: Deriv)
        ensures
            r.v == v,
            r.d == d,
    {
        Deriv { v, d }
    }

    /// The gradient carried by this dual number.
    pub fn derivatives(self) -> (r: Vector3)
        ensures
            r == self.d,
    {
        self.d
    }

    pub fn zero() -> (r: Deriv)
        ensures
            r@ == dconst(0),
    {
        Deriv::new(Fixed::zero())
    }

    pub fn one() -> (r: Deriv)
        ensures
            r@ == dconst(FRAC as int),
    {
        Deriv::new(Fixed::one())
    }

    pub fn add(self, rhs: Deriv) -> (r: Deriv)
        ensures
            r@ == dadd(self@, rhs@),
    {
        Deriv { v: self.v.add(rhs.v), d: self.d.add(rhs.d) }
    }

    pub fn sub(self, rhs: Deriv) -> (r: Deriv)
        ensures
            r@ == dsub(self@, rhs@),
    {
        Deriv { v: self.v.sub(rhs.v), d: self.d.sub(rhs.d) }
    }

    pub fn neg(self) -> (r: Deriv)
        ensures
            r@ == dneg(self@),
    {
        Deriv { v: self.v.neg(), d: self.d.neg() }
    }

    /// Product rule: `(f*g)' = f'*g + g'*f`.
    pub fn mul(self, rhs: Deriv) -> (r: Deriv)
        ensures
            r@ == dmul(self@, rhs@),
    {
        Deriv {
            v: self.v.mul(rhs.v),
            d: self.d.mul_scalar(rhs.v).add(rhs.d.mul_scalar(self.v)),
        }
    }

    /// Quotient rule: `(f/g)' = (f'*g - g'*f) / g^2`.
    pub fn div(self, rhs: Deriv) -> (r: Deriv)
        ensures
            r@ == ddiv(self@, rhs@),
    {
        Deriv {
            v: self.v.div(rhs.v),
            d: self.d.mul_scalar(rhs.v).sub(rhs.d.mul_scalar(self.v)).div_scalar(
                rhs.v.mul(rhs.v),
            ),
        }
    }

    /// Select the dual with the smaller value, gradient included.
    pub fn min(self, rhs: Deriv) -> (r: Deriv)
        ensures
            r@ == dmin(self@, rhs@),
            r.v@ == min_s(self.v@, rhs.v@),
    {
        if self.v.raw() < rhs.v.raw() {
            self
        } else {
            rhs
        }
    }

    /// Select the dual with the larger value, gradient included.
    pub fn max(self, rhs: Deriv) -> (r: Deriv)
        ensures
            r@ == dmax(self@, rhs@),
            r.v@ == max_s(self.v@, rhs.v@),
    {
        if self.v.raw() >= rhs.v.raw() {
            self
        } else {
            rhs
        }
    }

    /// Clamp by selection: raise to `lo`, then lower to `hi`.
    pub fn clamp(self, lo: Deriv, hi: Deriv) -> (r: Deriv)
        ensures
            r@ == dclamp(self@, lo@, hi@),
            r.v@ == clamp_s(self.v@, lo.v@, hi.v@),
    {
        self.max(lo).min(hi)
    }

    /// Absolute value by branch selection.
    pub fn abs(self) -> (r: Deriv)
        ensures
            r@ == dabs(self@),
            r.v@ == abs_s(self.v@),
    {
        if self.v.raw() > 0 {
            self
        } else {
            self.neg()
        }
    }

    /// Chain rule through the square root.
    pub fn sqrt(self) -> (r: Deriv)
        requires
            self.v@ >= 0,
        ensures
            r@ == dsqrt(self@),
    {
        let a = self.v.sqrt();
        let two = Fixed::from_raw(2 * FRAC);
        Deriv { v: a, d: self.d.div_scalar(a.mul(two)) }
    }

    /// Chain rule through the sine.
    pub fn sin(self) -> (r: Deriv)
        ensures
            r@ == dsin(self@),
    {
        let a = self.v.cos();
        Deriv { v: self.v.sin(), d: self.d.mul_scalar(a) }
    }

    /// Chain rule through the cosine.
    pub fn cos(self) -> (r: Deriv)
        ensures
            r@ == dcos(self@),
    {
        let a = self.v.sin().neg();
        Deriv { v: self.v.cos(), d: self.d.mul_scalar(a) }
    }

    /// Blending with `self` as the weight, in dual arithmetic.
    pub fn mix(self, start: Deriv, end: Deriv) -> (r: Deriv)
        ensures
            r@ == dmix(self@, start@, end@),
    {
        start.mul(Deriv::one().sub(self)).add(end.mul(self))
    }
}

impl Deriv3 {
    /// A point set up for cartesian coordinates: the gradients of the
    /// components are seeded with the standard basis vectors, which makes
    /// every later chain-rule step propagate true spatial derivatives.
    pub fn new_xyz(v: Vector3) -> (r: Deriv3)
        ensures
            r.x.v == v.x,
            r.y.v == v.y,
            r.z.v == v.z,
            r.x@ == (DualS { v: v.x@, dx: FRAC as int, dy: 0, dz: 0 }),
            r.y@ == (DualS { v: v.y@, dx: 0, dy: FRAC as int, dz: 0 }),
            r.z@ == (DualS { v: v.z@, dx: 0, dy: 0, dz: FRAC as int }),
    {
        let one = Fixed::one();
        let zero = Fixed::zero();
        Deriv3 {
            x: Deriv::new_with_deriv(v.x, Vector3::new(one, zero, zero)),
            y: Deriv::new_with_deriv(v.y, Vector3::new(zero, one, zero)),
            z: Deriv::new_with_deriv(v.z, Vector3::new(zero, zero, one)),
        }
    }

    /// A constant vector: all gradients zero.
    pub fn new(v: Vector3) -> (r: Deriv3)
        ensures
            r.x@ == dconst(v.x@),
            r.y@ == dconst(v.y@),
            r.z@ == dconst(v.z@),
            r.x.v == v.x,
            r.y.v == v.y,
            r.z.v == v.z,
    {
        Deriv3 { x: Deriv::new(v.x), y: Deriv::new(v.y), z: Deriv::new(v.z) }
    }

    /// The value components, with the gradients dropped.
    pub fn v(self) -> (r: Vector3)
        ensures
            r.x == self.x.v,
            r.y == self.y.v,
            r.z == self.z.v,
    {
        Vector3::new(self.x.v, self.y.v, self.z.v)
    }

    pub fn add(self, rhs: Deriv3) -> (r: Deriv3)
        ensures
            r.x@ == dadd(self.x@, rhs.x@),
            r.y@ == dadd(self.y@, rhs.y@),
            r.z@ == dadd(self.z@, rhs.z@),
    {
        Deriv3 { x: self.x.add(rhs.x), y: self.y.add(rhs.y), z: self.z.add(rhs.z) }
    }

    pub fn sub(self, rhs: Deriv3) -> (r: Deriv3)
        ensures
            r.x@ == dsub(self.x@, rhs.x@),
            r.y@ == dsub(self.y@, rhs.y@),
            r.z@ == dsub(self.z@, rhs.z@),
    {
        Deriv3 { x: self.x.sub(rhs.x), y: self.y.sub(rhs.y), z: self.z.sub(rhs.z) }
    }

    pub fn neg(self) -> (r: Deriv3)
        ensures
            r.x@ == dneg(self.x@),
            r.y@ == dneg(self.y@),
            r.z@ == dneg(self.z@),
    {
        Deriv3 { x: self.x.neg(), y: self.y.neg(), z: self.z.neg() }
    }

    /// Shift by a constant vector; gradients are unchanged.
    pub fn add_vector(self, rhs: Vector3) -> (r: Deriv3)
        ensures
            r.x@ == dadd(self.x@, dconst(rhs.x@)),
            r.y@ == dadd(self.y@, dconst(rhs.y@)),
            r.z@ == dadd(self.z@, dconst(rhs.z@)),
    {
        self.add(Deriv3::new(rhs))
    }

    /// Subtract a constant vector; gradients are unchanged.
    pub fn sub_vector(self, rhs: Vector3) -> (r: Deriv3)
        ensures
            r.x@ == dsub(self.x@, dconst(rhs.x@)),
            r.y@ == dsub(self.y@, dconst(rhs.y@)),
            r.z@ == dsub(self.z@, dconst(rhs.z@)),
    {
        self.sub(Deriv3::new(rhs))
    }

    /// Divide each component by a constant scalar.
    pub fn div_scalar(self, rhs: Fixed) -> (r: Deriv3)
        ensures
            r.x@ == ddiv(self.x@, dconst(rhs@)),
            r.y@ == ddiv(self.y@, dconst(rhs@)),
            r.z@ == ddiv(self.z@, dconst(rhs@)),
    {
        let k = Deriv::new(rhs);
        Deriv3 { x: self.x.div(k), y: self.y.div(k), z: self.z.div(k) }
    }

    /// Componentwise selection of the larger value, gradients included.
    pub fn max(self, rhs: Deriv3) -> (r: Deriv3)
        ensures
            r.x@ == dmax(self.x@, rhs.x@),
            r.y@ == dmax(self.y@, rhs.y@),
            r.z@ == dmax(self.z@, rhs.z@),
    {
        Deriv3 { x: self.x.max(rhs.x), y: self.y.max(rhs.y), z: self.z.max(rhs.z) }
    }

    pub fn abs(self) -> (r: Deriv3)
        ensures
            r.x@ == dabs(self.x@),
            r.y@ == dabs(self.y@),
            r.z@ == dabs(self.z@),
    {
        Deriv3 { x: self.x.abs(), y: self.y.abs(), z: self.z.abs() }
    }

    pub fn sin(self) -> (r: Deriv3)
        ensures
            r.x@ == dsin(self.x@),
            r.y@ == dsin(self.y@),
            r.z@ == dsin(self.z@),
    {
        Deriv3 { x: self.x.sin(), y: self.y.sin(), z: self.z.sin() }
    }

    pub fn cos(self) -> (r: Deriv3)
        ensures
            r.x@ == dcos(self.x@),
            r.y@ == dcos(self.y@),
            r.z@ == dcos(self.z@),
    {
        Deriv3 { x: self.x.cos(), y: self.y.cos(), z: self.z.cos() }
    }

    /// Dot product, summing componentwise dual products.
    pub fn dot(self, rhs: Deriv3) -> (r: Deriv)
        ensures
            r@ == ddot(self@, rhs@),
            r.v@ == dot3_s(self.x.v@, self.y.v@, self.z.v@, rhs.x.v@, rhs.y.v@, rhs.z.v@),
    {
        self.x.mul(rhs.x).add(self.y.mul(rhs.y)).add(self.z.mul(rhs.z))
    }

    /// Euclidean magnitude, via the dual square root; the gradient at a
    /// nonzero point is the unit direction of the value.
    pub fn mag(self) -> (r: Deriv)
        ensures
            r@ == dmag(self@),
            r.v@ == mag3_s(self.x.v@, self.y.v@, self.z.v@),
    {
        let q = self.dot(self);
        proof {
            lemma_dot3_self_nonneg(self.x.v@, self.y.v@, self.z.v@);
        }
        q.sqrt()
    }

    /// The `zxy` swizzle used by the gyroid fill.
    pub fn zxy(self) -> (r: Deriv3)
        ensures
            r.x == self.z,
            r.y == self.x,
            r.z == self.y,
    {
        Deriv3 { x: self.z, y: self.x, z: self.y }
    }
}


/// Dual-number correctness on a concrete family of formulas: seeding a
/// coordinate with a unit gradient and evaluating the polynomial
/// `x * (c - x)` in dual arithmetic yields exactly the analytic
/// derivative `c - 2x`, with the other gradient components zero.
pub proof fn lemma_dual_gradient_quadratic(x: int, c: int)
    requires
        crate::fixed::wf_raw(x),
        crate::fixed::wf_raw(c),
        crate::fixed::wf_raw(c - x),
        crate::fixed::wf_raw(c - 2 * x),
    ensures
        ({
            let a = DualS { v: x, dx: FRAC as int, dy: 0, dz: 0 };
            let m = dmul(a, dsub(dconst(c), a));
            m.dx == c - 2 * x && m.dy == 0 && m.dz == 0 && m.v == mul_s(x, sub_s(c, x))
        }),
{
    let a = DualS { v: x, dx: FRAC as int, dy: 0, dz: 0 };
    let b = dsub(dconst(c), a);
    assert(b.v == c - x && b.dx == -(FRAC as int) && b.dy == 0 && b.dz == 0);
    assert((FRAC as int) * (c - x) / (FRAC as int) == c - x) by {
        vstd::arithmetic::div_mod::lemma_div_multiples_vanish(c - x, FRAC as int);
        assert((FRAC as int) * (c - x) == (c - x) * (FRAC as int)) by (nonlinear_arith);
    }
    assert(mul_s(FRAC as int, c - x) == c - x);
    assert((-(FRAC as int)) * x / (FRAC as int) == -x) by {
        vstd::arithmetic::div_mod::lemma_div_multiples_vanish(-x, FRAC as int);
        assert((-(FRAC as int)) * x == (-x) * (FRAC as int)) by (nonlinear_arith);
    }
    assert(mul_s(-(FRAC as int), x) == -x);
    assert(mul_s(0, c - x) == 0 && mul_s(0, x) == 0) by {
        assert(0int * (c - x) == 0 && 0int * x == 0) by (nonlinear_arith);
        vstd::arithmetic::div_mod::lemma_div_of0(FRAC as int);
    }
    let m = dmul(a, b);
    assert(m.dx == add_s(c - x, -x));
}

} // verus!
