//! Plain 2- and 3-component vectors over the fixed-point scalar domain.
//!
//! Every vector operation is defined purely through the scalar domain's
//! operations, so its spec is the componentwise composition of the scalar
//! specs.

use vstd::prelude::*;
use crate::fixed::{Fixed, add_s, sub_s, neg_s, mul_s, div_s, min_s, max_s, abs_s, sin_s, cos_s, sqrt_s, sat};

verus! {

/// Dot product of two 3-vectors, over the raw scalar semantics.
pub open spec fn dot3_s(ax: int, ay: int, az: int, bx: int, by: int, bz: int) -> int {
    add_s(add_s(mul_s(ax, bx), mul_s(ay, by)), mul_s(az, bz))
}

/// Dot product of two 2-vectors, over the raw scalar semantics.
pub open spec fn dot2_s(ax: int, ay: int, bx: int, by: int) -> int {
    add_s(mul_s(ax, bx), mul_s(ay, by))
}

/// Magnitude of a 3-vector: the square root of its dot product with itself.
pub open spec fn mag3_s(x: int, y: int, z: int) -> int {
    sqrt_s(dot3_s(x, y, z, x, y, z))
}

/// Magnitude of a 2-vector.
pub open spec fn mag2_s(x: int, y: int) -> int {
    sqrt_s(dot2_s(x, y, x, y))
}

/// The scalar square `mul_s(a, a)` is never negative.
pub proof fn lemma_square_nonneg(a: int)
    ensures
        mul_s(a, a) >= 0,
{
    assert(a * a >= 0) by (nonlinear_arith);
    vstd::arithmetic::div_mod::lemma_div_pos_is_pos(a * a, crate::fixed::FRAC as int);
}

/// The dot product of a 3-vector with itself is never negative.
pub proof fn lemma_dot3_self_nonneg(x: int, y: int, z: int)
    ensures
        dot3_s(x, y, z, x, y, z) >= 0,
{
    lemma_square_nonneg(x);
    lemma_square_nonneg(y);
    lemma_square_nonneg(z);
}

/// The dot product of a 2-vector with itself is never negative.
pub proof fn lemma_dot2_self_nonneg(x: int, y: int)
    ensures
        dot2_s(x, y, x, y) >= 0,
{
    lemma_square_nonneg(x);
    lemma_square_nonneg(y);
}

/// A 2-component vector of fixed-point scalars.
#[derive(Clone, Copy, PartialEq, Eq, Structural, Debug)]
pub struct Vector2 {
    pub x: Fixed,
    pub y: Fixed,
}

impl Vector2 {
    pub fn new(x: Fixed, y: Fixed) -> (r: Vector2)
        ensures
            r.x == x,
            r.y == y,
    {
        Vector2 { x, y }
    }

    pub fn splat(v: Fixed) -> (r: Vector2)
        ensures
            r.x == v,
            r.y == v,
    {
        Vector2 { x: v, y: v }
    }

    pub fn sub(self, rhs: Vector2) -> (r: Vector2)
        ensures
            r.x@ == sub_s(self.x@, rhs.x@),
            r.y@ == sub_s(self.y@, rhs.y@),
    {
        Vector2 { x: self.x.sub(rhs.x), y: self.y.sub(rhs.y) }
    }

    pub fn abs(self) -> (r: Vector2)
        ensures
            r.x@ == abs_s(self.x@),
            r.y@ == abs_s(self.y@),
    {
        Vector2 { x: self.x.abs(), y: self.y.abs() }
    }

    pub fn max(self, rhs: Vector2) -> (r: Vector2)
        ensures
            r.x@ == max_s(self.x@, rhs.x@),
            r.y@ == max_s(self.y@, rhs.y@),
    {
        Vector2 { x: self.x.max(rhs.x), y: self.y.max(rhs.y) }
    }

    pub fn dot(self, rhs: Vector2) -> (r: Fixed)
        ensures
            r@ == dot2_s(self.x@, self.y@, rhs.x@, rhs.y@),
    {
        self.x.mul(rhs.x).add(self.y.mul(rhs.y))
    }

    /// Euclidean magnitude.
    pub fn mag(self) -> (r: Fixed)
        ensures
            r@ == mag2_s(self.x@, self.y@),
            r@ >= 0,
    {
        let d = self.dot(self);
        proof {
            lemma_dot2_self_nonneg(self.x@, self.y@);
        }
        d.sqrt()
    }
}

/// A 3-component vector of fixed-point scalars.
#[derive(Clone, Copy, PartialEq, Eq, Structural, Debug)]
pub struct Vector3 {
    pub x: Fixed,
    pub y: Fixed,
    pub z: Fixed,
}

impl Vector3 {
    pub fn new(x: Fixed, y: Fixed, z: Fixed) -> (r: Vector3)
        ensures
            r.x == x,
            r.y == y,
            r.z == z,
    {
        Vector3 { x, y, z }
    }

    pub fn splat(v: Fixed) -> (r: Vector3)
        ensures
            r.x == v,
            r.y == v,
            r.z == v,
    {
        Vector3 { x: v, y: v, z: v }
    }

    pub fn add(self, rhs: Vector3) -> (r: Vector3)
        ensures
            r.x@ == add_s(self.x@, rhs.x@),
            r.y@ == add_s(self.y@, rhs.y@),
            r.z@ == add_s(self.z@, rhs.z@),
    {
        Vector3 { x: self.x.add(rhs.x), y: self.y.add(rhs.y), z: self.z.add(rhs.z) }
    }

    pub fn sub(self, rhs: Vector3) -> (r: Vector3)
        ensures
            r.x@ == sub_s(self.x@, rhs.x@),
            r.y@ == sub_s(self.y@, rhs.y@),
            r.z@ == sub_s(self.z@, rhs.z@),
    {
        Vector3 { x: self.x.sub(rhs.x), y: self.y.sub(rhs.y), z: self.z.sub(rhs.z) }
    }

    pub fn neg(self) -> (r: Vector3)
        ensures
            r.x@ == neg_s(self.x@),
            r.y@ == neg_s(self.y@),
            r.z@ == neg_s(self.z@),
    {
        Vector3 { x: self.x.neg(), y: self.y.neg(), z: self.z.neg() }
    }

    /// Componentwise product with a scalar.
    pub fn mul_scalar(self, rhs: Fixed) -> (r: Vector3)
        ensures
            r.x@ == mul_s(self.x@, rhs@),
            r.y@ == mul_s(self.y@, rhs@),
            r.z@ == mul_s(self.z@, rhs@),
    {
        Vector3 { x: self.x.mul(rhs), y: self.y.mul(rhs), z: self.z.mul(rhs) }
    }

    /// Componentwise quotient by a scalar.
    pub fn div_scalar(self, rhs: Fixed) -> (r: Vector3)
        ensures
            r.x@ == div_s(self.x@, rhs@),
            r.y@ == div_s(self.y@, rhs@),
            r.z@ == div_s(self.z@, rhs@),
    {
        Vector3 { x: self.x.div(rhs), y: self.y.div(rhs), z: self.z.div(rhs) }
    }

    pub fn abs(self) -> (r: Vector3)
        ensures
            r.x@ == abs_s(self.x@),
            r.y@ == abs_s(self.y@),
            r.z@ == abs_s(self.z@),
    {
        Vector3 { x: self.x.abs(), y: self.y.abs(), z: self.z.abs() }
    }

    pub fn max(self, rhs: Vector3) -> (r: Vector3)
        ensures
            r.x@ == max_s(self.x@, rhs.x@),
            r.y@ == max_s(self.y@, rhs.y@),
            r.z@ == max_s(self.z@, rhs.z@),
    {
        Vector3 { x: self.x.max(rhs.x), y: self.y.max(rhs.y), z: self.z.max(rhs.z) }
    }

    pub fn min(self, rhs: Vector3) -> (r: Vector3)
        ensures
            r.x@ == min_s(self.x@, rhs.x@),
            r.y@ == min_s(self.y@, rhs.y@),
            r.z@ == min_s(self.z@, rhs.z@),
    {
        Vector3 { x: self.x.min(rhs.x), y: self.y.min(rhs.y), z: self.z.min(rhs.z) }
    }

    pub fn sin(self) -> (r: Vector3)
        ensures
            r.x@ == sin_s(self.x@),
            r.y@ == sin_s(self.y@),
            r.z@ == sin_s(self.z@),
    {
        Vector3 { x: self.x.sin(), y: self.y.sin(), z: self.z.sin() }
    }

    pub fn cos(self) -> (r: Vector3)
        ensures
            r.x@ == cos_s(self.x@),
            r.y@ == cos_s(self.y@),
            r.z@ == cos_s(self.z@),
    {
        Vector3 { x: self.x.cos(), y: self.y.cos(), z: self.z.cos() }
    }

    pub fn dot(self, rhs: Vector3) -> (r: Fixed)
        ensures
            r@ == dot3_s(self.x@, self.y@, self.z@, rhs.x@, rhs.y@, rhs.z@),
    {
        self.x.mul(rhs.x).add(self.y.mul(rhs.y)).add(self.z.mul(rhs.z))
    }

    /// Euclidean magnitude.
    pub fn mag(self) -> (r: Fixed)
        ensures
            r@ == mag3_s(self.x@, self.y@, self.z@),
            r@ >= 0,
    {
        let d = self.dot(self);
        proof {
            lemma_dot3_self_nonneg(self.x@, self.y@, self.z@);
        }
        d.sqrt()
    }

    /// The `xz` swizzle used by the cylinder's radial reduction.
    pub fn xz(self) -> (r: Vector2)
        ensures
            r.x == self.x,
            r.y == self.z,
    {
        Vector2 { x: self.x, y: self.z }
    }

    /// The `zxy` swizzle used by the gyroid fill.
    pub fn zxy(self) -> (r: Vector3)
        ensures
            r.x == self.z,
            r.y == self.x,
            r.z == self.y,
    {
        Vector3 { x: self.z, y: self.x, z: self.y }
    }
}

} // verus!
