//! The primitives and operators over the dual-number domain. Each
//! function computes the same formula as the plain domain, in dual
//! arithmetic: the value component agrees with the plain semantics
//! exactly, and the gradient follows the chain rule through every step.

use vstd::prelude::*;
use crate::fixed::{Fixed, FRAC, HALF_FRAC};
use crate::deriv::{
    Deriv, Deriv3, DualS, Dual3S, dconst, dadd, dsub, dneg, dmul, ddiv, dmin, dmax, dclamp,
    dabs, dsqrt, dsin, dcos, dmix, ddot, dmag,
};
use crate::vector::Vector3;
use crate::sdf::{
    SIX_TENTHS_RAW, union_s, intersection_s, subtraction_s, smooth_union_s,
    smooth_intersection_s, smooth_subtraction_s, sphere_s, prism_s, gyroid_s, schwarz_p_s,
};
use crate::fixed::mul_s;

verus! {

/// The sphere's distance, in dual arithmetic.
pub open spec fn sphere_d(p: Dual3S, r: int) -> DualS {
    dsub(dmag(p), dconst(r))
}

/// The rectangular prism's distance, in dual arithmetic.
pub open spec fn prism_d(p: Dual3S, sx: int, sy: int, sz: int) -> DualS {
    let qx = dsub(dabs(p.x), dconst(sx));
    let qy = dsub(dabs(p.y), dconst(sy));
    let qz = dsub(dabs(p.z), dconst(sz));
    let m = dmag(
        Dual3S {
            x: dmax(qx, dconst(0)),
            y: dmax(qy, dconst(0)),
            z: dmax(qz, dconst(0)),
        },
    );
    dadd(m, dmin(dmax(qx, dmax(qy, qz)), dconst(0)))
}

/// The gyroid fill, in dual arithmetic.
pub open spec fn gyroid_d(p: Dual3S, scale: int, thickness: int) -> DualS {
    let qx = ddiv(p.x, dconst(scale));
    let qy = ddiv(p.y, dconst(scale));
    let qz = ddiv(p.z, dconst(scale));
    let q = Dual3S { x: qx, y: qy, z: qz };
    let g = ddot(
        Dual3S { x: dsin(qx), y: dsin(qy), z: dsin(qz) },
        Dual3S { x: dcos(qz), y: dcos(qx), z: dcos(qy) },
    );
    dmul(dsub(dmul(dabs(g), dconst(scale)), dconst(thickness)), dconst(SIX_TENTHS_RAW as int))
}

/// The schwarz-P fill, in dual arithmetic.
pub open spec fn schwarz_p_d(p: Dual3S, scale: int, thickness: int) -> DualS {
    let qx = ddiv(p.x, dconst(scale));
    let qy = ddiv(p.y, dconst(scale));
    let qz = ddiv(p.z, dconst(scale));
    let g = ddot(
        Dual3S { x: dcos(qx), y: dcos(qy), z: dcos(qz) },
        Dual3S { x: dconst(FRAC as int), y: dconst(FRAC as int), z: dconst(FRAC as int) },
    );
    dmul(dsub(dmul(dabs(g), dconst(scale)), dconst(thickness)), dconst(SIX_TENTHS_RAW as int))
}

/// The polynomial smooth union, in dual arithmetic.
pub open spec fn smooth_union_d(a: DualS, b: DualS, k: int) -> DualS {
    let tk = dconst(mul_s(2 * FRAC as int, k));
    let h = dclamp(
        dadd(ddiv(dsub(b, a), tk), dconst(HALF_FRAC as int)),
        dconst(0),
        dconst(FRAC as int),
    );
    dsub(dmix(h, b, a), dmul(dconst(k), dmul(h, dsub(dconst(FRAC as int), h))))
}

pub open spec fn smooth_intersection_d(a: DualS, b: DualS, k: int) -> DualS {
    dneg(smooth_union_d(dneg(a), dneg(b), k))
}

pub open spec fn smooth_subtraction_d(a: DualS, b: DualS, k: int) -> DualS {
    smooth_intersection_d(dneg(a), b, k)
}

/// `|p| - r`, with the gradient carried through the chain rule.
pub fn sphere(p: Deriv3, radius: Fixed) -> (r: Deriv)
    ensures
        r@ == sphere_d(p@, radius@),
        r.v@ == sphere_s(p.x.v@, p.y.v@, p.z.v@, radius@),
{
    p.mag().sub(Deriv::new(radius))
}

/// A box with the given half side lengths.
pub fn rectangular_prism(p: Deriv3, sides: Vector3) -> (r: Deriv)
    ensures
        r@ == prism_d(p@, sides.x@, sides.y@, sides.z@),
        r.v@ == prism_s(p.x.v@, p.y.v@, p.z.v@, sides.x@, sides.y@, sides.z@),
{
    let q = p.abs().sub(Deriv3::new(sides));
    let zero = Deriv::zero();
    let m = q.max(Deriv3 { x: zero, y: zero, z: zero }).mag();
    let tail = q.x.max(q.y.max(q.z)).min(zero);
    m.add(tail)
}

/// The gyroid fill pattern.
pub fn gyroid(p: Deriv3, scale: Fixed, thickness: Fixed) -> (r: Deriv)
    ensures
        r@ == gyroid_d(p@, scale@, thickness@),
        r.v@ == gyroid_s(p.x.v@, p.y.v@, p.z.v@, scale@, thickness@),
{
    let q = p.div_scalar(scale);
    let g = q.sin().dot(q.zxy().cos());
    g.abs().mul(Deriv::new(scale)).sub(Deriv::new(thickness)).mul(
        Deriv::new(Fixed::from_raw(SIX_TENTHS_RAW)),
    )
}

/// The schwarz-P fill pattern.
pub fn schwarz_p(p: Deriv3, scale: Fixed, thickness: Fixed) -> (r: Deriv)
    ensures
        r@ == schwarz_p_d(p@, scale@, thickness@),
        r.v@ == schwarz_p_s(p.x.v@, p.y.v@, p.z.v@, scale@, thickness@),
{
    let q = p.div_scalar(scale);
    let one = Deriv::one();
    let g = q.cos().dot(Deriv3 { x: one, y: one, z: one });
    g.abs().mul(Deriv::new(scale)).sub(Deriv::new(thickness)).mul(
        Deriv::new(Fixed::from_raw(SIX_TENTHS_RAW)),
    )
}

/// The smaller distance wins, gradient included.
pub fn union(lhs: Deriv, rhs: Deriv) -> (r: Deriv)
    ensures
        r@ == dmin(lhs@, rhs@),
        r.v@ == union_s(lhs.v@, rhs.v@),
{
    lhs.min(rhs)
}

/// The larger distance wins, gradient included.
pub fn intersection(lhs: Deriv, rhs: Deriv) -> (r: Deriv)
    ensures
        r@ == dmax(lhs@, rhs@),
        r.v@ == intersection_s(lhs.v@, rhs.v@),
{
    lhs.max(rhs)
}

/// Keep the right shape outside the left one.
pub fn subtraction(lhs: Deriv, rhs: Deriv) -> (r: Deriv)
    ensures
        r@ == dmax(dneg(lhs@), rhs@),
        r.v@ == subtraction_s(lhs.v@, rhs.v@),
{
    lhs.neg().max(rhs)
}

/// The polynomial smooth union with blend radius `k`.
pub fn smooth_union(lhs: Deriv, rhs: Deriv, k: Fixed) -> (r: Deriv)
    ensures
        r@ == smooth_union_d(lhs@, rhs@, k@),
        r.v@ == smooth_union_s(lhs.v@, rhs.v@, k@),
{
    let tk = Deriv::new(Fixed::from_raw(2 * FRAC).mul(k));
    let h = rhs.sub(lhs).div(tk).add(Deriv::new(Fixed::from_raw(HALF_FRAC))).clamp(
        Deriv::zero(),
        Deriv::one(),
    );
    let m = h.mix(rhs, lhs);
    let corr = Deriv::new(k).mul(h.mul(Deriv::one().sub(h)));
    m.sub(corr)
}

/// Smooth intersection, mirrored from the smooth union by sign flips.
pub fn smooth_intersection(lhs: Deriv, rhs: Deriv, k: Fixed) -> (r: Deriv)
    ensures
        r@ == smooth_intersection_d(lhs@, rhs@, k@),
        r.v@ == smooth_intersection_s(lhs.v@, rhs.v@, k@),
{
    smooth_union(lhs.neg(), rhs.neg(), k).neg()
}

/// Smooth subtraction: the smooth intersection with the left exterior.
pub fn smooth_subtraction(lhs: Deriv, rhs: Deriv, k: Fixed) -> (r: Deriv)
    ensures
        r@ == smooth_subtraction_d(lhs@, rhs@, k@),
        r.v@ == smooth_subtraction_s(lhs.v@, rhs.v@, k@),
{
    smooth_intersection(lhs.neg(), rhs, k)
}


/// The dual sphere's value component is the plain sphere distance.
pub proof fn lemma_sphere_d_value(p: Dual3S, r: int)
    ensures
        sphere_d(p, r).v == sphere_s(p.x.v, p.y.v, p.z.v, r),
{
}

/// The dual prism's value component is the plain prism distance.
pub proof fn lemma_prism_d_value(p: Dual3S, sx: int, sy: int, sz: int)
    ensures
        prism_d(p, sx, sy, sz).v == prism_s(p.x.v, p.y.v, p.z.v, sx, sy, sz),
{
}

/// The dual gyroid's value component is the plain gyroid distance.
pub proof fn lemma_gyroid_d_value(p: Dual3S, scale: int, thickness: int)
    ensures
        gyroid_d(p, scale, thickness).v == gyroid_s(p.x.v, p.y.v, p.z.v, scale, thickness),
{
}

/// The dual schwarz-P's value component is the plain distance.
pub proof fn lemma_schwarz_p_d_value(p: Dual3S, scale: int, thickness: int)
    ensures
        schwarz_p_d(p, scale, thickness).v == schwarz_p_s(
            p.x.v,
            p.y.v,
            p.z.v,
            scale,
            thickness,
        ),
{
}

/// The dual smooth union's value component is the plain smooth union.
pub proof fn lemma_smooth_union_d_value(a: DualS, b: DualS, k: int)
    ensures
        smooth_union_d(a, b, k).v == smooth_union_s(a.v, b.v, k),
{
}

/// The dual smooth intersection's value component is the plain one.
pub proof fn lemma_smooth_intersection_d_value(a: DualS, b: DualS, k: int)
    ensures
        smooth_intersection_d(a, b, k).v == smooth_intersection_s(a.v, b.v, k),
{
    lemma_smooth_union_d_value(dneg(a), dneg(b), k);
}

/// The dual smooth subtraction's value component is the plain one.
pub proof fn lemma_smooth_subtraction_d_value(a: DualS, b: DualS, k: int)
    ensures
        smooth_subtraction_d(a, b, k).v == smooth_subtraction_s(a.v, b.v, k),
{
    lemma_smooth_intersection_d_value(dneg(a), b, k);
}

} // verus!
