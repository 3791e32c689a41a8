//! The primitives and operators over the plain scalar domain. Each
//! function returns exactly the spec-level semantics of its formula.

use vstd::prelude::*;
use crate::fixed::{Fixed, FRAC, HALF_FRAC};
use crate::vector::{Vector2, Vector3};
use crate::sdf::{
    SIX_TENTHS_RAW, union_s, intersection_s, subtraction_s, smooth_union_s,
    smooth_intersection_s, smooth_subtraction_s, sphere_s, prism_s, cylinder_s, gyroid_s,
    schwarz_p_s,
};

verus! {

/// `|p| - r`.
pub fn sphere(p: Vector3, radius: Fixed) -> (r: Fixed)
    ensures
        r@ == sphere_s(p.x@, p.y@, p.z@, radius@),
{
    p.mag().sub(radius)
}

/// A box with the given half side lengths.
pub fn rectangular_prism(p: Vector3, sides: Vector3) -> (r: Fixed)
    ensures
        r@ == prism_s(p.x@, p.y@, p.z@, sides.x@, sides.y@, sides.z@),
{
    let q = p.abs().sub(sides);
    let m = q.max(Vector3::splat(Fixed::zero())).mag();
    let tail = q.x.max(q.y.max(q.z)).min(Fixed::zero());
    m.add(tail)
}

/// A cylinder, via the 2D radial/height reduction of the prism formula.
pub fn cylinder(p: Vector3, height: Fixed, radius: Fixed) -> (r: Fixed)
    ensures
        r@ == cylinder_s(p.x@, p.y@, p.z@, height@, radius@),
{
    let d = Vector2::new(p.xz().mag(), p.y).abs().sub(Vector2::new(height, radius));
    let dm = Vector2::new(d.x.max(Fixed::zero()), d.y.max(Fixed::zero())).mag();
    dm.add(d.x.max(d.y).min(Fixed::zero()))
}

/// The gyroid fill pattern.
pub fn gyroid(p: Vector3, scale: Fixed, thickness: Fixed) -> (r: Fixed)
    ensures
        r@ == gyroid_s(p.x@, p.y@, p.z@, scale@, thickness@),
{
    let q = p.div_scalar(scale);
    let g = q.sin().dot(q.zxy().cos());
    g.abs().mul(scale).sub(thickness).mul(Fixed::from_raw(SIX_TENTHS_RAW))
}

/// The schwarz-P fill pattern.
pub fn schwarz_p(p: Vector3, scale: Fixed, thickness: Fixed) -> (r: Fixed)
    ensures
        r@ == schwarz_p_s(p.x@, p.y@, p.z@, scale@, thickness@),
{
    let q = p.div_scalar(scale);
    let g = q.cos().dot(Vector3::splat(Fixed::one()));
    g.abs().mul(scale).sub(thickness).mul(Fixed::from_raw(SIX_TENTHS_RAW))
}

/// The smaller distance wins.
pub fn union(lhs: Fixed, rhs: Fixed) -> (r: Fixed)
    ensures
        r@ == union_s(lhs@, rhs@),
{
    lhs.min(rhs)
}

/// The larger distance wins.
pub fn intersection(lhs: Fixed, rhs: Fixed) -> (r: Fixed)
    ensures
        r@ == intersection_s(lhs@, rhs@),
{
    lhs.max(rhs)
}

/// Keep the right shape outside the left one.
pub fn subtraction(lhs: Fixed, rhs: Fixed) -> (r: Fixed)
    ensures
        r@ == subtraction_s(lhs@, rhs@),
{
    lhs.neg().max(rhs)
}

/// The polynomial smooth union with blend radius `k`.
pub fn smooth_union(lhs: Fixed, rhs: Fixed, k: Fixed) -> (r: Fixed)
    ensures
        r@ == smooth_union_s(lhs@, rhs@, k@),
{
    let tk = Fixed::from_raw(2 * FRAC).mul(k);
    let h = rhs.sub(lhs).div(tk).add(Fixed::from_raw(HALF_FRAC)).clamp(
        Fixed::zero(),
        Fixed::one(),
    );
    let m = h.mix(rhs, lhs);
    let corr = k.mul(h.mul(Fixed::one().sub(h)));
    m.sub(corr)
}

/// Smooth intersection, mirrored from the smooth union by sign flips.
pub fn smooth_intersection(lhs: Fixed, rhs: Fixed, k: Fixed) -> (r: Fixed)
    ensures
        r@ == smooth_intersection_s(lhs@, rhs@, k@),
{
    smooth_union(lhs.neg(), rhs.neg(), k).neg()
}

/// Smooth subtraction: the smooth intersection with the left exterior.
pub fn smooth_subtraction(lhs: Fixed, rhs: Fixed, k: Fixed) -> (r: Fixed)
    ensures
        r@ == smooth_subtraction_s(lhs@, rhs@, k@),
{
    smooth_intersection(lhs.neg(), rhs, k)
}

} // verus!
