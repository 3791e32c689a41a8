//! The shape and fill primitive library and the boolean/blend operators,
//! written once per evaluation domain against a single spec-level
//! semantics.
//!
//! [`regular`] evaluates plain scalars, [`deriv`] dual numbers with
//! gradients, and [`affine`] conservative enclosures. The spec functions
//! here define what every domain computes: the plain domain returns these
//! values exactly, the dual domain's value component equals them, and the
//! affine domain encloses them.

use vstd::prelude::*;
use crate::fixed::{
    FRAC, HALF_FRAC, add_s, sub_s, neg_s, mul_s, div_s, min_s, max_s, abs_s, clamp_s, mix_s,
    sin_s, cos_s,
};
use crate::vector::{dot3_s, mag3_s, mag2_s};

pub mod regular;
pub mod deriv;
pub mod affine;

verus! {

/// The normalization factor applied to the periodic fills, as a raw value:
/// six tenths, chosen so their gradient magnitude stays near one. The fills
/// are bounded-error approximations of a distance field, not exact ones.
pub const SIX_TENTHS_RAW: i64 = 39322;

/// Union of two distances: the smaller one.
pub open spec fn union_s(a: int, b: int) -> int {
    min_s(a, b)
}

/// Intersection of two distances: the larger one.
pub open spec fn intersection_s(a: int, b: int) -> int {
    max_s(a, b)
}

/// Subtraction: intersect the right distance with the left one's exterior.
pub open spec fn subtraction_s(a: int, b: int) -> int {
    max_s(neg_s(a), b)
}

/// The polynomial smooth union with blend radius `k`:
/// `h = clamp((b - a)/(2k) + 1/2, 0, 1)`, then
/// `mix(h, b, a) - k*h*(1 - h)`, all in the domain's own arithmetic.
pub open spec fn smooth_union_s(a: int, b: int, k: int) -> int {
    let tk = mul_s(2 * FRAC as int, k);
    let h = clamp_s(add_s(div_s(sub_s(b, a), tk), HALF_FRAC as int), 0, FRAC as int);
    sub_s(mix_s(h, b, a), mul_s(k, mul_s(h, sub_s(FRAC as int, h))))
}

/// Smooth intersection, mirrored from the smooth union by sign flips.
pub open spec fn smooth_intersection_s(a: int, b: int, k: int) -> int {
    neg_s(smooth_union_s(neg_s(a), neg_s(b), k))
}

/// Smooth subtraction: the smooth intersection with the left exterior.
pub open spec fn smooth_subtraction_s(a: int, b: int, k: int) -> int {
    smooth_intersection_s(neg_s(a), b, k)
}

/// The sphere's distance: `|p| - r`.
pub open spec fn sphere_s(px: int, py: int, pz: int, r: int) -> int {
    sub_s(mag3_s(px, py, pz), r)
}

/// The rectangular prism's distance:
/// `q = |p| - sides; |max(q, 0)| + min(max(q.x, max(q.y, q.z)), 0)`.
pub open spec fn prism_s(px: int, py: int, pz: int, sx: int, sy: int, sz: int) -> int {
    let qx = sub_s(abs_s(px), sx);
    let qy = sub_s(abs_s(py), sy);
    let qz = sub_s(abs_s(pz), sz);
    add_s(
        mag3_s(max_s(qx, 0), max_s(qy, 0), max_s(qz, 0)),
        min_s(max_s(qx, max_s(qy, qz)), 0),
    )
}

/// The cylinder's distance, via the 2D radial/height reduction of the
/// prism formula.
pub open spec fn cylinder_s(px: int, py: int, pz: int, height: int, radius: int) -> int {
    let dx = sub_s(abs_s(mag2_s(px, pz)), height);
    let dy = sub_s(abs_s(py), radius);
    add_s(mag2_s(max_s(dx, 0), max_s(dy, 0)), min_s(max_s(dx, dy), 0))
}

/// The gyroid fill: a periodic implicit trigonometric pattern, scaled and
/// offset, then normalized. An approximate distance by design.
pub open spec fn gyroid_s(px: int, py: int, pz: int, scale: int, thickness: int) -> int {
    let qx = div_s(px, scale);
    let qy = div_s(py, scale);
    let qz = div_s(pz, scale);
    let g = dot3_s(sin_s(qx), sin_s(qy), sin_s(qz), cos_s(qz), cos_s(qx), cos_s(qy));
    mul_s(sub_s(mul_s(abs_s(g), scale), thickness), SIX_TENTHS_RAW as int)
}

/// The schwarz-P fill: the companion periodic implicit pattern.
pub open spec fn schwarz_p_s(px: int, py: int, pz: int, scale: int, thickness: int) -> int {
    let qx = div_s(px, scale);
    let qy = div_s(py, scale);
    let qz = div_s(pz, scale);
    let g = dot3_s(
        cos_s(qx),
        cos_s(qy),
        cos_s(qz),
        FRAC as int,
        FRAC as int,
        FRAC as int,
    );
    mul_s(sub_s(mul_s(abs_s(g), scale), thickness), SIX_TENTHS_RAW as int)
}


/// The union of a distance with itself is that distance.
pub proof fn lemma_union_idempotent(a: int)
    ensures
        union_s(a, a) == a,
{
}

/// The smooth intersection is the smooth union mirrored by sign flips;
/// this pins down the sign convention once, against the union case.
pub proof fn lemma_smooth_intersection_mirrors_union(a: int, b: int, k: int)
    ensures
        smooth_intersection_s(a, b, k) == neg_s(smooth_union_s(neg_s(a), neg_s(b), k)),
{
}

/// The smooth subtraction is the smooth intersection with the left
/// operand's exterior.
pub proof fn lemma_smooth_subtraction_mirrors_intersection(a: int, b: int, k: int)
    ensures
        smooth_subtraction_s(a, b, k) == smooth_intersection_s(neg_s(a), b, k),
{
}

} // verus!
