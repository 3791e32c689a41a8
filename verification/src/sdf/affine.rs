//! The primitives and operators over the affine enclosure domain. Each
//! function encloses the plain semantics: whenever the operands enclose
//! their plain values at a common noise value, the result encloses the
//! formula's plain value there too. The boolean operators additionally
//! report which operand was selected, for spatial pruning.

use vstd::prelude::*;
use crate::fixed::{Fixed, FRAC, HALF_FRAC, mul_s};
use crate::affine::{
    Affine, Affine3, AffS, Choice, encl, eps_ok, alower, ahigher, aconst, aneg, aadd, asub,
    amul, adiv_any, amin, amax, aclamp, aabs, asqrt, amix, afrom_bounds,
};
use crate::vector::Vector3;
use crate::sdf::{
    SIX_TENTHS_RAW, union_s, intersection_s, subtraction_s, smooth_union_s,
    smooth_intersection_s, smooth_subtraction_s, sphere_s, prism_s, gyroid_s, schwarz_p_s,
};

verus! {

/// Dot product of affine components, summing componentwise products.
pub open spec fn adot3(ax: AffS, ay: AffS, az: AffS, bx: AffS, by: AffS, bz: AffS) -> AffS {
    aadd(aadd(amul(ax, bx), amul(ay, by)), amul(az, bz))
}

/// Magnitude of an affine point.
pub open spec fn amag3(px: AffS, py: AffS, pz: AffS) -> AffS {
    asqrt(adot3(px, py, pz, px, py, pz))
}

/// The sphere's distance over affine components.
pub open spec fn sphere_a(px: AffS, py: AffS, pz: AffS, r: int) -> AffS {
    asub(amag3(px, py, pz), aconst(r))
}

/// The rectangular prism's distance over affine components.
pub open spec fn prism_a(px: AffS, py: AffS, pz: AffS, sx: int, sy: int, sz: int) -> AffS {
    let qx = asub(aabs(px), aconst(sx));
    let qy = asub(aabs(py), aconst(sy));
    let qz = asub(aabs(pz), aconst(sz));
    let mx = amax(qx, aconst(0));
    let my = amax(qy, aconst(0));
    let mz = amax(qz, aconst(0));
    aadd(amag3(mx, my, mz), amin(amax(qx, amax(qy, qz)), aconst(0)))
}

/// The gyroid fill over affine components; both trigonometric factors
/// widen to the unit cover.
pub open spec fn gyroid_a(px: AffS, py: AffS, pz: AffS, scale: int, thickness: int) -> AffS {
    let u = afrom_bounds(-(FRAC as int), FRAC as int);
    let g = adot3(u, u, u, u, u, u);
    amul(
        asub(amul(aabs(g), aconst(scale)), aconst(thickness)),
        aconst(SIX_TENTHS_RAW as int),
    )
}

/// The schwarz-P fill over affine components.
pub open spec fn schwarz_p_a(px: AffS, py: AffS, pz: AffS, scale: int, thickness: int) -> AffS {
    let u = afrom_bounds(-(FRAC as int), FRAC as int);
    let one = aconst(FRAC as int);
    let g = adot3(u, u, u, one, one, one);
    amul(
        asub(amul(aabs(g), aconst(scale)), aconst(thickness)),
        aconst(SIX_TENTHS_RAW as int),
    )
}

/// The smooth union over affine forms, mirroring the plain formula.
pub open spec fn smooth_union_a(a: AffS, b: AffS, k: int) -> AffS {
    let tk = mul_s(2 * FRAC as int, k);
    let h = aclamp(
        aadd(adiv_any(asub(b, a), tk), aconst(HALF_FRAC as int)),
        aconst(0),
        aconst(FRAC as int),
    );
    asub(amix(h, b, a), amul(aconst(k), amul(h, asub(aconst(FRAC as int), h))))
}

pub open spec fn smooth_intersection_a(a: AffS, b: AffS, k: int) -> AffS {
    aneg(smooth_union_a(aneg(a), aneg(b), k))
}

pub open spec fn smooth_subtraction_a(a: AffS, b: AffS, k: int) -> AffS {
    smooth_intersection_a(aneg(a), b, k)
}

/// `|p| - r`, as an enclosure.
pub fn sphere(p: Affine3, radius: Fixed) -> (r: Affine)
    requires
        p.wf(),
        radius.wf(),
    ensures
        r.wf(),
        r@ == sphere_a(p.x@, p.y@, p.z@, radius@),
        forall|en: int, ed: int, px: int, py: int, pz: int|
            eps_ok(en, ed) && #[trigger] p.encl3(en, ed, px, py, pz) ==> encl(
                r@,
                en,
                ed,
                sphere_s(px, py, pz, radius@),
            ),
{
    p.mag().sub_scalar(radius)
}

/// A box with the given half side lengths, as an enclosure.
pub fn rectangular_prism(p: Affine3, sides: Vector3) -> (r: Affine)
    requires
        p.wf(),
        sides.x.wf(),
        sides.y.wf(),
        sides.z.wf(),
    ensures
        r.wf(),
        r@ == prism_a(p.x@, p.y@, p.z@, sides.x@, sides.y@, sides.z@),
        forall|en: int, ed: int, px: int, py: int, pz: int|
            eps_ok(en, ed) && #[trigger] p.encl3(en, ed, px, py, pz) ==> encl(
                r@,
                en,
                ed,
                prism_s(px, py, pz, sides.x@, sides.y@, sides.z@),
            ),
{
    let q = p.abs().sub_vector(sides);
    let m = q.max_scalar(Fixed::zero()).mag();
    let zero = Affine::new(Fixed::zero());
    let tail = q.x.max(q.y.max(q.z)).min(zero);
    let r = m.add(tail);
    proof {
        assert forall|en: int, ed: int, px: int, py: int, pz: int|
            eps_ok(en, ed) && #[trigger] p.encl3(en, ed, px, py, pz) implies encl(
            r@,
            en,
            ed,
            prism_s(px, py, pz, sides.x@, sides.y@, sides.z@),
        ) by {
            assert(encl(zero@, en, ed, 0));
        }
    }
    r
}

/// The gyroid fill pattern, as an enclosure. Its trigonometric factors are
/// widened to `[-1, 1]`, so the enclosure is sound but loose.
pub fn gyroid(p: Affine3, scale: Fixed, thickness: Fixed) -> (r: Affine)
    requires
        p.wf(),
        scale.wf(),
        scale@ != 0,
        thickness.wf(),
    ensures
        r.wf(),
        r@ == gyroid_a(p.x@, p.y@, p.z@, scale@, thickness@),
        forall|en: int, ed: int, px: int, py: int, pz: int|
            eps_ok(en, ed) && #[trigger] p.encl3(en, ed, px, py, pz) ==> encl(
                r@,
                en,
                ed,
                gyroid_s(px, py, pz, scale@, thickness@),
            ),
{
    let q = p.div_scalar(scale);
    let sq = q.sin();
    let zq = q.zxy();
    let cq = zq.cos();
    let g = sq.dot(cq);
    let a1 = g.abs();
    let a2 = a1.mul_scalar(scale);
    let a3 = a2.sub_scalar(thickness);
    let r = a3.mul_scalar(Fixed::from_raw(SIX_TENTHS_RAW));
    proof {
        assert forall|en: int, ed: int, px: int, py: int, pz: int|
            eps_ok(en, ed) && #[trigger] p.encl3(en, ed, px, py, pz) implies encl(
            r@,
            en,
            ed,
            gyroid_s(px, py, pz, scale@, thickness@),
        ) by {
            let qx = crate::fixed::div_s(px, scale@);
            let qy = crate::fixed::div_s(py, scale@);
            let qz = crate::fixed::div_s(pz, scale@);
            assert(q.encl3(en, ed, qx, qy, qz));
            assert(sq.encl3(
                en,
                ed,
                crate::fixed::sin_s(qx),
                crate::fixed::sin_s(qy),
                crate::fixed::sin_s(qz),
            ));
            assert(zq.encl3(en, ed, qz, qx, qy));
            assert(cq.encl3(
                en,
                ed,
                crate::fixed::cos_s(qz),
                crate::fixed::cos_s(qx),
                crate::fixed::cos_s(qy),
            ));
            let dv = crate::vector::dot3_s(
                crate::fixed::sin_s(qx),
                crate::fixed::sin_s(qy),
                crate::fixed::sin_s(qz),
                crate::fixed::cos_s(qz),
                crate::fixed::cos_s(qx),
                crate::fixed::cos_s(qy),
            );
            assert(encl(g@, en, ed, dv));
            assert(encl(a1@, en, ed, crate::fixed::abs_s(dv)));
            assert(encl(a2@, en, ed, mul_s(crate::fixed::abs_s(dv), scale@)));
            assert(encl(
                a3@,
                en,
                ed,
                crate::fixed::sub_s(mul_s(crate::fixed::abs_s(dv), scale@), thickness@),
            ));
        }
    }
    r
}

/// The schwarz-P fill pattern, as an enclosure.
pub fn schwarz_p(p: Affine3, scale: Fixed, thickness: Fixed) -> (r: Affine)
    requires
        p.wf(),
        scale.wf(),
        scale@ != 0,
        thickness.wf(),
    ensures
        r.wf(),
        r@ == schwarz_p_a(p.x@, p.y@, p.z@, scale@, thickness@),
        forall|en: int, ed: int, px: int, py: int, pz: int|
            eps_ok(en, ed) && #[trigger] p.encl3(en, ed, px, py, pz) ==> encl(
                r@,
                en,
                ed,
                schwarz_p_s(px, py, pz, scale@, thickness@),
            ),
{
    let q = p.div_scalar(scale);
    let cq = q.cos();
    let one = Affine::new(Fixed::one());
    let ones = Affine3 { x: one, y: one, z: one };
    let g = cq.dot(ones);
    let a1 = g.abs();
    let a2 = a1.mul_scalar(scale);
    let a3 = a2.sub_scalar(thickness);
    let r = a3.mul_scalar(Fixed::from_raw(SIX_TENTHS_RAW));
    proof {
        assert forall|en: int, ed: int, px: int, py: int, pz: int|
            eps_ok(en, ed) && #[trigger] p.encl3(en, ed, px, py, pz) implies encl(
            r@,
            en,
            ed,
            schwarz_p_s(px, py, pz, scale@, thickness@),
        ) by {
            let qx = crate::fixed::div_s(px, scale@);
            let qy = crate::fixed::div_s(py, scale@);
            let qz = crate::fixed::div_s(pz, scale@);
            assert(q.encl3(en, ed, qx, qy, qz));
            assert(cq.encl3(
                en,
                ed,
                crate::fixed::cos_s(qx),
                crate::fixed::cos_s(qy),
                crate::fixed::cos_s(qz),
            ));
            assert(encl(one@, en, ed, FRAC as int));
            assert(ones.encl3(en, ed, FRAC as int, FRAC as int, FRAC as int));
            let dv = crate::vector::dot3_s(
                crate::fixed::cos_s(qx),
                crate::fixed::cos_s(qy),
                crate::fixed::cos_s(qz),
                FRAC as int,
                FRAC as int,
                FRAC as int,
            );
            assert(encl(g@, en, ed, dv));
            assert(encl(a1@, en, ed, crate::fixed::abs_s(dv)));
            assert(encl(a2@, en, ed, mul_s(crate::fixed::abs_s(dv), scale@)));
            assert(encl(
                a3@,
                en,
                ed,
                crate::fixed::sub_s(mul_s(crate::fixed::abs_s(dv), scale@), thickness@),
            ));
        }
    }
    r
}

/// The smaller distance wins, with the selected side reported.
pub fn union(lhs: Affine, rhs: Affine) -> (res: (Affine, Choice))
    requires
        lhs.wf(),
        rhs.wf(),
    ensures
        res.0.wf(),
        (res.1 == Choice::Left) <==> ahigher(lhs@) < alower(rhs@),
        (res.1 == Choice::Right) <==> (!(ahigher(lhs@) < alower(rhs@)) && ahigher(rhs@)
            < alower(lhs@)),
        res.1 == Choice::Left ==> res.0 == lhs,
        res.1 == Choice::Right ==> res.0 == rhs,
        res.0@ == amin(lhs@, rhs@),
        forall|en: int, ed: int, x: int, y: int|
            eps_ok(en, ed) && #[trigger] encl(lhs@, en, ed, x) && #[trigger] encl(
                rhs@,
                en,
                ed,
                y,
            ) ==> encl(res.0@, en, ed, union_s(x, y)),
{
    lhs.min_choice(rhs)
}

/// The larger distance wins, with the selected side reported.
pub fn intersection(lhs: Affine, rhs: Affine) -> (res: (Affine, Choice))
    requires
        lhs.wf(),
        rhs.wf(),
    ensures
        res.0.wf(),
        (res.1 == Choice::Left) <==> alower(lhs@) > ahigher(rhs@),
        (res.1 == Choice::Right) <==> (!(alower(lhs@) > ahigher(rhs@)) && alower(rhs@)
            > ahigher(lhs@)),
        res.1 == Choice::Left ==> res.0 == lhs,
        res.1 == Choice::Right ==> res.0 == rhs,
        res.0@ == amax(lhs@, rhs@),
        forall|en: int, ed: int, x: int, y: int|
            eps_ok(en, ed) && #[trigger] encl(lhs@, en, ed, x) && #[trigger] encl(
                rhs@,
                en,
                ed,
                y,
            ) ==> encl(res.0@, en, ed, intersection_s(x, y)),
{
    lhs.max_choice(rhs)
}

/// Keep the right shape outside the left one, with the selected side.
pub fn subtraction(lhs: Affine, rhs: Affine) -> (res: (Affine, Choice))
    requires
        lhs.wf(),
        rhs.wf(),
    ensures
        res.0.wf(),
        (res.1 == Choice::Left) <==> alower(aneg(lhs@)) > ahigher(rhs@),
        (res.1 == Choice::Right) <==> (!(alower(aneg(lhs@)) > ahigher(rhs@)) && alower(rhs@)
            > ahigher(aneg(lhs@))),
        res.1 == Choice::Left ==> res.0@ == aneg(lhs@),
        res.1 == Choice::Right ==> res.0 == rhs,
        res.0@ == amax(aneg(lhs@), rhs@),
        forall|en: int, ed: int, x: int, y: int|
            eps_ok(en, ed) && #[trigger] encl(lhs@, en, ed, x) && #[trigger] encl(
                rhs@,
                en,
                ed,
                y,
            ) ==> encl(res.0@, en, ed, subtraction_s(x, y)),
{
    lhs.neg().max_choice(rhs)
}

/// The polynomial smooth union with blend radius `k`, as an enclosure.
pub fn smooth_union(lhs: Affine, rhs: Affine, k: Fixed) -> (r: Affine)
    requires
        lhs.wf(),
        rhs.wf(),
        k.wf(),
        k@ > 0,
    ensures
        r.wf(),
        r@ == smooth_union_a(lhs@, rhs@, k@),
        forall|en: int, ed: int, x: int, y: int|
            eps_ok(en, ed) && #[trigger] encl(lhs@, en, ed, x) && #[trigger] encl(
                rhs@,
                en,
                ed,
                y,
            ) ==> encl(r@, en, ed, smooth_union_s(x, y, k@)),
{
    let tk = Fixed::from_raw(2 * FRAC).mul(k);
    proof {
        assert(tk@ == mul_s(2 * FRAC as int, k@));
        assert(tk@ > 0) by {
            assert(2 * FRAC as int * k@ >= 2 * FRAC as int) by (nonlinear_arith)
                requires
                    k@ >= 1,
            ;
            vstd::arithmetic::div_mod::lemma_div_is_ordered(
                2 * FRAC as int,
                2 * FRAC as int * k@,
                FRAC as int,
            );
        }
    }
    let zero = Affine::new(Fixed::zero());
    let one = Affine::new(Fixed::one());
    let h = rhs.sub(lhs).div_scalar(tk).add_scalar(Fixed::from_raw(HALF_FRAC)).clamp(
        zero,
        one,
    );
    let m = h.mix(rhs, lhs);
    let corr = Affine::new(k).mul(h.mul(Affine::scalar_sub(Fixed::one(), h)));
    let r = m.sub(corr);
    proof {
        assert forall|en: int, ed: int, x: int, y: int|
            eps_ok(en, ed) && #[trigger] encl(lhs@, en, ed, x) && #[trigger] encl(
            rhs@,
            en,
            ed,
            y,
        ) implies encl(r@, en, ed, smooth_union_s(x, y, k@)) by {
            assert(encl(zero@, en, ed, 0));
            assert(encl(one@, en, ed, FRAC as int));
            assert(encl(aconst(k@), en, ed, k@));
        }
    }
    r
}

/// Smooth intersection, mirrored from the smooth union by sign flips.
pub fn smooth_intersection(lhs: Affine, rhs: Affine, k: Fixed) -> (r: Affine)
    requires
        lhs.wf(),
        rhs.wf(),
        k.wf(),
        k@ > 0,
    ensures
        r.wf(),
        r@ == smooth_intersection_a(lhs@, rhs@, k@),
        forall|en: int, ed: int, x: int, y: int|
            eps_ok(en, ed) && #[trigger] encl(lhs@, en, ed, x) && #[trigger] encl(
                rhs@,
                en,
                ed,
                y,
            ) ==> encl(r@, en, ed, smooth_intersection_s(x, y, k@)),
{
    smooth_union(lhs.neg(), rhs.neg(), k).neg()
}

/// Smooth subtraction: the smooth intersection with the left exterior.
pub fn smooth_subtraction(lhs: Affine, rhs: Affine, k: Fixed) -> (r: Affine)
    requires
        lhs.wf(),
        rhs.wf(),
        k.wf(),
        k@ > 0,
    ensures
        r.wf(),
        r@ == smooth_subtraction_a(lhs@, rhs@, k@),
        forall|en: int, ed: int, x: int, y: int|
            eps_ok(en, ed) && #[trigger] encl(lhs@, en, ed, x) && #[trigger] encl(
                rhs@,
                en,
                ed,
                y,
            ) ==> encl(r@, en, ed, smooth_subtraction_s(x, y, k@)),
{
    smooth_intersection(lhs.neg(), rhs, k)
}

} // verus!
