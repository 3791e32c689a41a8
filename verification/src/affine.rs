//! Reduced affine arithmetic (AF1) over the fixed-point scalar domain.
//!
//! An affine form `x0 + x1 * eps + e * [-1, 1]` tracks a central value, the
//! coefficient of one shared noise symbol `eps`, and an aggregated
//! nonnegative error term. Keeping the shared symbol makes enclosures
//! tighter than plain intervals under composition, because correlated
//! occurrences of the same quantity cancel.
//!
//! Soundness is stated against an arbitrary rational noise value
//! `eps = en / ed` with `|en| <= ed`: if both operands enclose their scalar
//! values at that noise value, the result encloses the scalar operation's
//! result at the same noise value. The error term absorbs every rounding
//! the fixed-point scale introduces.

use vstd::prelude::*;
use vstd::math::abs;
use crate::fixed::{
    Fixed, FRAC, MAX_RAW, wf_raw, sat, add_s, sub_s, neg_s, mul_s, div_s, min_s, max_s, abs_s,
    sin_s, cos_s, sqrt_s, lemma_mul_le_bound,
};
use crate::interval::Interval;
use crate::vector::Vector3;

verus! {

/// Which operand an enclosure-aware choice operation selected: the left
/// enclosure exactly, the right one exactly, or a genuine merge of both.
#[derive(Clone, Copy, PartialEq, Eq, Structural, Debug)]
pub enum Choice {
    Left,
    Right,
    Both,
}

/// The model of an affine form.
pub ghost struct AffS {
    pub x0: int,
    pub x1: int,
    pub e: int,
}

/// The radius of an affine form: everything it may stray from its center.
pub open spec fn arad(a: AffS) -> int {
    abs(a.x1) + a.e
}

/// A well-formed affine form: nonnegative error, and small enough that its
/// whole range stays strictly inside the scalar domain.
pub open spec fn awf(a: AffS) -> bool {
    0 <= a.e && abs(a.x0) + abs(a.x1) + a.e <= MAX_RAW as int
}

/// A valid rational noise value `en / ed`, within `[-1, 1]`.
pub open spec fn eps_ok(en: int, ed: int) -> bool {
    1 <= ed && -ed <= en <= ed
}

/// The affine form `a` encloses the scalar `x` at noise value `en / ed`:
/// `|x - (x0 + x1 * (en/ed))| <= e`, cleared of the denominator.
pub open spec fn encl(a: AffS, en: int, ed: int, x: int) -> bool {
    -(a.e * ed) <= x * ed - a.x0 * ed - a.x1 * en <= a.e * ed
}

/// The widest well-formed affine form; it encloses every scalar value.
pub open spec fn atop() -> AffS {
    AffS { x0: 0, x1: 0, e: MAX_RAW as int }
}

/// Clamp candidate fields into a well-formed affine form, widening to the
/// full range when they do not fit.
pub open spec fn apack(x0: int, x1: int, e: int) -> AffS {
    if 0 <= e && abs(x0) + abs(x1) + e <= MAX_RAW as int {
        AffS { x0: x0, x1: x1, e: e }
    } else {
        atop()
    }
}

pub open spec fn aneg(a: AffS) -> AffS {
    AffS { x0: -a.x0, x1: -a.x1, e: a.e }
}

pub open spec fn aadd(a: AffS, b: AffS) -> AffS {
    apack(a.x0 + b.x0, a.x1 + b.x1, a.e + b.e)
}

pub open spec fn asub(a: AffS, b: AffS) -> AffS {
    apack(a.x0 - b.x0, a.x1 - b.x1, a.e + b.e)
}

/// The AF1 product. The center and the linear coefficient are the rescaled
/// exact products; the error term takes the classical AF1 bound
/// `|x0|*f + |y0|*e + rad*rad`, plus the actual remainders of the two
/// rescaling divisions, rounded up, plus one unit that absorbs the floor
/// the scalar domain itself applies to the enclosed product. When every
/// division is exact, only that last unit is added.
pub open spec fn amul(a: AffS, b: AffS) -> AffS {
    let s = FRAC as int;
    let t = abs(a.x0) * b.e + abs(b.x0) * a.e + arad(a) * arad(b);
    let r0 = (a.x0 * b.x0) % s;
    let r1 = (a.x0 * b.x1 + b.x0 * a.x1) % s;
    apack(
        (a.x0 * b.x0) / s,
        (a.x0 * b.x1 + b.x0 * a.x1) / s,
        (t + r0 + r1 + s - 1) / s + 1,
    )
}

/// Quotient by a positive exact scalar: every coefficient is divided, and
/// the error picks up the rescaled error term, the actual remainders of
/// the two coefficient divisions, and one unit for the floor the scalar
/// domain applies to the enclosed quotient.
pub open spec fn adiv_k(a: AffS, k: int) -> AffS {
    let s = FRAC as int;
    let r0 = (a.x0 * s) % k;
    let r1 = (a.x1 * s) % k;
    apack(
        (a.x0 * s) / k,
        (a.x1 * s) / k,
        (a.e * s + r0 + r1 + k - 1) / k + 1,
    )
}

/// The affine form that covers everything in `[lo, hi]` at every noise
/// value: centered, with the whole half-width in the error term.
pub open spec fn afrom_bounds(lo: int, hi: int) -> AffS {
    apack((lo + hi) / 2, 0, (hi - lo + 1) / 2)
}

/// Distributing a product of two three-term sums.
proof fn lemma_trinomial(a1: int, a2: int, a3: int, b1: int, b2: int, b3: int)
    ensures
        (a1 + a2 + a3) * (b1 + b2 + b3) == a1 * b1 + a1 * b2 + a1 * b3 + a2 * b1 + a2 * b2 + a2
            * b3 + a3 * b1 + a3 * b2 + a3 * b3,
{
    assert((a1 + a2 + a3) * (b1 + b2 + b3) == a1 * b1 + a1 * b2 + a1 * b3 + a2 * b1 + a2 * b2
        + a2 * b3 + a3 * b1 + a3 * b2 + a3 * b3) by (nonlinear_arith);
}

/// A well-formed form encloses only values close to its center.
pub proof fn lemma_encl_bound(a: AffS, en: int, ed: int, x: int)
    requires
        eps_ok(en, ed),
        encl(a, en, ed, x),
    ensures
        a.x0 - arad(a) <= x <= a.x0 + arad(a),
{
    let m1 = abs(a.x1) as int;
    assert(a.x0 - (m1 + a.e) <= x <= a.x0 + (m1 + a.e)) by (nonlinear_arith)
        requires
            1 <= ed,
            -ed <= en <= ed,
            -m1 <= a.x1 <= m1,
            -(a.e * ed) <= x * ed - a.x0 * ed - a.x1 * en <= a.e * ed,
    ;
}

/// The widest form encloses every scalar value, at every noise value.
pub proof fn lemma_encl_top(en: int, ed: int, x: int)
    requires
        eps_ok(en, ed),
        wf_raw(x),
    ensures
        encl(atop(), en, ed, x),
{
    assert(-(MAX_RAW as int * ed) <= x * ed <= MAX_RAW as int * ed) by (nonlinear_arith)
        requires
            1 <= ed,
            -(MAX_RAW as int) <= x <= MAX_RAW as int,
    ;
}

/// Soundness of negation.
pub proof fn lemma_aneg_sound(a: AffS, en: int, ed: int, x: int)
    requires
        awf(a),
        eps_ok(en, ed),
        wf_raw(x),
        encl(a, en, ed, x),
    ensures
        awf(aneg(a)),
        encl(aneg(a), en, ed, neg_s(x)),
{
    assert(-(a.e * ed) <= (-x) * ed - (-a.x0) * ed - (-a.x1) * en <= a.e * ed)
        by (nonlinear_arith)
        requires
            -(a.e * ed) <= x * ed - a.x0 * ed - a.x1 * en <= a.e * ed,
    ;
    assert(neg_s(x) == -x);
}

/// Soundness of addition: if the operands enclose `x` and `y` at a common
/// noise value, the sum form encloses the saturating sum.
pub proof fn lemma_aadd_sound(a: AffS, b: AffS, en: int, ed: int, x: int, y: int)
    requires
        awf(a),
        awf(b),
        eps_ok(en, ed),
        encl(a, en, ed, x),
        encl(b, en, ed, y),
    ensures
        awf(aadd(a, b)),
        encl(aadd(a, b), en, ed, add_s(x, y)),
{
    let rr = AffS { x0: a.x0 + b.x0, x1: a.x1 + b.x1, e: a.e + b.e };
    assert(-((a.e + b.e) * ed) <= (x + y) * ed - (a.x0 + b.x0) * ed - (a.x1 + b.x1) * en
        <= (a.e + b.e) * ed) by (nonlinear_arith)
        requires
            -(a.e * ed) <= x * ed - a.x0 * ed - a.x1 * en <= a.e * ed,
            -(b.e * ed) <= y * ed - b.x0 * ed - b.x1 * en <= b.e * ed,
    ;
    assert(encl(rr, en, ed, x + y));
    if 0 <= rr.e && abs(rr.x0) as int + abs(rr.x1) as int + rr.e <= MAX_RAW as int {
        assert(aadd(a, b) == rr);
        lemma_encl_bound(rr, en, ed, x + y);
        assert(add_s(x, y) == x + y);
    } else {
        assert(aadd(a, b) == atop());
        lemma_encl_top(en, ed, add_s(x, y));
    }
}

/// Soundness of subtraction, by the same argument as addition.
pub proof fn lemma_asub_sound(a: AffS, b: AffS, en: int, ed: int, x: int, y: int)
    requires
        awf(a),
        awf(b),
        eps_ok(en, ed),
        encl(a, en, ed, x),
        encl(b, en, ed, y),
    ensures
        awf(asub(a, b)),
        encl(asub(a, b), en, ed, sub_s(x, y)),
{
    let rr = AffS { x0: a.x0 - b.x0, x1: a.x1 - b.x1, e: a.e + b.e };
    assert(-((a.e + b.e) * ed) <= (x - y) * ed - (a.x0 - b.x0) * ed - (a.x1 - b.x1) * en
        <= (a.e + b.e) * ed) by (nonlinear_arith)
        requires
            -(a.e * ed) <= x * ed - a.x0 * ed - a.x1 * en <= a.e * ed,
            -(b.e * ed) <= y * ed - b.x0 * ed - b.x1 * en <= b.e * ed,
    ;
    assert(encl(rr, en, ed, x - y));
    if 0 <= rr.e && abs(rr.x0) as int + abs(rr.x1) as int + rr.e <= MAX_RAW as int {
        assert(asub(a, b) == rr);
        lemma_encl_bound(rr, en, ed, x - y);
        assert(sub_s(x, y) == x - y);
    } else {
        assert(asub(a, b) == atop());
        lemma_encl_top(en, ed, sub_s(x, y));
    }
}

/// Soundness of the centered cover: it encloses everything in `[lo, hi]`
/// regardless of the noise value.
pub proof fn lemma_afrom_bounds_sound(lo: int, hi: int, en: int, ed: int, x: int)
    requires
        eps_ok(en, ed),
        wf_raw(lo),
        wf_raw(hi),
        lo <= x <= hi,
    ensures
        awf(afrom_bounds(lo, hi)),
        encl(afrom_bounds(lo, hi), en, ed, x),
{
    let mid = (lo + hi) / 2;
    let half = (hi - lo + 1) / 2;
    vstd::arithmetic::div_mod::lemma_fundamental_div_mod(lo + hi, 2);
    vstd::arithmetic::div_mod::lemma_mod_bound(lo + hi, 2);
    vstd::arithmetic::div_mod::lemma_fundamental_div_mod(hi - lo + 1, 2);
    vstd::arithmetic::div_mod::lemma_mod_bound(hi - lo + 1, 2);
    assert(mid - half <= lo && hi <= mid + half);
    assert(half >= 0);
    if 0 <= half && abs(mid) as int + abs(0) as int + half <= MAX_RAW as int {
        assert(afrom_bounds(lo, hi) == AffS { x0: mid, x1: 0, e: half });
        assert(-(half * ed) <= x * ed - mid * ed - 0 * en <= half * ed) by (nonlinear_arith)
            requires
                1 <= ed,
                mid - half <= x <= mid + half,
        ;
    } else {
        assert(afrom_bounds(lo, hi) == atop());
        lemma_encl_top(en, ed, x);
    }
}

/// Soundness of the AF1 product: the heart of the affine domain. The
/// enclosed products' cross terms are bounded by the classical AF1 error;
/// the two rescaling divisions cost exactly their remainders, and the
/// enclosed product's own floor costs at most the one extra unit.
pub proof fn lemma_amul_sound(a: AffS, b: AffS, en: int, ed: int, x: int, y: int)
    requires
        awf(a),
        awf(b),
        eps_ok(en, ed),
        wf_raw(x),
        wf_raw(y),
        encl(a, en, ed, x),
        encl(b, en, ed, y),
    ensures
        awf(amul(a, b)),
        encl(amul(a, b), en, ed, mul_s(x, y)),
{
    let s = FRAC as int;
    let u = x * ed - a.x0 * ed - a.x1 * en;
    let v = y * ed - b.x0 * ed - b.x1 * en;
    let m0a = abs(a.x0) as int;
    let m1a = abs(a.x1) as int;
    let m0b = abs(b.x0) as int;
    let m1b = abs(b.x1) as int;
    let c1 = a.x0 * b.x1 + b.x0 * a.x1;
    let t = m0a * b.e + m0b * a.e + (m1a + a.e) * (m1b + b.e);
    let q = x * y * ed - a.x0 * b.x0 * ed - c1 * en;

    // Expand the product of the two enclosures.
    let xa0 = a.x0 * ed;
    let xa1 = a.x1 * en;
    let xb0 = b.x0 * ed;
    let xb1 = b.x1 * en;
    assert(x * ed == xa0 + xa1 + u);
    assert(y * ed == xb0 + xb1 + v);
    lemma_trinomial(xa0, xa1, u, xb0, xb1, v);
    assert((x * ed) * (y * ed) == (x * y) * (ed * ed)) by (nonlinear_arith);
    assert(xa0 * xb0 == (a.x0 * b.x0) * (ed * ed)) by (nonlinear_arith)
        requires
            xa0 == a.x0 * ed,
            xb0 == b.x0 * ed,
    ;
    assert(xa0 * xb1 == (a.x0 * b.x1) * (en * ed)) by (nonlinear_arith)
        requires
            xa0 == a.x0 * ed,
            xb1 == b.x1 * en,
    ;
    assert(xa1 * xb0 == (b.x0 * a.x1) * (en * ed)) by (nonlinear_arith)
        requires
            xa1 == a.x1 * en,
            xb0 == b.x0 * ed,
    ;
    assert(c1 * (en * ed) == (a.x0 * b.x1) * (en * ed) + (b.x0 * a.x1) * (en * ed))
        by (nonlinear_arith)
        requires
            c1 == a.x0 * b.x1 + b.x0 * a.x1,
    ;
    assert(xa0 * xb1 + xa1 * xb0 == c1 * (en * ed));
    assert(q * ed == (x * y) * (ed * ed) - (a.x0 * b.x0) * (ed * ed) - c1 * (en * ed))
        by (nonlinear_arith)
        requires
            q == x * y * ed - a.x0 * b.x0 * ed - c1 * en,
    ;
    assert(q * ed == xa1 * xb1 + xa0 * v + xa1 * v + u * xb0 + u * xb1 + u * v);

    // Bound each term by its AF1 contribution.
    lemma_mul_le_bound(a.x1, en, m1a, ed);
    lemma_mul_le_bound(b.x1, en, m1b, ed);
    lemma_mul_le_bound(a.x0, ed, m0a, ed);
    lemma_mul_le_bound(b.x0, ed, m0b, ed);
    lemma_mul_le_bound(xa1, xb1, m1a * ed, m1b * ed);
    lemma_mul_le_bound(xa0, v, m0a * ed, b.e * ed);
    lemma_mul_le_bound(xa1, v, m1a * ed, b.e * ed);
    lemma_mul_le_bound(u, xb0, a.e * ed, m0b * ed);
    lemma_mul_le_bound(u, xb1, a.e * ed, m1b * ed);
    lemma_mul_le_bound(u, v, a.e * ed, b.e * ed);

    // Rewrite each bound's magnitude over a common `ed * ed` factor.
    assert((m1a * ed) * (m1b * ed) == (m1a * m1b) * (ed * ed)) by (nonlinear_arith);
    assert((m0a * ed) * (b.e * ed) == (m0a * b.e) * (ed * ed)) by (nonlinear_arith);
    assert((m1a * ed) * (b.e * ed) == (m1a * b.e) * (ed * ed)) by (nonlinear_arith);
    assert((a.e * ed) * (m0b * ed) == (m0b * a.e) * (ed * ed)) by (nonlinear_arith);
    assert((a.e * ed) * (m1b * ed) == (m1b * a.e) * (ed * ed)) by (nonlinear_arith);
    assert((a.e * ed) * (b.e * ed) == (a.e * b.e) * (ed * ed)) by (nonlinear_arith);
    assert((m1a + a.e) * (m1b + b.e) == m1a * m1b + m1a * b.e + m1b * a.e + a.e * b.e)
        by (nonlinear_arith);
    assert((m1a * m1b) * (ed * ed) + (m0a * b.e) * (ed * ed) + (m1a * b.e) * (ed * ed) + (m0b
        * a.e) * (ed * ed) + (m1b * a.e) * (ed * ed) + (a.e * b.e) * (ed * ed) == t * (ed * ed))
        by (nonlinear_arith)
        requires
            t == m0a * b.e + m0b * a.e + m1a * m1b + m1a * b.e + m1b * a.e + a.e * b.e,
    ;
    assert(-(t * (ed * ed)) <= q * ed <= t * (ed * ed));

    // Divide the deviation bound by the positive denominator.
    assert(0 <= t) by (nonlinear_arith)
        requires
            0 <= m0a && 0 <= m0b && 0 <= m1a && 0 <= m1b && 0 <= a.e && 0 <= b.e,
            t == m0a * b.e + m0b * a.e + (m1a + a.e) * (m1b + b.e),
    ;
    assert(-(t * ed) <= q <= t * ed) by (nonlinear_arith)
        requires
            -(t * (ed * ed)) <= q * ed <= t * (ed * ed),
            1 <= ed,
            0 <= t,
    ;

    // Bridge the floor divisions by the fixed-point scale.
    let x0p = (a.x0 * b.x0) / s;
    let r0 = (a.x0 * b.x0) % s;
    let x1p = c1 / s;
    let r1 = c1 % s;
    let w = (x * y) / s;
    let rm = (x * y) % s;
    let ep = (t + r0 + r1 + s - 1) / s + 1;
    vstd::arithmetic::div_mod::lemma_fundamental_div_mod(a.x0 * b.x0, s);
    vstd::arithmetic::div_mod::lemma_mod_bound(a.x0 * b.x0, s);
    vstd::arithmetic::div_mod::lemma_fundamental_div_mod(c1, s);
    vstd::arithmetic::div_mod::lemma_mod_bound(c1, s);
    vstd::arithmetic::div_mod::lemma_fundamental_div_mod(x * y, s);
    vstd::arithmetic::div_mod::lemma_mod_bound(x * y, s);
    vstd::arithmetic::div_mod::lemma_fundamental_div_mod(t + r0 + r1 + s - 1, s);
    vstd::arithmetic::div_mod::lemma_mod_bound(t + r0 + r1 + s - 1, s);

    let dev = w * ed - x0p * ed - x1p * en;
    assert(s * dev == (s * w) * ed - (s * x0p) * ed - (s * x1p) * en) by (nonlinear_arith)
        requires
            dev == w * ed - x0p * ed - x1p * en,
    ;
    assert(s * w == x * y - rm);
    assert(s * x0p == a.x0 * b.x0 - r0);
    assert(s * x1p == c1 - r1);
    assert((s * w) * ed == (x * y) * ed - rm * ed) by (nonlinear_arith)
        requires
            s * w == x * y - rm,
    ;
    assert((s * x0p) * ed == (a.x0 * b.x0) * ed - r0 * ed) by (nonlinear_arith)
        requires
            s * x0p == a.x0 * b.x0 - r0,
    ;
    assert((s * x1p) * en == c1 * en - r1 * en) by (nonlinear_arith)
        requires
            s * x1p == c1 - r1,
    ;
    assert((r0 - rm) * ed == r0 * ed - rm * ed) by (nonlinear_arith);
    assert(s * dev == q + (r0 - rm) * ed + r1 * en);
    vstd::arithmetic::mul::lemma_mul_inequality(r0 - rm, r0, ed);
    vstd::arithmetic::mul::lemma_mul_inequality(r0 - s + 1, r0 - rm, ed);
    lemma_mul_le_bound(r1, en, r1, ed);
    assert(-((t + r0 + r1 + s) * ed) <= s * dev <= (t + r0 + r1 + s) * ed) by (nonlinear_arith)
        requires
            -(t * ed) <= q <= t * ed,
            (r0 - rm) * ed <= r0 * ed,
            (r0 - s + 1) * ed <= (r0 - rm) * ed,
            -(r1 * ed) <= r1 * en <= r1 * ed,
            s * dev == q + (r0 - rm) * ed + r1 * en,
            1 <= ed,
            0 <= r0 < s,
            0 <= r1,
            0 <= t,
    ;
    assert(s * ep >= t + r0 + r1 + s) by (nonlinear_arith)
        requires
            t + r0 + r1 + s - 1 == s * ((t + r0 + r1 + s - 1) / s) + (t + r0 + r1 + s - 1) % s,
            0 <= (t + r0 + r1 + s - 1) % s < s,
            ep == (t + r0 + r1 + s - 1) / s + 1,
            s == FRAC as int,
    ;
    assert(-(ep * ed) <= dev <= ep * ed) by (nonlinear_arith)
        requires
            -((t + r0 + r1 + s) * ed) <= s * dev <= (t + r0 + r1 + s) * ed,
            s * ep >= t + r0 + r1 + s,
            1 <= ed,
            s >= 1,
            0 <= t + r0 + r1,
    ;

    // From the deviation bound to the packed result.
    let rr = AffS { x0: x0p, x1: x1p, e: ep };
    assert(encl(rr, en, ed, w));
    assert(0 <= ep) by (nonlinear_arith)
        requires
            t + r0 + r1 + s - 1 == s * ((t + r0 + r1 + s - 1) / s) + (t + r0 + r1 + s - 1) % s,
            0 <= (t + r0 + r1 + s - 1) % s < s,
            ep == (t + r0 + r1 + s - 1) / s + 1,
            0 <= t + r0 + r1,
            s >= 1,
    ;
    if abs(x0p) as int + abs(x1p) as int + ep <= MAX_RAW as int {
        assert(amul(a, b) == rr);
        lemma_encl_bound(rr, en, ed, w);
        assert(mul_s(x, y) == w);
        assert(encl(amul(a, b), en, ed, mul_s(x, y)));
    } else {
        assert(amul(a, b) == atop());
        lemma_encl_top(en, ed, mul_s(x, y));
    }
}

/// Soundness of division by a positive exact scalar.
pub proof fn lemma_adiv_k_sound(a: AffS, k: int, en: int, ed: int, x: int)
    requires
        awf(a),
        1 <= k,
        eps_ok(en, ed),
        wf_raw(x),
        encl(a, en, ed, x),
    ensures
        awf(adiv_k(a, k)),
        encl(adiv_k(a, k), en, ed, div_s(x, k)),
{
    let s = FRAC as int;
    let u = x * ed - a.x0 * ed - a.x1 * en;
    let x0p = (a.x0 * s) / k;
    let r0 = (a.x0 * s) % k;
    let x1p = (a.x1 * s) / k;
    let r1 = (a.x1 * s) % k;
    let w = (x * s) / k;
    let rm = (x * s) % k;
    let ep = (a.e * s + r0 + r1 + k - 1) / k + 1;
    vstd::arithmetic::div_mod::lemma_fundamental_div_mod(a.x0 * s, k);
    vstd::arithmetic::div_mod::lemma_mod_bound(a.x0 * s, k);
    vstd::arithmetic::div_mod::lemma_fundamental_div_mod(a.x1 * s, k);
    vstd::arithmetic::div_mod::lemma_mod_bound(a.x1 * s, k);
    vstd::arithmetic::div_mod::lemma_fundamental_div_mod(x * s, k);
    vstd::arithmetic::div_mod::lemma_mod_bound(x * s, k);
    vstd::arithmetic::div_mod::lemma_fundamental_div_mod(a.e * s + r0 + r1 + k - 1, k);
    vstd::arithmetic::div_mod::lemma_mod_bound(a.e * s + r0 + r1 + k - 1, k);

    let dev = w * ed - x0p * ed - x1p * en;
    assert(k * dev == (k * w) * ed - (k * x0p) * ed - (k * x1p) * en) by (nonlinear_arith)
        requires
            dev == w * ed - x0p * ed - x1p * en,
    ;
    assert(k * w == x * s - rm);
    assert(k * x0p == a.x0 * s - r0);
    assert(k * x1p == a.x1 * s - r1);
    assert((k * w) * ed == (x * s) * ed - rm * ed) by (nonlinear_arith)
        requires
            k * w == x * s - rm,
    ;
    assert((k * x0p) * ed == (a.x0 * s) * ed - r0 * ed) by (nonlinear_arith)
        requires
            k * x0p == a.x0 * s - r0,
    ;
    assert((k * x1p) * en == (a.x1 * s) * en - r1 * en) by (nonlinear_arith)
        requires
            k * x1p == a.x1 * s - r1,
    ;
    assert((x * s) * ed == s * (x * ed)) by (nonlinear_arith);
    assert((a.x0 * s) * ed == s * (a.x0 * ed)) by (nonlinear_arith);
    assert((a.x1 * s) * en == s * (a.x1 * en)) by (nonlinear_arith);
    assert(s * (x * ed) - s * (a.x0 * ed) - s * (a.x1 * en) == s * u) by (nonlinear_arith)
        requires
            u == x * ed - a.x0 * ed - a.x1 * en,
    ;
    assert((r0 - rm) * ed == r0 * ed - rm * ed) by (nonlinear_arith);
    assert(k * dev == s * u + (r0 - rm) * ed + r1 * en);
    lemma_mul_le_bound(s, u, s, a.e * ed);
    vstd::arithmetic::mul::lemma_mul_inequality(r0 - rm, r0, ed);
    vstd::arithmetic::mul::lemma_mul_inequality(r0 - k + 1, r0 - rm, ed);
    lemma_mul_le_bound(r1, en, r1, ed);
    assert(s * (a.e * ed) == (a.e * s) * ed) by (nonlinear_arith);
    assert(0 <= a.e * s) by (nonlinear_arith)
        requires
            0 <= a.e,
            s >= 1,
    ;
    assert(-((a.e * s + r0 + r1 + k) * ed) <= k * dev <= (a.e * s + r0 + r1 + k) * ed)
        by (nonlinear_arith)
        requires
            -((a.e * s) * ed) <= s * u <= (a.e * s) * ed,
            (r0 - rm) * ed <= r0 * ed,
            (r0 - k + 1) * ed <= (r0 - rm) * ed,
            -(r1 * ed) <= r1 * en <= r1 * ed,
            k * dev == s * u + (r0 - rm) * ed + r1 * en,
            1 <= ed,
            0 <= r0 < k,
            0 <= r1,
            0 <= a.e * s,
    ;
    assert(k * ep >= a.e * s + r0 + r1 + k) by (nonlinear_arith)
        requires
            a.e * s + r0 + r1 + k - 1 == k * ((a.e * s + r0 + r1 + k - 1) / k) + (a.e * s + r0
                + r1 + k - 1) % k,
            0 <= (a.e * s + r0 + r1 + k - 1) % k < k,
            ep == (a.e * s + r0 + r1 + k - 1) / k + 1,
            1 <= k,
    ;
    assert(-(ep * ed) <= dev <= ep * ed) by (nonlinear_arith)
        requires
            -((a.e * s + r0 + r1 + k) * ed) <= k * dev <= (a.e * s + r0 + r1 + k) * ed,
            k * ep >= a.e * s + r0 + r1 + k,
            1 <= ed,
            1 <= k,
            0 <= a.e * s + r0 + r1 + k,
    ;

    let rr = AffS { x0: x0p, x1: x1p, e: ep };
    assert(encl(rr, en, ed, w));
    assert(0 <= ep) by (nonlinear_arith)
        requires
            a.e * s + r0 + r1 + k - 1 == k * ((a.e * s + r0 + r1 + k - 1) / k) + (a.e * s + r0
                + r1 + k - 1) % k,
            0 <= (a.e * s + r0 + r1 + k - 1) % k < k,
            ep == (a.e * s + r0 + r1 + k - 1) / k + 1,
            0 <= a.e * s + r0 + r1,
            1 <= k,
    ;
    if abs(x0p) as int + abs(x1p) as int + ep <= MAX_RAW as int {
        assert(adiv_k(a, k) == rr);
        lemma_encl_bound(rr, en, ed, w);
        assert(div_s(x, k) == sat(w));
        assert(sat(w) == w);
        assert(encl(adiv_k(a, k), en, ed, div_s(x, k)));
    } else {
        assert(adiv_k(a, k) == atop());
        lemma_encl_top(en, ed, div_s(x, k));
    }
}

/// An affine form holding one exact scalar: no noise, no error.
pub open spec fn aconst(v: int) -> AffS {
    AffS { x0: v, x1: 0, e: 0 }
}

/// The affine form that introduces an input variable ranging over
/// `[lo, hi]`: centered, with the half-width (rounded up) as the
/// coefficient of the variable's own noise symbol.
pub open spec fn avar(lo: int, hi: int) -> AffS {
    apack((lo + hi) / 2, (hi - lo + 1) / 2, 0)
}

/// The least scalar an affine form can reach.
pub open spec fn alower(a: AffS) -> int {
    a.x0 - arad(a)
}

/// The greatest scalar an affine form can reach.
pub open spec fn ahigher(a: AffS) -> int {
    a.x0 + arad(a)
}

/// Quotient by any nonzero exact scalar: divide by the magnitude, then
/// flip the sign for a negative divisor.
pub open spec fn adiv_any(a: AffS, k: int) -> AffS {
    if k > 0 {
        adiv_k(a, k)
    } else {
        aneg(adiv_k(a, -k))
    }
}

/// Quotient of two forms, over a divisor range excluding zero: the
/// covered quotient range, corner by corner, centered with its width in
/// the error term. Both operands' correlations are dropped, the
/// documented tightness trade-off of routing division through the
/// covered ranges.
pub open spec fn adiv(a: AffS, b: AffS) -> AffS {
    afrom_bounds(
        min_s(
            min_s(div_s(alower(a), alower(b)), div_s(alower(a), ahigher(b))),
            min_s(div_s(ahigher(a), alower(b)), div_s(ahigher(a), ahigher(b))),
        ),
        max_s(
            max_s(div_s(alower(a), alower(b)), div_s(alower(a), ahigher(b))),
            max_s(div_s(ahigher(a), alower(b)), div_s(ahigher(a), ahigher(b))),
        ),
    )
}

/// The larger of two forms, as computed: a strictly dominating side is
/// kept whole, otherwise the overlapping ranges merge into the centered
/// cover.
pub open spec fn amax(a: AffS, b: AffS) -> AffS {
    if alower(a) > ahigher(b) {
        a
    } else if alower(b) > ahigher(a) {
        b
    } else {
        afrom_bounds(max_s(alower(a), alower(b)), max_s(ahigher(a), ahigher(b)))
    }
}

/// The smaller of two forms, mirroring [`amax`].
pub open spec fn amin(a: AffS, b: AffS) -> AffS {
    if ahigher(a) < alower(b) {
        a
    } else if ahigher(b) < alower(a) {
        b
    } else {
        afrom_bounds(min_s(alower(a), alower(b)), min_s(ahigher(a), ahigher(b)))
    }
}

/// Clamp into `[lo, hi]`: raise to `lo`, then lower to `hi`.
pub open spec fn aclamp(a: AffS, lo: AffS, hi: AffS) -> AffS {
    amin(amax(a, lo), hi)
}

/// Absolute value: flip a negative form, keep a positive one, otherwise
/// cover from zero up to the larger magnitude.
pub open spec fn aabs(a: AffS) -> AffS {
    if ahigher(a) < 0 {
        aneg(a)
    } else if alower(a) > 0 {
        a
    } else {
        afrom_bounds(0, max_s(neg_s(alower(a)), ahigher(a)))
    }
}

/// Square root, through the covered range.
pub open spec fn asqrt(a: AffS) -> AffS {
    afrom_bounds(sqrt_s(max_s(alower(a), 0)), sqrt_s(ahigher(a)))
}

/// Blending with an affine weight, in affine arithmetic.
pub open spec fn amix(t: AffS, start: AffS, end: AffS) -> AffS {
    aadd(amul(start, asub(aconst(FRAC as int), t)), amul(end, t))
}

/// Negating after saturating equals saturating the negation.
pub proof fn lemma_neg_sat(q: int)
    ensures
        neg_s(sat(q)) == sat(-q),
{
}

/// For a negative divisor, the scalar quotient is the negated quotient by
/// the divisor's magnitude.
pub proof fn lemma_div_s_neg_divisor(x: int, k: int)
    requires
        k < 0,
    ensures
        div_s(x, k) == neg_s(div_s(x, -k)),
{
    lemma_neg_sat((x * (FRAC as int)) / (-k));
}

/// Every value of a variable's range is enclosed at some noise value.
pub proof fn lemma_avar_covers(lo: int, hi: int, x: int)
    requires
        wf_raw(lo),
        wf_raw(hi),
        lo <= x <= hi,
    ensures
        exists|en: int, ed: int| eps_ok(en, ed) && #[trigger] encl(avar(lo, hi), en, ed, x),
{
    let mid = (lo + hi) / 2;
    let half = (hi - lo + 1) / 2;
    vstd::arithmetic::div_mod::lemma_fundamental_div_mod(lo + hi, 2);
    vstd::arithmetic::div_mod::lemma_mod_bound(lo + hi, 2);
    vstd::arithmetic::div_mod::lemma_fundamental_div_mod(hi - lo + 1, 2);
    vstd::arithmetic::div_mod::lemma_mod_bound(hi - lo + 1, 2);
    assert(mid - half <= lo && hi <= mid + half);
    let r = avar(lo, hi);
    if 0 <= 0 && abs(mid) as int + abs(half) as int + 0 <= MAX_RAW as int {
        assert(r == AffS { x0: mid, x1: half, e: 0 });
        if half > 0 {
            assert(x * half - mid * half - half * (x - mid) == 0) by (nonlinear_arith);
            assert(eps_ok(x - mid, half) && encl(r, x - mid, half, x));
        } else {
            assert(x == mid);
            assert(eps_ok(0, 1) && encl(r, 0, 1, x));
        }
    } else {
        assert(r == atop());
        lemma_encl_top(0, 1, x);
        assert(eps_ok(0, 1) && encl(r, 0, 1, x));
    }
}

/// A reduced affine form: a central value `x0`, the coefficient `x1` of the
/// one shared noise symbol, and an aggregated nonnegative error `e`.
#[derive(Clone, Copy, PartialEq, Eq, Structural, Debug)]
pub struct Affine {
    pub x0: Fixed,
    pub x1: Fixed,
    pub e: Fixed,
}

impl View for Affine {
    type V = AffS;

    open spec fn view(&self) -> AffS {
        AffS { x0: self.x0@, x1: self.x1@, e: self.e@ }
    }
}

/// Pack wide candidate fields into a well-formed affine form, widening to
/// the full range when they do not fit.
fn pack(x0: i128, x1: i128, e: i128) -> (r: Affine)
    requires
        -0x20000000000000000000000000000000 <= x0 <= 0x20000000000000000000000000000000,
        -0x20000000000000000000000000000000 <= x1 <= 0x20000000000000000000000000000000,
        -0x20000000000000000000000000000000 <= e <= 0x20000000000000000000000000000000,
    ensures
        r@ == apack(x0 as int, x1 as int, e as int),
        awf(r@),
{
    let ax0: i128 = if x0 < 0 {
        -x0
    } else {
        x0
    };
    let ax1: i128 = if x1 < 0 {
        -x1
    } else {
        x1
    };
    if e >= 0 && ax0 + ax1 + e <= MAX_RAW as i128 {
        Affine { x0: Fixed { raw: x0 as i64 }, x1: Fixed { raw: x1 as i64 }, e: Fixed { raw: e as i64 } }
    } else {
        Affine { x0: Fixed { raw: 0 }, x1: Fixed { raw: 0 }, e: Fixed { raw: MAX_RAW } }
    }
}

impl Affine {
    /// The affine invariant: nonnegative error, whole range in the scalar
    /// domain.
    pub open spec fn wf(self) -> bool {
        awf(self@)
    }

    /// An exact scalar: no noise, no error.
    pub fn new(x0: Fixed) -> (r: Affine)
        requires
            x0.wf(),
        ensures
            r@ == aconst(x0@),
            r.wf(),
            forall|en: int, ed: int| eps_ok(en, ed) ==> #[trigger] encl(r@, en, ed, x0@),
    {
        let r = Affine { x0, x1: Fixed { raw: 0 }, e: Fixed { raw: 0 } };
        proof {
            assert forall|en: int, ed: int| eps_ok(en, ed) implies #[trigger] encl(
                r@,
                en,
                ed,
                x0@,
            ) by {
                assert(x0@ * ed - x0@ * ed - 0 * en == 0) by (nonlinear_arith);
                assert(0 * ed == 0) by (nonlinear_arith);
            }
        }
        r
    }

    /// Introduce an input variable ranging over the given interval: the
    /// half-width becomes the coefficient of the variable's own noise
    /// symbol, so correlated occurrences of the variable cancel. Every
    /// value of the range is enclosed at some noise value.
    pub fn from_interval(iv: Interval) -> (r: Affine)
        requires
            iv.wf(),
        ensures
            r@ == avar(iv.low@, iv.high@),
            r.wf(),
            forall|x: int|
                iv.contains(x) ==> exists|en: int, ed: int|
                    eps_ok(en, ed) && #[trigger] encl(r@, en, ed, x),
    {
        let mid: i128 = crate::fixed::div_wide(iv.low.raw() as i128 + iv.high.raw() as i128, 2);
        let half: i128 = crate::fixed::div_wide(
            iv.high.raw() as i128 - iv.low.raw() as i128 + 1,
            2,
        );
        let r = pack(mid, half, 0);
        proof {
            assert forall|x: int| iv.contains(x) implies exists|en: int, ed: int|
                eps_ok(en, ed) && #[trigger] encl(r@, en, ed, x) by {
                lemma_avar_covers(iv.low@, iv.high@, x);
            }
        }
        r
    }

    /// The radius: how far from the center this form can stray.
    pub fn rad(self) -> (r: Fixed)
        requires
            self.wf(),
        ensures
            r@ == arad(self@),
    {
        self.x1.abs().add(self.e)
    }

    /// The least scalar this form can reach.
    pub fn lower(self) -> (r: Fixed)
        requires
            self.wf(),
        ensures
            r@ == alower(self@),
    {
        self.x0.sub(self.rad())
    }

    /// The greatest scalar this form can reach.
    pub fn higher(self) -> (r: Fixed)
        requires
            self.wf(),
        ensures
            r@ == ahigher(self@),
    {
        self.x0.add(self.rad())
    }

    /// The interval this form covers; it contains every enclosed scalar.
    pub fn into_interval(self) -> (r: Interval)
        requires
            self.wf(),
        ensures
            r.wf(),
            r.low@ == alower(self@),
            r.high@ == ahigher(self@),
            forall|en: int, ed: int, x: int|
                eps_ok(en, ed) && #[trigger] encl(self@, en, ed, x) ==> r.contains(x),
    {
        let r = Interval { low: self.lower(), high: self.higher() };
        proof {
            assert forall|en: int, ed: int, x: int|
                eps_ok(en, ed) && #[trigger] encl(self@, en, ed, x) implies r.contains(x) by {
                lemma_encl_bound(self@, en, ed, x);
            }
        }
        r
    }

    /// The centered form covering everything in `[lo, hi]`, at every noise
    /// value: the whole half-width goes into the error term.
    pub fn from_bounds(lo: Fixed, hi: Fixed) -> (r: Affine)
        requires
            lo.wf(),
            hi.wf(),
            lo@ <= hi@,
        ensures
            r@ == afrom_bounds(lo@, hi@),
            r.wf(),
            forall|en: int, ed: int, x: int|
                eps_ok(en, ed) && lo@ <= x <= hi@ ==> #[trigger] encl(r@, en, ed, x),
    {
        let mid: i128 = crate::fixed::div_wide(lo.raw() as i128 + hi.raw() as i128, 2);
        let half: i128 = crate::fixed::div_wide(hi.raw() as i128 - lo.raw() as i128 + 1, 2);
        let r = pack(mid, 0, half);
        proof {
            assert forall|en: int, ed: int, x: int|
                eps_ok(en, ed) && lo@ <= x <= hi@ implies #[trigger] encl(r@, en, ed, x) by {
                lemma_afrom_bounds_sound(lo@, hi@, en, ed, x);
            }
        }
        r
    }

    pub fn neg(self) -> (r: Affine)
        requires
            self.wf(),
        ensures
            r@ == aneg(self@),
            r.wf(),
            forall|en: int, ed: int, x: int|
                eps_ok(en, ed) && #[trigger] encl(self@, en, ed, x) ==> encl(
                    r@,
                    en,
                    ed,
                    neg_s(x),
                ),
    {
        let r = Affine { x0: self.x0.neg(), x1: self.x1.neg(), e: self.e };
        proof {
            assert forall|en: int, ed: int, x: int|
                eps_ok(en, ed) && #[trigger] encl(self@, en, ed, x) implies encl(
                r@,
                en,
                ed,
                neg_s(x),
            ) by {
                lemma_encl_bound(self@, en, ed, x);
                lemma_aneg_sound(self@, en, ed, x);
            }
        }
        r
    }

    pub fn add(self, rhs: Affine) -> (r: Affine)
        requires
            self.wf(),
            rhs.wf(),
        ensures
            r@ == aadd(self@, rhs@),
            r.wf(),
            forall|en: int, ed: int, x: int, y: int|
                eps_ok(en, ed) && #[trigger] encl(self@, en, ed, x) && #[trigger] encl(
                    rhs@,
                    en,
                    ed,
                    y,
                ) ==> encl(r@, en, ed, add_s(x, y)),
    {
        let r = pack(
            self.x0.raw() as i128 + rhs.x0.raw() as i128,
            self.x1.raw() as i128 + rhs.x1.raw() as i128,
            self.e.raw() as i128 + rhs.e.raw() as i128,
        );
        proof {
            assert forall|en: int, ed: int, x: int, y: int|
                eps_ok(en, ed) && #[trigger] encl(self@, en, ed, x) && #[trigger] encl(
                rhs@,
                en,
                ed,
                y,
            ) implies encl(r@, en, ed, add_s(x, y)) by {
                lemma_aadd_sound(self@, rhs@, en, ed, x, y);
            }
        }
        r
    }

    pub fn sub(self, rhs: Affine) -> (r: Affine)
        requires
            self.wf(),
            rhs.wf(),
        ensures
            r@ == asub(self@, rhs@),
            r.wf(),
            forall|en: int, ed: int, x: int, y: int|
                eps_ok(en, ed) && #[trigger] encl(self@, en, ed, x) && #[trigger] encl(
                    rhs@,
                    en,
                    ed,
                    y,
                ) ==> encl(r@, en, ed, sub_s(x, y)),
    {
        let r = pack(
            self.x0.raw() as i128 - rhs.x0.raw() as i128,
            self.x1.raw() as i128 - rhs.x1.raw() as i128,
            self.e.raw() as i128 + rhs.e.raw() as i128,
        );
        proof {
            assert forall|en: int, ed: int, x: int, y: int|
                eps_ok(en, ed) && #[trigger] encl(self@, en, ed, x) && #[trigger] encl(
                rhs@,
                en,
                ed,
                y,
            ) implies encl(r@, en, ed, sub_s(x, y)) by {
                lemma_asub_sound(self@, rhs@, en, ed, x, y);
            }
        }
        r
    }

    /// The AF1 product.
    pub fn mul(self, rhs: Affine) -> (r: Affine)
        requires
            self.wf(),
            rhs.wf(),
        ensures
            r@ == amul(self@, rhs@),
            r.wf(),
            forall|en: int, ed: int, x: int, y: int|
                eps_ok(en, ed) && #[trigger] encl(self@, en, ed, x) && #[trigger] encl(
                    rhs@,
                    en,
                    ed,
                    y,
                ) ==> encl(r@, en, ed, mul_s(x, y)),
    {
        proof {
            lemma_mul_le_bound(self.x0@, rhs.x0@, MAX_RAW as int, MAX_RAW as int);
            lemma_mul_le_bound(self.x0@, rhs.x1@, MAX_RAW as int, MAX_RAW as int);
            lemma_mul_le_bound(rhs.x0@, self.x1@, MAX_RAW as int, MAX_RAW as int);
            lemma_mul_le_bound(self.x0@, rhs.e@, MAX_RAW as int, MAX_RAW as int);
            lemma_mul_le_bound(rhs.x0@, self.e@, MAX_RAW as int, MAX_RAW as int);
            lemma_mul_le_bound(
                self.x1@ + self.e@,
                rhs.x1@ + rhs.e@,
                MAX_RAW as int,
                MAX_RAW as int,
            );
            assert(MAX_RAW as int * MAX_RAW as int == 0x10000000000000000000000000000000)
                by (nonlinear_arith);
        }
        let x0a: i128 = self.x0.raw() as i128;
        let x1a: i128 = self.x1.raw() as i128;
        let ea: i128 = self.e.raw() as i128;
        let x0b: i128 = rhs.x0.raw() as i128;
        let x1b: i128 = rhs.x1.raw() as i128;
        let eb: i128 = rhs.e.raw() as i128;
        let ax0a: i128 = if x0a < 0 {
            -x0a
        } else {
            x0a
        };
        let ax1a: i128 = if x1a < 0 {
            -x1a
        } else {
            x1a
        };
        let ax0b: i128 = if x0b < 0 {
            -x0b
        } else {
            x0b
        };
        let ax1b: i128 = if x1b < 0 {
            -x1b
        } else {
            x1b
        };
        proof {
            lemma_mul_le_bound(ax0a as int, eb as int, MAX_RAW as int, MAX_RAW as int);
            lemma_mul_le_bound(ax0b as int, ea as int, MAX_RAW as int, MAX_RAW as int);
            lemma_mul_le_bound(
                ax1a as int + ea as int,
                ax1b as int + eb as int,
                MAX_RAW as int,
                MAX_RAW as int,
            );
        }
        let c0: i128 = crate::fixed::div_wide(x0a * x0b, FRAC as i128);
        let rem0: i128 = crate::fixed::rem_wide(x0a * x0b, FRAC as i128);
        let c1: i128 = crate::fixed::div_wide(x0a * x1b + x0b * x1a, FRAC as i128);
        let rem1: i128 = crate::fixed::rem_wide(x0a * x1b + x0b * x1a, FRAC as i128);
        let t: i128 = ax0a * eb + ax0b * ea + (ax1a + ea) * (ax1b + eb);
        let ep: i128 = crate::fixed::div_wide(t + rem0 + rem1 + FRAC as i128 - 1, FRAC as i128)
            + 1;
        let r = pack(c0, c1, ep);
        proof {
            assert(r@ == amul(self@, rhs@));
            assert forall|en: int, ed: int, x: int, y: int|
                eps_ok(en, ed) && #[trigger] encl(self@, en, ed, x) && #[trigger] encl(
                rhs@,
                en,
                ed,
                y,
            ) implies encl(r@, en, ed, mul_s(x, y)) by {
                lemma_encl_bound(self@, en, ed, x);
                lemma_encl_bound(rhs@, en, ed, y);
                lemma_amul_sound(self@, rhs@, en, ed, x, y);
            }
        }
        r
    }

    /// Scale by an exact scalar.
    pub fn mul_scalar(self, rhs: Fixed) -> (r: Affine)
        requires
            self.wf(),
            rhs.wf(),
        ensures
            r@ == amul(self@, aconst(rhs@)),
            r.wf(),
            forall|en: int, ed: int, x: int|
                eps_ok(en, ed) && #[trigger] encl(self@, en, ed, x) ==> encl(
                    r@,
                    en,
                    ed,
                    mul_s(x, rhs@),
                ),
    {
        let k = Affine::new(rhs);
        let r = self.mul(k);
        proof {
            assert forall|en: int, ed: int, x: int|
                eps_ok(en, ed) && #[trigger] encl(self@, en, ed, x) implies encl(
                r@,
                en,
                ed,
                mul_s(x, rhs@),
            ) by {
                assert(encl(k@, en, ed, rhs@));
            }
        }
        r
    }

    /// Shift by an exact scalar.
    pub fn add_scalar(self, rhs: Fixed) -> (r: Affine)
        requires
            self.wf(),
            rhs.wf(),
        ensures
            r@ == aadd(self@, aconst(rhs@)),
            r.wf(),
            forall|en: int, ed: int, x: int|
                eps_ok(en, ed) && #[trigger] encl(self@, en, ed, x) ==> encl(
                    r@,
                    en,
                    ed,
                    add_s(x, rhs@),
                ),
    {
        let k = Affine::new(rhs);
        let r = self.add(k);
        proof {
            assert forall|en: int, ed: int, x: int|
                eps_ok(en, ed) && #[trigger] encl(self@, en, ed, x) implies encl(
                r@,
                en,
                ed,
                add_s(x, rhs@),
            ) by {
                assert(encl(k@, en, ed, rhs@));
            }
        }
        r
    }

    pub fn sub_scalar(self, rhs: Fixed) -> (r: Affine)
        requires
            self.wf(),
            rhs.wf(),
        ensures
            r@ == asub(self@, aconst(rhs@)),
            r.wf(),
            forall|en: int, ed: int, x: int|
                eps_ok(en, ed) && #[trigger] encl(self@, en, ed, x) ==> encl(
                    r@,
                    en,
                    ed,
                    sub_s(x, rhs@),
                ),
    {
        let k = Affine::new(rhs);
        let r = self.sub(k);
        proof {
            assert forall|en: int, ed: int, x: int|
                eps_ok(en, ed) && #[trigger] encl(self@, en, ed, x) implies encl(
                r@,
                en,
                ed,
                sub_s(x, rhs@),
            ) by {
                assert(encl(k@, en, ed, rhs@));
            }
        }
        r
    }

    /// An exact scalar minus this form.
    pub fn scalar_sub(lhs: Fixed, rhs: Affine) -> (r: Affine)
        requires
            lhs.wf(),
            rhs.wf(),
        ensures
            r@ == asub(aconst(lhs@), rhs@),
            r.wf(),
            forall|en: int, ed: int, y: int|
                eps_ok(en, ed) && #[trigger] encl(rhs@, en, ed, y) ==> encl(
                    r@,
                    en,
                    ed,
                    sub_s(lhs@, y),
                ),
    {
        let k = Affine::new(lhs);
        let r = k.sub(rhs);
        proof {
            assert forall|en: int, ed: int, y: int|
                eps_ok(en, ed) && #[trigger] encl(rhs@, en, ed, y) implies encl(
                r@,
                en,
                ed,
                sub_s(lhs@, y),
            ) by {
                assert(encl(k@, en, ed, lhs@));
            }
        }
        r
    }

    /// Quotient by a nonzero exact scalar.
    pub fn div_scalar(self, rhs: Fixed) -> (r: Affine)
        requires
            self.wf(),
            rhs.wf(),
            rhs@ != 0,
        ensures
            r@ == adiv_any(self@, rhs@),
            r.wf(),
            forall|en: int, ed: int, x: int|
                eps_ok(en, ed) && #[trigger] encl(self@, en, ed, x) ==> encl(
                    r@,
                    en,
                    ed,
                    div_s(x, rhs@),
                ),
    {
        let k: i128 = if rhs.raw() > 0 {
            rhs.raw() as i128
        } else {
            -(rhs.raw() as i128)
        };
        proof {
            lemma_mul_le_bound(self.x0@, FRAC as int, MAX_RAW as int, FRAC as int);
            lemma_mul_le_bound(self.x1@, FRAC as int, MAX_RAW as int, FRAC as int);
            lemma_mul_le_bound(self.e@, FRAC as int, MAX_RAW as int, FRAC as int);
        }
        let c0: i128 = crate::fixed::div_wide(self.x0.raw() as i128 * FRAC as i128, k);
        let rem0: i128 = crate::fixed::rem_wide(self.x0.raw() as i128 * FRAC as i128, k);
        let c1: i128 = crate::fixed::div_wide(self.x1.raw() as i128 * FRAC as i128, k);
        let rem1: i128 = crate::fixed::rem_wide(self.x1.raw() as i128 * FRAC as i128, k);
        let ep: i128 = crate::fixed::div_wide(
            self.e.raw() as i128 * FRAC as i128 + rem0 + rem1 + k - 1,
            k,
        ) + 1;
        let q = pack(c0, c1, ep);
        let r = if rhs.raw() > 0 {
            q
        } else {
            q.neg()
        };
        proof {
            assert(q@ == adiv_k(self@, k as int));
            assert forall|en: int, ed: int, x: int|
                eps_ok(en, ed) && #[trigger] encl(self@, en, ed, x) implies encl(
                r@,
                en,
                ed,
                div_s(x, rhs@),
            ) by {
                lemma_encl_bound(self@, en, ed, x);
                lemma_adiv_k_sound(self@, k as int, en, ed, x);
                if rhs@ < 0 {
                    lemma_div_s_neg_divisor(x, rhs@);
                    lemma_encl_bound(q@, en, ed, div_s(x, k as int));
                    lemma_aneg_sound(q@, en, ed, div_s(x, k as int));
                }
            }
        }
        r
    }

    /// Quotient of two forms, over a divisor whose range excludes zero,
    /// through the covered ranges' corner quotients. Correlation is
    /// dropped, the documented tightness trade-off of division.
    pub fn div(self, rhs: Affine) -> (r: Affine)
        requires
            self.wf(),
            rhs.wf(),
            alower(rhs@) > 0 || ahigher(rhs@) < 0,
        ensures
            r@ == adiv(self@, rhs@),
            r.wf(),
            forall|en: int, ed: int, x: int, y: int|
                eps_ok(en, ed) && #[trigger] encl(self@, en, ed, x) && #[trigger] encl(
                    rhs@,
                    en,
                    ed,
                    y,
                ) ==> encl(r@, en, ed, div_s(x, y)),
    {
        let ii = self.into_interval();
        let jj = rhs.into_interval();
        let q = ii.div(jj);
        let r = Affine::from_bounds(q.low, q.high);
        proof {
            assert forall|en: int, ed: int, x: int, y: int|
                eps_ok(en, ed) && #[trigger] encl(self@, en, ed, x) && #[trigger] encl(
                rhs@,
                en,
                ed,
                y,
            ) implies encl(r@, en, ed, div_s(x, y)) by {
                lemma_encl_bound(self@, en, ed, x);
                lemma_encl_bound(rhs@, en, ed, y);
                assert(ii.contains(x) && jj.contains(y));
                assert(q.contains(div_s(x, y)));
            }
        }
        r
    }
}

impl Affine {
    /// Absolute value: keeps a positive form, flips a negative one, and
    /// otherwise covers from zero up to the larger magnitude, with the
    /// straddling cover held in the error term (a folded range has no
    /// linear relation to the noise symbol left).
    pub fn abs(self) -> (r: Affine)
        requires
            self.wf(),
        ensures
            r.wf(),
            r@ == aabs(self@),
            forall|en: int, ed: int, x: int|
                eps_ok(en, ed) && #[trigger] encl(self@, en, ed, x) ==> encl(
                    r@,
                    en,
                    ed,
                    abs_s(x),
                ),
    {
        let ii = self.into_interval();
        let r = if ii.high.raw() < 0 {
            self.neg()
        } else if ii.low.raw() > 0 {
            self
        } else {
            let hi2 = ii.low.neg().max(ii.high);
            Affine::from_bounds(Fixed { raw: 0 }, hi2)
        };
        proof {
            assert forall|en: int, ed: int, x: int|
                eps_ok(en, ed) && #[trigger] encl(self@, en, ed, x) implies encl(
                r@,
                en,
                ed,
                abs_s(x),
            ) by {
                lemma_encl_bound(self@, en, ed, x);
                if ahigher(self@) < 0 {
                    assert(abs_s(x) == neg_s(x));
                } else if alower(self@) > 0 {
                    assert(abs_s(x) == x);
                } else {
                    assert(0 <= abs_s(x) <= max_s(neg_s(alower(self@)), ahigher(self@)));
                }
            }
        }
        r
    }

    /// Square root, through the covered range.
    pub fn sqrt(self) -> (r: Affine)
        requires
            self.wf(),
            ahigher(self@) >= 0,
        ensures
            r.wf(),
            r@ == asqrt(self@),
            forall|en: int, ed: int, x: int|
                eps_ok(en, ed) && x >= 0 && #[trigger] encl(self@, en, ed, x) ==> encl(
                    r@,
                    en,
                    ed,
                    sqrt_s(x),
                ),
    {
        let ii = self.into_interval();
        let si = ii.sqrt();
        let r = Affine::from_bounds(si.low, si.high);
        proof {
            assert forall|en: int, ed: int, x: int|
                eps_ok(en, ed) && x >= 0 && #[trigger] encl(self@, en, ed, x) implies encl(
                r@,
                en,
                ed,
                sqrt_s(x),
            ) by {
                lemma_encl_bound(self@, en, ed, x);
                assert(ii.contains(x));
                assert(si.contains(sqrt_s(x)));
            }
        }
        r
    }

    /// Sine, conservatively widened to the full `[-1, 1]` range.
    pub fn sin(self) -> (r: Affine)
        ensures
            r.wf(),
            r@ == afrom_bounds(-(FRAC as int), FRAC as int),
            forall|en: int, ed: int, x: int|
                eps_ok(en, ed) ==> #[trigger] encl(r@, en, ed, sin_s(x)),
    {
        let one = Fixed { raw: FRAC };
        let r = Affine::from_bounds(one.neg(), one);
        proof {
            assert forall|en: int, ed: int, x: int| eps_ok(en, ed) implies #[trigger] encl(
                r@,
                en,
                ed,
                sin_s(x),
            ) by {
                assert(-(FRAC as int) <= sin_s(x) <= FRAC as int);
            }
        }
        r
    }

    /// Cosine, conservatively widened to the full `[-1, 1]` range.
    pub fn cos(self) -> (r: Affine)
        ensures
            r.wf(),
            r@ == afrom_bounds(-(FRAC as int), FRAC as int),
            forall|en: int, ed: int, x: int|
                eps_ok(en, ed) ==> #[trigger] encl(r@, en, ed, cos_s(x)),
    {
        let one = Fixed { raw: FRAC };
        let r = Affine::from_bounds(one.neg(), one);
        proof {
            assert forall|en: int, ed: int, x: int| eps_ok(en, ed) implies #[trigger] encl(
                r@,
                en,
                ed,
                cos_s(x),
            ) by {
                assert(-(FRAC as int) <= cos_s(x) <= FRAC as int);
            }
        }
        r
    }

    /// The larger of two forms, reporting which side was selected: `Left`
    /// or `Right` when one range strictly dominates, otherwise a merge of
    /// both ranges. The merge holds its width in the error term, not in
    /// the shared-symbol coefficient: the merged value carries no real
    /// correlation with the input noise symbol, and granting it one would
    /// break the enclosure soundness proved here.
    pub fn max_choice(self, rhs: Affine) -> (res: (Affine, Choice))
        requires
            self.wf(),
            rhs.wf(),
        ensures
            res.0.wf(),
            (res.1 == Choice::Left) <==> alower(self@) > ahigher(rhs@),
            (res.1 == Choice::Right) <==> (!(alower(self@) > ahigher(rhs@)) && alower(rhs@)
                > ahigher(self@)),
            res.1 == Choice::Left ==> res.0 == self,
            res.1 == Choice::Right ==> res.0 == rhs,
            res.0@ == amax(self@, rhs@),
            forall|en: int, ed: int, x: int, y: int|
                eps_ok(en, ed) && #[trigger] encl(self@, en, ed, x) && #[trigger] encl(
                    rhs@,
                    en,
                    ed,
                    y,
                ) ==> encl(res.0@, en, ed, max_s(x, y)),
    {
        let ix = self.into_interval();
        let iy = rhs.into_interval();
        let res: (Affine, Choice) = if ix.low.raw() > iy.high.raw() {
            (self, Choice::Left)
        } else if iy.low.raw() > ix.high.raw() {
            (rhs, Choice::Right)
        } else {
            (Affine::from_bounds(ix.low.max(iy.low), ix.high.max(iy.high)), Choice::Both)
        };
        proof {
            assert forall|en: int, ed: int, x: int, y: int|
                eps_ok(en, ed) && #[trigger] encl(self@, en, ed, x) && #[trigger] encl(
                rhs@,
                en,
                ed,
                y,
            ) implies encl(res.0@, en, ed, max_s(x, y)) by {
                lemma_encl_bound(self@, en, ed, x);
                lemma_encl_bound(rhs@, en, ed, y);
            }
        }
        res
    }

    /// The smaller of two forms, reporting which side was selected; the
    /// overlapping merge goes into the error term, as in the maximum.
    pub fn min_choice(self, rhs: Affine) -> (res: (Affine, Choice))
        requires
            self.wf(),
            rhs.wf(),
        ensures
            res.0.wf(),
            (res.1 == Choice::Left) <==> ahigher(self@) < alower(rhs@),
            (res.1 == Choice::Right) <==> (!(ahigher(self@) < alower(rhs@)) && ahigher(rhs@)
                < alower(self@)),
            res.1 == Choice::Left ==> res.0 == self,
            res.1 == Choice::Right ==> res.0 == rhs,
            res.0@ == amin(self@, rhs@),
            forall|en: int, ed: int, x: int, y: int|
                eps_ok(en, ed) && #[trigger] encl(self@, en, ed, x) && #[trigger] encl(
                    rhs@,
                    en,
                    ed,
                    y,
                ) ==> encl(res.0@, en, ed, min_s(x, y)),
    {
        let ix = self.into_interval();
        let iy = rhs.into_interval();
        let res: (Affine, Choice) = if ix.high.raw() < iy.low.raw() {
            (self, Choice::Left)
        } else if iy.high.raw() < ix.low.raw() {
            (rhs, Choice::Right)
        } else {
            (Affine::from_bounds(ix.low.min(iy.low), ix.high.min(iy.high)), Choice::Both)
        };
        proof {
            assert forall|en: int, ed: int, x: int, y: int|
                eps_ok(en, ed) && #[trigger] encl(self@, en, ed, x) && #[trigger] encl(
                rhs@,
                en,
                ed,
                y,
            ) implies encl(res.0@, en, ed, min_s(x, y)) by {
                lemma_encl_bound(self@, en, ed, x);
                lemma_encl_bound(rhs@, en, ed, y);
            }
        }
        res
    }

    /// The larger of two forms.
    pub fn max(self, rhs: Affine) -> (r: Affine)
        requires
            self.wf(),
            rhs.wf(),
        ensures
            r.wf(),
            r@ == amax(self@, rhs@),
            forall|en: int, ed: int, x: int, y: int|
                eps_ok(en, ed) && #[trigger] encl(self@, en, ed, x) && #[trigger] encl(
                    rhs@,
                    en,
                    ed,
                    y,
                ) ==> encl(r@, en, ed, max_s(x, y)),
    {
        let res = self.max_choice(rhs);
        res.0
    }

    /// The smaller of two forms.
    pub fn min(self, rhs: Affine) -> (r: Affine)
        requires
            self.wf(),
            rhs.wf(),
        ensures
            r.wf(),
            r@ == amin(self@, rhs@),
            forall|en: int, ed: int, x: int, y: int|
                eps_ok(en, ed) && #[trigger] encl(self@, en, ed, x) && #[trigger] encl(
                    rhs@,
                    en,
                    ed,
                    y,
                ) ==> encl(r@, en, ed, min_s(x, y)),
    {
        let res = self.min_choice(rhs);
        res.0
    }

    /// Clamp into `[lo, hi]`: raise to `lo`, then lower to `hi`.
    pub fn clamp(self, lo: Affine, hi: Affine) -> (r: Affine)
        requires
            self.wf(),
            lo.wf(),
            hi.wf(),
        ensures
            r.wf(),
            r@ == aclamp(self@, lo@, hi@),
            forall|en: int, ed: int, x: int, l: int, h: int|
                eps_ok(en, ed) && #[trigger] encl(self@, en, ed, x) && #[trigger] encl(
                    lo@,
                    en,
                    ed,
                    l,
                ) && #[trigger] encl(hi@, en, ed, h) ==> encl(
                    r@,
                    en,
                    ed,
                    crate::fixed::clamp_s(x, l, h),
                ),
    {
        let m = self.max(lo);
        let r = m.min(hi);
        r
    }

    /// Blending with `self` as the weight, in affine arithmetic.
    pub fn mix(self, start: Affine, end: Affine) -> (r: Affine)
        requires
            self.wf(),
            start.wf(),
            end.wf(),
        ensures
            r.wf(),
            r@ == amix(self@, start@, end@),
            forall|en: int, ed: int, t: int, x: int, y: int|
                eps_ok(en, ed) && #[trigger] encl(self@, en, ed, t) && #[trigger] encl(
                    start@,
                    en,
                    ed,
                    x,
                ) && #[trigger] encl(end@, en, ed, y) ==> encl(
                    r@,
                    en,
                    ed,
                    crate::fixed::mix_s(t, x, y),
                ),
    {
        let one = Affine::new(Fixed { raw: FRAC });
        let w = one.sub(self);
        let r = start.mul(w).add(end.mul(self));
        proof {
            assert forall|en: int, ed: int, t: int, x: int, y: int|
                eps_ok(en, ed) && #[trigger] encl(self@, en, ed, t) && #[trigger] encl(
                start@,
                en,
                ed,
                x,
            ) && #[trigger] encl(end@, en, ed, y) implies encl(
                r@,
                en,
                ed,
                crate::fixed::mix_s(t, x, y),
            ) by {
                assert(encl(one@, en, ed, FRAC as int));
            }
        }
        r
    }
}


/// The center of a product of a form with itself is never negative.
proof fn lemma_amul_self_center_nonneg(a: AffS)
    ensures
        amul(a, a).x0 >= 0,
{
    assert(a.x0 * a.x0 >= 0) by (nonlinear_arith);
    vstd::arithmetic::div_mod::lemma_div_pos_is_pos(a.x0 * a.x0, FRAC as int);
}

/// Adding forms with nonnegative centers keeps the center nonnegative.
proof fn lemma_aadd_center_nonneg(a: AffS, b: AffS)
    requires
        a.x0 >= 0,
        b.x0 >= 0,
    ensures
        aadd(a, b).x0 >= 0,
{
}

/// A 3D point whose components are affine forms sharing one noise symbol.
#[derive(Clone, Copy, PartialEq, Eq, Structural, Debug)]
pub struct Affine3 {
    pub x: Affine,
    pub y: Affine,
    pub z: Affine,
}

impl Affine3 {
    pub open spec fn wf(self) -> bool {
        self.x.wf() && self.y.wf() && self.z.wf()
    }

    /// All three components enclose the given plain point at the given
    /// noise value.
    pub open spec fn encl3(self, en: int, ed: int, px: int, py: int, pz: int) -> bool {
        encl(self.x@, en, ed, px) && encl(self.y@, en, ed, py) && encl(self.z@, en, ed, pz)
    }

    /// An exact point.
    pub fn new(p: Vector3) -> (r: Affine3)
        requires
            p.x.wf(),
            p.y.wf(),
            p.z.wf(),
        ensures
            r.wf(),
            r.x@ == aconst(p.x@),
            r.y@ == aconst(p.y@),
            r.z@ == aconst(p.z@),
            forall|en: int, ed: int|
                eps_ok(en, ed) ==> #[trigger] r.encl3(en, ed, p.x@, p.y@, p.z@),
    {
        Affine3 { x: Affine::new(p.x), y: Affine::new(p.y), z: Affine::new(p.z) }
    }

    /// A rectangular region: each component covers its interval at every
    /// noise value, so the covered points need no common noise value.
    pub fn from_intervals(ix: Interval, iy: Interval, iz: Interval) -> (r: Affine3)
        requires
            ix.wf(),
            iy.wf(),
            iz.wf(),
        ensures
            r.wf(),
            r.x@ == afrom_bounds(ix.low@, ix.high@),
            r.y@ == afrom_bounds(iy.low@, iy.high@),
            r.z@ == afrom_bounds(iz.low@, iz.high@),
            forall|en: int, ed: int, px: int, py: int, pz: int|
                eps_ok(en, ed) && ix.contains(px) && iy.contains(py) && iz.contains(pz)
                    ==> #[trigger] r.encl3(en, ed, px, py, pz),
    {
        Affine3 {
            x: Affine::from_bounds(ix.low, ix.high),
            y: Affine::from_bounds(iy.low, iy.high),
            z: Affine::from_bounds(iz.low, iz.high),
        }
    }

    /// Shift by a constant vector.
    pub fn add_vector(self, rhs: Vector3) -> (r: Affine3)
        requires
            self.wf(),
            rhs.x.wf(),
            rhs.y.wf(),
            rhs.z.wf(),
        ensures
            r.wf(),
            r.x@ == aadd(self.x@, aconst(rhs.x@)),
            r.y@ == aadd(self.y@, aconst(rhs.y@)),
            r.z@ == aadd(self.z@, aconst(rhs.z@)),
            forall|en: int, ed: int, px: int, py: int, pz: int|
                eps_ok(en, ed) && #[trigger] self.encl3(en, ed, px, py, pz) ==> r.encl3(
                    en,
                    ed,
                    add_s(px, rhs.x@),
                    add_s(py, rhs.y@),
                    add_s(pz, rhs.z@),
                ),
    {
        Affine3 {
            x: self.x.add_scalar(rhs.x),
            y: self.y.add_scalar(rhs.y),
            z: self.z.add_scalar(rhs.z),
        }
    }

    /// Divide each component by a nonzero constant.
    pub fn div_scalar(self, rhs: Fixed) -> (r: Affine3)
        requires
            self.wf(),
            rhs.wf(),
            rhs@ != 0,
        ensures
            r.wf(),
            r.x@ == adiv_any(self.x@, rhs@),
            r.y@ == adiv_any(self.y@, rhs@),
            r.z@ == adiv_any(self.z@, rhs@),
            forall|en: int, ed: int, px: int, py: int, pz: int|
                eps_ok(en, ed) && #[trigger] self.encl3(en, ed, px, py, pz) ==> r.encl3(
                    en,
                    ed,
                    div_s(px, rhs@),
                    div_s(py, rhs@),
                    div_s(pz, rhs@),
                ),
    {
        Affine3 {
            x: self.x.div_scalar(rhs),
            y: self.y.div_scalar(rhs),
            z: self.z.div_scalar(rhs),
        }
    }

    /// Componentwise absolute value.
    pub fn abs(self) -> (r: Affine3)
        requires
            self.wf(),
        ensures
            r.wf(),
            r.x@ == aabs(self.x@),
            r.y@ == aabs(self.y@),
            r.z@ == aabs(self.z@),
            forall|en: int, ed: int, px: int, py: int, pz: int|
                eps_ok(en, ed) && #[trigger] self.encl3(en, ed, px, py, pz) ==> r.encl3(
                    en,
                    ed,
                    abs_s(px),
                    abs_s(py),
                    abs_s(pz),
                ),
    {
        Affine3 { x: self.x.abs(), y: self.y.abs(), z: self.z.abs() }
    }

    /// Subtract a constant vector.
    pub fn sub_vector(self, rhs: Vector3) -> (r: Affine3)
        requires
            self.wf(),
            rhs.x.wf(),
            rhs.y.wf(),
            rhs.z.wf(),
        ensures
            r.wf(),
            r.x@ == asub(self.x@, aconst(rhs.x@)),
            r.y@ == asub(self.y@, aconst(rhs.y@)),
            r.z@ == asub(self.z@, aconst(rhs.z@)),
            forall|en: int, ed: int, px: int, py: int, pz: int|
                eps_ok(en, ed) && #[trigger] self.encl3(en, ed, px, py, pz) ==> r.encl3(
                    en,
                    ed,
                    sub_s(px, rhs.x@),
                    sub_s(py, rhs.y@),
                    sub_s(pz, rhs.z@),
                ),
    {
        Affine3 {
            x: self.x.sub_scalar(rhs.x),
            y: self.y.sub_scalar(rhs.y),
            z: self.z.sub_scalar(rhs.z),
        }
    }

    /// Componentwise maximum against an exact scalar.
    pub fn max_scalar(self, rhs: Fixed) -> (r: Affine3)
        requires
            self.wf(),
            rhs.wf(),
        ensures
            r.wf(),
            r.x@ == amax(self.x@, aconst(rhs@)),
            r.y@ == amax(self.y@, aconst(rhs@)),
            r.z@ == amax(self.z@, aconst(rhs@)),
            forall|en: int, ed: int, px: int, py: int, pz: int|
                eps_ok(en, ed) && #[trigger] self.encl3(en, ed, px, py, pz) ==> r.encl3(
                    en,
                    ed,
                    max_s(px, rhs@),
                    max_s(py, rhs@),
                    max_s(pz, rhs@),
                ),
    {
        let k = Affine::new(rhs);
        let r = Affine3 { x: self.x.max(k), y: self.y.max(k), z: self.z.max(k) };
        proof {
            assert forall|en: int, ed: int, px: int, py: int, pz: int|
                eps_ok(en, ed) && #[trigger] self.encl3(en, ed, px, py, pz) implies r.encl3(
                en,
                ed,
                max_s(px, rhs@),
                max_s(py, rhs@),
                max_s(pz, rhs@),
            ) by {
                assert(encl(k@, en, ed, rhs@));
            }
        }
        r
    }

    /// Componentwise sine.
    pub fn sin(self) -> (r: Affine3)
        ensures
            r.wf(),
            r.x@ == afrom_bounds(-(FRAC as int), FRAC as int),
            r.y@ == afrom_bounds(-(FRAC as int), FRAC as int),
            r.z@ == afrom_bounds(-(FRAC as int), FRAC as int),
            forall|en: int, ed: int, px: int, py: int, pz: int|
                eps_ok(en, ed) ==> #[trigger] r.encl3(en, ed, sin_s(px), sin_s(py), sin_s(pz)),
    {
        Affine3 { x: self.x.sin(), y: self.y.sin(), z: self.z.sin() }
    }

    /// Componentwise cosine.
    pub fn cos(self) -> (r: Affine3)
        ensures
            r.wf(),
            r.x@ == afrom_bounds(-(FRAC as int), FRAC as int),
            r.y@ == afrom_bounds(-(FRAC as int), FRAC as int),
            r.z@ == afrom_bounds(-(FRAC as int), FRAC as int),
            forall|en: int, ed: int, px: int, py: int, pz: int|
                eps_ok(en, ed) ==> #[trigger] r.encl3(en, ed, cos_s(px), cos_s(py), cos_s(pz)),
    {
        Affine3 { x: self.x.cos(), y: self.y.cos(), z: self.z.cos() }
    }

    /// The `zxy` swizzle used by the gyroid fill.
    pub fn zxy(self) -> (r: Affine3)
        ensures
            r.x == self.z,
            r.y == self.x,
            r.z == self.y,
    {
        Affine3 { x: self.z, y: self.x, z: self.y }
    }

    /// Dot product.
    pub fn dot(self, rhs: Affine3) -> (r: Affine)
        requires
            self.wf(),
            rhs.wf(),
        ensures
            r.wf(),
            r@ == aadd(
                aadd(amul(self.x@, rhs.x@), amul(self.y@, rhs.y@)),
                amul(self.z@, rhs.z@),
            ),
            forall|en: int, ed: int, px: int, py: int, pz: int, qx: int, qy: int, qz: int|
                eps_ok(en, ed) && #[trigger] self.encl3(en, ed, px, py, pz) && #[trigger]
                    rhs.encl3(en, ed, qx, qy, qz) ==> encl(
                    r@,
                    en,
                    ed,
                    crate::vector::dot3_s(px, py, pz, qx, qy, qz),
                ),
    {
        self.x.mul(rhs.x).add(self.y.mul(rhs.y)).add(self.z.mul(rhs.z))
    }

    /// Euclidean magnitude: the square root of the self dot product.
    pub fn mag(self) -> (r: Affine)
        requires
            self.wf(),
        ensures
            r.wf(),
            r@ == asqrt(
                aadd(
                    aadd(amul(self.x@, self.x@), amul(self.y@, self.y@)),
                    amul(self.z@, self.z@),
                ),
            ),
            forall|en: int, ed: int, px: int, py: int, pz: int|
                eps_ok(en, ed) && #[trigger] self.encl3(en, ed, px, py, pz) ==> encl(
                    r@,
                    en,
                    ed,
                    crate::vector::mag3_s(px, py, pz),
                ),
    {
        let d = self.dot(self);
        proof {
            lemma_amul_self_center_nonneg(self.x@);
            lemma_amul_self_center_nonneg(self.y@);
            lemma_amul_self_center_nonneg(self.z@);
            lemma_aadd_center_nonneg(amul(self.x@, self.x@), amul(self.y@, self.y@));
            lemma_aadd_center_nonneg(
                aadd(amul(self.x@, self.x@), amul(self.y@, self.y@)),
                amul(self.z@, self.z@),
            );
            assert(ahigher(d@) >= d@.x0);
        }
        let r = d.sqrt();
        proof {
            assert forall|en: int, ed: int, px: int, py: int, pz: int|
                eps_ok(en, ed) && #[trigger] self.encl3(en, ed, px, py, pz) implies encl(
                r@,
                en,
                ed,
                crate::vector::mag3_s(px, py, pz),
            ) by {
                crate::vector::lemma_dot3_self_nonneg(px, py, pz);
            }
        }
        r
    }
}

} // verus!
