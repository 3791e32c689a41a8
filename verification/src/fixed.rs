//! The scalar value domain: signed fixed-point numbers with 16 fractional
//! bits, saturating at a large symmetric bound.
//!
//! Every other evaluation domain (vectors, dual numbers, intervals, affine
//! forms) is built from this scalar and its spec-level semantics, so each
//! operation here carries an exact specification (`add_s`, `mul_s`, ...)
//! over the underlying raw integers.

use vstd::prelude::*;

verus! {

/// One whole unit, as a raw value: the fixed-point scale.
pub const FRAC: i64 = 65536;

/// Half of a unit, as a raw value.
pub const HALF_FRAC: i64 = 32768;

/// Largest raw magnitude a scalar may hold; arithmetic saturates here.
pub const MAX_RAW: i64 = 0x4000_0000_0000_0000;

/// pi, as a raw fixed-point value.
pub const PI_RAW: i64 = 205887;

/// pi/2, as a raw fixed-point value.
pub const HALF_PI_RAW: i64 = 102944;

/// 2*pi, as a raw fixed-point value (2 * PI_RAW).
pub const TWO_PI_RAW: i64 = 411774;

/// 4/pi, as a raw fixed-point value.
pub const FOUR_OVER_PI_RAW: i64 = 83443;

/// 4/pi^2, as a raw fixed-point value.
pub const FOUR_OVER_PI2_RAW: i64 = 26561;

/// A raw value within the saturation bounds.
pub open spec fn wf_raw(x: int) -> bool {
    -(MAX_RAW as int) <= x <= MAX_RAW as int
}

/// Clamp a mathematical integer into the saturation bounds.
pub open spec fn sat(x: int) -> int {
    if x > MAX_RAW as int {
        MAX_RAW as int
    } else if x < -(MAX_RAW as int) {
        -(MAX_RAW as int)
    } else {
        x
    }
}

pub open spec fn add_s(a: int, b: int) -> int {
    sat(a + b)
}

pub open spec fn sub_s(a: int, b: int) -> int {
    sat(a - b)
}

pub open spec fn neg_s(a: int) -> int {
    sat(-a)
}

/// Saturating fixed-point product: the exact product, rescaled by the
/// fixed-point scale with a floor division.
pub open spec fn mul_s(a: int, b: int) -> int {
    sat((a * b) / (FRAC as int))
}

/// Saturating fixed-point quotient. A zero divisor saturates by the sign of
/// the dividend, mirroring the way an infinite float quotient behaves under
/// the clamps that consume it.
pub open spec fn div_s(a: int, b: int) -> int {
    if b == 0 {
        if a > 0 {
            MAX_RAW as int
        } else if a < 0 {
            -(MAX_RAW as int)
        } else {
            0
        }
    } else if b > 0 {
        sat((a * (FRAC as int)) / b)
    } else {
        sat(-((a * (FRAC as int)) / (-b)))
    }
}

pub open spec fn min_s(a: int, b: int) -> int {
    if a <= b {
        a
    } else {
        b
    }
}

pub open spec fn max_s(a: int, b: int) -> int {
    if a >= b {
        a
    } else {
        b
    }
}

pub open spec fn abs_s(a: int) -> int {
    if a >= 0 {
        a
    } else {
        neg_s(a)
    }
}

/// Clamp into `[lo, hi]`: first raise to `lo`, then lower to `hi`, exactly
/// as the executable clamp composes `max` and `min`.
pub open spec fn clamp_s(x: int, lo: int, hi: int) -> int {
    min_s(max_s(x, lo), hi)
}

/// Linear interpolation, with the first argument as the blend weight:
/// `start * (1 - t) + end * t`, in the domain's own arithmetic.
pub open spec fn mix_s(t: int, start: int, end: int) -> int {
    add_s(mul_s(start, sub_s(FRAC as int, t)), mul_s(end, t))
}

/// `r` is the integer square root of `n`.
pub open spec fn is_sqrt_of(n: int, r: int) -> bool {
    0 <= r && r * r <= n && n < (r + 1) * (r + 1)
}

/// The integer square root of a nonnegative integer.
pub open spec fn isqrt_s(n: int) -> int {
    choose|r: int| is_sqrt_of(n, r)
}

/// Fixed-point square root of a nonnegative raw value: the integer square
/// root of the raw value lifted back to the fixed-point scale.
pub open spec fn sqrt_s(a: int) -> int {
    isqrt_s(a * (FRAC as int))
}

/// Range reduction for the trigonometric approximation: the representative
/// of `x` in `[-pi, pi)`, as a raw value.
pub open spec fn sin_reduce_s(x: int) -> int {
    (x + PI_RAW as int) % (TWO_PI_RAW as int) - PI_RAW as int
}

/// The parabolic sine approximation on a reduced argument `r`:
/// `(4/pi) * r - (4/pi^2) * r * |r|`, evaluated in raw fixed point.
pub open spec fn sin_parabola_s(r: int) -> int {
    let linear = FOUR_OVER_PI_RAW as int * r;
    let quad = (FOUR_OVER_PI2_RAW as int * r * (if r >= 0 { r } else { -r })) / (FRAC as int);
    (linear - quad) / (FRAC as int)
}

/// Fixed-point sine: range-reduce, apply the parabolic approximation, and
/// clamp into `[-1, 1]`. An approximation by design; its exact value is this
/// formula, and every contract that needs only a bound uses `[-1, 1]`.
pub open spec fn sin_s(x: int) -> int {
    let y = sin_parabola_s(sin_reduce_s(x));
    if y > FRAC as int {
        FRAC as int
    } else if y < -(FRAC as int) {
        -(FRAC as int)
    } else {
        y
    }
}

/// Fixed-point cosine, as the sine shifted a quarter turn.
pub open spec fn cos_s(x: int) -> int {
    sin_s(x + HALF_PI_RAW as int)
}

/// A single scalar value of the fixed-point domain.
#[derive(Clone, Copy, PartialEq, Eq, Structural, Debug)]
pub struct Fixed {
    pub raw: i64,
}

impl View for Fixed {
    type V = int;

    open spec fn view(&self) -> int {
        self.raw as int
    }
}

/// The product of two values is bounded by the product of their bounds.
pub proof fn lemma_mul_le_bound(a: int, b: int, ma: int, mb: int)
    requires
        -ma <= a <= ma,
        -mb <= b <= mb,
        0 <= ma,
        0 <= mb,
    ensures
        -(ma * mb) <= a * b <= ma * mb,
{
    assert(-(ma * mb) <= a * b <= ma * mb) by (nonlinear_arith)
        requires
            -ma <= a <= ma,
            -mb <= b <= mb,
            0 <= ma,
            0 <= mb,
    ;
}

/// The product of two raw `i64` values fits comfortably in an `i128`.
pub proof fn lemma_i64_product_fits(a: int, b: int)
    requires
        i64::MIN as int <= a <= i64::MAX as int,
        i64::MIN as int <= b <= i64::MAX as int,
    ensures
        -0x40000000000000000000000000000000 <= a * b <= 0x40000000000000000000000000000000,
{
    lemma_mul_le_bound(a, b, 0x8000_0000_0000_0000, 0x8000_0000_0000_0000);
    assert(0x8000_0000_0000_0000 * 0x8000_0000_0000_0000
        == 0x40000000000000000000000000000000) by (nonlinear_arith);
}

/// Saturate an intermediate wide result back into a raw scalar.
fn sat_exec(x: i128) -> (r: i64)
    ensures
        r as int == sat(x as int),
{
    if x > MAX_RAW as i128 {
        MAX_RAW
    } else if x < -(MAX_RAW as i128) {
        -MAX_RAW
    } else {
        x as i64
    }
}

/// A quotient by a positive divisor lies between zero and the dividend.
pub proof fn lemma_div_bounds(a: int, b: int)
    requires
        b >= 1,
    ensures
        a >= 0 ==> 0 <= a / b <= a,
        a <= 0 ==> a <= a / b <= 0,
{
    vstd::arithmetic::div_mod::lemma_fundamental_div_mod(a, b);
    vstd::arithmetic::div_mod::lemma_mod_bound(a, b);
    let q = a / b;
    let r = a % b;
    assert((a >= 0 ==> 0 <= q <= a) && (a <= 0 ==> a <= q <= 0)) by (nonlinear_arith)
        requires
            a == b * q + r,
            0 <= r < b,
            b >= 1,
    ;
}

/// Floor division of a wide value by a positive divisor; matches the
/// spec-level Euclidean `/` on `int`.
pub(crate) fn div_wide(a: i128, b: i128) -> (r: i128)
    requires
        b >= 1,
    ensures
        r as int == a as int / b as int,
        a >= 0 ==> 0 <= r <= a,
        a <= 0 ==> a <= r <= 0,
{
    proof {
        lemma_div_bounds(a as int, b as int);
    }
    match a.checked_div_euclid(b) {
        Some(q) => q,
        None => {
            proof {
                assert(false);
            }
            0
        },
    }
}

/// Euclidean remainder of a wide value by a positive divisor; matches the
/// spec-level `%` on `int`.
pub(crate) fn rem_wide(a: i128, b: i128) -> (r: i128)
    requires
        b >= 1,
    ensures
        r as int == a as int % b as int,
        0 <= r < b,
{
    proof {
        vstd::arithmetic::div_mod::lemma_mod_bound(a as int, b as int);
    }
    match a.checked_rem_euclid(b) {
        Some(r) => r,
        None => {
            proof {
                assert(false);
            }
            0
        },
    }
}

impl Fixed {
    pub open spec fn wf(self) -> bool {
        wf_raw(self@)
    }

    /// The value zero.
    pub fn zero() -> (r: Fixed)
        ensures
            r@ == 0,
            r.wf(),
    {
        Fixed { raw: 0 }
    }

    /// The value one.
    pub fn one() -> (r: Fixed)
        ensures
            r@ == FRAC as int,
            r.wf(),
    {
        Fixed { raw: FRAC }
    }

    /// Build a scalar from a raw fixed-point value, saturating it into range.
    pub fn from_raw(raw: i64) -> (r: Fixed)
        ensures
            r@ == sat(raw as int),
            r.wf(),
    {
        Fixed { raw: sat_exec(raw as i128) }
    }

    /// Build a scalar holding the integer `v` (so `v` whole units).
    pub fn from_int(v: i64) -> (r: Fixed)
        ensures
            r@ == sat(v as int * FRAC as int),
            r.wf(),
    {
        proof {
            lemma_i64_product_fits(v as int, FRAC as int);
        }
        Fixed { raw: sat_exec(v as i128 * FRAC as i128) }
    }

    /// The raw fixed-point value.
    pub fn raw(self) -> (r: i64)
        ensures
            r as int == self@,
    {
        self.raw
    }

    pub fn add(self, rhs: Fixed) -> (r: Fixed)
        ensures
            r@ == add_s(self@, rhs@),
            r.wf(),
    {
        Fixed { raw: sat_exec(self.raw as i128 + rhs.raw as i128) }
    }

    pub fn sub(self, rhs: Fixed) -> (r: Fixed)
        ensures
            r@ == sub_s(self@, rhs@),
            r.wf(),
    {
        Fixed { raw: sat_exec(self.raw as i128 - rhs.raw as i128) }
    }

    pub fn neg(self) -> (r: Fixed)
        ensures
            r@ == neg_s(self@),
            r.wf(),
    {
        Fixed { raw: sat_exec(-(self.raw as i128)) }
    }

    pub fn mul(self, rhs: Fixed) -> (r: Fixed)
        ensures
            r@ == mul_s(self@, rhs@),
            r.wf(),
    {
        proof {
            lemma_i64_product_fits(self.raw as int, rhs.raw as int);
        }
        let wide: i128 = self.raw as i128 * rhs.raw as i128;
        Fixed { raw: sat_exec(div_wide(wide, FRAC as i128)) }
    }

    pub fn div(self, rhs: Fixed) -> (r: Fixed)
        ensures
            r@ == div_s(self@, rhs@),
            r.wf(),
    {
        if rhs.raw == 0 {
            if self.raw > 0 {
                Fixed { raw: MAX_RAW }
            } else if self.raw < 0 {
                Fixed { raw: -MAX_RAW }
            } else {
                Fixed { raw: 0 }
            }
        } else {
            proof {
                lemma_i64_product_fits(self.raw as int, FRAC as int);
            }
            let wide: i128 = self.raw as i128 * FRAC as i128;
            if rhs.raw > 0 {
                Fixed { raw: sat_exec(div_wide(wide, rhs.raw as i128)) }
            } else {
                Fixed { raw: sat_exec(-div_wide(wide, -(rhs.raw as i128))) }
            }
        }
    }

    pub fn min(self, rhs: Fixed) -> (r: Fixed)
        ensures
            r@ == min_s(self@, rhs@),
    {
        if self.raw <= rhs.raw {
            self
        } else {
            rhs
        }
    }

    pub fn max(self, rhs: Fixed) -> (r: Fixed)
        ensures
            r@ == max_s(self@, rhs@),
    {
        if self.raw >= rhs.raw {
            self
        } else {
            rhs
        }
    }

    pub fn abs(self) -> (r: Fixed)
        ensures
            r@ == abs_s(self@),
            r@ >= 0,
    {
        if self.raw >= 0 {
            self
        } else {
            self.neg()
        }
    }

    /// Clamp into `[lo, hi]`: raise to `lo` first, then lower to `hi`.
    pub fn clamp(self, lo: Fixed, hi: Fixed) -> (r: Fixed)
        ensures
            r@ == clamp_s(self@, lo@, hi@),
    {
        self.max(lo).min(hi)
    }

    /// Linear interpolation with `self` as the blend weight: at weight zero
    /// the result is `start`, at weight one it is `end`.
    pub fn mix(self, start: Fixed, end: Fixed) -> (r: Fixed)
        ensures
            r@ == mix_s(self@, start@, end@),
            r.wf(),
    {
        let one = Fixed { raw: FRAC };
        start.mul(one.sub(self)).add(end.mul(self))
    }

    /// Fixed-point square root of a nonnegative value.
    pub fn sqrt(self) -> (r: Fixed)
        requires
            self@ >= 0,
        ensures
            r@ == sqrt_s(self@),
            r@ >= 0,
            r.wf(),
    {
        proof {
            lemma_i64_product_fits(self.raw as int, FRAC as int);
        }
        let n: u128 = (self.raw as i128 * FRAC as i128) as u128;
        let root: u128 = isqrt_exec(n);
        proof {
            lemma_isqrt_unique(n as int, root as int, isqrt_s(n as int));
            assert(root * root <= n);
            assert(root < 0x10000000000u128) by {
                if root >= 0x10000000000u128 {
                    assert(root * root >= 0x10000000000u128 * 0x10000000000u128)
                        by (nonlinear_arith)
                        requires
                            root >= 0x10000000000u128,
                    ;
                }
            }
        }
        Fixed { raw: root as i64 }
    }

    /// The parabolic sine approximation; always within `[-1, 1]`.
    pub fn sin(self) -> (r: Fixed)
        ensures
            r@ == sin_s(self@),
            -(FRAC as int) <= r@ <= FRAC as int,
            r.wf(),
    {
        sin_raw(self.raw as i128)
    }

    /// Cosine as the shifted sine approximation; always within `[-1, 1]`.
    pub fn cos(self) -> (r: Fixed)
        ensures
            r@ == cos_s(self@),
            -(FRAC as int) <= r@ <= FRAC as int,
            r.wf(),
    {
        sin_raw(self.raw as i128 + HALF_PI_RAW as i128)
    }
}

/// Shared body of `sin` and `cos`, working on a widened argument.
fn sin_raw(x: i128) -> (r: Fixed)
    requires
        i64::MIN as i128 <= x,
        x <= i64::MAX as i128 + HALF_PI_RAW as i128,
    ensures
        r@ == sin_s(x as int),
        -(FRAC as int) <= r@ <= FRAC as int,
        r.wf(),
{
    let shifted: i128 = x + PI_RAW as i128;
    proof {
        vstd::arithmetic::div_mod::lemma_mod_bound(shifted as int, TWO_PI_RAW as int);
    }
    let m: i128 = match shifted.checked_rem_euclid(TWO_PI_RAW as i128) {
        Some(m) => m,
        None => {
            proof {
                assert(false);
            }
            0
        },
    };
    let red: i128 = m - PI_RAW as i128;
    assert(red == sin_reduce_s(x as int));
    assert(-(PI_RAW as i128) <= red && red < PI_RAW as i128) by {
        vstd::arithmetic::div_mod::lemma_mod_bound(
            shifted as int,
            TWO_PI_RAW as int,
        );
    }
    proof {
        lemma_mul_le_bound(FOUR_OVER_PI_RAW as int, red as int, FOUR_OVER_PI_RAW as int, PI_RAW as int);
    }
    let linear: i128 = FOUR_OVER_PI_RAW as i128 * red;
    let red_abs: i128 = if red >= 0 {
        red
    } else {
        -red
    };
    proof {
        lemma_mul_le_bound(FOUR_OVER_PI2_RAW as int, red as int, FOUR_OVER_PI2_RAW as int, PI_RAW as int);
        lemma_mul_le_bound(
            FOUR_OVER_PI2_RAW as int * red as int,
            red_abs as int,
            FOUR_OVER_PI2_RAW as int * PI_RAW as int,
            PI_RAW as int,
        );
    }
    let quad: i128 = div_wide(FOUR_OVER_PI2_RAW as i128 * red * red_abs, FRAC as i128);
    let y: i128 = div_wide(linear - quad, FRAC as i128);
    proof {
        assert(FOUR_OVER_PI2_RAW as i128 * red * red_abs
            == FOUR_OVER_PI2_RAW as int * (red as int) * (red_abs as int)) by (nonlinear_arith)
            requires
                -(PI_RAW as i128) <= red < PI_RAW as i128,
                red_abs as int == (if red as int >= 0 { red as int } else { -(red as int) }),
        ;
    }
    let clamped: i64 = if y > FRAC as i128 {
        FRAC
    } else if y < -(FRAC as i128) {
        -FRAC
    } else {
        y as i64
    };
    Fixed { raw: clamped }
}

/// Integer square root by binary search.
fn isqrt_exec(n: u128) -> (r: u128)
    requires
        n < 0x100000000000000000000u128,
    ensures
        is_sqrt_of(n as int, r as int),
{
    let mut lo: u128 = 0;
    let mut hi: u128 = 0x10000000000u128;
    proof {
        assert(0x10000000000 * 0x10000000000 == 0x100000000000000000000) by (nonlinear_arith);
    }
    while hi - lo > 1
        invariant
            lo < hi,
            n < 0x100000000000000000000u128,
            hi <= 0x10000000000u128,
            lo * lo <= n,
            n < hi * hi,
        decreases hi - lo,
    {
        let mid: u128 = lo + (hi - lo) / 2;
        proof {
            vstd::arithmetic::div_mod::lemma_div_nonincreasing((hi - lo) as int, 2);
            vstd::arithmetic::div_mod::lemma_div_pos_is_pos((hi - lo) as int, 2);
            vstd::arithmetic::div_mod::lemma_div_decreases((hi - lo) as int, 2);
            lemma_mul_le_bound(mid as int, mid as int, 0x10000000000, 0x10000000000);
            assert(0x10000000000 * 0x10000000000 == 0x100000000000000000000)
                by (nonlinear_arith);
        }
        let sq: u128 = mid * mid;
        if sq <= n {
            lo = mid;
        } else {
            hi = mid;
        }
    }
    lo
}

/// The integer square root is unique: two roots of the same value are equal.
pub proof fn lemma_isqrt_unique(n: int, r1: int, r2: int)
    requires
        is_sqrt_of(n, r1),
        is_sqrt_of(n, r2),
    ensures
        r1 == r2,
{
    if r1 < r2 {
        assert((r1 + 1) * (r1 + 1) <= r2 * r2) by (nonlinear_arith)
            requires
                0 <= r1,
                r1 < r2,
        ;
    }
    if r2 < r1 {
        assert((r2 + 1) * (r2 + 1) <= r1 * r1) by (nonlinear_arith)
            requires
                0 <= r2,
                r2 < r1,
        ;
    }
}



/// The integer square root is monotone.
pub proof fn lemma_isqrt_monotone(n1: int, n2: int, r1: int, r2: int)
    requires
        is_sqrt_of(n1, r1),
        is_sqrt_of(n2, r2),
        n1 <= n2,
    ensures
        r1 <= r2,
{
    if r2 < r1 {
        assert((r2 + 1) * (r2 + 1) <= r1 * r1) by (nonlinear_arith)
            requires
                0 <= r2,
                r2 < r1,
        ;
    }
}

/// Blending at weight zero returns the start value exactly.
pub proof fn lemma_mix_at_zero(a: int, b: int)
    requires
        wf_raw(a),
        wf_raw(b),
    ensures
        mix_s(0, a, b) == a,
{
    vstd::arithmetic::div_mod::lemma_div_multiples_vanish(a, FRAC as int);
    vstd::arithmetic::div_mod::lemma_div_multiples_vanish(0, FRAC as int);
    assert(b * 0 == 0);
    assert(a * (FRAC as int) / (FRAC as int) == a);
}

/// Blending at weight one returns the end value exactly.
pub proof fn lemma_mix_at_one(a: int, b: int)
    requires
        wf_raw(a),
        wf_raw(b),
    ensures
        mix_s(FRAC as int, a, b) == b,
{
    vstd::arithmetic::div_mod::lemma_div_multiples_vanish(b, FRAC as int);
    vstd::arithmetic::div_mod::lemma_div_multiples_vanish(0, FRAC as int);
    assert(a * 0 == 0);
    assert(b * (FRAC as int) / (FRAC as int) == b);
}

} // verus!
