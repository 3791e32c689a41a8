use sdf_csg::fixed::{Fixed, FRAC, MAX_RAW};
use sdf_csg::interval::{interval, Interval};
use sdf_csg::affine::{Affine, Choice};

#[test]
fn interval_bounds() {
    // x * (10 - x) over [4, 6]: plain intervals lose the correlation
    // between the two occurrences of x, so the bound is loose.
    let iv = interval(Fixed::from_int(4), Fixed::from_int(6));
    let ten = Fixed::from_int(10);
    let f1 = iv.mul(Interval::scalar_sub(ten, iv));
    assert_eq!(f1, interval(Fixed::from_int(16), Fixed::from_int(36)));

    // x * 10 - x * x over [4, 6].
    let f2 = iv.mul_scalar(ten).sub(iv.mul(iv));
    assert_eq!(f2, interval(Fixed::from_int(4), Fixed::from_int(44)));
}

#[test]
fn affine_bounds() {
    // The affine form keeps the correlation, so both phrasings of the
    // same polynomial reach the classical AF1 bound [24, 26]; each
    // multiplication's error term additionally absorbs one raw unit
    // (1/65536) for the floor the scalar domain applies to enclosed
    // products, which no sound symmetric form can drop.
    let iv = interval(Fixed::from_int(4), Fixed::from_int(6));
    let ten = Fixed::from_int(10);
    let x = Affine::from_interval(iv);

    let f1 = x.mul(Affine::scalar_sub(ten, x)).into_interval();
    assert_eq!(f1.low.raw(), 24 * FRAC - 1);
    assert_eq!(f1.high.raw(), 26 * FRAC + 1);

    let f2 = x.mul_scalar(ten).sub(x.mul(x)).into_interval();
    assert_eq!(f2.low.raw(), 24 * FRAC - 2);
    assert_eq!(f2.high.raw(), 26 * FRAC + 2);

    // The affine bounds are never wider than the interval bounds for the
    // same expression.
    let i1 = iv.mul(Interval::scalar_sub(ten, iv));
    let i2 = iv.mul_scalar(ten).sub(iv.mul(iv));
    assert!(i1.low.raw() <= f1.low.raw() && f1.high.raw() <= i1.high.raw());
    assert!(i2.low.raw() <= f2.low.raw() && f2.high.raw() <= i2.high.raw());
}

#[test]
fn interval_division_encloses_quotients() {
    // [1, 4] / [2, 2] = [0.5, 2].
    let num = interval(Fixed::from_int(1), Fixed::from_int(4));
    let den = Interval::exact(Fixed::from_int(2));
    let q = num.div(den);
    assert_eq!(q.low.raw(), FRAC / 2);
    assert_eq!(q.high.raw(), 2 * FRAC);
}

#[test]
fn scalar_division_saturates_on_zero() {
    let one = Fixed::from_int(1);
    assert_eq!(one.div(Fixed::zero()).raw(), MAX_RAW);
    assert_eq!(one.neg().div(Fixed::zero()).raw(), -MAX_RAW);
    assert_eq!(Fixed::zero().div(Fixed::zero()).raw(), 0);
}

#[test]
fn sqrt_is_exact_on_squares() {
    assert_eq!(Fixed::from_int(25).sqrt().raw(), 5 * FRAC);
    assert_eq!(Fixed::from_int(0).sqrt().raw(), 0);
    assert_eq!(Fixed::from_int(2).sqrt().raw(), 92681); // sqrt(2) in fixed point
}

#[test]
fn trig_stays_within_unit_bounds() {
    assert_eq!(Fixed::zero().sin().raw(), 0);
    assert_eq!(Fixed::zero().cos().raw(), 65535);
    let mut x: i64 = -500000;
    while x < 500000 {
        let v = Fixed::from_raw(x);
        assert!(v.sin().raw().abs() <= FRAC);
        assert!(v.cos().raw().abs() <= FRAC);
        x += 37011;
    }
}

#[test]
fn mix_identities() {
    // mix at weight zero returns the start value, at weight one the end.
    let a = Fixed::from_raw(12345);
    let b = Fixed::from_raw(-54321);
    assert_eq!(Fixed::zero().mix(a, b), a);
    assert_eq!(Fixed::one().mix(a, b), b);
}

#[test]
fn choice_reports_dominance() {
    // Disjoint ranges select one side exactly; overlapping ranges merge.
    let lo = Affine::from_interval(interval(Fixed::from_int(1), Fixed::from_int(2)));
    let hi = Affine::from_interval(interval(Fixed::from_int(5), Fixed::from_int(6)));
    let mid = Affine::from_interval(interval(Fixed::from_int(2), Fixed::from_int(5)));

    let (r, c) = lo.min_choice(hi);
    assert_eq!(c, Choice::Left);
    assert_eq!(r, lo);
    let (r, c) = hi.min_choice(lo);
    assert_eq!(c, Choice::Right);
    assert_eq!(r, lo);
    let (_, c) = lo.min_choice(mid);
    assert_eq!(c, Choice::Both);

    let (r, c) = lo.max_choice(hi);
    assert_eq!(c, Choice::Right);
    assert_eq!(r, hi);
    let (r, c) = hi.max_choice(lo);
    assert_eq!(c, Choice::Left);
    assert_eq!(r, hi);
    let (_, c) = mid.max_choice(hi);
    assert_eq!(c, Choice::Both);
}

#[test]
fn affine_division_encloses_quotients() {
    // [1, 4] / [2, 2] covers [0.5, 2]; correlation is dropped by design.
    let num = Affine::from_interval(interval(Fixed::from_int(1), Fixed::from_int(4)));
    let den = Affine::new(Fixed::from_int(2));
    let q = num.div(den).into_interval();
    assert_eq!(q.low.raw(), FRAC / 2);
    assert_eq!(q.high.raw(), 2 * FRAC);
}

#[test]
fn affine_constant_is_exact() {
    let k = Affine::new(Fixed::from_int(3));
    let iv = k.into_interval();
    assert_eq!(iv.low.raw(), 3 * FRAC);
    assert_eq!(iv.high.raw(), 3 * FRAC);
}
