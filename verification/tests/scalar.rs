use raytracer::arith::{div_floor, div_trunc, isqrt};
use raytracer::scalar::{scaled_quotient, wide_mul, Scalar, RANGE_MAX, SCALE};

fn fx(x: f64) -> Scalar {
    Scalar::from_raw((x * 65536.0).round() as i64)
}

#[test]
fn scale_is_sixteen_fractional_bits() {
    assert_eq!(SCALE, 1 << 16);
    assert_eq!(RANGE_MAX, 1 << 30);
    assert_eq!(Scalar::one().raw(), 65536);
    assert_eq!(Scalar::zero().raw(), 0);
    assert_eq!(Scalar::range_max().raw(), 1 << 30);
}

#[test]
fn from_int_scales() {
    assert_eq!(Scalar::from_int(5).raw(), 5 * 65536);
    assert_eq!(Scalar::from_int(-1).raw(), -65536);
    assert_eq!(Scalar::from_int(i32::MAX).raw(), (i32::MAX as i64) << 16);
    assert_eq!(Scalar::from_int(i32::MIN).raw(), (i32::MIN as i64) << 16);
}

#[test]
fn from_ratio_rounds_toward_zero() {
    assert_eq!(Scalar::from_ratio(1, 2), fx(0.5));
    assert_eq!(Scalar::from_ratio(7, 10).raw(), 45875);
    assert_eq!(Scalar::from_ratio(-7, 10).raw(), -45875);
    assert_eq!(Scalar::from_ratio(7, -10).raw(), -45875);
    assert_eq!(Scalar::from_ratio(-7, -10).raw(), 45875);
    assert_eq!(Scalar::from_ratio(0, -3).raw(), 0);
    assert_eq!(Scalar::from_ratio(i32::MIN, 1).raw(), (i32::MIN as i64) << 16);
    assert_eq!(Scalar::from_ratio(i32::MIN, -1).raw(), 1i64 << 47);
    assert_eq!(Scalar::from_ratio(16, 9).raw(), 116508);
}

#[test]
fn add_sub_neg_are_exact() {
    assert_eq!(fx(1.5) + fx(2.25), fx(3.75));
    assert_eq!(fx(1.5) - fx(2.25), fx(-0.75));
    assert_eq!(-fx(2.25), fx(-2.25));
    assert_eq!(Scalar::from_raw(i64::MAX - 1) + Scalar::from_raw(1), Scalar::from_raw(i64::MAX));
}

#[test]
fn mul_rounds_toward_zero() {
    assert_eq!(fx(1.5) * fx(2.0), fx(3.0));
    assert_eq!(fx(0.5) * fx(0.5), fx(0.25));
    // one raw step times one half is half a step: to zero from either side
    assert_eq!(Scalar::from_raw(1) * fx(0.5), Scalar::from_raw(0));
    assert_eq!(Scalar::from_raw(-1) * fx(0.5), Scalar::from_raw(0));
    assert_eq!(Scalar::from_raw(3) * fx(-0.5), Scalar::from_raw(-1));
    assert_eq!(Scalar::from_raw(3) * fx(0.5), Scalar::from_raw(1));
    assert_eq!(fx(-3.0) * fx(-2.0), fx(6.0));
}

#[test]
fn sign_passes_through_products_and_quotients() {
    let values = [1i64, 2, 3, 7, 1000, 65535, 65537, 99999, 123456789];
    for a in values.iter() {
        for b in values.iter() {
            let (x, y) = (Scalar::from_raw(*a), Scalar::from_raw(*b));
            assert_eq!((-x) * y, -(x * y));
            assert_eq!(x * (-y), -(x * y));
            assert_eq!((-x) * (-y), x * y);
            assert_eq!((-x) / y, -(x / y));
            assert_eq!(x / (-y), -(x / y));
            assert_eq!((-x) / (-y), x / y);
            assert_eq!(x * y, y * x);
        }
    }
}

#[test]
fn mul_of_large_factors() {
    let a = Scalar::from_raw(1 << 39);
    assert_eq!((a * a).raw(), 1i64 << 62);
    let m = Scalar::from_raw(i64::MIN);
    assert_eq!((m * Scalar::from_raw(1)).raw(), -(1i64 << 47));
}

#[test]
fn div_rounds_toward_zero() {
    assert_eq!(fx(3.0) / fx(2.0), fx(1.5));
    assert_eq!(fx(1.0) / fx(3.0), Scalar::from_raw(21845));
    assert_eq!(fx(-1.0) / fx(3.0), Scalar::from_raw(-21845));
    assert_eq!(fx(1.0) / fx(-3.0), Scalar::from_raw(-21845));
    assert_eq!(fx(-1.0) / fx(-3.0), Scalar::from_raw(21845));
    assert_eq!(fx(0.0) / fx(-3.0), fx(0.0));
}

#[test]
fn sqrt_rounds_down() {
    assert_eq!(fx(4.0).sqrt(), fx(2.0));
    assert_eq!(fx(0.0).sqrt(), fx(0.0));
    assert_eq!(fx(0.25).sqrt(), fx(0.5));
    // sqrt(2) = 1.41421356..., times 65536 = 92681.9
    assert_eq!(fx(2.0).sqrt(), Scalar::from_raw(92681));
    assert_eq!(Scalar::from_raw(1).sqrt(), Scalar::from_raw(256));
    assert_eq!(Scalar::from_raw(i64::MAX).sqrt(), Scalar::from_raw(777472127993));
}

#[test]
fn range_test() {
    assert!(Scalar::from_raw(RANGE_MAX).is_in_range());
    assert!(Scalar::from_raw(-RANGE_MAX).is_in_range());
    assert!(!Scalar::from_raw(RANGE_MAX + 1).is_in_range());
    assert!(!Scalar::from_raw(-RANGE_MAX - 1).is_in_range());
    assert!(Scalar::zero().is_in_range());
}

#[test]
fn div_floor_rounds_toward_negative_infinity() {
    assert_eq!(div_floor(7, 2), 3);
    assert_eq!(div_floor(-7, 2), -4);
    assert_eq!(div_floor(-8, 2), -4);
    assert_eq!(div_floor(0, 5), 0);
    assert_eq!(div_floor(-1, 65536), -1);
    assert_eq!(div_floor(i128::MIN, 1), i128::MIN);
    assert_eq!(div_floor(i128::MAX, i128::MAX), 1);
}

#[test]
fn div_trunc_rounds_toward_zero() {
    assert_eq!(div_trunc(7, 2), 3);
    assert_eq!(div_trunc(-7, 2), -3);
    assert_eq!(div_trunc(-8, 2), -4);
    assert_eq!(div_trunc(0, 5), 0);
    assert_eq!(div_trunc(-1, 65536), 0);
    assert_eq!(div_trunc(1, 65536), 0);
    assert_eq!(div_trunc(i128::MIN + 1, 1), i128::MIN + 1);
    assert_eq!(div_trunc(i128::MAX, i128::MAX), 1);
}

#[test]
fn isqrt_is_the_floor_of_the_root() {
    assert_eq!(isqrt(0), 0);
    assert_eq!(isqrt(1), 1);
    assert_eq!(isqrt(3), 1);
    assert_eq!(isqrt(4), 2);
    assert_eq!(isqrt(99), 9);
    assert_eq!(isqrt(100), 10);
    assert_eq!(isqrt(u128::MAX), u64::MAX);
    assert_eq!(isqrt((1u128 << 64) - 1), (1u64 << 32) - 1);
    assert_eq!(isqrt(1u128 << 64), 1u64 << 32);
    let mut n: u128 = 0;
    while n < 2000 {
        let s = isqrt(n) as u128;
        assert!(s * s <= n && n < (s + 1) * (s + 1));
        n += 1;
    }
}

#[test]
fn wide_mul_is_exact() {
    assert_eq!(wide_mul(i64::MIN, i64::MIN), 1i128 << 126);
    assert_eq!(wide_mul(i64::MIN, i64::MAX), -(1i128 << 126) + (1i128 << 63));
    assert_eq!(wide_mul(-3, 7), -21);
}

#[test]
fn scaled_quotient_handles_both_signs() {
    assert_eq!(scaled_quotient(1, 3), 21845);
    assert_eq!(scaled_quotient(-1, 3), -21845);
    assert_eq!(scaled_quotient(1, -3), -21845);
    assert_eq!(scaled_quotient(-1, -3), 21845);
}
