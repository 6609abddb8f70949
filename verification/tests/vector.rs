use raytracer::scalar::Scalar;
use raytracer::vec::{
    cross, dot, dot_exact, dot_is_negative, fx_dot_wide, norm_squared_wide, unit_vector, Vec3,
};

fn fx(x: f64) -> Scalar {
    Scalar::from_raw((x * 65536.0).round() as i64)
}

fn v(x: f64, y: f64, z: f64) -> Vec3 {
    Vec3::new(fx(x), fx(y), fx(z))
}

fn raw(x: i64, y: i64, z: i64) -> Vec3 {
    Vec3(Scalar::from_raw(x), Scalar::from_raw(y), Scalar::from_raw(z))
}

#[test]
fn components() {
    let a = v(1.0, -2.0, 3.5);
    assert_eq!(a.x(), fx(1.0));
    assert_eq!(a.y(), fx(-2.0));
    assert_eq!(a.z(), fx(3.5));
    assert_eq!(a, Vec3(fx(1.0), fx(-2.0), fx(3.5)));
}

#[test]
fn add_sub_neg() {
    let a = v(1.0, 2.0, 3.0);
    let b = v(0.5, -4.0, 10.0);
    assert_eq!(a + b, v(1.5, -2.0, 13.0));
    assert_eq!(a - b, v(0.5, 6.0, -7.0));
    assert_eq!(-a, v(-1.0, -2.0, -3.0));
}

#[test]
fn add_commutes_and_associates() {
    let a = raw(17, -3, 900);
    let b = raw(-5, 44, 1);
    let c = raw(7, 7, -70000);
    assert_eq!(a + b, b + a);
    assert_eq!((a + b) + c, a + (b + c));
}

#[test]
fn scalar_multiples() {
    let a = v(1.0, -2.0, 3.0);
    assert_eq!(a * fx(2.5), v(2.5, -5.0, 7.5));
    assert_eq!(fx(2.5) * a, v(2.5, -5.0, 7.5));
    assert_eq!(a / fx(2.0), v(0.5, -1.0, 1.5));
    // rounding is toward zero on each component
    assert_eq!(raw(1, -1, 3) * fx(0.5), raw(0, 0, 1));
    assert_eq!(raw(1, -1, 3) / fx(2.0), raw(0, 0, 1));
    assert_eq!(raw(1, -1, -3) * fx(-0.5), raw(0, 0, 1));
}

#[test]
fn componentwise_product() {
    assert_eq!(v(1.0, 2.0, 3.0) * v(0.5, 0.25, -2.0), v(0.5, 0.5, -6.0));
}

#[test]
fn in_place_forms() {
    let mut a = v(1.0, 2.0, 3.0);
    a.add_assign(v(1.0, 1.0, 1.0));
    assert_eq!(a, v(2.0, 3.0, 4.0));
    a.sub_assign(v(0.5, 0.5, 0.5));
    assert_eq!(a, v(1.5, 2.5, 3.5));
    a.mul_assign(fx(2.0));
    assert_eq!(a, v(3.0, 5.0, 7.0));
    a.div_assign(fx(4.0));
    assert_eq!(a, v(0.75, 1.25, 1.75));
}

#[test]
fn dot_product() {
    let a = v(1.0, 2.0, 3.0);
    let b = v(4.0, -5.0, 6.0);
    assert_eq!(dot(&a, &b), fx(12.0));
    assert_eq!(a.dot(&b), fx(12.0));
    assert_eq!(dot(&a, &b), dot(&b, &a));
    assert_eq!(dot_exact(&a, &b), 12 * 65536 * 65536);
}

#[test]
fn dot_product_rounds_once() {
    // three products of half a raw step each: 1.5 steps in all, rounded to 1
    let a = raw(1, 1, 1);
    let b = raw(32768, 32768, 32768);
    assert_eq!(dot(&a, &b), Scalar::from_raw(1));
    // and -1.5 steps round to -1
    assert_eq!(dot(&(-a), &b), Scalar::from_raw(-1));
    assert_eq!(dot(&a, &(-b)), Scalar::from_raw(-1));
}

#[test]
fn sign_of_the_exact_dot_product() {
    let a = raw(1, 0, 0);
    assert!(dot_is_negative(&a, &raw(-1, 0, 0)));
    assert!(!dot_is_negative(&a, &raw(0, 5, 5)));
    assert!(!dot_is_negative(&a, &raw(1, 0, 0)));
    // the rounded dot product is zero here, the exact one is not
    assert_eq!(fx_dot_wide(&a, &raw(-1, 0, 0)), 0);
    let m = raw(i64::MIN, i64::MIN, i64::MIN);
    let n = raw(i64::MAX, i64::MAX, i64::MAX);
    assert!(dot_is_negative(&m, &n));
    assert!(!dot_is_negative(&m, &m));
}

#[test]
fn exact_dot_product_of_large_vectors() {
    let big = 1i64 << 62;
    let a = raw(big, -big, big);
    let b = raw(big, big, big);
    assert_eq!(dot_exact(&a, &a), 3 * (1i128 << 124));
    assert_eq!(dot_exact(&a, &b), 1i128 << 124);
    assert_eq!(dot_exact(&a, &(-b)), -(1i128 << 124));
}

#[test]
fn wide_dot_product_takes_any_vectors() {
    let m = raw(i64::MIN, i64::MIN, i64::MIN);
    assert_eq!(fx_dot_wide(&m, &m), 3 * (1i128 << 110));
    let n = raw(i64::MAX, i64::MAX, i64::MAX);
    assert!(fx_dot_wide(&m, &n) < 0);
    assert_eq!(fx_dot_wide(&m, &n), -fx_dot_wide(&(-n), &m));
    assert_eq!(norm_squared_wide(&m), 3 * (1u128 << 126));
}

#[test]
fn cross_product() {
    let x = v(1.0, 0.0, 0.0);
    let y = v(0.0, 1.0, 0.0);
    let z = v(0.0, 0.0, 1.0);
    assert_eq!(cross(&x, &y), z);
    assert_eq!(cross(&y, &z), x);
    assert_eq!(cross(&z, &x), y);
    assert_eq!(cross(&y, &x), -z);
    assert_eq!(x.cross(&y), z);
    let a = v(1.0, 2.0, 3.0);
    let b = v(4.0, 5.0, 6.0);
    assert_eq!(cross(&a, &b), v(-3.0, 6.0, -3.0));
}

#[test]
fn cross_product_is_antisymmetric() {
    // exact components of one raw step squared: rounded to zero both ways
    let u = raw(0, 1, 0);
    let w = raw(0, 0, 1);
    assert_eq!(cross(&u, &w), raw(0, 0, 0));
    assert_eq!(cross(&w, &u), raw(0, 0, 0));
    let values = [raw(1, 2, 3), raw(-70000, 3, 99), raw(65535, -65537, 12345), raw(7, 7, -7)];
    for a in values.iter() {
        for b in values.iter() {
            assert_eq!(cross(a, b), -cross(b, a));
        }
        assert_eq!(cross(a, a), raw(0, 0, 0));
    }
    assert_eq!(cross(&raw(300, 0, 0), &raw(0, 300, 0)), raw(0, 0, 1));
    assert_eq!(cross(&raw(0, 300, 0), &raw(300, 0, 0)), raw(0, 0, -1));
}

#[test]
fn length_and_squared_length() {
    let a = v(3.0, 4.0, 0.0);
    assert_eq!(a.length(), fx(5.0));
    assert_eq!(a.length_squared(), fx(25.0));
    let b = v(1.0, 1.0, 1.0);
    assert_eq!(b.length_squared(), fx(3.0));
    // sqrt(3) * 65536 = 113511.68
    assert_eq!(b.length(), Scalar::from_raw(113511));
    assert_eq!(v(0.0, 0.0, 0.0).length(), fx(0.0));
}

#[test]
fn unit_vectors() {
    assert_eq!(unit_vector(&v(0.0, 0.0, -7.0)), v(0.0, 0.0, -1.0));
    assert_eq!(v(3.0, 4.0, 0.0).unit(), raw(39321, 52428, 0));
    assert_eq!(v(-3.0, 4.0, 0.0).unit(), raw(-39321, 52428, 0));
    assert_eq!(v(-3.0, -4.0, 0.0).unit(), raw(-39321, -52428, 0));
}

#[test]
fn unit_vectors_of_short_vectors() {
    // 65536 / sqrt(2) = 46340.95
    assert_eq!(unit_vector(&raw(1, 1, 0)), raw(46340, 46340, 0));
    assert_eq!(unit_vector(&raw(-1, 1, 0)), raw(-46340, 46340, 0));
    // 65536 / sqrt(3) = 37837.2
    assert_eq!(unit_vector(&raw(1, -1, 1)), raw(37837, -37837, 37837));
    assert_eq!(unit_vector(&raw(0, 0, 1)), raw(0, 0, 65536));
    assert_eq!(unit_vector(&raw(0, -3, 0)), raw(0, -65536, 0));
    // 65536 / sqrt(5) = 29308.6 and twice that, 58617.2
    assert_eq!(unit_vector(&raw(1, 2, 0)), raw(29308, 58617, 0));
}

#[test]
fn unit_vector_keeps_its_value_under_scaling() {
    let u = unit_vector(&raw(3, -4, 12));
    // (3, -4, 12) / 13 = (0.230769, -0.307692, 0.923077)
    assert_eq!(u, raw(15123, -20164, 60494));
    assert_eq!(unit_vector(&raw(3 << 20, -4 << 20, 12 << 20)), u);
    assert_eq!(unit_vector(&raw(3 << 58, -4 << 58, 12 << 58)), u);
    assert_eq!(unit_vector(&raw(-3, 4, -12)), -u);
}

#[test]
fn unit_vector_of_zero_is_zero() {
    assert_eq!(unit_vector(&v(0.0, 0.0, 0.0)), v(0.0, 0.0, 0.0));
    assert_eq!(v(0.0, 0.0, 0.0).unit(), v(0.0, 0.0, 0.0));
}

#[test]
fn unit_vector_of_extreme_vector() {
    let m = raw(i64::MIN, i64::MAX, 0);
    let u = unit_vector(&m);
    assert_eq!(u, raw(-46340, 46340, 0));
    let all = raw(i64::MIN, i64::MIN, i64::MIN);
    assert_eq!(unit_vector(&all), raw(-37837, -37837, -37837));
}

#[test]
fn range_test_of_vectors() {
    assert!(v(16384.0, -16384.0, 0.0).is_in_range());
    assert!(!raw((1 << 30) + 1, 0, 0).is_in_range());
    assert!(!raw(0, 0, -(1 << 30) - 1).is_in_range());
}
