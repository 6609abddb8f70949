//! Vectors of three fixed-point components and their algebra.

use crate::arith::{
    div_trunc, floor_div, floor_sqrt, is_floor_sqrt, isqrt, lemma_floor_div_bounds,
    lemma_floor_div_unique, lemma_floor_sqrt_exists, lemma_floor_sqrt_is, lemma_product_bounded,
    lemma_trunc_div_magnitude, lemma_trunc_div_negate, lemma_trunc_from_floor, trunc_div,
};
use crate::scalar::{
    fits, fx_div, fx_mul, in_range, wide_mul, Scalar, SCALE, SCALE_WIDE,
};
use vstd::arithmetic::power2::{lemma2_to64, lemma_pow2_unfold, pow2};
use core::ops::{Add, Div, Mul, Neg, Sub};
use vstd::prelude::*;
use vstd::std_specs::ops::{AddSpecImpl, DivSpecImpl, MulSpecImpl, NegSpecImpl, SubSpecImpl};

verus! {

/// The mathematical model of a vector: three raw integer numerators, each
/// standing for the rational number `n / SCALE`.
pub struct Vec3View {
    pub x: int,
    pub y: int,
    pub z: int,
}

impl Vec3View {
    /// The zero vector.
    pub open spec fn zero() -> Vec3View {
        Vec3View { x: 0, y: 0, z: 0 }
    }

    /// Every component can be stored as a raw value.
    pub open spec fn fits(self) -> bool {
        fits(self.x) && fits(self.y) && fits(self.z)
    }

    /// Every component lies within the range on which intersection is exact.
    pub open spec fn in_range(self) -> bool {
        in_range(self.x) && in_range(self.y) && in_range(self.z)
    }

    /// No component exceeds `m` in magnitude.
    pub open spec fn bounded(self, m: int) -> bool {
        -m <= self.x <= m && -m <= self.y <= m && -m <= self.z <= m
    }

    /// Componentwise sum.
    pub open spec fn plus(self, o: Vec3View) -> Vec3View {
        Vec3View { x: self.x + o.x, y: self.y + o.y, z: self.z + o.z }
    }

    /// Componentwise difference.
    pub open spec fn minus(self, o: Vec3View) -> Vec3View {
        Vec3View { x: self.x - o.x, y: self.y - o.y, z: self.z - o.z }
    }

    /// The opposite vector.
    pub open spec fn negated(self) -> Vec3View {
        Vec3View { x: -self.x, y: -self.y, z: -self.z }
    }

    /// Product with the scalar of raw value `k`, each component rounded
    /// toward zero.
    pub open spec fn scaled(self, k: int) -> Vec3View {
        Vec3View { x: fx_mul(self.x, k), y: fx_mul(self.y, k), z: fx_mul(self.z, k) }
    }

    /// Quotient by the scalar of raw value `k`, each component rounded toward
    /// zero.
    pub open spec fn divided(self, k: int) -> Vec3View
        recommends
            k != 0,
    {
        Vec3View { x: fx_div(self.x, k), y: fx_div(self.y, k), z: fx_div(self.z, k) }
    }

    /// Componentwise product, each component rounded toward zero.
    pub open spec fn times(self, o: Vec3View) -> Vec3View {
        Vec3View { x: fx_mul(self.x, o.x), y: fx_mul(self.y, o.y), z: fx_mul(self.z, o.z) }
    }

    /// The exact dot product of the raw components. It stands for the dot
    /// product of the two vectors times `SCALE * SCALE`.
    pub open spec fn dot(self, o: Vec3View) -> int {
        self.x * o.x + self.y * o.y + self.z * o.z
    }

    /// Raw value of the dot product: the exact value rounded toward zero
    /// once.
    pub open spec fn fx_dot(self, o: Vec3View) -> int {
        trunc_div(self.dot(o), SCALE as int)
    }

    /// Cross product, each component rounded toward zero once.
    pub open spec fn cross(self, o: Vec3View) -> Vec3View {
        Vec3View {
            x: trunc_div(self.y * o.z - self.z * o.y, SCALE as int),
            y: trunc_div(self.z * o.x - self.x * o.z, SCALE as int),
            z: trunc_div(self.x * o.y - self.y * o.x, SCALE as int),
        }
    }

    /// Raw value of the squared length.
    pub open spec fn length_squared(self) -> int {
        self.fx_dot(self)
    }

    /// Raw value of the length: the square root of the exact squared length,
    /// rounded down.
    pub open spec fn length(self) -> int {
        floor_sqrt(self.dot(self))
    }

    /// The vector divided by its exact length, each component rounded toward
    /// zero; the zero vector for the zero vector.
    pub open spec fn unit(self) -> Vec3View {
        let n = self.dot(self);
        if n == 0 {
            Vec3View::zero()
        } else {
            Vec3View {
                x: unit_component(self.x, n),
                y: unit_component(self.y, n),
                z: unit_component(self.z, n),
            }
        }
    }
}

/// Raw value of `x / sqrt(n)`, rounded toward zero, for a component `x` of a
/// vector of exact squared length `n`: the number of largest magnitude, with
/// the sign of `x`, whose square times `n` does not exceed the square of
/// `x * SCALE`.
pub open spec fn unit_component(x: int, n: int) -> int
    recommends
        n > 0,
        x * x <= n,
{
    let w = floor_sqrt(floor_div((x * x) * (SCALE * SCALE), n));
    if x < 0 {
        -w
    } else {
        w
    }
}

/// The magnitude of `x`.
pub open spec fn magnitude(x: int) -> int {
    if x < 0 {
        -x
    } else {
        x
    }
}

/// The sum of the magnitudes of the components.
pub open spec fn taxicab(v: Vec3View) -> int {
    magnitude(v.x) + magnitude(v.y) + magnitude(v.z)
}

/// A vector of three fixed-point components, used alike as a free vector, a
/// point and an RGB color.
#[derive(Clone, Copy, Debug, PartialEq, Eq, Structural)]
pub struct Vec3(pub Scalar, pub Scalar, pub Scalar);

impl View for Vec3 {
    type V = Vec3View;

    open spec fn view(&self) -> Vec3View {
        Vec3View { x: self.0@, y: self.1@, z: self.2@ }
    }
}

impl Vec3 {
    /// The vector whose raw components are those of `v`, where they fit.
    pub open spec fn from_view(v: Vec3View) -> Vec3
        recommends
            v.fits(),
    {
        Vec3(Scalar { raw: v.x as i64 }, Scalar { raw: v.y as i64 }, Scalar { raw: v.z as i64 })
    }
}

/// Addition of vectors is commutative.
pub proof fn lemma_plus_commutes(u: Vec3View, v: Vec3View)
    ensures
        u.plus(v) == v.plus(u),
{
}

/// Addition of vectors is associative.
pub proof fn lemma_plus_associates(u: Vec3View, v: Vec3View, w: Vec3View)
    ensures
        u.plus(v).plus(w) == u.plus(v.plus(w)),
{
}

/// The dot product is commutative, exactly and after rounding.
pub proof fn lemma_dot_commutes(u: Vec3View, v: Vec3View)
    ensures
        u.dot(v) == v.dot(u),
        u.fx_dot(v) == v.fx_dot(u),
{
    assert(u.x * v.x == v.x * u.x && u.y * v.y == v.y * u.y && u.z * v.z == v.z * u.z)
        by (nonlinear_arith);
}

/// The exact squared length of the raw components; it fits in 128 bits
/// whatever the vector.
pub fn norm_squared_wide(v: &Vec3) -> (n: u128)
    ensures
        n == v@.dot(v@),
{
    let px: i128 = wide_mul(v.0.raw, v.0.raw);
    let py: i128 = wide_mul(v.1.raw, v.1.raw);
    let pz: i128 = wide_mul(v.2.raw, v.2.raw);
    assert(px >= 0 && py >= 0 && pz >= 0) by (nonlinear_arith)
        requires
            px == v.0.raw * v.0.raw,
            py == v.1.raw * v.1.raw,
            pz == v.2.raw * v.2.raw,
    ;
    (px as u128) + (py as u128) + (pz as u128)
}

/// The exact dot product, rounded down to a multiple of `SCALE`, and what
/// is left: the quotient and the remainder. They are defined whatever the two
/// vectors, though the exact dot product may not fit in 128 bits.
fn dot_parts(u: &Vec3, v: &Vec3) -> (parts: (i128, i128))
    ensures
        u@.dot(v@) == parts.0 * SCALE + parts.1,
        0 <= parts.1 < SCALE,
        -0x1_0000_0000_0000_0000_0000_0000_0000 <= parts.0 <= 0x1_0000_0000_0000_0000_0000_0000_0000,
{
    let px: i128 = wide_mul(u.0.raw, v.0.raw);
    let py: i128 = wide_mul(u.1.raw, v.1.raw);
    let pz: i128 = wide_mul(u.2.raw, v.2.raw);
    let hx: i128 = crate::arith::div_floor(px, SCALE_WIDE);
    let hy: i128 = crate::arith::div_floor(py, SCALE_WIDE);
    let hz: i128 = crate::arith::div_floor(pz, SCALE_WIDE);
    proof {
        lemma_floor_div_bounds(px as int, SCALE as int);
        lemma_floor_div_bounds(py as int, SCALE as int);
        lemma_floor_div_bounds(pz as int, SCALE as int);
    }
    let lx: i128 = px - hx * SCALE_WIDE;
    let ly: i128 = py - hy * SCALE_WIDE;
    let lz: i128 = pz - hz * SCALE_WIDE;
    let l: i128 = lx + ly + lz;
    (hx + hy + hz + l / SCALE_WIDE, l % SCALE_WIDE)
}

/// The dot product rounded toward zero once, in 128 bits; it is defined
/// whatever the two vectors.
pub fn fx_dot_wide(u: &Vec3, v: &Vec3) -> (d: i128)
    ensures
        d == u@.fx_dot(v@),
{
    let (f, rho) = dot_parts(u, v);
    proof {
        lemma_trunc_from_floor(u@.dot(v@), SCALE as int, f as int, rho as int);
    }
    if f < 0 && rho != 0 {
        f + 1
    } else {
        f
    }
}

/// Whether the exact dot product is negative; it is decided whatever the two
/// vectors.
pub fn dot_is_negative(u: &Vec3, v: &Vec3) -> (b: bool)
    ensures
        b == (u@.dot(v@) < 0),
{
    let (f, _rho) = dot_parts(u, v);
    f < 0
}

/// A dot product is at most three times the product of the bounds of its
/// arguments' components.
pub proof fn lemma_dot_bounded(u: Vec3View, v: Vec3View, bu: int, bv: int)
    requires
        u.bounded(bu),
        v.bounded(bv),
    ensures
        -3 * (bu * bv) <= u.dot(v) <= 3 * (bu * bv),
{
    lemma_product_bounded(u.x, v.x, bu, bv);
    lemma_product_bounded(u.y, v.y, bu, bv);
    lemma_product_bounded(u.z, v.z, bu, bv);
}

/// The exact dot product of the raw components, for vectors whose
/// components do not exceed `2^62` in magnitude, so that it fits in 128 bits.
pub fn dot_exact(u: &Vec3, v: &Vec3) -> (d: i128)
    requires
        u@.bounded(0x4000_0000_0000_0000),
        v@.bounded(0x4000_0000_0000_0000),
    ensures
        d == u@.dot(v@),
{
    proof {
        lemma_product_bounded(u@.x, v@.x, 0x4000_0000_0000_0000, 0x4000_0000_0000_0000);
        lemma_product_bounded(u@.y, v@.y, 0x4000_0000_0000_0000, 0x4000_0000_0000_0000);
        lemma_product_bounded(u@.z, v@.z, 0x4000_0000_0000_0000, 0x4000_0000_0000_0000);
    }
    wide_mul(u.0.raw, v.0.raw) + wide_mul(u.1.raw, v.1.raw) + wide_mul(u.2.raw, v.2.raw)
}

/// The dot product of `u` and `v`.
pub fn dot(u: &Vec3, v: &Vec3) -> (d: Scalar)
    requires
        fits(u@.fx_dot(v@)),
    ensures
        d@ == u@.fx_dot(v@),
{
    Scalar { raw: fx_dot_wide(u, v) as i64 }
}

/// One component of a cross product: `a * b - c * d` over `SCALE`, rounded
/// toward zero.
fn cross_component(a: i64, b: i64, c: i64, d: i64) -> (r: i128)
    ensures
        r == trunc_div(a * b - c * d, SCALE as int),
{
    let p: i128 = wide_mul(a, b);
    let q: i128 = wide_mul(c, d);
    div_trunc(p - q, SCALE_WIDE)
}

/// The cross product of `u` and `v`.
pub fn cross(u: &Vec3, v: &Vec3) -> (w: Vec3)
    requires
        u@.cross(v@).fits(),
    ensures
        w@ == u@.cross(v@),
{
    Vec3(
        Scalar { raw: cross_component(u.y().raw, v.z().raw, u.z().raw, v.y().raw) as i64 },
        Scalar { raw: cross_component(u.z().raw, v.x().raw, u.x().raw, v.z().raw) as i64 },
        Scalar { raw: cross_component(u.x().raw, v.y().raw, u.y().raw, v.x().raw) as i64 },
    )
}

/// The componentwise product is commutative.
pub proof fn lemma_times_commutes(u: Vec3View, v: Vec3View)
    ensures
        u.times(v) == v.times(u),
{
    assert(u.x * v.x == v.x * u.x && u.y * v.y == v.y * u.y && u.z * v.z == v.z * u.z)
        by (nonlinear_arith);
}

/// The dot product changes sign with either argument, exactly and after
/// rounding.
pub proof fn lemma_dot_negated(u: Vec3View, v: Vec3View)
    ensures
        u.negated().dot(v) == -u.dot(v),
        u.dot(v.negated()) == -u.dot(v),
        u.negated().fx_dot(v) == -u.fx_dot(v),
        u.fx_dot(v.negated()) == -u.fx_dot(v),
{
    assert((-u.x) * v.x == -(u.x * v.x) && (-u.y) * v.y == -(u.y * v.y) && (-u.z) * v.z == -(u.z
        * v.z)) by (nonlinear_arith);
    assert(u.x * (-v.x) == -(u.x * v.x) && u.y * (-v.y) == -(u.y * v.y) && u.z * (-v.z) == -(u.z
        * v.z)) by (nonlinear_arith);
    lemma_trunc_div_negate(u.dot(v), SCALE as int);
}

/// The cross product changes sign when its arguments change places, exactly.
pub proof fn lemma_cross_antisymmetric(u: Vec3View, v: Vec3View)
    ensures
        u.cross(v) == v.cross(u).negated(),
{
    let k = SCALE as int;
    assert(u.y * v.z - u.z * v.y == -(v.y * u.z - v.z * u.y)) by (nonlinear_arith);
    assert(u.z * v.x - u.x * v.z == -(v.z * u.x - v.x * u.z)) by (nonlinear_arith);
    assert(u.x * v.y - u.y * v.x == -(v.x * u.y - v.y * u.x)) by (nonlinear_arith);
    lemma_trunc_div_negate(v.y * u.z - v.z * u.y, k);
    lemma_trunc_div_negate(v.z * u.x - v.x * u.z, k);
    lemma_trunc_div_negate(v.x * u.y - v.y * u.x, k);
}

/// The cross product of a vector with itself is the zero vector.
pub proof fn lemma_cross_self_zero(u: Vec3View)
    ensures
        u.cross(u) == Vec3View::zero(),
{
    assert(u.y * u.z - u.z * u.y == 0 && u.z * u.x - u.x * u.z == 0 && u.x * u.y - u.y * u.x
        == 0) by (nonlinear_arith);
    lemma_trunc_div_magnitude(0, SCALE as int, 0);
}

/// Changing the sign of a factor, of a numerator or of a divisor changes the
/// sign of a product or quotient of scalars and nothing else.
pub proof fn lemma_sign_passes_through(a: int, b: int)
    ensures
        fx_mul(-a, b) == -fx_mul(a, b),
        fx_mul(a, -b) == -fx_mul(a, b),
        b != 0 ==> fx_div(-a, b) == -fx_div(a, b),
        b != 0 ==> fx_div(a, -b) == -fx_div(a, b),
{
    assert((-a) * b == -(a * b) && a * (-b) == -(a * b)) by (nonlinear_arith);
    lemma_trunc_div_negate(a * b, SCALE as int);
    if b != 0 {
        lemma_trunc_div_negate(a * SCALE, b);
    }
}

/// The length rounds to zero for the zero vector only, which alone has the
/// exact squared length zero.
pub proof fn lemma_length_zero(v: Vec3View)
    ensures
        v.length() == 0 <==> v == Vec3View::zero(),
        v.dot(v) == 0 <==> v == Vec3View::zero(),
        v.dot(v) >= 0,
        v.x * v.x <= v.dot(v),
        v.y * v.y <= v.dot(v),
        v.z * v.z <= v.dot(v),
{
    let n = v.dot(v);
    assert(v.x * v.x >= 0 && v.y * v.y >= 0 && v.z * v.z >= 0) by (nonlinear_arith);
    lemma_floor_sqrt_exists(n);
    if v == Vec3View::zero() {
        assert(n == 0);
        lemma_floor_sqrt_is(0, 0);
    } else {
        assert(n >= 1) by (nonlinear_arith)
            requires
                n == v.x * v.x + v.y * v.y + v.z * v.z,
                v.x != 0 || v.y != 0 || v.z != 0,
        ;
    }
}

/// A component of a unit vector is the exact one rounded toward zero: it has
/// the sign of the component it comes from, its magnitude `m` is at most one,
/// and the exact magnitude lies from `m` up to `m + 1`, in squares times `n`.
pub proof fn lemma_unit_component_close(x: int, n: int)
    requires
        n > 0,
        x * x <= n,
    ensures
        ({
            let u = unit_component(x, n);
            let m = magnitude(u);
            &&& 0 <= m <= SCALE
            &&& (m * m) * n <= (x * x) * (SCALE * SCALE) < ((m + 1) * (m + 1)) * n
            &&& x >= 0 ==> u == m
            &&& x <= 0 ==> u == -m
            &&& u * u == m * m
        }),
{
    let kk = SCALE * SCALE;
    let xx = x * x;
    assert(xx >= 0) by (nonlinear_arith)
        requires
            xx == x * x,
    ;
    let q = floor_div(xx * kk, n);
    lemma_floor_div_bounds(xx * kk, n);
    assert(q >= 0) by (nonlinear_arith)
        requires
            n > 0,
            xx * kk >= 0,
            xx * kk < (q + 1) * n,
    ;
    lemma_floor_sqrt_exists(q);
    let w = floor_sqrt(q);
    assert((w * w) * n <= xx * kk) by (nonlinear_arith)
        requires
            n > 0,
            w * w <= q,
            q * n <= xx * kk,
    ;
    assert(xx * kk < ((w + 1) * (w + 1)) * n) by (nonlinear_arith)
        requires
            n > 0,
            q + 1 <= (w + 1) * (w + 1),
            xx * kk < (q + 1) * n,
    ;
    assert(w <= SCALE) by (nonlinear_arith)
        requires
            n > 0,
            0 <= w,
            xx <= n,
            kk == 65536 * 65536,
            (w * w) * n <= xx * kk,
    ;
    let u = unit_component(x, n);
    assert(u * u == w * w) by (nonlinear_arith)
        requires
            u == w || u == -w,
    ;
    if x == 0 {
        assert(xx * kk == 0) by (nonlinear_arith)
            requires
                xx == x * x,
                x == 0,
        ;
        assert(w == 0) by (nonlinear_arith)
            requires
                0 <= w,
                (w * w) * n <= 0,
                n > 0,
        ;
    }
}

/// The components of a unit vector lie between minus one and one.
pub proof fn lemma_unit_bounded(v: Vec3View)
    ensures
        v.unit().bounded(SCALE as int),
{
    lemma_length_zero(v);
    let n = v.dot(v);
    if n != 0 {
        lemma_unit_component_close(v.x, n);
        lemma_unit_component_close(v.y, n);
        lemma_unit_component_close(v.z, n);
    }
}

/// The unit vector of the opposite vector is the opposite unit vector.
pub proof fn lemma_unit_negated(v: Vec3View)
    ensures
        v.negated().unit() == v.unit().negated(),
{
    lemma_length_zero(v);
    let n = v.dot(v);
    assert((-v.x) * (-v.x) == v.x * v.x && (-v.y) * (-v.y) == v.y * v.y && (-v.z) * (-v.z) == v.z
        * v.z) by (nonlinear_arith);
    if n != 0 {
        lemma_unit_component_close(v.x, n);
        lemma_unit_component_close(v.y, n);
        lemma_unit_component_close(v.z, n);
    }
}

/// A unit vector has length one up to rounding: its squared length does not
/// exceed one, and comes to more than one as soon as each component grows in
/// magnitude by one raw step.
pub proof fn lemma_unit_length(v: Vec3View)
    requires
        v != Vec3View::zero(),
    ensures
        v.unit().dot(v.unit()) <= SCALE * SCALE < v.unit().dot(v.unit()) + 2 * taxicab(v.unit())
            + 3,
{
    lemma_length_zero(v);
    let n = v.dot(v);
    let u = v.unit();
    let kk = SCALE * SCALE;
    lemma_unit_component_close(v.x, n);
    lemma_unit_component_close(v.y, n);
    lemma_unit_component_close(v.z, n);
    let mx = magnitude(u.x);
    let my = magnitude(u.y);
    let mz = magnitude(u.z);
    let uu = u.dot(u);
    assert(uu <= kk) by (nonlinear_arith)
        requires
            n > 0,
            uu == mx * mx + my * my + mz * mz,
            (mx * mx) * n <= (v.x * v.x) * kk,
            (my * my) * n <= (v.y * v.y) * kk,
            (mz * mz) * n <= (v.z * v.z) * kk,
            n == v.x * v.x + v.y * v.y + v.z * v.z,
    ;
    let s = (mx + 1) * (mx + 1) + (my + 1) * (my + 1) + (mz + 1) * (mz + 1);
    assert(kk < s) by (nonlinear_arith)
        requires
            n > 0,
            s == (mx + 1) * (mx + 1) + (my + 1) * (my + 1) + (mz + 1) * (mz + 1),
            (v.x * v.x) * kk < ((mx + 1) * (mx + 1)) * n,
            (v.y * v.y) * kk < ((my + 1) * (my + 1)) * n,
            (v.z * v.z) * kk < ((mz + 1) * (mz + 1)) * n,
            n == v.x * v.x + v.y * v.y + v.z * v.z,
    {
        assert(s * n == ((mx + 1) * (mx + 1)) * n + ((my + 1) * (my + 1)) * n + ((mz + 1) * (mz
            + 1)) * n);
        assert(n * kk == (v.x * v.x) * kk + (v.y * v.y) * kk + (v.z * v.z) * kk);
    }
    assert(s == uu + 2 * (mx + my + mz) + 3) by (nonlinear_arith)
        requires
            s == (mx + 1) * (mx + 1) + (my + 1) * (my + 1) + (mz + 1) * (mz + 1),
            uu == mx * mx + my * my + mz * mz,
    ;
}

/// Within range nothing overflows: the sum, difference, opposite, products,
/// quotient, dot and cross product and the length of vectors and scalars
/// within range can all be stored.
pub proof fn lemma_in_range_fits(u: Vec3View, v: Vec3View, k: int)
    requires
        u.in_range(),
        v.in_range(),
        in_range(k),
    ensures
        u.plus(v).fits(),
        u.minus(v).fits(),
        u.negated().fits(),
        u.times(v).fits(),
        u.scaled(k).fits(),
        k != 0 ==> u.divided(k).fits(),
        fits(u.fx_dot(v)),
        u.cross(v).fits(),
        fits(u.length()),
        fits(u.length_squared()),
{
    let m: int = 0x4000_0000;
    let mm: int = 0x1000_0000_0000_0000;
    let d = SCALE as int;
    lemma_product_bounded(u.x, v.x, m, m);
    lemma_product_bounded(u.y, v.y, m, m);
    lemma_product_bounded(u.z, v.z, m, m);
    lemma_product_bounded(u.x, k, m, m);
    lemma_product_bounded(u.y, k, m, m);
    lemma_product_bounded(u.z, k, m, m);
    lemma_trunc_div_magnitude(u.x * v.x, d, mm);
    lemma_trunc_div_magnitude(u.y * v.y, d, mm);
    lemma_trunc_div_magnitude(u.z * v.z, d, mm);
    lemma_trunc_div_magnitude(u.x * k, d, mm);
    lemma_trunc_div_magnitude(u.y * k, d, mm);
    lemma_trunc_div_magnitude(u.z * k, d, mm);
    if k != 0 {
        lemma_trunc_div_magnitude(u.x * SCALE, k, 0x4000_0000_0000);
        lemma_trunc_div_magnitude(u.y * SCALE, k, 0x4000_0000_0000);
        lemma_trunc_div_magnitude(u.z * SCALE, k, 0x4000_0000_0000);
    }
    lemma_dot_bounded(u, v, m, m);
    lemma_trunc_div_magnitude(u.dot(v), d, 3 * mm);
    lemma_product_bounded(u.y, v.z, m, m);
    lemma_product_bounded(u.z, v.y, m, m);
    lemma_product_bounded(u.z, v.x, m, m);
    lemma_product_bounded(u.x, v.z, m, m);
    lemma_product_bounded(u.x, v.y, m, m);
    lemma_product_bounded(u.y, v.x, m, m);
    lemma_trunc_div_magnitude(u.y * v.z - u.z * v.y, d, 2 * mm);
    lemma_trunc_div_magnitude(u.z * v.x - u.x * v.z, d, 2 * mm);
    lemma_trunc_div_magnitude(u.x * v.y - u.y * v.x, d, 2 * mm);
    lemma_dot_bounded(u, u, m, m);
    lemma_trunc_div_magnitude(u.dot(u), d, 3 * mm);
    lemma_length_zero(u);
    lemma_floor_sqrt_exists(u.dot(u));
    let len = u.length();
    assert(len < 0x1_0000_0000) by (nonlinear_arith)
        requires
            0 <= len,
            len * len <= u.dot(u),
            u.dot(u) <= 3 * 0x1000_0000_0000_0000,
    ;
}

/// The quotient of `x2 * SCALE * SCALE` by `n`, rounded down, by long
/// division; it is defined although the product may not fit in 128 bits.
fn scaled_ratio(x2: u128, n: u128) -> (q: u64)
    requires
        0 < n,
        x2 <= n,
    ensures
        q == floor_div(x2 * (SCALE * SCALE), n as int),
{
    if x2 == n {
        proof {
            assert(x2 * (SCALE * SCALE) == 0x1_0000_0000 * n) by (nonlinear_arith)
                requires
                    x2 == n,
            ;
            assert((0x1_0000_0000 + 1) * n == 0x1_0000_0000 * n + n) by (nonlinear_arith);
            lemma_floor_div_unique(x2 * (SCALE * SCALE), n as int, 0x1_0000_0000);
        }
        return 0x1_0000_0000;
    }
    let mut rem: u128 = x2;
    let mut q: u64 = 0;
    let mut k: u32 = 0;
    proof {
        lemma2_to64();
    }
    while k < 32
        invariant
            k <= 32,
            0 < n,
            rem < n,
            q < pow2(k as nat),
            pow2(k as nat) <= 0x1_0000_0000,
            x2 * pow2(k as nat) == q * n + rem,
        decreases 32 - k,
    {
        proof {
            lemma_pow2_unfold((k + 1) as nat);
            lemma_pow2_step_bound(k as nat);
        }
        let ghost p = pow2(k as nat) as int;
        if rem >= n - rem {
            assert(x2 * (2 * p) == (2 * q + 1) * n + (rem - (n - rem))) by (nonlinear_arith)
                requires
                    x2 * p == q * n + rem,
            ;
            rem = rem - (n - rem);
            q = 2 * q + 1;
        } else {
            assert(x2 * (2 * p) == (2 * q) * n + (rem + rem)) by (nonlinear_arith)
                requires
                    x2 * p == q * n + rem,
            ;
            rem = rem + rem;
            q = 2 * q;
        }
        k = k + 1;
    }
    proof {
        assert((q + 1) * n == q * n + n) by (nonlinear_arith);
        lemma_floor_div_unique(x2 * (SCALE * SCALE), n as int, q as int);
    }
    q
}

/// Below the thirty-second, the next power of two does not exceed `2^32`.
proof fn lemma_pow2_step_bound(k: nat)
    requires
        k < 32,
    ensures
        pow2(k + 1) <= 0x1_0000_0000,
{
    lemma2_to64();
    vstd::arithmetic::power2::lemma_pow2_strictly_increases(k, 32);
    lemma_pow2_unfold(k + 1);
    lemma_pow2_unfold(32);
    if k + 1 < 32 {
        vstd::arithmetic::power2::lemma_pow2_strictly_increases(k + 1, 32);
    }
}

/// One component of a unit vector.
fn unit_component_of(x: i64, n: u128) -> (c: Scalar)
    requires
        n > 0,
        x * x <= n,
    ensures
        c@ == unit_component(x as int, n as int),
{
    let p: i128 = wide_mul(x, x);
    assert(p >= 0) by (nonlinear_arith)
        requires
            p == x * x,
    ;
    let q: u64 = scaled_ratio(p as u128, n);
    let w: u64 = isqrt(q as u128);
    proof {
        lemma_unit_component_close(x as int, n as int);
    }
    if x < 0 {
        Scalar { raw: -(w as i64) }
    } else {
        Scalar { raw: w as i64 }
    }
}

/// The vector of length one in the direction of `v`, each component within
/// one raw step of the exact one, and the zero vector for the zero vector,
/// which has no direction.
pub fn unit_vector(v: &Vec3) -> (u: Vec3)
    ensures
        u@ == v@.unit(),
        v@ == Vec3View::zero() ==> u@ == Vec3View::zero(),
        u@.bounded(SCALE as int),
{
    proof {
        lemma_length_zero(v@);
        lemma_unit_bounded(v@);
    }
    let n: u128 = norm_squared_wide(v);
    if n == 0 {
        Vec3(Scalar { raw: 0 }, Scalar { raw: 0 }, Scalar { raw: 0 })
    } else {
        Vec3(
            unit_component_of(v.0.raw, n),
            unit_component_of(v.1.raw, n),
            unit_component_of(v.2.raw, n),
        )
    }
}

impl Vec3 {
    /// The vector with the given components.
    pub fn new(x: Scalar, y: Scalar, z: Scalar) -> (v: Vec3)
        ensures
            v == Vec3(x, y, z),
    {
        Vec3(x, y, z)
    }

    /// First component.
    pub fn x(&self) -> (s: Scalar)
        ensures
            s == self.0,
    {
        self.0
    }

    /// Second component.
    pub fn y(&self) -> (s: Scalar)
        ensures
            s == self.1,
    {
        self.1
    }

    /// Third component.
    pub fn z(&self) -> (s: Scalar)
        ensures
            s == self.2,
    {
        self.2
    }

    /// Whether every component lies within the range on which intersection
    /// is exact.
    pub fn is_in_range(&self) -> (b: bool)
        ensures
            b == self@.in_range(),
    {
        self.0.is_in_range() && self.1.is_in_range() && self.2.is_in_range()
    }

    /// The length of the vector.
    pub fn length(&self) -> (s: Scalar)
        requires
            fits(self@.length()),
        ensures
            s@ == self@.length(),
            s@ >= 0,
    {
        let n: u128 = norm_squared_wide(self);
        Scalar { raw: isqrt(n) as i64 }
    }

    /// The squared length of the vector.
    pub fn length_squared(&self) -> (s: Scalar)
        requires
            fits(self@.length_squared()),
        ensures
            s@ == self@.length_squared(),
            s@ >= 0,
    {
        proof {
            lemma_length_zero(self@);
            crate::arith::lemma_trunc_div_bounds(self@.dot(self@), SCALE as int);
        }
        dot(self, self)
    }

    /// The dot product with `other`.
    pub fn dot(&self, other: &Vec3) -> (d: Scalar)
        requires
            fits(self@.fx_dot(other@)),
        ensures
            d@ == self@.fx_dot(other@),
    {
        dot(self, other)
    }

    /// The cross product with `other`.
    pub fn cross(&self, other: &Vec3) -> (w: Vec3)
        requires
            self@.cross(other@).fits(),
        ensures
            w@ == self@.cross(other@),
    {
        cross(self, other)
    }

    /// The vector of length one in the same direction, and the zero vector
    /// for the zero vector.
    pub fn unit(&self) -> (u: Vec3)
        ensures
            u@ == self@.unit(),
            self@ == Vec3View::zero() ==> u@ == Vec3View::zero(),
            u@.bounded(SCALE as int),
    {
        unit_vector(self)
    }
}

impl NegSpecImpl for Vec3 {
    open spec fn obeys_neg_spec() -> bool {
        true
    }

    open spec fn neg_req(self) -> bool {
        self@.negated().fits()
    }

    open spec fn neg_spec(self) -> Vec3 {
        Vec3::from_view(self@.negated())
    }
}

impl Neg for Vec3 {
    type Output = Vec3;

    fn neg(self) -> (out: Vec3)
        ensures
            out@ == self@.negated(),
    {
        Vec3(self.0.neg(), self.1.neg(), self.2.neg())
    }
}

impl AddSpecImpl for Vec3 {
    open spec fn obeys_add_spec() -> bool {
        true
    }

    open spec fn add_req(self, v: Vec3) -> bool {
        self@.plus(v@).fits()
    }

    open spec fn add_spec(self, v: Vec3) -> Vec3 {
        Vec3::from_view(self@.plus(v@))
    }
}

impl Add for Vec3 {
    type Output = Vec3;

    fn add(self, v: Vec3) -> (out: Vec3)
        ensures
            out@ == self@.plus(v@),
    {
        Vec3(self.0 + v.0, self.1 + v.1, self.2 + v.2)
    }
}

impl SubSpecImpl for Vec3 {
    open spec fn obeys_sub_spec() -> bool {
        true
    }

    open spec fn sub_req(self, v: Vec3) -> bool {
        self@.minus(v@).fits()
    }

    open spec fn sub_spec(self, v: Vec3) -> Vec3 {
        Vec3::from_view(self@.minus(v@))
    }
}

impl Sub for Vec3 {
    type Output = Vec3;

    fn sub(self, v: Vec3) -> (out: Vec3)
        ensures
            out@ == self@.minus(v@),
    {
        Vec3(self.0 - v.0, self.1 - v.1, self.2 - v.2)
    }
}

impl MulSpecImpl for Vec3 {
    open spec fn obeys_mul_spec() -> bool {
        true
    }

    open spec fn mul_req(self, v: Vec3) -> bool {
        self@.times(v@).fits()
    }

    open spec fn mul_spec(self, v: Vec3) -> Vec3 {
        Vec3::from_view(self@.times(v@))
    }
}

impl Mul for Vec3 {
    type Output = Vec3;

    fn mul(self, v: Vec3) -> (out: Vec3)
        ensures
            out@ == self@.times(v@),
    {
        Vec3(self.0 * v.0, self.1 * v.1, self.2 * v.2)
    }
}

impl MulSpecImpl<Scalar> for Vec3 {
    open spec fn obeys_mul_spec() -> bool {
        true
    }

    open spec fn mul_req(self, t: Scalar) -> bool {
        self@.scaled(t@).fits()
    }

    open spec fn mul_spec(self, t: Scalar) -> Vec3 {
        Vec3::from_view(self@.scaled(t@))
    }
}

impl Mul<Scalar> for Vec3 {
    type Output = Vec3;

    fn mul(self, t: Scalar) -> (out: Vec3)
        ensures
            out@ == self@.scaled(t@),
    {
        Vec3(self.0 * t, self.1 * t, self.2 * t)
    }
}

impl MulSpecImpl<Vec3> for Scalar {
    open spec fn obeys_mul_spec() -> bool {
        true
    }

    open spec fn mul_req(self, v: Vec3) -> bool {
        v@.scaled(self@).fits()
    }

    open spec fn mul_spec(self, v: Vec3) -> Vec3 {
        Vec3::from_view(v@.scaled(self@))
    }
}

impl Mul<Vec3> for Scalar {
    type Output = Vec3;

    fn mul(self, v: Vec3) -> (out: Vec3)
        ensures
            out@ == v@.scaled(self@),
    {
        v * self
    }
}

impl DivSpecImpl<Scalar> for Vec3 {
    open spec fn obeys_div_spec() -> bool {
        true
    }

    open spec fn div_req(self, t: Scalar) -> bool {
        t@ != 0 && self@.divided(t@).fits()
    }

    open spec fn div_spec(self, t: Scalar) -> Vec3 {
        Vec3::from_view(self@.divided(t@))
    }
}

impl Div<Scalar> for Vec3 {
    type Output = Vec3;

    fn div(self, t: Scalar) -> (out: Vec3)
        ensures
            out@ == self@.divided(t@),
    {
        Vec3(self.0 / t, self.1 / t, self.2 / t)
    }
}

impl Vec3 {
    /// Subtracts `v` in place.
    pub fn sub_assign(&mut self, v: Vec3)
        requires
            old(self)@.minus(v@).fits(),
        ensures
            final(self)@ == old(self)@.minus(v@),
    {
        *self = Vec3(self.0 - v.0, self.1 - v.1, self.2 - v.2);
    }

    /// Adds `v` in place.
    pub fn add_assign(&mut self, v: Vec3)
        requires
            old(self)@.plus(v@).fits(),
        ensures
            final(self)@ == old(self)@.plus(v@),
    {
        *self = Vec3(self.0 + v.0, self.1 + v.1, self.2 + v.2);
    }

    /// Divides by the scalar `t` in place.
    pub fn div_assign(&mut self, t: Scalar)
        requires
            t@ != 0,
            old(self)@.divided(t@).fits(),
        ensures
            final(self)@ == old(self)@.divided(t@),
    {
        *self = *self / t;
    }

    /// Multiplies by the scalar `t` in place.
    pub fn mul_assign(&mut self, t: Scalar)
        requires
            old(self)@.scaled(t@).fits(),
        ensures
            final(self)@ == old(self)@.scaled(t@),
    {
        *self = Vec3(self.0 * t, self.1 * t, self.2 * t);
    }
}

} // verus!
