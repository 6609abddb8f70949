//! Fixed-point scalars.

use crate::arith::{
    div_trunc, floor_sqrt, isqrt, lemma_trunc_div_magnitude, lemma_trunc_div_negate, trunc_div,
};
use core::ops::{Add, Div, Mul, Neg, Sub};
use vstd::prelude::*;
use vstd::std_specs::ops::{AddSpecImpl, DivSpecImpl, MulSpecImpl, NegSpecImpl, SubSpecImpl};

verus! {

/// The raw representation of the number one: a scalar with raw value `n`
/// stands for the rational number `n / SCALE`.
pub const SCALE: i64 = 65536;

/// `SCALE` in the width of intermediate results.
pub const SCALE_WIDE: i128 = 65536;

/// Largest magnitude, as a raw value, of the coordinates and ray parameters
/// on which intersection queries are exact (16384 units).
pub const RANGE_MAX: i64 = 1073741824;

/// A signed fixed-point number with 16 fractional bits.
///
/// Its view is the raw integer numerator; the number it denotes is
/// `view / SCALE`. Every operation rounds the exact result toward zero, once,
/// so that changing the sign of an operand changes the sign of the result
/// and nothing else.
#[derive(Clone, Copy, Debug, PartialEq, Eq, Structural)]
pub struct Scalar {
    pub raw: i64,
}

impl View for Scalar {
    type V = int;

    open spec fn view(&self) -> int {
        self.raw as int
    }
}

/// `v` can be stored as a raw value.
pub open spec fn fits(v: int) -> bool {
    i64::MIN <= v <= i64::MAX
}

/// `v` is a raw value within the range on which intersection is exact.
pub open spec fn in_range(v: int) -> bool {
    -RANGE_MAX <= v <= RANGE_MAX
}

/// Raw value of the product of the numbers with raw values `a` and `b`.
pub open spec fn fx_mul(a: int, b: int) -> int {
    trunc_div(a * b, SCALE as int)
}

/// Raw value of the quotient of the numbers with raw values `a` and `b`.
pub open spec fn fx_div(a: int, b: int) -> int
    recommends
        b != 0,
{
    trunc_div(a * SCALE, b)
}

/// Raw value of the square root of the number with raw value `a`.
pub open spec fn fx_sqrt(a: int) -> int
    recommends
        a >= 0,
{
    floor_sqrt(a * SCALE)
}

/// The product of two raw values, which always fits in 128 bits.
pub fn wide_mul(a: i64, b: i64) -> (p: i128)
    ensures
        p == a * b,
        -0x3fff_ffff_ffff_ffff_8000_0000_0000_0000 <= p <= 0x4000_0000_0000_0000_0000_0000_0000_0000,
{
    assert(-0x3fff_ffff_ffff_ffff_8000_0000_0000_0000 <= a * b
        <= 0x4000_0000_0000_0000_0000_0000_0000_0000) by (nonlinear_arith)
        requires
            -0x8000_0000_0000_0000 <= a <= 0x7fff_ffff_ffff_ffff,
            -0x8000_0000_0000_0000 <= b <= 0x7fff_ffff_ffff_ffff,
    ;
    (a as i128) * (b as i128)
}

impl Scalar {
    /// The scalar with the given raw value.
    pub fn from_raw(raw: i64) -> (s: Scalar)
        ensures
            s@ == raw,
    {
        Scalar { raw }
    }

    /// The scalar that denotes the integer `n`.
    pub fn from_int(n: i32) -> (s: Scalar)
        ensures
            s@ == n * SCALE,
    {
        Scalar { raw: (n as i64) * SCALE }
    }

    /// The quotient of two integers, rounded toward zero: `from_ratio(7, 10)`
    /// is the largest scalar that does not exceed seven tenths.
    pub fn from_ratio(num: i32, den: i32) -> (s: Scalar)
        requires
            den != 0,
        ensures
            s@ == trunc_div(num * SCALE, den as int),
    {
        proof {
            lemma_trunc_div_magnitude(num * SCALE, den as int, 0x8000_0000_0000);
        }
        Scalar { raw: scaled_quotient(num as i64, den as i128) as i64 }
    }

    /// The number zero.
    pub fn zero() -> (s: Scalar)
        ensures
            s@ == 0,
    {
        Scalar { raw: 0 }
    }

    /// The number one.
    pub fn one() -> (s: Scalar)
        ensures
            s@ == SCALE,
    {
        Scalar { raw: SCALE }
    }

    /// The largest scalar within range; it serves as the far end of an
    /// unbounded parametric window.
    pub fn range_max() -> (s: Scalar)
        ensures
            s@ == RANGE_MAX,
    {
        Scalar { raw: RANGE_MAX }
    }

    /// The raw numerator.
    pub fn raw(&self) -> (r: i64)
        ensures
            r == self@,
    {
        self.raw
    }

    /// Whether the scalar lies within the range on which intersection is
    /// exact.
    pub fn is_in_range(&self) -> (b: bool)
        ensures
            b == in_range(self@),
    {
        -RANGE_MAX <= self.raw && self.raw <= RANGE_MAX
    }

    /// Square root, rounded down.
    pub fn sqrt(self) -> (s: Scalar)
        requires
            self@ >= 0,
        ensures
            s@ == fx_sqrt(self@),
            s@ >= 0,
    {
        let n: u128 = (self.raw as u128) * (SCALE_WIDE as u128);
        let r: u64 = isqrt(n);
        assert(r < 0x8000_0000_0000_0000) by (nonlinear_arith)
            requires
                r * r <= n,
                n < 0x8000_0000_0000_0000 * SCALE,
        ;
        Scalar { raw: r as i64 }
    }
}

impl NegSpecImpl for Scalar {
    open spec fn obeys_neg_spec() -> bool {
        true
    }

    open spec fn neg_req(self) -> bool {
        fits(-self@)
    }

    open spec fn neg_spec(self) -> Scalar {
        Scalar { raw: (-self.raw) as i64 }
    }
}

impl Neg for Scalar {
    type Output = Scalar;

    fn neg(self) -> (out: Scalar)
        ensures
            out@ == -self@,
    {
        Scalar { raw: -self.raw }
    }
}

impl AddSpecImpl for Scalar {
    open spec fn obeys_add_spec() -> bool {
        true
    }

    open spec fn add_req(self, rhs: Scalar) -> bool {
        fits(self@ + rhs@)
    }

    open spec fn add_spec(self, rhs: Scalar) -> Scalar {
        Scalar { raw: (self.raw + rhs.raw) as i64 }
    }
}

impl Add for Scalar {
    type Output = Scalar;

    fn add(self, rhs: Scalar) -> (out: Scalar)
        ensures
            out@ == self@ + rhs@,
    {
        Scalar { raw: self.raw + rhs.raw }
    }
}

impl SubSpecImpl for Scalar {
    open spec fn obeys_sub_spec() -> bool {
        true
    }

    open spec fn sub_req(self, rhs: Scalar) -> bool {
        fits(self@ - rhs@)
    }

    open spec fn sub_spec(self, rhs: Scalar) -> Scalar {
        Scalar { raw: (self.raw - rhs.raw) as i64 }
    }
}

impl Sub for Scalar {
    type Output = Scalar;

    fn sub(self, rhs: Scalar) -> (out: Scalar)
        ensures
            out@ == self@ - rhs@,
    {
        Scalar { raw: self.raw - rhs.raw }
    }
}

impl MulSpecImpl for Scalar {
    open spec fn obeys_mul_spec() -> bool {
        true
    }

    open spec fn mul_req(self, rhs: Scalar) -> bool {
        fits(fx_mul(self@, rhs@))
    }

    open spec fn mul_spec(self, rhs: Scalar) -> Scalar {
        Scalar { raw: fx_mul(self@, rhs@) as i64 }
    }
}

impl Mul for Scalar {
    type Output = Scalar;

    fn mul(self, rhs: Scalar) -> (out: Scalar)
        ensures
            out@ == fx_mul(self@, rhs@),
    {
        let q: i128 = div_trunc(wide_mul(self.raw, rhs.raw), SCALE_WIDE);
        Scalar { raw: q as i64 }
    }
}

impl DivSpecImpl for Scalar {
    open spec fn obeys_div_spec() -> bool {
        true
    }

    open spec fn div_req(self, rhs: Scalar) -> bool {
        rhs@ != 0 && fits(fx_div(self@, rhs@))
    }

    open spec fn div_spec(self, rhs: Scalar) -> Scalar {
        Scalar { raw: fx_div(self@, rhs@) as i64 }
    }
}

impl Div for Scalar {
    type Output = Scalar;

    fn div(self, rhs: Scalar) -> (out: Scalar)
        ensures
            out@ == fx_div(self@, rhs@),
    {
        let q: i128 = scaled_quotient(self.raw, rhs.raw as i128);
        Scalar { raw: q as i64 }
    }
}

/// The quotient of `n * SCALE` by `d`, rounded toward zero, that fixed-point
/// division gives, in 128 bits.
pub fn scaled_quotient(n: i64, d: i128) -> (q: i128)
    requires
        d != 0,
        i128::MIN < d,
    ensures
        q == fx_div(n as int, d as int),
{
    let wide: i128 = (n as i128) * SCALE_WIDE;
    if d > 0 {
        div_trunc(wide, d)
    } else {
        proof {
            lemma_trunc_div_negate(wide as int, d as int);
            lemma_trunc_div_negate(wide as int, -d as int);
        }
        div_trunc(-wide, -d)
    }
}

} // verus!
