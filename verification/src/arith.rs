//! Integer arithmetic that the fixed-point operations rest on: division
//! rounded toward zero, division rounded toward negative infinity, and the
//! integer square root.

use vstd::prelude::*;

verus! {

/// Quotient of `n` by `d`, rounded toward negative infinity.
pub open spec fn floor_div(n: int, d: int) -> int
    recommends
        d != 0,
{
    if d > 0 {
        n / d
    } else {
        (-n) / (-d)
    }
}

/// Quotient of `n` by `d`, rounded toward zero: the quotient of the
/// magnitudes, with the sign of the exact quotient.
pub open spec fn trunc_div(n: int, d: int) -> int
    recommends
        d != 0,
{
    if d > 0 {
        if n >= 0 {
            n / d
        } else {
            -((-n) / d)
        }
    } else {
        if n >= 0 {
            -(n / (-d))
        } else {
            (-n) / (-d)
        }
    }
}

/// `s` is the integer square root of `n`: the largest integer whose square
/// does not exceed `n`.
pub open spec fn is_floor_sqrt(n: int, s: int) -> bool {
    0 <= s && s * s <= n < (s + 1) * (s + 1)
}

/// The integer square root of `n`, for `n >= 0`.
pub open spec fn floor_sqrt(n: int) -> int
    recommends
        n >= 0,
{
    choose|s: int| is_floor_sqrt(n, s)
}

/// `floor_div(n, d)` is the one integer `q` with `q * d <= n < (q + 1) * d`
/// when `d` is positive.
pub proof fn lemma_floor_div_bounds(n: int, d: int)
    requires
        d > 0,
    ensures
        floor_div(n, d) * d <= n < (floor_div(n, d) + 1) * d,
{
    vstd::arithmetic::div_mod::lemma_fundamental_div_mod(n, d);
    vstd::arithmetic::div_mod::lemma_mod_bound(n, d);
    assert(d * (n / d) == (n / d) * d) by (nonlinear_arith);
    assert((n / d + 1) * d == (n / d) * d + d) by (nonlinear_arith);
}

/// The same, with the divisor in front: `n` lies less than `d` above
/// `d * floor_div(n, d)`.
pub proof fn lemma_floor_div_remainder(n: int, d: int)
    requires
        d > 0,
    ensures
        d * floor_div(n, d) <= n < d * floor_div(n, d) + d,
{
    lemma_floor_div_bounds(n, d);
    let q = floor_div(n, d);
    assert(q * d == d * q && (q + 1) * d == d * q + d) by (nonlinear_arith);
}

/// Any `q` with `q * d <= n < (q + 1) * d` is `floor_div(n, d)`.
pub proof fn lemma_floor_div_unique(n: int, d: int, q: int)
    requires
        d > 0,
        q * d <= n < (q + 1) * d,
    ensures
        floor_div(n, d) == q,
{
    lemma_floor_div_bounds(n, d);
    let f = floor_div(n, d);
    assert(f == q) by (nonlinear_arith)
        requires
            d > 0,
            q * d <= n < (q + 1) * d,
            f * d <= n < (f + 1) * d,
    ;
}

/// Rounding down is monotone in the numerator.
pub proof fn lemma_floor_div_monotone(n1: int, n2: int, d: int)
    requires
        d > 0,
        n1 <= n2,
    ensures
        floor_div(n1, d) <= floor_div(n2, d),
{
    lemma_floor_div_bounds(n1, d);
    lemma_floor_div_bounds(n2, d);
    let f1 = floor_div(n1, d);
    let f2 = floor_div(n2, d);
    assert(f1 <= f2) by (nonlinear_arith)
        requires
            d > 0,
            n1 <= n2,
            f1 * d <= n1,
            n2 < (f2 + 1) * d,
    ;
}

/// A quotient by a positive number is no larger in magnitude than the
/// numerator.
pub proof fn lemma_floor_div_magnitude(n: int, d: int, b: int)
    requires
        d > 0,
        -b <= n <= b,
    ensures
        -b <= floor_div(n, d) <= b,
{
    lemma_floor_div_bounds(n, d);
    let q = floor_div(n, d);
    assert(-b <= q <= b) by (nonlinear_arith)
        requires
            d >= 1,
            -b <= n <= b,
            q * d <= n < (q + 1) * d,
    ;
}

/// A product is bounded by the product of the bounds of its factors.
pub proof fn lemma_product_bounded(a: int, b: int, ba: int, bb: int)
    by (nonlinear_arith)
    requires
        -ba <= a <= ba,
        -bb <= b <= bb,
    ensures
        -(ba * bb) <= a * b <= ba * bb,
{
}

/// Rounding toward zero leaves the quotient between zero and the exact
/// one: `d * trunc_div(n, d)` lies less than `d` from `n`, on the side of
/// zero.
pub proof fn lemma_trunc_div_bounds(n: int, d: int)
    requires
        d > 0,
    ensures
        n >= 0 ==> 0 <= trunc_div(n, d) && d * trunc_div(n, d) <= n < d * trunc_div(n, d) + d,
        n <= 0 ==> trunc_div(n, d) <= 0 && d * trunc_div(n, d) - d < n <= d * trunc_div(n, d),
{
    if n >= 0 {
        lemma_floor_div_remainder(n, d);
        lemma_floor_div_magnitude(n, d, n);
    } else {
        lemma_floor_div_remainder(-n, d);
        lemma_floor_div_magnitude(-n, d, -n);
        let q = (-n) / d;
        assert(d * (-q) == -(d * q)) by (nonlinear_arith);
    }
    if n == 0 {
        lemma_floor_div_unique(0, d, 0);
    }
}

/// Rounding toward zero commutes with changing the sign of the numerator or
/// of the divisor.
pub proof fn lemma_trunc_div_negate(n: int, d: int)
    requires
        d != 0,
    ensures
        trunc_div(-n, d) == -trunc_div(n, d),
        trunc_div(n, -d) == -trunc_div(n, d),
{
    if n == 0 {
        if d > 0 {
            lemma_floor_div_unique(0, d, 0);
        } else {
            lemma_floor_div_unique(0, -d, 0);
        }
    }
}

/// A quotient rounded toward zero is no larger in magnitude than the
/// numerator.
pub proof fn lemma_trunc_div_magnitude(n: int, d: int, b: int)
    requires
        d != 0,
        -b <= n <= b,
    ensures
        -b <= trunc_div(n, d) <= b,
{
    if d > 0 {
        if n >= 0 {
            lemma_floor_div_magnitude(n, d, b);
            lemma_floor_div_magnitude(n, d, n);
        } else {
            lemma_floor_div_magnitude(-n, d, b);
            lemma_floor_div_magnitude(-n, d, -n);
        }
    } else {
        if n >= 0 {
            lemma_floor_div_magnitude(n, -d, b);
            lemma_floor_div_magnitude(n, -d, n);
        } else {
            lemma_floor_div_magnitude(-n, -d, b);
            lemma_floor_div_magnitude(-n, -d, -n);
        }
    }
}

/// Rounding toward zero from rounding down: where `n` is `f * d + rho` with
/// `rho` from zero up to `d`, the quotient rounded toward zero is `f`, or
/// one more where `n` is negative and `rho` is not zero.
pub proof fn lemma_trunc_from_floor(n: int, d: int, f: int, rho: int)
    requires
        d > 0,
        n == f * d + rho,
        0 <= rho < d,
    ensures
        trunc_div(n, d) == if n < 0 && rho != 0 {
            f + 1
        } else {
            f
        },
{
    if n >= 0 {
        assert((f + 1) * d == f * d + d) by (nonlinear_arith);
        lemma_floor_div_unique(n, d, f);
    } else if rho == 0 {
        assert((-f) * d == -(f * d) && (-f + 1) * d == -(f * d) + d) by (nonlinear_arith);
        lemma_floor_div_unique(-n, d, -f);
    } else {
        assert((-f - 1) * d == -(f * d) - d && (-f) * d == -(f * d)) by (nonlinear_arith);
        lemma_floor_div_unique(-n, d, -f - 1);
    }
}

/// Two integer square roots of one number coincide.
pub proof fn lemma_floor_sqrt_unique(n: int, s1: int, s2: int)
    requires
        is_floor_sqrt(n, s1),
        is_floor_sqrt(n, s2),
    ensures
        s1 == s2,
{
    assert(s1 == s2) by (nonlinear_arith)
        requires
            0 <= s1,
            0 <= s2,
            s1 * s1 <= n < (s1 + 1) * (s1 + 1),
            s2 * s2 <= n < (s2 + 1) * (s2 + 1),
    ;
}

/// Every non-negative integer has an integer square root, and `floor_sqrt`
/// names it.
pub proof fn lemma_floor_sqrt_exists(n: int)
    requires
        n >= 0,
    ensures
        is_floor_sqrt(n, floor_sqrt(n)),
    decreases n,
{
    if n == 0 {
        assert(is_floor_sqrt(0, 0));
    } else {
        lemma_floor_sqrt_exists(n - 1);
        let s = floor_sqrt(n - 1);
        if (s + 1) * (s + 1) <= n {
            assert((s + 2) * (s + 2) > (s + 1) * (s + 1)) by (nonlinear_arith)
                requires
                    s >= 0,
            ;
            assert(is_floor_sqrt(n, s + 1));
        } else {
            assert(is_floor_sqrt(n, s));
        }
    }
}

/// A number with the defining property is the integer square root.
pub proof fn lemma_floor_sqrt_is(n: int, s: int)
    requires
        is_floor_sqrt(n, s),
    ensures
        floor_sqrt(n) == s,
{
    lemma_floor_sqrt_unique(n, s, floor_sqrt(n));
}

/// A square under rounding: if `w` lies less than `k` from `k u`, its
/// square lies within `2 k k |u| + k k` of `k k u u`.
pub proof fn lemma_square_under_rounding(u: int, w: int, k: int, m: int)
    by (nonlinear_arith)
    requires
        0 < k,
        k * u - k < w < k * u + k,
        m >= u,
        m >= -u,
    ensures
        (k * k) * (u * u) - 2 * ((k * k) * m) <= w * w <= (k * k) * (u * u) + 2 * ((k * k) * m) + k
            * k,
{
}

/// Quotient of `n` by a positive `d`, rounded toward negative infinity.
pub fn div_floor(n: i128, d: i128) -> (q: i128)
    requires
        d > 0,
    ensures
        q == floor_div(n as int, d as int),
{
    proof {
        lemma_floor_div_bounds(n as int, d as int);
        let f = floor_div(n as int, d as int);
        assert(i128::MIN <= f <= i128::MAX) by (nonlinear_arith)
            requires
                d >= 1,
                f * d <= n < (f + 1) * d,
                i128::MIN <= n <= i128::MAX,
        ;
    }
    match n.checked_div_euclid(d) {
        Some(q) => q,
        None => 0,
    }
}

/// Quotient of `n` by a positive `d`, rounded toward zero.
pub fn div_trunc(n: i128, d: i128) -> (q: i128)
    requires
        d > 0,
        n > i128::MIN,
    ensures
        q == trunc_div(n as int, d as int),
{
    proof {
        lemma_trunc_div_magnitude(n as int, d as int, i128::MAX as int);
    }
    if n >= 0 {
        n / d
    } else {
        -((-n) / d)
    }
}

/// Integer square root by bisection.
pub fn isqrt(n: u128) -> (s: u64)
    ensures
        is_floor_sqrt(n as int, s as int),
        s == floor_sqrt(n as int),
{
    let mut lo: u128 = 0;
    let mut hi: u128 = 0x1_0000_0000_0000_0000;
    assert(n < hi * hi) by (nonlinear_arith)
        requires
            hi == 0x1_0000_0000_0000_0000,
            n <= u128::MAX,
    ;
    while hi - lo > 1
        invariant
            lo < hi <= 0x1_0000_0000_0000_0000,
            lo * lo <= n < hi * hi,
        decreases hi - lo,
    {
        let mid: u128 = lo + (hi - lo) / 2;
        assert(mid * mid <= u128::MAX) by (nonlinear_arith)
            requires
                0 <= mid < 0x1_0000_0000_0000_0000,
        ;
        if mid * mid <= n {
            lo = mid;
        } else {
            hi = mid;
        }
    }
    proof {
        lemma_floor_sqrt_is(n as int, lo as int);
    }
    lo as u64
}

} // verus!
