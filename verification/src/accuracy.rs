//! How closely a reported hit lies on the sphere: bounds on the error that
//! rounding to the fixed-point grid leaves in the hit point and the normal.
//!
//! The ray parameter is rounded to one raw step, and the hit point is the
//! point of the ray at the rounded parameter. One raw step of the parameter
//! moves the point by the length of the direction in raw steps, so the
//! accuracy of the hit point, and with it that of the normal, is the length
//! of the ray's direction counted in raw steps: the bounds below grow with
//! the squared length `quad_a` of the direction. A caller that wants hit
//! points within a few raw steps of the surface casts rays whose direction
//! has about length one.

use crate::arith::{
    floor_sqrt, lemma_floor_div_bounds, lemma_floor_sqrt_exists, lemma_square_under_rounding,
    lemma_trunc_div_bounds, trunc_div,
};
use crate::ray::RayView;
use crate::scalar::SCALE;
use crate::sphere::{lemma_quad_a_nonnegative, SphereView};
use crate::vec::{taxicab, Vec3View};
use vstd::prelude::*;

verus! {

impl SphereView {
    /// How far the point `p` is from the surface, in squares: its squared
    /// distance from the center less the squared radius. It is zero on the
    /// sphere, negative inside and positive outside.
    pub open spec fn surface_gap(self, p: Vec3View) -> int {
        p.minus(self.center).dot(p.minus(self.center)) - self.radius * self.radius
    }

    /// `SCALE` times the offset from the center to the exact point of the ray
    /// at the parameter of raw value `t`, before any rounding.
    pub open spec fn exact_offset(self, r: RayView, t: int) -> Vec3View {
        Vec3View {
            x: SCALE * self.offset(r).x + t * r.direction.x,
            y: SCALE * self.offset(r).y + t * r.direction.y,
            z: SCALE * self.offset(r).z + t * r.direction.z,
        }
    }

    /// The value at the parameter of raw value `t` of the quadratic whose
    /// roots are the intersections: `SCALE * SCALE` times the surface gap of
    /// the exact point of the ray there.
    pub open spec fn residual(self, r: RayView, t: int) -> int {
        self.quad_a(r) * (t * t) + 2 * (self.quad_half_b(r) * (SCALE * t)) + self.quad_c(r) * (
        SCALE * SCALE)
    }

    /// What bounds `quad_a` times the residual at a reported root: the
    /// rounding of the square root and of the quotient.
    pub open spec fn residual_bound(self, r: RayView) -> int {
        2 * (floor_sqrt(self.discriminant(r)) * SCALE) * (self.quad_a(r) + SCALE) + self.quad_a(r)
            * self.quad_a(r)
    }
}

/// Completing the square: `a * (a t^2 + 2 h s t + c s^2) = (a t + h s)^2 - (h^2 - a c) s^2`.
proof fn lemma_complete_square(a: int, h: int, c: int, s: int, t: int)
    ensures
        a * (a * (t * t) + 2 * (h * (s * t)) + c * (s * s)) == (a * t + h * s) * (a * t + h * s)
            - (h * h - a * c) * (s * s),
{
    let x = a * t;
    let y = h * s;
    assert((x + y) * (x + y) == x * x + 2 * (x * y) + y * y) by (nonlinear_arith);
    assert(x * x == a * (a * (t * t))) by (nonlinear_arith)
        requires
            x == a * t,
    ;
    assert(x * y == a * (h * (s * t))) by (nonlinear_arith)
        requires
            x == a * t,
            y == h * s,
    ;
    assert(y * y == (h * h) * (s * s)) by (nonlinear_arith)
        requires
            y == h * s,
    ;
    assert((h * h - a * c) * (s * s) == (h * h) * (s * s) - a * (c * (s * s)))
        by (nonlinear_arith);
    let p = a * (t * t);
    let m = h * (s * t);
    let n = c * (s * s);
    assert(a * (p + 2 * m + n) == a * p + 2 * (a * m) + a * n) by (nonlinear_arith);
}

/// The square of `q s + e` against the squares between which the
/// discriminant lies, for a remainder `e` below `a`.
proof fn lemma_near_square(q: int, s: int, e: int, a: int, d: int)
    by (nonlinear_arith)
    requires
        0 <= q,
        0 < s,
        0 <= e < a,
        q * q <= d < (q + 1) * (q + 1),
    ensures
        -(2 * (q * s) * s) <= (q * s + e) * (q * s + e) - d * (s * s) <= 2 * (q * s) * a + a * a,
{
}

/// The square of `q s - e` against the squares between which the
/// discriminant lies, for a remainder `e` below `a`.
proof fn lemma_far_square(q: int, s: int, e: int, a: int, d: int)
    by (nonlinear_arith)
    requires
        0 <= q,
        0 < s,
        0 <= e < a,
        q * q <= d < (q + 1) * (q + 1),
    ensures
        -(2 * (q * s) * (a + s)) <= (q * s - e) * (q * s - e) - d * (s * s) <= a * a,
{
}

/// At either root the quadratic is nearly zero: `quad_a` times the residual
/// is within the residual bound.
pub proof fn lemma_residual_at_roots(s: SphereView, r: RayView)
    requires
        s.quad_a(r) > 0,
        s.discriminant(r) >= 0,
    ensures
        -s.residual_bound(r) <= s.quad_a(r) * s.residual(r, s.near_root(r)) <= s.residual_bound(r),
        -s.residual_bound(r) <= s.quad_a(r) * s.residual(r, s.far_root(r)) <= s.residual_bound(r),
{
    let a = s.quad_a(r);
    let h = s.quad_half_b(r);
    let c = s.quad_c(r);
    let d = s.discriminant(r);
    let q = floor_sqrt(d);
    let k = SCALE as int;
    lemma_floor_sqrt_exists(d);
    assert(0 <= q * k) by (nonlinear_arith)
        requires
            0 <= q,
            k == 65536,
    ;
    assert(2 * (q * k) * (a + k) == 2 * (q * k) * a + 2 * (q * k) * k) by (nonlinear_arith);
    assert(0 <= 2 * (q * k) * a && 0 <= 2 * (q * k) * k && 0 <= a * a) by (nonlinear_arith)
        requires
            0 <= q * k,
            0 < a,
            0 < k,
    ;
    // the smaller root
    let t1 = s.near_root(r);
    lemma_floor_div_bounds((-h - q) * k, a);
    let e1 = (-h - q) * k - t1 * a;
    assert(0 <= e1 < a) by (nonlinear_arith)
        requires
            t1 * a <= (-h - q) * k < (t1 + 1) * a,
            e1 == (-h - q) * k - t1 * a,
    ;
    assert(a * t1 + h * k == -(q * k + e1)) by (nonlinear_arith)
        requires
            e1 == (-h - q) * k - t1 * a,
    ;
    assert((a * t1 + h * k) * (a * t1 + h * k) == (q * k + e1) * (q * k + e1))
        by (nonlinear_arith)
        requires
            a * t1 + h * k == -(q * k + e1),
    ;
    lemma_complete_square(a, h, c, k, t1);
    lemma_near_square(q, k, e1, a, d);
    // the larger root
    let t2 = s.far_root(r);
    lemma_floor_div_bounds((-h + q) * k, a);
    let e2 = (-h + q) * k - t2 * a;
    assert(0 <= e2 < a) by (nonlinear_arith)
        requires
            t2 * a <= (-h + q) * k < (t2 + 1) * a,
            e2 == (-h + q) * k - t2 * a,
    ;
    assert(a * t2 + h * k == q * k - e2) by (nonlinear_arith)
        requires
            e2 == (-h + q) * k - t2 * a,
    ;
    lemma_complete_square(a, h, c, k, t2);
    lemma_far_square(q, k, e2, a, d);
}

/// A miss is a true miss: where the discriminant is negative, the exact
/// point of the ray at any parameter lies outside the sphere.
pub proof fn lemma_negative_discriminant_misses(s: SphereView, r: RayView, t: int)
    requires
        s.quad_a(r) > 0,
        s.discriminant(r) < 0,
    ensures
        s.residual(r, t) > 0,
{
    let a = s.quad_a(r);
    let h = s.quad_half_b(r);
    let c = s.quad_c(r);
    let d = s.discriminant(r);
    let k = SCALE as int;
    lemma_complete_square(a, h, c, k, t);
    let m = a * t + h * k;
    let f = s.residual(r, t);
    assert(f > 0) by (nonlinear_arith)
        requires
            a > 0,
            d < 0,
            k > 0,
            a * f == m * m - d * (k * k),
    ;
}

/// The smaller root is where the ray enters: for a direction of squared
/// length above `SCALE`, the exact point of the ray at any parameter before
/// the smaller root lies outside the sphere.
pub proof fn lemma_outside_before_near_root(s: SphereView, r: RayView, t: int)
    requires
        s.quad_a(r) > SCALE,
        s.discriminant(r) >= 0,
        t < s.near_root(r),
    ensures
        s.residual(r, t) > 0,
{
    let a = s.quad_a(r);
    let h = s.quad_half_b(r);
    let c = s.quad_c(r);
    let d = s.discriminant(r);
    let q = floor_sqrt(d);
    let k = SCALE as int;
    let t1 = s.near_root(r);
    lemma_floor_sqrt_exists(d);
    lemma_floor_div_bounds((-h - q) * k, a);
    lemma_complete_square(a, h, c, k, t);
    let m = a * t + h * k;
    assert(a * t <= t1 * a - a) by (nonlinear_arith)
        requires
            a > 0,
            t <= t1 - 1,
    ;
    assert((-h - q) * k == -(h * k) - q * k && (q + 1) * k == q * k + k) by (nonlinear_arith);
    assert(m * m > d * (k * k)) by (nonlinear_arith)
        requires
            m < -((q + 1) * k),
            0 <= q,
            k > 0,
            d < (q + 1) * (q + 1),
    ;
    let f = s.residual(r, t);
    assert(f > 0) by (nonlinear_arith)
        requires
            a > 0,
            a * f == m * m - d * (k * k),
            m * m > d * (k * k),
    ;
}

/// The exact offset has the squared length that the residual measures
/// against the radius.
pub proof fn lemma_exact_offset_length(s: SphereView, r: RayView, t: int)
    ensures
        s.exact_offset(r, t).dot(s.exact_offset(r, t)) == s.residual(r, t) + (s.radius * s.radius)
            * (SCALE * SCALE),
{
    let oc = s.offset(r);
    let d = r.direction;
    let k = SCALE as int;
    lemma_offset_square(oc.x, d.x, k, t);
    lemma_offset_square(oc.y, d.y, k, t);
    lemma_offset_square(oc.z, d.z, k, t);
    let oo = oc.dot(oc);
    let od = oc.dot(d);
    let dd = d.dot(d);
    assert(oo * (k * k) == (oc.x * oc.x) * (k * k) + (oc.y * oc.y) * (k * k) + (oc.z * oc.z) * (k
        * k)) by (nonlinear_arith)
        requires
            oo == oc.x * oc.x + oc.y * oc.y + oc.z * oc.z,
    ;
    assert(od * (k * t) == (oc.x * d.x) * (k * t) + (oc.y * d.y) * (k * t) + (oc.z * d.z) * (k
        * t)) by (nonlinear_arith)
        requires
            od == oc.x * d.x + oc.y * d.y + oc.z * d.z,
    ;
    assert(dd * (t * t) == (d.x * d.x) * (t * t) + (d.y * d.y) * (t * t) + (d.z * d.z) * (t * t))
        by (nonlinear_arith)
        requires
            dd == d.x * d.x + d.y * d.y + d.z * d.z,
    ;
    let rr = s.radius * s.radius;
    assert((oo - rr) * (k * k) + rr * (k * k) == oo * (k * k)) by (nonlinear_arith);
}

/// The square of `k x + t d`, term by term.
proof fn lemma_offset_square(x: int, d: int, k: int, t: int)
    ensures
        (k * x + t * d) * (k * x + t * d) == (x * x) * (k * k) + 2 * ((x * d) * (k * t)) + (d * d)
            * (t * t),
{
    let p = k * x;
    let q = t * d;
    assert((p + q) * (p + q) == p * p + 2 * (p * q) + q * q) by (nonlinear_arith);
    assert(p * p == (x * x) * (k * k)) by (nonlinear_arith)
        requires
            p == k * x,
    ;
    assert(p * q == (x * d) * (k * t)) by (nonlinear_arith)
        requires
            p == k * x,
            q == t * d,
    ;
    assert(q * q == (d * d) * (t * t)) by (nonlinear_arith)
        requires
            q == t * d,
    ;
}

/// One component of the stored point: rounding the product moves it by
/// less than one raw step from the exact point.
proof fn lemma_stored_component(o: int, c: int, d: int, t: int)
    ensures
        ({
            let u = o + trunc_div(d * t, SCALE as int) - c;
            let w = SCALE * (o - c) + t * d;
            SCALE * u - SCALE < w < SCALE * u + SCALE
        }),
{
    lemma_trunc_div_bounds(d * t, SCALE as int);
    assert(d * t == t * d) by (nonlinear_arith);
}

/// The stored point against the exact point: `SCALE * SCALE` times the
/// surface gap of the stored point of the ray at `t` differs from the
/// residual by at most the rounding of its three components.
pub proof fn lemma_gap_of_stored_point(s: SphereView, r: RayView, t: int)
    ensures
        ({
            let u = r.at(t).minus(s.center);
            let gap = s.surface_gap(r.at(t));
            &&& s.residual(r, t) - (SCALE * SCALE) * (2 * taxicab(u) + 3) <= (SCALE * SCALE) * gap
            &&& (SCALE * SCALE) * gap <= s.residual(r, t) + (SCALE * SCALE) * (2 * taxicab(u))
        }),
{
    let u = r.at(t).minus(s.center);
    let w = s.exact_offset(r, t);
    let k = SCALE as int;
    let kk = k * k;
    lemma_stored_component(r.origin.x, s.center.x, r.direction.x, t);
    lemma_stored_component(r.origin.y, s.center.y, r.direction.y, t);
    lemma_stored_component(r.origin.z, s.center.z, r.direction.z, t);
    let mx = if u.x < 0 {
        -u.x
    } else {
        u.x
    };
    let my = if u.y < 0 {
        -u.y
    } else {
        u.y
    };
    let mz = if u.z < 0 {
        -u.z
    } else {
        u.z
    };
    lemma_square_under_rounding(u.x, w.x, k, mx);
    lemma_square_under_rounding(u.y, w.y, k, my);
    lemma_square_under_rounding(u.z, w.z, k, mz);
    lemma_exact_offset_length(s, r, t);
    let uu = u.dot(u);
    let rr = s.radius * s.radius;
    assert(kk * uu == kk * (u.x * u.x) + kk * (u.y * u.y) + kk * (u.z * u.z)) by (nonlinear_arith)
        requires
            uu == u.x * u.x + u.y * u.y + u.z * u.z,
    ;
    let n = taxicab(u);
    assert(kk * (2 * n) == 2 * (kk * mx) + 2 * (kk * my) + 2 * (kk * mz)) by (nonlinear_arith)
        requires
            n == mx + my + mz,
    ;
    assert(kk * (2 * n + 3) == kk * (2 * n) + 3 * kk) by (nonlinear_arith);
    assert(kk * (uu - rr) == kk * uu - rr * kk) by (nonlinear_arith);
}

/// Scaling an enclosure by a positive factor.
proof fn lemma_scale_enclosure(a: int, lo: int, x: int, hi: int)
    by (nonlinear_arith)
    requires
        a > 0,
        lo <= x <= hi,
    ensures
        a * lo <= a * x <= a * hi,
{
}

/// A reported hit point lies on the sphere up to rounding.
///
/// Write `u` for the offset from the center to the stored hit point, `a` for
/// the squared length of the ray's direction and `gap` for the squared
/// length of `u` less the squared radius. Then `a * SCALE * SCALE * gap`
/// differs from zero by no more than the residual bound, which accounts for
/// the rounding of the ray parameter, plus `a * SCALE * SCALE` times
/// `2 * taxicab(u) + 3`, which accounts for the rounding of the point's
/// three components to raw steps.
pub proof fn lemma_hit_point_near_surface(s: SphereView, r: RayView, t_min: int, t_max: int)
    ensures
        s.hit(r, t_min, t_max) matches Some(rec) ==> ({
            let a = s.quad_a(r);
            let slack = s.residual_bound(r) + a * ((SCALE * SCALE) * (2 * taxicab(
                rec.p.minus(s.center),
            ) + 3));
            -slack <= a * ((SCALE * SCALE) * s.surface_gap(rec.p)) <= slack
        }),
{
    if let Some(t) = s.root_in(r, t_min, t_max) {
        let a = s.quad_a(r);
        lemma_quad_a_nonnegative(s, r);
        lemma_residual_at_roots(s, r);
        lemma_gap_of_stored_point(s, r, t);
        let kk = SCALE * SCALE;
        let n = taxicab(r.at(t).minus(s.center));
        let f = s.residual(r, t);
        let g = kk * s.surface_gap(r.at(t));
        lemma_scale_enclosure(a, f - kk * (2 * n + 3), g, f + kk * (2 * n));
        assert(a * (f - kk * (2 * n + 3)) == a * f - a * (kk * (2 * n + 3))) by (nonlinear_arith);
        assert(a * (f + kk * (2 * n)) == a * f + a * (kk * (2 * n))) by (nonlinear_arith);
        assert(a * (kk * (2 * n)) <= a * (kk * (2 * n + 3))) by (nonlinear_arith)
            requires
                a > 0,
                kk > 0,
        ;
    }
}

/// Two enclosures of one number, chained.
proof fn lemma_chain_enclosures(a: int, rr: int, x: int, kk: int, gap: int, e1: int, e2: int)
    by (nonlinear_arith)
    requires
        a > 0,
        rr * x - e1 <= kk * gap <= rr * x + e1,
        -e2 <= a * (kk * gap) <= e2,
        e1 >= 0,
    ensures
        -(e2 + a * e1) <= a * (rr * x) <= e2 + a * e1,
{
}

/// The outward normal at a point has length one as nearly as the point lies
/// on the sphere: the squared radius times the excess of its squared length
/// over one differs from `SCALE * SCALE` times the surface gap of `p` by no
/// more than the rounding of the three quotients.
pub proof fn lemma_outward_normal_length(s: SphereView, p: Vec3View)
    requires
        s.radius > 0,
    ensures
        ({
            let n = s.outward_normal(p);
            let excess = n.dot(n) - SCALE * SCALE;
            let rr = s.radius * s.radius;
            &&& rr * excess - rr * (2 * taxicab(n) + 3) <= (SCALE * SCALE) * s.surface_gap(p)
            &&& (SCALE * SCALE) * s.surface_gap(p) <= rr * excess + rr * (2 * taxicab(n) + 3)
        }),
{
    let u = p.minus(s.center);
    let n = s.outward_normal(p);
    let k = SCALE as int;
    let rho = s.radius;
    let rr = rho * rho;
    lemma_trunc_div_bounds(u.x * k, rho);
    lemma_trunc_div_bounds(u.y * k, rho);
    lemma_trunc_div_bounds(u.z * k, rho);
    let mx = if n.x < 0 {
        -n.x
    } else {
        n.x
    };
    let my = if n.y < 0 {
        -n.y
    } else {
        n.y
    };
    let mz = if n.z < 0 {
        -n.z
    } else {
        n.z
    };
    lemma_square_under_rounding(n.x, u.x * k, rho, mx);
    lemma_square_under_rounding(n.y, u.y * k, rho, my);
    lemma_square_under_rounding(n.z, u.z * k, rho, mz);
    let kk = k * k;
    assert((u.x * k) * (u.x * k) == kk * (u.x * u.x) && (u.y * k) * (u.y * k) == kk * (u.y * u.y)
        && (u.z * k) * (u.z * k) == kk * (u.z * u.z)) by (nonlinear_arith)
        requires
            kk == k * k,
    ;
    let uu = u.dot(u);
    let nn = n.dot(n);
    let t = taxicab(n);
    assert(kk * uu == kk * (u.x * u.x) + kk * (u.y * u.y) + kk * (u.z * u.z)) by (nonlinear_arith)
        requires
            uu == u.x * u.x + u.y * u.y + u.z * u.z,
    ;
    assert(rr * nn == rr * (n.x * n.x) + rr * (n.y * n.y) + rr * (n.z * n.z)) by (nonlinear_arith)
        requires
            nn == n.x * n.x + n.y * n.y + n.z * n.z,
    ;
    assert(rr * (2 * t + 3) == 2 * (rr * mx) + 2 * (rr * my) + 2 * (rr * mz) + 3 * rr)
        by (nonlinear_arith)
        requires
            t == mx + my + mz,
    ;
    assert(kk * (uu - rr) == kk * uu - rr * kk) by (nonlinear_arith);
    assert(rr * (nn - kk) == rr * nn - rr * kk) by (nonlinear_arith);
}

/// The normal of a reported hit has length one up to rounding.
///
/// Write `n` for the stored normal, `rho` for the radius and `a` for the
/// squared length of the ray's direction. Then `a * rho * rho` times the
/// excess of the squared length of `n` over one differs from zero by no more
/// than the slack of the hit point, as in `lemma_hit_point_near_surface`,
/// plus `a * rho * rho` times `2 * taxicab(n) + 3`.
pub proof fn lemma_hit_normal_near_unit(s: SphereView, r: RayView, t_min: int, t_max: int)
    ensures
        s.hit(r, t_min, t_max) matches Some(rec) ==> ({
            let a = s.quad_a(r);
            let rr = s.radius * s.radius;
            let slack = s.residual_bound(r) + a * ((SCALE * SCALE) * (2 * taxicab(
                rec.p.minus(s.center),
            ) + 3)) + a * (rr * (2 * taxicab(rec.normal) + 3));
            -slack <= a * (rr * (rec.normal.dot(rec.normal) - SCALE * SCALE)) <= slack
        }),
{
    if let Some(t) = s.root_in(r, t_min, t_max) {
        let rec = s.record_at(r, t);
        let a = s.quad_a(r);
        let rr = s.radius * s.radius;
        let kk = SCALE * SCALE;
        lemma_quad_a_nonnegative(s, r);
        lemma_hit_point_near_surface(s, r, t_min, t_max);
        lemma_outward_normal_length(s, rec.p);
        let n = s.outward_normal(rec.p);
        assert(n.negated().dot(n.negated()) == n.dot(n)) by (nonlinear_arith)
            requires
                n.negated().dot(n.negated()) == (-n.x) * (-n.x) + (-n.y) * (-n.y) + (-n.z) * (
                -n.z),
                n.dot(n) == n.x * n.x + n.y * n.y + n.z * n.z,
        ;
        let excess = n.dot(n) - kk;
        let e1 = rr * (2 * taxicab(n) + 3);
        let e2 = s.residual_bound(r) + a * (kk * (2 * taxicab(rec.p.minus(s.center)) + 3));
        assert(e1 >= 0) by (nonlinear_arith)
            requires
                e1 == rr * (2 * taxicab(n) + 3),
                rr == s.radius * s.radius,
                taxicab(n) >= 0,
        ;
        lemma_chain_enclosures(a, rr, excess, kk, s.surface_gap(rec.p), e1, e2);
    }
}

} // verus!
