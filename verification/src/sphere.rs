//! Spheres and the intersection of a ray with a sphere.

use crate::arith::{
    div_floor, floor_div, floor_sqrt, is_floor_sqrt, isqrt,
    lemma_floor_div_monotone, lemma_floor_sqrt_exists, lemma_product_bounded,
    lemma_trunc_div_bounds, lemma_trunc_div_magnitude,
};
use crate::hit::{lemma_facing_opposes, HitRecord, HitView, Hittable};
use crate::point::Point3;
use crate::ray::{Ray, RayView};
use crate::scalar::{in_range, wide_mul, Scalar, SCALE, SCALE_WIDE};
use crate::vec::{dot_exact, lemma_dot_bounded, Vec3View};
use vstd::prelude::*;

verus! {

/// The mathematical model of a sphere.
pub struct SphereView {
    pub center: Vec3View,
    pub radius: int,
}

impl SphereView {
    /// Center and radius lie within the range on which intersection is exact.
    pub open spec fn in_range(self) -> bool {
        self.center.in_range() && in_range(self.radius)
    }

    /// From the center to the ray's origin.
    pub open spec fn offset(self, r: RayView) -> Vec3View {
        r.origin.minus(self.center)
    }

    /// Leading coefficient of the quadratic in the ray parameter whose roots
    /// are the intersections: the squared length of the direction.
    pub open spec fn quad_a(self, r: RayView) -> int {
        r.direction.dot(r.direction)
    }

    /// Half the linear coefficient of the quadratic.
    pub open spec fn quad_half_b(self, r: RayView) -> int {
        self.offset(r).dot(r.direction)
    }

    /// Constant coefficient of the quadratic.
    pub open spec fn quad_c(self, r: RayView) -> int {
        self.offset(r).dot(self.offset(r)) - self.radius * self.radius
    }

    /// A quarter of the quadratic's discriminant, exactly: it is negative if
    /// and only if the line of the ray misses the sphere.
    pub open spec fn discriminant(self, r: RayView) -> int {
        self.quad_half_b(r) * self.quad_half_b(r) - self.quad_a(r) * self.quad_c(r)
    }

    /// The ray has no direction or the sphere no positive radius.
    pub open spec fn degenerate(self, r: RayView) -> bool {
        self.radius <= 0 || self.quad_a(r) == 0
    }

    /// Raw value of the smaller root, rounded down.
    pub open spec fn near_root(self, r: RayView) -> int {
        floor_div(
            (-self.quad_half_b(r) - floor_sqrt(self.discriminant(r))) * SCALE,
            self.quad_a(r),
        )
    }

    /// Raw value of the larger root, rounded down.
    pub open spec fn far_root(self, r: RayView) -> int {
        floor_div(
            (-self.quad_half_b(r) + floor_sqrt(self.discriminant(r))) * SCALE,
            self.quad_a(r),
        )
    }

    /// The root that counts: the smaller one if it lies in the window
    /// `(t_min, t_max]`, else the larger one if that does.
    pub open spec fn root_in(self, r: RayView, t_min: int, t_max: int) -> Option<int> {
        if self.degenerate(r) || self.discriminant(r) < 0 {
            None
        } else if t_min < self.near_root(r) <= t_max {
            Some(self.near_root(r))
        } else if t_min < self.far_root(r) <= t_max {
            Some(self.far_root(r))
        } else {
            None
        }
    }

    /// The outward normal at the point `p`: from the center to `p`, divided
    /// by the radius.
    pub open spec fn outward_normal(self, p: Vec3View) -> Vec3View {
        p.minus(self.center).divided(self.radius)
    }

    /// The record of the hit at ray parameter `t`.
    pub open spec fn record_at(self, r: RayView, t: int) -> HitView {
        HitView::facing(r.at(t), t, r, self.outward_normal(r.at(t)))
    }

    /// The outcome of testing the ray against the sphere within the window
    /// `(t_min, t_max]`.
    pub open spec fn hit(self, r: RayView, t_min: int, t_max: int) -> Option<HitView> {
        match self.root_in(r, t_min, t_max) {
            Some(t) => Some(self.record_at(r, t)),
            None => None,
        }
    }
}

/// A sphere: a center and a radius.
///
/// A ray strikes it where the quadratic in the ray parameter has a root in
/// the window. The reported parameter is the root rounded down to a raw
/// step, the hit point is the point of the ray at that parameter, and the
/// normal is the offset from the center to the hit point over the radius.
/// The hit point therefore lies on the sphere only as nearly as one raw step
/// of the parameter allows, which is the length of the ray's direction in raw
/// steps, and the normal has length one only as nearly as that; `accuracy`
/// states both bounds.
#[derive(Debug, Copy, Clone)]
pub struct Sphere {
    pub center: Point3,
    pub radius: Scalar,
}

impl View for Sphere {
    type V = SphereView;

    open spec fn view(&self) -> SphereView {
        SphereView { center: self.center@, radius: self.radius@ }
    }
}

/// The smaller root is no larger than the larger one.
pub proof fn lemma_roots_ordered(s: SphereView, r: RayView)
    requires
        s.quad_a(r) > 0,
        s.discriminant(r) >= 0,
    ensures
        s.near_root(r) <= s.far_root(r),
{
    lemma_floor_sqrt_exists(s.discriminant(r));
    let q = floor_sqrt(s.discriminant(r));
    let hb = s.quad_half_b(r);
    lemma_floor_div_monotone((-hb - q) * SCALE, (-hb + q) * SCALE, s.quad_a(r));
}

/// The squared length of a direction is never negative.
pub proof fn lemma_quad_a_nonnegative(s: SphereView, r: RayView)
    ensures
        s.quad_a(r) >= 0,
{
    let d = r.direction;
    assert(d.x * d.x + d.y * d.y + d.z * d.z >= 0) by (nonlinear_arith);
}

/// Within range, the coefficients of the quadratic and its discriminant stay
/// far inside 128 bits.
pub proof fn lemma_quadratic_bounds(s: SphereView, r: RayView)
    requires
        s.in_range(),
        r.in_range(),
    ensures
        s.offset(r).bounded(0x8000_0000),
        0 <= s.quad_a(r) <= 0x3000_0000_0000_0000,
        -0x6000_0000_0000_0000 <= s.quad_half_b(r) <= 0x6000_0000_0000_0000,
        0 <= s.offset(r).dot(s.offset(r)) <= 0xc000_0000_0000_0000,
        0 <= s.radius * s.radius <= 0x1000_0000_0000_0000,
        -0x1000_0000_0000_0000 <= s.quad_c(r) <= 0xc000_0000_0000_0000,
        0 <= s.quad_half_b(r) * s.quad_half_b(r) <= 0x2400_0000_0000_0000_0000_0000_0000_0000,
        -0x0300_0000_0000_0000_0000_0000_0000_0000 <= s.quad_a(r) * s.quad_c(r)
            <= 0x2400_0000_0000_0000_0000_0000_0000_0000,
        -0x2400_0000_0000_0000_0000_0000_0000_0000 <= s.discriminant(r)
            <= 0x2700_0000_0000_0000_0000_0000_0000_0000,
{
    let oc = s.offset(r);
    let d = r.direction;
    lemma_quad_a_nonnegative(s, r);
    lemma_dot_bounded(d, d, 0x4000_0000, 0x4000_0000);
    lemma_dot_bounded(oc, d, 0x8000_0000, 0x4000_0000);
    lemma_dot_bounded(oc, oc, 0x8000_0000, 0x8000_0000);
    assert(oc.x * oc.x + oc.y * oc.y + oc.z * oc.z >= 0) by (nonlinear_arith);
    lemma_product_bounded(s.radius, s.radius, 0x4000_0000, 0x4000_0000);
    assert(s.radius * s.radius >= 0) by (nonlinear_arith);
    let a = s.quad_a(r);
    let hb = s.quad_half_b(r);
    let c = s.quad_c(r);
    lemma_product_bounded(hb, hb, 0x6000_0000_0000_0000, 0x6000_0000_0000_0000);
    assert(hb * hb >= 0) by (nonlinear_arith);
    assert(-0x0300_0000_0000_0000_0000_0000_0000_0000 <= a * c
        <= 0x2400_0000_0000_0000_0000_0000_0000_0000) by (nonlinear_arith)
        requires
            0 <= a <= 0x3000_0000_0000_0000,
            -0x1000_0000_0000_0000 <= c <= 0xc000_0000_0000_0000,
    ;
}

/// The integer square root of a number of at most `39 * 2^120` is below
/// `7 * 2^60`.
pub proof fn lemma_root_bounded(n: int, q: int)
    by (nonlinear_arith)
    requires
        is_floor_sqrt(n, q),
        n <= 0x2700_0000_0000_0000_0000_0000_0000_0000,
    ensures
        0 <= q < 0x7000_0000_0000_0000,
{
}

/// For a ray and a sphere within range and a ray parameter within range, the
/// hit point and the outward normal there can be stored.
pub proof fn lemma_record_fits(s: SphereView, r: RayView, t: int)
    requires
        s.in_range(),
        r.in_range(),
        in_range(t),
        s.radius > 0,
    ensures
        r.direction.scaled(t).bounded(0x1000_0000_0000),
        r.at(t).bounded(0x1000_4000_0000),
        r.at(t).minus(s.center).bounded(0x1000_8000_0000),
        s.outward_normal(r.at(t)).bounded(0x1000_8000_0000_0000),
{
    let d = r.direction;
    lemma_product_bounded(d.x, t, 0x4000_0000, 0x4000_0000);
    lemma_product_bounded(d.y, t, 0x4000_0000, 0x4000_0000);
    lemma_product_bounded(d.z, t, 0x4000_0000, 0x4000_0000);
    lemma_trunc_div_magnitude(d.x * t, SCALE as int, 0x1000_0000_0000_0000);
    lemma_trunc_div_magnitude(d.y * t, SCALE as int, 0x1000_0000_0000_0000);
    lemma_trunc_div_magnitude(d.z * t, SCALE as int, 0x1000_0000_0000_0000);
    lemma_trunc_div_bounds(d.x * t, SCALE as int);
    lemma_trunc_div_bounds(d.y * t, SCALE as int);
    lemma_trunc_div_bounds(d.z * t, SCALE as int);
    let v = r.at(t).minus(s.center);
    lemma_trunc_div_magnitude(v.x * SCALE, s.radius, 0x1000_8000_0000_0000);
    lemma_trunc_div_magnitude(v.y * SCALE, s.radius, 0x1000_8000_0000_0000);
    lemma_trunc_div_magnitude(v.z * SCALE, s.radius, 0x1000_8000_0000_0000);
}

impl Sphere {
    /// The sphere with the given center and radius.
    pub fn new(center: Point3, radius: Scalar) -> (s: Sphere)
        ensures
            s.center == center,
            s.radius == radius,
    {
        Sphere { center, radius }
    }

    /// The center.
    pub fn center(&self) -> (c: Point3)
        ensures
            c == self.center,
    {
        self.center
    }

    /// The radius.
    pub fn radius(&self) -> (radius: Scalar)
        ensures
            radius == self.radius,
    {
        self.radius
    }

    /// The record of the hit at ray parameter `t`.
    fn record_at(&self, r: &Ray, t: Scalar) -> (rec: HitRecord)
        requires
            self@.in_range(),
            r@.in_range(),
            in_range(t@),
            self.radius@ > 0,
        ensures
            rec@ == self@.record_at(r@, t@),
    {
        proof {
            lemma_record_fits(self@, r@, t@);
        }
        let p = r.at(t);
        let outward_normal = (p - self.center) / self.radius;
        let mut rec = HitRecord { p, normal: outward_normal, t, front_face: true };
        rec.set_face_normal(r, &outward_normal);
        rec
    }
}

impl Hittable for Sphere {
    open spec fn in_range(&self) -> bool {
        self@.in_range()
    }

    fn is_in_range(&self) -> (b: bool) {
        self.center.is_in_range() && self.radius.is_in_range()
    }

    open spec fn hit_spec(&self, r: RayView, t_min: int, t_max: int) -> Option<HitView> {
        self@.hit(r, t_min, t_max)
    }

    proof fn lemma_hit_sound(&self, r: RayView, t_min: int, t_max: int) {
        match self@.root_in(r, t_min, t_max) {
            Some(t) => {
                lemma_facing_opposes(r.at(t), t, r, self@.outward_normal(r.at(t)));
            },
            None => {},
        }
    }

    proof fn lemma_hit_narrowed(&self, r: RayView, t_min: int, t_mid: int, t_max: int) {
        let s = self@;
        lemma_quad_a_nonnegative(s, r);
        if !s.degenerate(r) && s.discriminant(r) >= 0 {
            lemma_roots_ordered(s, r);
        }
    }

    fn hit(&self, r: &Ray, t_min: Scalar, t_max: Scalar) -> (res: Option<HitRecord>) {
        proof {
            lemma_quadratic_bounds(self@, r@);
            self.lemma_hit_sound(r@, t_min@, t_max@);
        }
        if self.radius.raw <= 0 {
            return None;
        }
        let oc = *r.origin() - self.center;
        let a: i128 = dot_exact(r.direction(), r.direction());
        if a == 0 {
            return None;
        }
        let half_b: i128 = dot_exact(&oc, r.direction());
        let c: i128 = dot_exact(&oc, &oc) - wide_mul(self.radius.raw, self.radius.raw);
        let discriminant: i128 = half_b * half_b - a * c;
        if discriminant < 0 {
            return None;
        }
        let sqrtd: i128 = isqrt(discriminant as u128) as i128;
        proof {
            lemma_root_bounded(discriminant as int, sqrtd as int);
        }
        // nearest root within range
        let mut root: i128 = div_floor((-half_b - sqrtd) * SCALE_WIDE, a);
        if root <= t_min.raw as i128 || root > t_max.raw as i128 {
            root = div_floor((-half_b + sqrtd) * SCALE_WIDE, a);
            if root <= t_min.raw as i128 || root > t_max.raw as i128 {
                return None;
            }
        }
        Some(self.record_at(r, Scalar { raw: root as i64 }))
    }
}

} // verus!
