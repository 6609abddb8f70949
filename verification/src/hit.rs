//! The hit record, the interface of surfaces that a ray can strike, and
//! collections of such surfaces with nearest-hit resolution.

use crate::point::Point3;
use crate::ray::{Ray, RayView};
use crate::scalar::{in_range, Scalar};
use crate::vec::{dot_is_negative, Vec3, Vec3View};
use core::ops::Neg;
use vstd::prelude::*;

verus! {

/// The mathematical model of a hit record.
pub struct HitView {
    pub p: Vec3View,
    pub normal: Vec3View,
    pub t: int,
    pub front_face: bool,
}

impl HitView {
    /// The record of a hit at point `p` and parameter `t`, where the surface's
    /// outward normal is `outward`: the ray meets the front face when it runs
    /// against the outward normal, and the stored normal is turned so that it
    /// never runs along the ray.
    pub open spec fn facing(p: Vec3View, t: int, r: RayView, outward: Vec3View) -> HitView {
        let front = r.direction.dot(outward) < 0;
        HitView {
            p,
            normal: if front {
                outward
            } else {
                outward.negated()
            },
            t,
            front_face: front,
        }
    }

    /// The stored normal does not run along the ray.
    pub open spec fn opposes(self, r: RayView) -> bool {
        r.direction.dot(self.normal) <= 0
    }

    /// The ray parameter lies in the window `(t_min, t_max]`.
    pub open spec fn within(self, t_min: int, t_max: int) -> bool {
        t_min < self.t <= t_max
    }
}

/// Turning a normal against the ray: whichever way the outward normal
/// points, the stored normal opposes the ray.
pub proof fn lemma_facing_opposes(p: Vec3View, t: int, r: RayView, outward: Vec3View)
    ensures
        HitView::facing(p, t, r, outward).opposes(r),
{
    let d = r.direction;
    assert(d.dot(outward.negated()) == -d.dot(outward)) by (nonlinear_arith)
        requires
            d.dot(outward) == d.x * outward.x + d.y * outward.y + d.z * outward.z,
            d.dot(outward.negated()) == d.x * (-outward.x) + d.y * (-outward.y) + d.z * (
            -outward.z),
    ;
}

/// What a successful intersection test reports: the hit point, the surface
/// normal turned against the ray, the ray parameter, and whether the ray met
/// the surface from outside.
#[derive(Debug, Copy, Clone)]
pub struct HitRecord {
    pub p: Point3,
    pub normal: Vec3,
    pub t: Scalar,
    pub front_face: bool,
}

impl View for HitRecord {
    type V = HitView;

    open spec fn view(&self) -> HitView {
        HitView { p: self.p@, normal: self.normal@, t: self.t@, front_face: self.front_face }
    }
}

/// The model of the outcome of an intersection test.
pub open spec fn hit_view(res: Option<HitRecord>) -> Option<HitView> {
    match res {
        Some(rec) => Some(rec@),
        None => None,
    }
}

/// The outcome `h`, kept only if it is no farther than `t_max`.
pub open spec fn no_farther(h: Option<HitView>, t_max: int) -> Option<HitView> {
    match h {
        Some(rec) => if rec.t <= t_max {
            h
        } else {
            None
        },
        None => None,
    }
}

impl HitRecord {
    /// Sets `front_face` and `normal` from the ray and the surface's outward
    /// normal: the ray meets the front face when its direction has a negative
    /// dot product with the outward normal, and then the outward normal is
    /// stored as given; otherwise its opposite is stored.
    pub fn set_face_normal(&mut self, r: &Ray, outward_normal: &Vec3)
        requires
            outward_normal@.negated().fits(),
        ensures
            final(self)@ == HitView::facing(old(self)@.p, old(self)@.t, r@, outward_normal@),
            final(self)@.opposes(r@),
    {
        proof {
            lemma_facing_opposes(self@.p, self@.t, r@, outward_normal@);
        }
        self.front_face = dot_is_negative(r.direction(), outward_normal);
        self.normal = if self.front_face {
            *outward_normal
        } else {
            outward_normal.neg()
        };
    }
}

/// A surface that can say whether and where a ray strikes it.
pub trait Hittable {
    /// The surface's data lie within the range on which intersection is
    /// exact.
    spec fn in_range(&self) -> bool;

    /// Whether the surface's data lie within the range on which
    /// intersection is exact.
    fn is_in_range(&self) -> (b: bool)
        ensures
            b == self.in_range(),
    ;

    /// The nearest intersection of the ray with the surface whose parameter
    /// lies in the window `(t_min, t_max]`, if there is one.
    spec fn hit_spec(&self, r: RayView, t_min: int, t_max: int) -> Option<HitView>;

    /// A reported hit lies in the window and its normal opposes the ray.
    proof fn lemma_hit_sound(&self, r: RayView, t_min: int, t_max: int)
        ensures
            self.hit_spec(r, t_min, t_max) matches Some(h) ==> h.within(t_min, t_max)
                && h.opposes(r),
    ;

    /// Lowering the far end of the window keeps the reported hit if it is
    /// still inside, and reports none otherwise: the surface always reports
    /// its nearest intersection.
    proof fn lemma_hit_narrowed(&self, r: RayView, t_min: int, t_mid: int, t_max: int)
        requires
            t_mid <= t_max,
        ensures
            self.hit_spec(r, t_min, t_mid) == no_farther(self.hit_spec(r, t_min, t_max), t_mid),
    ;

    /// Tests the ray against the surface within the window `(t_min, t_max]`.
    fn hit(&self, r: &Ray, t_min: Scalar, t_max: Scalar) -> (res: Option<HitRecord>)
        requires
            self.in_range(),
            r@.in_range(),
            in_range(t_min@),
            in_range(t_max@),
        ensures
            hit_view(res) == self.hit_spec(r@, t_min@, t_max@),
            res matches Some(rec) ==> rec@.within(t_min@, t_max@) && rec@.opposes(r@),
    ;
}

/// Querying again changes nothing: two outcomes of testing the same ray
/// against the same surface within the same window are one and the same.
pub proof fn lemma_hit_repeatable<T: Hittable>(
    surface: T,
    r: RayView,
    t_min: int,
    t_max: int,
    first: Option<HitRecord>,
    second: Option<HitRecord>,
)
    requires
        hit_view(first) == surface.hit_spec(r, t_min, t_max),
        hit_view(second) == surface.hit_spec(r, t_min, t_max),
    ensures
        first == second,
{
}

/// The outcome of testing the ray against each surface in turn, each within
/// the window that ends at the nearest hit found so far: the nearest hit
/// among the surfaces, the later surface winning between equally near hits.
pub open spec fn nearest_hit<T: Hittable>(
    objects: Seq<T>,
    r: RayView,
    t_min: int,
    t_max: int,
) -> Option<HitView>
    decreases objects.len(),
{
    if objects.len() == 0 {
        None
    } else {
        let before = nearest_hit(objects.drop_last(), r, t_min, t_max);
        match objects.last().hit_spec(r, t_min, closest_so_far(before, t_max)) {
            Some(h) => Some(h),
            None => before,
        }
    }
}

/// The far end of the window once the outcome `before` is known.
pub open spec fn closest_so_far(before: Option<HitView>, t_max: int) -> int {
    match before {
        Some(h) => h.t,
        None => t_max,
    }
}

/// The nearest hit among the surfaces lies in the window and its normal
/// opposes the ray.
pub proof fn lemma_nearest_hit_sound<T: Hittable>(
    objects: Seq<T>,
    r: RayView,
    t_min: int,
    t_max: int,
)
    ensures
        nearest_hit(objects, r, t_min, t_max) matches Some(h) ==> h.within(t_min, t_max)
            && h.opposes(r),
    decreases objects.len(),
{
    if objects.len() > 0 {
        let before = nearest_hit(objects.drop_last(), r, t_min, t_max);
        lemma_nearest_hit_sound(objects.drop_last(), r, t_min, t_max);
        objects.last().lemma_hit_sound(r, t_min, closest_so_far(before, t_max));
    }
}

/// Lowering the far end of the window keeps the nearest hit if it is still
/// inside, and leaves none otherwise.
pub proof fn lemma_nearest_hit_narrowed<T: Hittable>(
    objects: Seq<T>,
    r: RayView,
    t_min: int,
    t_mid: int,
    t_max: int,
)
    requires
        t_mid <= t_max,
    ensures
        nearest_hit(objects, r, t_min, t_mid) == no_farther(
            nearest_hit(objects, r, t_min, t_max),
            t_mid,
        ),
    decreases objects.len(),
{
    if objects.len() > 0 {
        let rest = objects.drop_last();
        let last = objects.last();
        lemma_nearest_hit_narrowed(rest, r, t_min, t_mid, t_max);
        lemma_nearest_hit_sound(rest, r, t_min, t_max);
        let wide = nearest_hit(rest, r, t_min, t_max);
        let narrow = nearest_hit(rest, r, t_min, t_mid);
        let wide_end = closest_so_far(wide, t_max);
        let narrow_end = closest_so_far(narrow, t_mid);
        last.lemma_hit_sound(r, t_min, wide_end);
        if narrow_end != wide_end {
            last.lemma_hit_narrowed(r, t_min, t_mid, wide_end);
        }
    }
}

/// Nearest-hit law. The hit reported for a sequence of surfaces is the hit
/// that one of them reports for the same window, and no surface reports a
/// nearer one; none is reported exactly when no surface reports any.
pub proof fn lemma_nearest_hit_is_minimum<T: Hittable>(
    objects: Seq<T>,
    r: RayView,
    t_min: int,
    t_max: int,
)
    ensures
        match nearest_hit(objects, r, t_min, t_max) {
            Some(h) => {
                &&& exists|i: int|
                    0 <= i < objects.len() && #[trigger] objects[i].hit_spec(r, t_min, t_max)
                        == Some(h)
                &&& forall|j: int|
                    0 <= j < objects.len() ==> (#[trigger] objects[j].hit_spec(
                        r,
                        t_min,
                        t_max,
                    ) matches Some(g) ==> h.t <= g.t)
            },
            None => forall|j: int|
                0 <= j < objects.len() ==> #[trigger] objects[j].hit_spec(r, t_min, t_max)
                    is None,
        },
    decreases objects.len(),
{
    if objects.len() > 0 {
        let rest = objects.drop_last();
        let last = objects.last();
        let n = objects.len() - 1;
        lemma_nearest_hit_is_minimum(rest, r, t_min, t_max);
        lemma_nearest_hit_sound(rest, r, t_min, t_max);
        let before = nearest_hit(rest, r, t_min, t_max);
        let end = closest_so_far(before, t_max);
        last.lemma_hit_narrowed(r, t_min, end, t_max);
        last.lemma_hit_sound(r, t_min, t_max);
        match last.hit_spec(r, t_min, end) {
            Some(h) => {
                assert forall|j: int| 0 <= j < objects.len() implies (
                #[trigger] objects[j].hit_spec(r, t_min, t_max) matches Some(g) ==> h.t
                    <= g.t) by {
                    if j < n {
                        assert(rest[j].hit_spec(r, t_min, t_max) == objects[j].hit_spec(
                            r,
                            t_min,
                            t_max,
                        ));
                    }
                }
            },
            None => {
                match before {
                    Some(b) => {
                        assert forall|j: int| 0 <= j < objects.len() implies (
                        #[trigger] objects[j].hit_spec(r, t_min, t_max) matches Some(g) ==> b.t
                            <= g.t) by {
                            if j < n {
                                assert(rest[j].hit_spec(r, t_min, t_max) == objects[j].hit_spec(
                                    r,
                                    t_min,
                                    t_max,
                                ));
                            }
                        }
                    },
                    None => {
                        assert forall|j: int| 0 <= j < objects.len() implies #[trigger] objects[j].hit_spec(
                            r,
                            t_min,
                            t_max,
                        ) is None by {
                            if j < n {
                                assert(rest[j].hit_spec(r, t_min, t_max) == objects[j].hit_spec(
                                    r,
                                    t_min,
                                    t_max,
                                ));
                            }
                        }
                    },
                }
            },
        }
    }
}

/// An ordered collection of surfaces, itself a surface: a ray strikes it
/// where it first strikes one of its members.
pub struct HittableList<T: Hittable> {
    pub objects: Vec<T>,
}

impl<T: Hittable> View for HittableList<T> {
    type V = Seq<T>;

    open spec fn view(&self) -> Seq<T> {
        self.objects@
    }
}

impl<T: Hittable> HittableList<T> {
    /// The empty collection.
    pub fn new() -> (list: HittableList<T>)
        ensures
            list@ == Seq::<T>::empty(),
    {
        HittableList { objects: Vec::new() }
    }

    /// Appends a surface.
    pub fn add(&mut self, object: T)
        ensures
            final(self)@ == old(self)@.push(object),
    {
        self.objects.push(object);
    }

    /// Removes every surface.
    pub fn clear(&mut self)
        ensures
            final(self)@ == Seq::<T>::empty(),
    {
        self.objects = Vec::new();
    }

    /// The number of surfaces.
    pub fn len(&self) -> (n: usize)
        ensures
            n == self@.len(),
    {
        self.objects.len()
    }
}

impl<T: Hittable> Hittable for HittableList<T> {
    open spec fn in_range(&self) -> bool {
        forall|i: int| 0 <= i < self@.len() ==> (#[trigger] self@[i]).in_range()
    }

    fn is_in_range(&self) -> (b: bool) {
        let mut i: usize = 0;
        while i < self.objects.len()
            invariant
                i <= self.objects.len(),
                forall|j: int| 0 <= j < i ==> (#[trigger] self@[j]).in_range(),
            decreases self.objects.len() - i,
        {
            if !self.objects[i].is_in_range() {
                assert(!self@[i as int].in_range());
                return false;
            }
            i += 1;
        }
        true
    }

    open spec fn hit_spec(&self, r: RayView, t_min: int, t_max: int) -> Option<HitView> {
        nearest_hit(self@, r, t_min, t_max)
    }

    proof fn lemma_hit_sound(&self, r: RayView, t_min: int, t_max: int) {
        lemma_nearest_hit_sound(self@, r, t_min, t_max);
    }

    proof fn lemma_hit_narrowed(&self, r: RayView, t_min: int, t_mid: int, t_max: int) {
        lemma_nearest_hit_narrowed(self@, r, t_min, t_mid, t_max);
    }

    /// Tests the ray against every member, each within the window that ends
    /// at the nearest hit found so far, and reports the nearest hit: one
    /// that a member reports for the whole window, and no member reports a
    /// nearer one.
    fn hit(&self, r: &Ray, t_min: Scalar, t_max: Scalar) -> (res: Option<HitRecord>)
        ensures
            res matches Some(rec) ==> exists|i: int|
                0 <= i < self@.len() && #[trigger] self@[i].hit_spec(r@, t_min@, t_max@) == Some(
                    rec@,
                ),
            forall|j: int|
                0 <= j < self@.len() ==> (#[trigger] self@[j].hit_spec(r@, t_min@, t_max@) matches Some(
                    g,
                ) ==> res matches Some(rec) && rec.t@ <= g.t),
    {
        let mut nearest: Option<HitRecord> = None;
        let mut closest: Scalar = t_max;
        let mut i: usize = 0;
        while i < self.objects.len()
            invariant
                i <= self.objects.len(),
                self.in_range(),
                r@.in_range(),
                in_range(t_min@),
                in_range(t_max@),
                in_range(closest@),
                hit_view(nearest) == nearest_hit(self@.take(i as int), r@, t_min@, t_max@),
                closest@ == closest_so_far(hit_view(nearest), t_max@),
            decreases self.objects.len() - i,
        {
            assert(self@.take(i + 1).drop_last() == self@.take(i as int));
            match self.objects[i].hit(r, t_min, closest) {
                Some(rec) => {
                    closest = rec.t;
                    nearest = Some(rec);
                },
                None => {},
            }
            i += 1;
        }
        proof {
            assert(self@.take(i as int) == self@);
            lemma_nearest_hit_sound(self@, r@, t_min@, t_max@);
            lemma_nearest_hit_is_minimum(self@, r@, t_min@, t_max@);
        }
        nearest
    }
}

} // verus!
