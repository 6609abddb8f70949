//! Rays.

use crate::point::Point3;
use crate::scalar::Scalar;
use crate::vec::{Vec3, Vec3View};
use vstd::prelude::*;

verus! {

/// The mathematical model of a ray.
pub struct RayView {
    pub origin: Vec3View,
    pub direction: Vec3View,
}

impl RayView {
    /// Origin and direction lie within the range on which intersection is
    /// exact.
    pub open spec fn in_range(self) -> bool {
        self.origin.in_range() && self.direction.in_range()
    }

    /// The point `origin + t * direction`, the product rounded toward zero.
    pub open spec fn at(self, t: int) -> Vec3View {
        self.origin.plus(self.direction.scaled(t))
    }
}

/// A half-line: an origin and a direction, which need not have length one.
#[derive(Debug)]
pub struct Ray<'a>(pub &'a Point3, pub &'a Vec3);

impl<'a> View for Ray<'a> {
    type V = RayView;

    open spec fn view(&self) -> RayView {
        RayView { origin: self.0@, direction: self.1@ }
    }
}

impl<'a> Ray<'a> {
    /// Where the ray starts.
    pub fn origin(&self) -> (o: &Point3)
        ensures
            *o == *self.0,
    {
        self.0
    }

    /// The direction in which the ray runs.
    pub fn direction(&self) -> (d: &Vec3)
        ensures
            *d == *self.1,
    {
        self.1
    }

    /// Whether origin and direction lie within the range on which
    /// intersection is exact.
    pub fn is_in_range(&self) -> (b: bool)
        ensures
            b == self@.in_range(),
    {
        self.0.is_in_range() && self.1.is_in_range()
    }

    /// The point at parameter `t`.
    pub fn at(&self, t: Scalar) -> (p: Point3)
        requires
            self@.direction.scaled(t@).fits(),
            self@.at(t@).fits(),
        ensures
            p@ == self@.at(t@),
    {
        *self.0 + t * (*self.1)
    }
}

} // verus!
