//! The geometric core of a small ray tracer, verified with Verus: vector
//! algebra, rays, the hit record, ray-sphere intersection and nearest-hit
//! resolution over a collection of surfaces.
//!
//! Numbers are fixed-point: a [`scalar::Scalar`] is a signed 64-bit integer,
//! its raw value, that stands for `raw / 65536`. Every operation of the
//! vector algebra computes the exact result in wider integers and rounds it
//! toward zero once, so each contract can say precisely which number comes
//! back, and changing the sign of an operand changes the sign of the result
//! and nothing else. Operations whose result might not fit in 64 bits ask in
//! their `requires` that it does.
//!
//! Intersection queries are exact in their decisions: whether the line of a
//! ray meets a sphere is decided on the exact discriminant, and only the
//! reported ray parameter, point and normal are rounded to the grid. The ray
//! parameter is rounded to one raw step and the hit point is the point of the
//! ray at that parameter, so the hit point lies within about the length of
//! the ray's direction, counted in raw steps, of the sphere: a direction of
//! length one gives a hit point within a few raw steps, a direction of length
//! ten thousand one within a few ten thousand raw steps. To keep
//! the discriminant within 128 bits, a query asks that the coordinates of the
//! ray and the sphere, the radius and the ends of the parametric window do
//! not exceed [`scalar::RANGE_MAX`] in magnitude, which is 16384 units.
//!
//! The contracts speak of mathematical models: the view of a scalar is its
//! raw value as an unbounded integer, and the views of vectors, rays, spheres
//! and hit records are records of such integers.

pub mod accuracy;
pub mod arith;
pub mod color;
pub mod hit;
pub mod point;
pub mod ray;
pub mod render;
pub mod scalar;
pub mod sphere;
pub mod vec;
