//! The color of a ray: the tint of the surface normal where it strikes, a
//! gradient from white to sky blue where it does not.

use crate::arith::{div_trunc, lemma_floor_div_bounds, lemma_trunc_div_bounds};
use crate::color::{displayable, Color};
use crate::hit::{HitView, Hittable};
use crate::ray::{Ray, RayView};
use crate::scalar::{fx_mul, Scalar, RANGE_MAX, SCALE, SCALE_WIDE};
use crate::vec::{lemma_unit_bounded, unit_vector, Vec3, Vec3View};
use vstd::prelude::*;

verus! {

/// Raw value of one half.
pub const HALF: i64 = 32768;

/// Raw value of the green channel of the sky color: seven tenths, rounded
/// down.
pub const SKY_GREEN: i64 = 45875;

/// The color white.
pub open spec fn white() -> Vec3View {
    Vec3View { x: SCALE as int, y: SCALE as int, z: SCALE as int }
}

/// The color of the sky overhead: `(0.5, 0.7, 1.0)`.
pub open spec fn sky() -> Vec3View {
    Vec3View { x: HALF as int, y: SKY_GREEN as int, z: SCALE as int }
}

/// How far the background has turned from white to sky for a ray of
/// direction `d`: half of one more than the height of the unit direction.
pub open spec fn sky_share(d: Vec3View) -> int {
    fx_mul(HALF as int, d.unit().y + SCALE)
}

/// The background behind a ray of direction `d`: white and sky mixed in
/// the proportion `sky_share(d)`.
pub open spec fn background(d: Vec3View) -> Vec3View {
    white().scaled(SCALE - sky_share(d)).plus(sky().scaled(sky_share(d)))
}

/// The color that shows a direction: each component of the unit vector `u`
/// moved from `[-1, 1]` to `[0, 1]`.
pub open spec fn tint(u: Vec3View) -> Vec3View {
    Vec3View {
        x: fx_mul(HALF as int, u.x + SCALE),
        y: fx_mul(HALF as int, u.y + SCALE),
        z: fx_mul(HALF as int, u.z + SCALE),
    }
}

/// The color that shows the surface normal `n`: the tint of its unit vector,
/// so that a normal a little longer or shorter than one gives the same color
/// as the exact one would.
pub open spec fn normal_tint(n: Vec3View) -> Vec3View {
    tint(n.unit())
}

/// The color of a ray given the outcome of its intersection test.
pub open spec fn shade(hit: Option<HitView>, r: RayView) -> Vec3View {
    match hit {
        Some(rec) => normal_tint(rec.normal),
        None => background(r.direction),
    }
}

/// The share of sky lies between zero and one.
pub proof fn lemma_sky_share_bounded(d: Vec3View)
    ensures
        0 <= sky_share(d) <= SCALE,
{
    lemma_unit_bounded(d);
    lemma_floor_div_bounds(HALF * (d.unit().y + SCALE), SCALE as int);
}

/// Every channel of the tint of a normal lies between zero and one.
pub proof fn lemma_normal_tint_displayable(n: Vec3View)
    ensures
        displayable(normal_tint(n)),
{
    lemma_unit_bounded(n);
    let u = n.unit();
    lemma_trunc_div_bounds(HALF * (u.x + SCALE), SCALE as int);
    lemma_trunc_div_bounds(HALF * (u.y + SCALE), SCALE as int);
    lemma_trunc_div_bounds(HALF * (u.z + SCALE), SCALE as int);
}

/// Whatever the outcome of the intersection test, every channel of the
/// color of a ray lies between zero and one.
pub proof fn lemma_shade_displayable(hit: Option<HitView>, r: RayView)
    ensures
        displayable(shade(hit, r)),
{
    match hit {
        Some(rec) => {
            lemma_normal_tint_displayable(rec.normal);
        },
        None => {
            lemma_background_displayable(r.direction);
        },
    }
}

/// Every channel of the background lies between zero and one.
pub proof fn lemma_background_displayable(d: Vec3View)
    ensures
        displayable(background(d)),
{
    lemma_sky_share_bounded(d);
    let t = sky_share(d);
    lemma_floor_div_bounds(SCALE * (SCALE - t), SCALE as int);
    lemma_floor_div_bounds(HALF * t, SCALE as int);
    lemma_floor_div_bounds(SKY_GREEN * t, SCALE as int);
    lemma_floor_div_bounds(SCALE * t, SCALE as int);
}

/// Half of one more than `c`, for `c` between minus one and one.
fn half_shifted(c: Scalar) -> (s: Scalar)
    requires
        -SCALE <= c@ <= SCALE,
    ensures
        s@ == fx_mul(HALF as int, c@ + SCALE),
        0 <= s@ <= SCALE,
{
    proof {
        lemma_trunc_div_bounds(HALF * (c@ + SCALE), SCALE as int);
    }
    Scalar { raw: div_trunc((HALF as i128) * (c.raw as i128 + SCALE_WIDE), SCALE_WIDE) as i64 }
}

/// The color that shows the surface normal `n`, whatever its length: every
/// channel lies between zero and one.
pub fn normal_color(n: &Vec3) -> (c: Color)
    ensures
        c@ == normal_tint(n@),
        displayable(c@),
{
    let u = unit_vector(n);
    Vec3(half_shifted(u.x()), half_shifted(u.y()), half_shifted(u.z()))
}

/// The background behind the ray: white toward the horizon below, sky
/// overhead.
pub fn background_color(r: &Ray) -> (c: Color)
    ensures
        c@ == background(r@.direction),
        displayable(c@),
{
    let unit_direction = unit_vector(r.direction());
    proof {
        lemma_unit_bounded(r@.direction);
        lemma_sky_share_bounded(r@.direction);
        lemma_background_displayable(r@.direction);
        let t = sky_share(r@.direction);
        lemma_floor_div_bounds(SCALE * (SCALE - t), SCALE as int);
        lemma_floor_div_bounds(HALF * t, SCALE as int);
        lemma_floor_div_bounds(SKY_GREEN * t, SCALE as int);
        lemma_floor_div_bounds(SCALE * t, SCALE as int);
    }
    let t = Scalar { raw: HALF } * (unit_direction.y() + Scalar::one());
    let white = Vec3(Scalar::one(), Scalar::one(), Scalar::one());
    let sky = Vec3(Scalar { raw: HALF }, Scalar { raw: SKY_GREEN }, Scalar::one());
    (Scalar::one() - t) * white + t * sky
}

/// The color of a ray cast into the world: the tint of the normal where the
/// ray strikes a surface ahead of its origin, at a parameter of at most
/// `RANGE_MAX`, and the background where it strikes none. Every channel lies
/// between zero and one.
pub fn ray_color<W: Hittable>(r: &Ray, world: &W) -> (c: Color)
    requires
        world.in_range(),
        r@.in_range(),
    ensures
        c@ == shade(world.hit_spec(r@, 0, RANGE_MAX as int), r@),
        world.hit_spec(r@, 0, RANGE_MAX as int) is None ==> c@ == background(r@.direction),
        displayable(c@),
{
    match world.hit(r, Scalar::zero(), Scalar::range_max()) {
        Some(rec) => normal_color(&rec.normal),
        None => background_color(r),
    }
}

} // verus!
