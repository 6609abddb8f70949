//! Colors and their levels in an image file.

use crate::arith::{div_floor, floor_div, lemma_floor_div_bounds};
use crate::scalar::{Scalar, SCALE, SCALE_WIDE};
use crate::vec::{Vec3, Vec3View};
use vstd::prelude::*;

verus! {

/// An RGB color; a channel at full intensity is the number one.
pub type Color = Vec3;

/// Every channel of the color lies between zero and one, so that it has a
/// level between 0 and 255.
pub open spec fn displayable(c: Vec3View) -> bool {
    0 <= c.x <= SCALE && 0 <= c.y <= SCALE && 0 <= c.z <= SCALE
}

/// The level between 0 and 255 of a channel with raw value `c`:
/// `floor(255.999 * c / SCALE)`.
pub open spec fn channel_level(c: int) -> int {
    floor_div(c * 255999, 1000 * SCALE)
}

/// A channel between zero and one has a level between 0 and 255.
pub proof fn lemma_channel_level_bounded(c: int)
    requires
        0 <= c <= SCALE,
    ensures
        0 <= channel_level(c) <= 255,
{
    lemma_floor_div_bounds(c * 255999, 65536000);
}

/// The level of one channel.
pub fn channel_level_of(c: Scalar) -> (level: i64)
    ensures
        level == channel_level(c@),
        0 <= c@ <= SCALE ==> 0 <= level <= 255,
{
    proof {
        lemma_floor_div_bounds(c@ * 255999, 65536000);
        if 0 <= c@ <= SCALE {
            lemma_channel_level_bounded(c@);
        }
    }
    div_floor((c.raw as i128) * 255999, 1000 * SCALE_WIDE) as i64
}

/// The red, green and blue levels of a color, as an image file holds them.
pub fn color_levels(pixel_color: &Color) -> (levels: (i64, i64, i64))
    ensures
        levels.0 == channel_level(pixel_color@.x),
        levels.1 == channel_level(pixel_color@.y),
        levels.2 == channel_level(pixel_color@.z),
        displayable(pixel_color@) ==> 0 <= levels.0 <= 255 && 0 <= levels.1 <= 255 && 0
            <= levels.2 <= 255,
{
    (
        channel_level_of(pixel_color.x()),
        channel_level_of(pixel_color.y()),
        channel_level_of(pixel_color.z()),
    )
}

} // verus!
