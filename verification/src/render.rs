//! The places of the render loop's results.
//!
//! The picture is rendered row by row, each row by a task of its own, with the
//! rows counted from the bottom; the image stores them from the top.

use vstd::prelude::*;

verus! {

/// The place in the image of the pixel in column `x` of the row `y`, counted
/// from the bottom, as column and row counted from the top.
pub open spec fn spec_pixel_target(x: u32, y: u32, height: u32) -> (u32, u32) {
    (x, (height - 1 - y) as u32)
}

/// The place in the image of the pixel in column `x` of the row `y`.
pub fn pixel_target(x: u32, y: u32, width: u32, height: u32) -> (r: (u32, u32))
    requires
        x < width,
        y < height,
    ensures
        r == spec_pixel_target(x, y, height),
        r.0 < width,
        r.1 < height,
{
    (x, height - 1 - y)
}

/// No two pixels share a place in the image, and the pixels of one row stay
/// in one row of the image: tasks that render different rows never write to
/// the same place.
pub proof fn lemma_pixel_targets_are_apart(x1: u32, y1: u32, x2: u32, y2: u32, height: u32)
    requires
        y1 < height,
        y2 < height,
    ensures
        spec_pixel_target(x1, y1, height) == spec_pixel_target(x2, y2, height) ==> x1 == x2 && y1
            == y2,
        y1 != y2 ==> spec_pixel_target(x1, y1, height).1 != spec_pixel_target(x2, y2, height).1,
{
}

} // verus!
