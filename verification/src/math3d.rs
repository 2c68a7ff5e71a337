//! The coordinate axes and the integer part of the camera geometry.

use vstd::prelude::*;

verus! {

/// The three coordinate axes.
#[derive(Debug, Copy, Clone)]
pub enum Axis {
    X,
    Y,
    Z,
}

/// The unnormalized direction of the primary ray through pixel `x` of row
/// `row`: the eye sits centered before an image plane of `width` columns
/// and twice `height_half` rows, one plane unit per pixel. Normalizing the
/// returned triple is floating-point work and stays with the caller.
pub fn camera_ray_components(x: usize, row: usize, width: usize, height_half: usize) -> (v: (
    i64,
    i64,
    i64,
))
    requires
        x < width,
        width % 2 == 0,
        width <= i64::MAX,
        row <= i64::MAX,
        height_half <= i64::MAX,
    ensures
        v.0 == x - width / 2,
        v.1 == row - height_half,
        v.2 == width / 2,
{
    let half = (width / 2) as i64;
    ((x as i64) - half, (row as i64) - (height_half as i64), half)
}

} // verus!
