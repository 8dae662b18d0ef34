//! Points on the pixel grid.

use vstd::prelude::*;
use crate::tga::ImageModel;

verus! {

/// A point of a texture, in texels.
#[derive(Copy, Clone, Debug, PartialEq, Eq, Structural)]
pub struct Point2D {
    pub x: i32,
    pub y: i32,
}

/// A point in screen space: a place on the pixel grid and a depth, where a
/// greater depth is nearer to the viewer.
#[derive(Copy, Clone, Debug, PartialEq, Eq, Structural)]
pub struct Point3D {
    pub x: i32,
    pub y: i32,
    pub z: i32,
}

/// Whether `point` lies on a pixel of `image`.
pub open spec fn on_image(image: ImageModel, point: Point3D) -> bool {
    image.contains(point.x as int, point.y as int)
}

} // verus!
