//! Two-dimensional screen-space coordinates.

use vstd::prelude::*;

verus! {

use crate::math::scalar::Scalar;

/// A screen-space position; both coordinates usually lie in `[0, 1]`.
#[derive(Clone, Copy, PartialEq, Eq, Structural, Debug)]
pub struct Point2D {
    pub x: Scalar,
    pub y: Scalar,
}

impl Point2D {
    /// The screen point with the given coordinates.
    pub fn new(x: Scalar, y: Scalar) -> (r: Point2D)
        ensures
            r == (Point2D { x, y }),
    {
        Point2D { x, y }
    }
}

} // verus!
