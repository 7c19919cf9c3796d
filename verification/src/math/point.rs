//! Positions in space, kept apart from displacements at the type level.

use vstd::prelude::*;

verus! {

use crate::math::scalar::Scalar;
use crate::math::scalar::fits_i64;
use crate::math::vector::Vector;

/// A position in space.
#[derive(Clone, Copy, PartialEq, Eq, Structural, Debug)]
pub struct Point {
    pub x: Scalar,
    pub y: Scalar,
    pub z: Scalar,
}

/// The point whose raw coordinates are the given integers (truncated into
/// the raw range; meaningful when each value fits).
pub open spec fn point_from_ints(x: int, y: int, z: int) -> Point {
    Point { x: Scalar { raw: x as i64 }, y: Scalar { raw: y as i64 }, z: Scalar { raw: z as i64 } }
}

impl Point {
    /// Whether every coordinate's raw value has magnitude at most `m`.
    pub open spec fn bounded(self, m: int) -> bool {
        &&& -m <= self.x@ <= m
        &&& -m <= self.y@ <= m
        &&& -m <= self.z@ <= m
    }

    /// The point with the given coordinates.
    pub fn new(x: Scalar, y: Scalar, z: Scalar) -> (r: Point)
        ensures
            r == (Point { x, y, z }),
    {
        Point { x, y, z }
    }

    /// The origin.
    pub fn origin() -> (r: Point)
        ensures
            r.x@ == 0 && r.y@ == 0 && r.z@ == 0,
    {
        Point { x: Scalar::zero(), y: Scalar::zero(), z: Scalar::zero() }
    }

    /// Whether this point is exactly the origin.
    pub fn is_origin(&self) -> (r: bool)
        ensures
            r == (self.x@ == 0 && self.y@ == 0 && self.z@ == 0),
    {
        self.x.is_zero() && self.y.is_zero() && self.z.is_zero()
    }

    /// The point displaced by a vector.
    pub fn add(self, rhs: Vector) -> (r: Point)
        requires
            fits_i64(self.x@ + rhs.x@),
            fits_i64(self.y@ + rhs.y@),
            fits_i64(self.z@ + rhs.z@),
        ensures
            r.x@ == self.x@ + rhs.x@,
            r.y@ == self.y@ + rhs.y@,
            r.z@ == self.z@ + rhs.z@,
    {
        Point { x: self.x.add(rhs.x), y: self.y.add(rhs.y), z: self.z.add(rhs.z) }
    }

    /// The point displaced against a vector.
    pub fn sub(self, rhs: Vector) -> (r: Point)
        requires
            fits_i64(self.x@ - rhs.x@),
            fits_i64(self.y@ - rhs.y@),
            fits_i64(self.z@ - rhs.z@),
        ensures
            r.x@ == self.x@ - rhs.x@,
            r.y@ == self.y@ - rhs.y@,
            r.z@ == self.z@ - rhs.z@,
    {
        Point { x: self.x.sub(rhs.x), y: self.y.sub(rhs.y), z: self.z.sub(rhs.z) }
    }

    /// The displacement from `rhs` to this point.
    pub fn sub_point(self, rhs: Point) -> (r: Vector)
        requires
            fits_i64(self.x@ - rhs.x@),
            fits_i64(self.y@ - rhs.y@),
            fits_i64(self.z@ - rhs.z@),
        ensures
            r.x@ == self.x@ - rhs.x@,
            r.y@ == self.y@ - rhs.y@,
            r.z@ == self.z@ - rhs.z@,
    {
        Vector { x: self.x.sub(rhs.x), y: self.y.sub(rhs.y), z: self.z.sub(rhs.z) }
    }
}

} // verus!
