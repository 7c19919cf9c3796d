//! Rays: an origin, a direction, and the direction's precomputed reciprocal.

use vstd::prelude::*;

verus! {

use crate::math::scalar::Scalar;
use crate::math::scalar::SCALE;
use crate::math::scalar::tdiv;
use crate::math::scalar::sdiv;
use crate::math::point::Point;
use crate::math::vector::Vector;
use crate::math::vector::MUL_ARG_MAX;

/// Bound on scene coordinates (origins, centers, extents) for traced rays.
pub const COORD_MAX: i64 = 1073741824;

/// Bound on ray direction components; normalized directions stay well below.
pub const DIR_MAX: i64 = 1048576;

/// A ray, immutable once built.  The reciprocal direction is derived at
/// construction; a ray with a new direction is a new ray.
#[derive(Clone, Copy, PartialEq, Eq, Structural, Debug)]
pub struct Ray {
    pub origin: Point,
    pub direction: Vector,
    pub inv_direction: Vector,
}

impl Ray {
    /// Bounds under which intersection tests are exact in 128-bit arithmetic.
    pub open spec fn wf(self) -> bool {
        &&& self.origin.bounded(COORD_MAX as int)
        &&& self.direction.bounded(DIR_MAX as int)
    }

    /// The ray from `origin` along `dir`; the reciprocal direction is
    /// computed here, with zero components saturating per `Scalar::recip`.
    pub fn new(origin: Point, dir: Vector) -> (r: Ray)
        ensures
            r.origin == origin,
            r.direction == dir,
            dir.x@ == 0 ==> r.inv_direction.x@ == i64::MAX,
            dir.x@ != 0 ==> r.inv_direction.x@ == sdiv(SCALE * SCALE, dir.x@),
            dir.y@ == 0 ==> r.inv_direction.y@ == i64::MAX,
            dir.y@ != 0 ==> r.inv_direction.y@ == sdiv(SCALE * SCALE, dir.y@),
            dir.z@ == 0 ==> r.inv_direction.z@ == i64::MAX,
            dir.z@ != 0 ==> r.inv_direction.z@ == sdiv(SCALE * SCALE, dir.z@),
    {
        Ray { origin, inv_direction: dir.recip(), direction: dir }
    }

    /// The point reached after travelling `t` along the ray, as a
    /// specification value.
    pub open spec fn point_at_spec(self, t: int) -> Point {
        crate::math::point::point_from_ints(
            self.origin.x@ + tdiv(self.direction.x@ * t, SCALE as int),
            self.origin.y@ + tdiv(self.direction.y@ * t, SCALE as int),
            self.origin.z@ + tdiv(self.direction.z@ * t, SCALE as int),
        )
    }

    /// The point reached after travelling `t` along the ray.
    pub fn point_at_distance(&self, t: Scalar) -> (r: Point)
        requires
            self.origin.bounded(0x6FFF_FFFF_FFFF_FFFF),
            self.direction.bounded(MUL_ARG_MAX as int),
            -MUL_ARG_MAX <= t@ <= MUL_ARG_MAX,
        ensures
            r == self.point_at_spec(t@),
            r.x@ == self.origin.x@ + tdiv(self.direction.x@ * t@, SCALE as int),
            r.y@ == self.origin.y@ + tdiv(self.direction.y@ * t@, SCALE as int),
            r.z@ == self.origin.z@ + tdiv(self.direction.z@ * t@, SCALE as int),
    {
        self.origin.add(self.direction.mul(t))
    }
}

} // verus!
