//! Cameras: from screen coordinates in the unit square to world-space rays.

use vstd::prelude::*;

verus! {

use crate::math::point::Point;
use crate::math::point::point_from_ints;
use crate::math::point2d::Point2D;
use crate::math::ray::COORD_MAX;
use crate::math::ray::Ray;
use crate::math::scalar::SCALE;
use crate::math::scalar::Scalar;
use crate::math::scalar::sdiv;
use crate::math::scalar::tdiv;
use crate::math::scalar::lemma_tdiv_abs_bound;
use crate::math::scalar::lemma_mul_abs_bound;
use crate::math::vector::Vector;
use crate::math::vector::vec_from_ints;

/// Whether a screen position lies in the closed unit square.
pub open spec fn screen_pos_ok(pos: Point2D) -> bool {
    0 <= pos.x@ <= SCALE && 0 <= pos.y@ <= SCALE
}

/// Something that turns screen coordinates into primary rays.
pub trait Camera: Sized + Clone {
    /// The bounds under which the camera's arithmetic is exact.
    spec fn camera_wf(self) -> bool;

    /// The exact ray `screen_ray` produces.
    spec fn screen_ray_spec(self, pos: Point2D) -> Ray;

    /// The primary ray through the given screen position; the produced ray
    /// is in range for tracing.
    fn screen_ray(&self, screen_pos: &Point2D) -> (r: Ray)
        requires
            self.camera_wf(),
            screen_pos_ok(*screen_pos),
        ensures
            r == self.screen_ray_spec(*screen_pos),
            r.wf(),
    ;
}

/// A pinhole camera projecting through an image plane one unit ahead of
/// the eye, spanned by two derived basis vectors.
#[derive(Clone, Copy, PartialEq, Eq, Structural, Debug)]
pub struct PlaneCamera {
    pub origin: Point,
    pub plane_origin: Point,
    pub plane_x: Vector,
    pub plane_y: Vector,
}

/// The exact fields `PlaneCamera::new` derives: `plane_x` spans the image
/// plane horizontally, `plane_y` vertically (shrunk by the aspect ratio),
/// and the plane origin sits one unit ahead of the eye, offset by half a
/// plane in each direction.
pub open spec fn plane_camera_spec(
    origin: Point,
    direction: Vector,
    up: Vector,
    aspect_ratio: Scalar,
) -> PlaneCamera {
    let plane_x = up.cross_spec(direction).normalized_spec();
    let aspect_recip = sdiv((SCALE as int) * (SCALE as int), aspect_ratio@);
    let plane_y = plane_x.cross_spec(direction).normalized_spec().mul_spec(aspect_recip);
    let shift = plane_x.add_spec(plane_y).mul_spec(32768);
    let towards = direction.sub_spec(shift);
    PlaneCamera {
        origin,
        plane_origin: point_from_ints(
            origin.x@ + towards.x@,
            origin.y@ + towards.y@,
            origin.z@ + towards.z@,
        ),
        plane_x,
        plane_y,
    }
}

impl PlaneCamera {
    /// Build the camera basis from an eye position, a view direction, an up
    /// vector and an aspect ratio.
    pub fn new(origin: Point, direction: Vector, up: Vector, aspect_ratio: Scalar) -> (r:
        PlaneCamera)
        requires
            origin.bounded(COORD_MAX as int),
            direction.bounded(0x10_0000),
            up.bounded(0x10_0000),
            aspect_ratio@ != 0,
        ensures
            r == plane_camera_spec(origin, direction, up, aspect_ratio),
            r.camera_wf(),
    {
        proof {
            crate::math::vector::lemma_cross_bounded(up, direction, 0x10_0000, 0x10_0000);
        }
        let plane_x = up.cross(direction).normalized();
        let aspect_recip = aspect_ratio.recip();
        proof {
            lemma_tdiv_abs_bound(
                (SCALE as int) * (SCALE as int),
                if aspect_ratio@ > 0 {
                    aspect_ratio@
                } else {
                    -aspect_ratio@
                },
                (SCALE as int) * (SCALE as int),
            );
            crate::math::vector::lemma_cross_bounded(plane_x, direction, 0x2_0000, 0x10_0000);
        }
        let mid_y = plane_x.cross(direction).normalized();
        proof {
            crate::math::vector::lemma_mul_spec_bounded(
                mid_y,
                aspect_recip@,
                0x2_0000,
                0x1_0000_0000,
            );
        }
        let plane_y = mid_y.mul(aspect_recip);
        let shift = plane_x.add(plane_y).mul(Scalar::half());
        let towards = direction.sub(shift);
        let plane_origin = origin.add(towards);
        PlaneCamera { origin, plane_x, plane_y, plane_origin }
    }
}

impl Camera for PlaneCamera {
    open spec fn camera_wf(self) -> bool {
        &&& self.origin.bounded(COORD_MAX as int)
        &&& self.plane_x.bounded(0x4_0000_0000)
        &&& self.plane_y.bounded(0x4_0000_0000)
        &&& self.plane_origin.bounded(0x10_0000_0000)
    }

    open spec fn screen_ray_spec(self, pos: Point2D) -> Ray {
        let plane_point = point_from_ints(
            self.plane_origin.x@ + tdiv(self.plane_x.x@ * pos.x@, SCALE as int) + tdiv(
                self.plane_y.x@ * pos.y@,
                SCALE as int,
            ),
            self.plane_origin.y@ + tdiv(self.plane_x.y@ * pos.x@, SCALE as int) + tdiv(
                self.plane_y.y@ * pos.y@,
                SCALE as int,
            ),
            self.plane_origin.z@ + tdiv(self.plane_x.z@ * pos.x@, SCALE as int) + tdiv(
                self.plane_y.z@ * pos.y@,
                SCALE as int,
            ),
        );
        let dir = vec_from_ints(
            plane_point.x@ - self.origin.x@,
            plane_point.y@ - self.origin.y@,
            plane_point.z@ - self.origin.z@,
        ).normalized_spec();
        Ray {
            origin: self.origin,
            direction: dir,
            inv_direction: vec_from_ints(
                if dir.x@ == 0 {
                    i64::MAX as int
                } else {
                    sdiv((SCALE as int) * (SCALE as int), dir.x@)
                },
                if dir.y@ == 0 {
                    i64::MAX as int
                } else {
                    sdiv((SCALE as int) * (SCALE as int), dir.y@)
                },
                if dir.z@ == 0 {
                    i64::MAX as int
                } else {
                    sdiv((SCALE as int) * (SCALE as int), dir.z@)
                },
            ),
        }
    }

    fn screen_ray(&self, screen_pos: &Point2D) -> (r: Ray) {
        proof {
            lemma_mul_abs_bound(self.plane_x.x@, screen_pos.x@, 0x4_0000_0000, SCALE as int);
            lemma_mul_abs_bound(self.plane_x.y@, screen_pos.x@, 0x4_0000_0000, SCALE as int);
            lemma_mul_abs_bound(self.plane_x.z@, screen_pos.x@, 0x4_0000_0000, SCALE as int);
            lemma_mul_abs_bound(self.plane_y.x@, screen_pos.y@, 0x4_0000_0000, SCALE as int);
            lemma_mul_abs_bound(self.plane_y.y@, screen_pos.y@, 0x4_0000_0000, SCALE as int);
            lemma_mul_abs_bound(self.plane_y.z@, screen_pos.y@, 0x4_0000_0000, SCALE as int);
            lemma_tdiv_abs_bound(
                self.plane_x.x@ * screen_pos.x@,
                SCALE as int,
                0x4_0000_0000int * (SCALE as int),
            );
            lemma_tdiv_abs_bound(
                self.plane_x.y@ * screen_pos.x@,
                SCALE as int,
                0x4_0000_0000int * (SCALE as int),
            );
            lemma_tdiv_abs_bound(
                self.plane_x.z@ * screen_pos.x@,
                SCALE as int,
                0x4_0000_0000int * (SCALE as int),
            );
            lemma_tdiv_abs_bound(
                self.plane_y.x@ * screen_pos.y@,
                SCALE as int,
                0x4_0000_0000int * (SCALE as int),
            );
            lemma_tdiv_abs_bound(
                self.plane_y.y@ * screen_pos.y@,
                SCALE as int,
                0x4_0000_0000int * (SCALE as int),
            );
            lemma_tdiv_abs_bound(
                self.plane_y.z@ * screen_pos.y@,
                SCALE as int,
                0x4_0000_0000int * (SCALE as int),
            );
        }
        let plane_point = self.plane_origin.add(self.plane_x.mul(screen_pos.x)).add(
            self.plane_y.mul(screen_pos.y),
        );
        let dir = plane_point.sub_point(self.origin).normalized();
        Ray::new(self.origin, dir)
    }
}

} // verus!
