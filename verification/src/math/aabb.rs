//! Axis-aligned bounding boxes.
//!
//! `combine` is the exact per-axis min/max hull.  `test` decides, without any
//! rounding, whether the ray's line meets the box: each axis contributes a
//! rational parameter interval (a slab), and the slabs overlap exactly when
//! every interval's lower endpoint is at most every interval's upper endpoint,
//! compared by sign-aware cross multiplication.  An axis whose direction
//! component is zero constrains the origin directly; this replaces the
//! floating-point idiom of multiplying by an infinite reciprocal.

use vstd::prelude::*;

verus! {

use crate::math::scalar::Scalar;
use crate::math::scalar::fits_i64;
use crate::math::scalar::mul_sat_spec;
use crate::math::scalar::mul_wide;
use crate::math::point::Point;
use crate::math::ray::Ray;
use crate::math::bounding_volume::BoundingVolume;

/// Coordinate bound under which the slab test's cross products fit `i128`.
pub const BOX_MAX: i64 = 72057594037927936;

/// The box's coordinate on axis `i` (0, 1, 2 for x, y, z), lower face.
pub open spec fn axis_min(b: Aabb, i: int) -> int {
    if i == 0 {
        b.x_min@
    } else if i == 1 {
        b.y_min@
    } else {
        b.z_min@
    }
}

/// The box's coordinate on axis `i`, upper face.
pub open spec fn axis_max(b: Aabb, i: int) -> int {
    if i == 0 {
        b.x_max@
    } else if i == 1 {
        b.y_max@
    } else {
        b.z_max@
    }
}

/// The ray origin's coordinate on axis `i`.
pub open spec fn axis_o(r: Ray, i: int) -> int {
    if i == 0 {
        r.origin.x@
    } else if i == 1 {
        r.origin.y@
    } else {
        r.origin.z@
    }
}

/// The ray direction's component on axis `i`.
pub open spec fn axis_d(r: Ray, i: int) -> int {
    if i == 0 {
        r.direction.x@
    } else if i == 1 {
        r.direction.y@
    } else {
        r.direction.z@
    }
}

/// The positive denominator of axis `i`'s slab interval.
pub open spec fn slab_den(r: Ray, i: int) -> int {
    if axis_d(r, i) >= 0 {
        axis_d(r, i)
    } else {
        -axis_d(r, i)
    }
}

/// The numerator of axis `i`'s lower slab endpoint (over `slab_den`).
pub open spec fn slab_lo(b: Aabb, r: Ray, i: int) -> int {
    if axis_d(r, i) > 0 {
        axis_min(b, i) - axis_o(r, i)
    } else {
        axis_o(r, i) - axis_max(b, i)
    }
}

/// The numerator of axis `i`'s upper slab endpoint (over `slab_den`).
pub open spec fn slab_hi(b: Aabb, r: Ray, i: int) -> int {
    if axis_d(r, i) > 0 {
        axis_max(b, i) - axis_o(r, i)
    } else {
        axis_o(r, i) - axis_min(b, i)
    }
}

/// A zero-direction axis admits the line exactly when the origin lies
/// between the two faces.
pub open spec fn axis_ok(b: Aabb, r: Ray, i: int) -> bool {
    axis_d(r, i) == 0 ==> axis_min(b, i) <= axis_o(r, i) <= axis_max(b, i)
}

/// Axis `i`'s lower slab endpoint is at most axis `j`'s upper one, as
/// rationals with positive denominators.
pub open spec fn pair_ok(b: Aabb, r: Ray, i: int, j: int) -> bool {
    (axis_d(r, i) != 0 && axis_d(r, j) != 0) ==> slab_lo(b, r, i) * slab_den(r, j) <= slab_hi(
        b,
        r,
        j,
    ) * slab_den(r, i)
}

/// The exact slab test: the ray's line meets the box.
pub open spec fn aabb_test_spec(b: Aabb, r: Ray) -> bool {
    &&& forall|i: int| 0 <= i < 3 ==> #[trigger] axis_ok(b, r, i)
    &&& forall|i: int, j: int| 0 <= i < 3 && 0 <= j < 3 ==> #[trigger] pair_ok(b, r, i, j)
}

/// An axis-aligned box, as three coordinate intervals.
#[derive(Clone, Copy, PartialEq, Eq, Structural, Debug)]
pub struct Aabb {
    pub x_min: Scalar,
    pub x_max: Scalar,
    pub y_min: Scalar,
    pub y_max: Scalar,
    pub z_min: Scalar,
    pub z_max: Scalar,
}

/// One axis's slab interval, or `None` on a zero direction component.
fn axis_slab(min_s: Scalar, max_s: Scalar, o: Scalar, d: Scalar) -> (s: Option<(i64, i64, i64)>)
    requires
        -BOX_MAX <= min_s@ <= BOX_MAX,
        -BOX_MAX <= max_s@ <= BOX_MAX,
        -BOX_MAX <= o@ <= BOX_MAX,
        -0x4000_0000_0000_0000 <= d@ <= 0x4000_0000_0000_0000,
    ensures
        match s {
            None => d@ == 0,
            Some(t) => {
                &&& d@ != 0
                &&& t.2 == if d@ >= 0 { d@ } else { -d@ }
                &&& t.0 == if d@ > 0 { min_s@ - o@ } else { o@ - max_s@ }
                &&& t.1 == if d@ > 0 { max_s@ - o@ } else { o@ - min_s@ }
            },
        },
{
    if d.raw == 0 {
        None
    } else if d.raw > 0 {
        Some((min_s.raw - o.raw, max_s.raw - o.raw, d.raw))
    } else {
        Some((o.raw - max_s.raw, o.raw - min_s.raw, -d.raw))
    }
}

/// Whether `a`'s lower slab endpoint is at most `b`'s upper one; absent
/// slabs constrain nothing.
fn pair_within(a: &Option<(i64, i64, i64)>, b: &Option<(i64, i64, i64)>) -> (r: bool)
    ensures
        r == match (*a, *b) {
            (Some(p), Some(q)) => p.0 * q.2 <= q.1 * p.2,
            _ => true,
        },
{
    match (a, b) {
        (Some(p), Some(q)) => mul_wide(p.0, q.2) <= mul_wide(q.1, p.2),
        _ => true,
    }
}

impl Aabb {
    /// Whether every face coordinate's raw value has magnitude at most `m`.
    pub open spec fn bounded(self, m: int) -> bool {
        &&& -m <= self.x_min@ <= m
        &&& -m <= self.x_max@ <= m
        &&& -m <= self.y_min@ <= m
        &&& -m <= self.y_max@ <= m
        &&& -m <= self.z_min@ <= m
        &&& -m <= self.z_max@ <= m
    }

    /// Whether this box encloses `other` on every axis.
    pub open spec fn contains_box(self, other: Aabb) -> bool {
        &&& self.x_min@ <= other.x_min@ && other.x_max@ <= self.x_max@
        &&& self.y_min@ <= other.y_min@ && other.y_max@ <= self.y_max@
        &&& self.z_min@ <= other.z_min@ && other.z_max@ <= self.z_max@
    }

    /// The exact per-axis hull of two boxes.
    pub open spec fn combine_box(self, rhs: Aabb) -> Aabb {
        Aabb {
            x_min: if self.x_min@ <= rhs.x_min@ { self.x_min } else { rhs.x_min },
            x_max: if self.x_max@ >= rhs.x_max@ { self.x_max } else { rhs.x_max },
            y_min: if self.y_min@ <= rhs.y_min@ { self.y_min } else { rhs.y_min },
            y_max: if self.y_max@ >= rhs.y_max@ { self.y_max } else { rhs.y_max },
            z_min: if self.z_min@ <= rhs.z_min@ { self.z_min } else { rhs.z_min },
            z_max: if self.z_max@ >= rhs.z_max@ { self.z_max } else { rhs.z_max },
        }
    }

    /// The box containing every representable point.
    pub fn unbound() -> (r: Aabb)
        ensures
            r.x_min@ == i64::MIN && r.x_max@ == i64::MAX,
            r.y_min@ == i64::MIN && r.y_max@ == i64::MAX,
            r.z_min@ == i64::MIN && r.z_max@ == i64::MAX,
    {
        Aabb {
            x_min: Scalar { raw: i64::MIN },
            x_max: Scalar { raw: i64::MAX },
            y_min: Scalar { raw: i64::MIN },
            y_max: Scalar { raw: i64::MAX },
            z_min: Scalar { raw: i64::MIN },
            z_max: Scalar { raw: i64::MAX },
        }
    }

    /// The smallest box containing all the given points; the unbounded box
    /// when there are none.
    pub fn from_points(points: &Vec<Point>) -> (r: Aabb)
        ensures
            points@.len() == 0 ==> r == Aabb::unbound_spec(),
            points@.len() > 0 ==> {
                &&& forall|k: int|
                    0 <= k < points@.len() ==> {
                        &&& r.x_min@ <= #[trigger] points@[k].x@ <= r.x_max@
                        &&& r.y_min@ <= points@[k].y@ <= r.y_max@
                        &&& r.z_min@ <= points@[k].z@ <= r.z_max@
                    }
                &&& exists|k: int| 0 <= k < points@.len() && r.x_min@ == #[trigger] points@[k].x@
                &&& exists|k: int| 0 <= k < points@.len() && r.x_max@ == #[trigger] points@[k].x@
                &&& exists|k: int| 0 <= k < points@.len() && r.y_min@ == #[trigger] points@[k].y@
                &&& exists|k: int| 0 <= k < points@.len() && r.y_max@ == #[trigger] points@[k].y@
                &&& exists|k: int| 0 <= k < points@.len() && r.z_min@ == #[trigger] points@[k].z@
                &&& exists|k: int| 0 <= k < points@.len() && r.z_max@ == #[trigger] points@[k].z@
            },
    {
        if points.len() == 0 {
            return Aabb::unbound();
        }
        let first = points[0];
        let mut aabb = Aabb {
            x_min: first.x,
            x_max: first.x,
            y_min: first.y,
            y_max: first.y,
            z_min: first.z,
            z_max: first.z,
        };
        let mut n: usize = 1;
        proof {
            assert(aabb.x_min@ == points@[0].x@ && aabb.x_max@ == points@[0].x@);
            assert(aabb.y_min@ == points@[0].y@ && aabb.y_max@ == points@[0].y@);
            assert(aabb.z_min@ == points@[0].z@ && aabb.z_max@ == points@[0].z@);
        }
        while n < points.len()
            invariant
                1 <= n <= points@.len(),
                forall|k: int|
                    0 <= k < n ==> {
                        &&& aabb.x_min@ <= #[trigger] points@[k].x@ <= aabb.x_max@
                        &&& aabb.y_min@ <= points@[k].y@ <= aabb.y_max@
                        &&& aabb.z_min@ <= points@[k].z@ <= aabb.z_max@
                    },
                exists|k: int| 0 <= k < n && aabb.x_min@ == #[trigger] points@[k].x@,
                exists|k: int| 0 <= k < n && aabb.x_max@ == #[trigger] points@[k].x@,
                exists|k: int| 0 <= k < n && aabb.y_min@ == #[trigger] points@[k].y@,
                exists|k: int| 0 <= k < n && aabb.y_max@ == #[trigger] points@[k].y@,
                exists|k: int| 0 <= k < n && aabb.z_min@ == #[trigger] points@[k].z@,
                exists|k: int| 0 <= k < n && aabb.z_max@ == #[trigger] points@[k].z@,
            decreases points@.len() - n,
        {
            let p = points[n];
            aabb.x_max = p.x.max(aabb.x_max);
            aabb.x_min = p.x.min(aabb.x_min);
            aabb.y_max = p.y.max(aabb.y_max);
            aabb.y_min = p.y.min(aabb.y_min);
            aabb.z_max = p.z.max(aabb.z_max);
            aabb.z_min = p.z.min(aabb.z_min);
            n = n + 1;
        }
        aabb
    }

    /// The unbounded box, as a specification value.
    pub open spec fn unbound_spec() -> Aabb {
        Aabb {
            x_min: Scalar { raw: i64::MIN },
            x_max: Scalar { raw: i64::MAX },
            y_min: Scalar { raw: i64::MIN },
            y_max: Scalar { raw: i64::MAX },
            z_min: Scalar { raw: i64::MIN },
            z_max: Scalar { raw: i64::MAX },
        }
    }

    /// The per-axis min/max hull, exactly `combine_box`.
    pub fn combine(&self, other: &Aabb) -> (r: Aabb)
        ensures
            r == self.combine_box(*other),
            r.contains_box(*self),
            r.contains_box(*other),
    {
        Aabb {
            x_max: self.x_max.max(other.x_max),
            x_min: self.x_min.min(other.x_min),
            y_max: self.y_max.max(other.y_max),
            y_min: self.y_min.min(other.y_min),
            z_max: self.z_max.max(other.z_max),
            z_min: self.z_min.min(other.z_min),
        }
    }

    /// The product of the three extents, saturating on overflow; a size
    /// heuristic for build-time cost estimates, not used for correctness.
    pub fn estimated_volume(&self) -> (r: Scalar)
        requires
            fits_i64(self.x_max@ - self.x_min@),
            fits_i64(self.y_max@ - self.y_min@),
            fits_i64(self.z_max@ - self.z_min@),
        ensures
            r@ == mul_sat_spec(
                mul_sat_spec(self.x_max@ - self.x_min@, self.y_max@ - self.y_min@),
                self.z_max@ - self.z_min@,
            ),
    {
        let dx = self.x_max.sub(self.x_min);
        let dy = self.y_max.sub(self.y_min);
        let dz = self.z_max.sub(self.z_min);
        dx.mul_sat(dy).mul_sat(dz)
    }

    /// The exact slab test; see the module description.
    pub fn test(&self, ray: &Ray) -> (r: bool)
        requires
            self.bounded(BOX_MAX as int),
            ray.origin.bounded(BOX_MAX as int),
            ray.direction.bounded(0x4000_0000_0000_0000),
        ensures
            r == aabb_test_spec(*self, *ray),
    {
        let sx = axis_slab(self.x_min, self.x_max, ray.origin.x, ray.direction.x);
        let sy = axis_slab(self.y_min, self.y_max, ray.origin.y, ray.direction.y);
        let sz = axis_slab(self.z_min, self.z_max, ray.origin.z, ray.direction.z);
        let ok_x = match sx {
            None => self.x_min.raw <= ray.origin.x.raw && ray.origin.x.raw <= self.x_max.raw,
            Some(_) => true,
        };
        let ok_y = match sy {
            None => self.y_min.raw <= ray.origin.y.raw && ray.origin.y.raw <= self.y_max.raw,
            Some(_) => true,
        };
        let ok_z = match sz {
            None => self.z_min.raw <= ray.origin.z.raw && ray.origin.z.raw <= self.z_max.raw,
            Some(_) => true,
        };
        let pairs = pair_within(&sx, &sx) && pair_within(&sx, &sy) && pair_within(&sx, &sz)
            && pair_within(&sy, &sx) && pair_within(&sy, &sy) && pair_within(&sy, &sz)
            && pair_within(&sz, &sx) && pair_within(&sz, &sy) && pair_within(&sz, &sz);
        let r = ok_x && ok_y && ok_z && pairs;
        proof {
            let b = *self;
            let ry = *ray;
            if r {
                assert forall|i: int| 0 <= i < 3 implies #[trigger] axis_ok(b, ry, i) by {
                    if i == 0 {
                    } else if i == 1 {
                    } else {
                    }
                }
                assert forall|i: int, j: int| 0 <= i < 3 && 0 <= j < 3 implies #[trigger] pair_ok(
                    b,
                    ry,
                    i,
                    j,
                ) by {
                    if i == 0 {
                    } else if i == 1 {
                    } else {
                    }
                    if j == 0 {
                    } else if j == 1 {
                    } else {
                    }
                }
            } else {
                if !(ok_x && ok_y && ok_z) {
                    if !ok_x {
                        assert(!axis_ok(b, ry, 0));
                    } else if !ok_y {
                        assert(!axis_ok(b, ry, 1));
                    } else {
                        assert(!axis_ok(b, ry, 2));
                    }
                } else {
                    assert(!pair_ok(b, ry, 0, 0) || !pair_ok(b, ry, 0, 1) || !pair_ok(b, ry, 0, 2)
                        || !pair_ok(b, ry, 1, 0) || !pair_ok(b, ry, 1, 1) || !pair_ok(b, ry, 1, 2)
                        || !pair_ok(b, ry, 2, 0) || !pair_ok(b, ry, 2, 1) || !pair_ok(
                        b,
                        ry,
                        2,
                        2,
                    ));
                }
            }
        }
        r
    }
}

impl BoundingVolume for Aabb {
    open spec fn wf(self) -> bool {
        self.bounded(BOX_MAX as int)
    }

    open spec fn combine_spec(self, rhs: Aabb) -> Aabb {
        self.combine_box(rhs)
    }

    open spec fn test_spec(self, ray: Ray) -> bool {
        aabb_test_spec(self, ray)
    }

    open spec fn volume_spec(self) -> int {
        mul_sat_spec(
            mul_sat_spec(self.x_max@ - self.x_min@, self.y_max@ - self.y_min@),
            self.z_max@ - self.z_min@,
        )
    }

    fn combine(&self, rhs: &Aabb) -> (r: Aabb) {
        Aabb::combine(self, rhs)
    }

    fn estimated_volume(&self) -> (r: Scalar) {
        Aabb::estimated_volume(self)
    }

    fn test(&self, against: &Ray) -> (r: bool) {
        Aabb::test(self, against)
    }

    proof fn lemma_combine_commutes(a: Aabb, b: Aabb) {
    }
}

/// The box hull is associative — exactly, not merely up to tolerance.
pub proof fn lemma_aabb_combine_associative(a: Aabb, b: Aabb, c: Aabb)
    ensures
        a.combine_box(b).combine_box(c) == a.combine_box(b.combine_box(c)),
{
}

} // verus!
