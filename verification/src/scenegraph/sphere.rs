//! Spheres: the concrete primitive, both as geometry and as a bounding
//! volume.
//!
//! The hit decision is exact: instead of comparing rounded intermediate
//! values, the closest-approach test is phrased over wide integer products
//! of raw coordinates, so `trace` hits exactly when the real line passes
//! within the radius and the closest approach lies ahead of the origin.
//! Only the reported distance itself rounds, once, down to the raw grid.

use vstd::prelude::*;

verus! {

use crate::math::aabb::Aabb;
use crate::math::bounding_volume::Bounded;
use crate::math::bounding_volume::BoundingVolume;
use crate::math::point::Point;
use crate::math::point::point_from_ints;
use crate::math::ray::COORD_MAX;
use crate::math::ray::Ray;
use crate::math::scalar::SCALE;
use crate::math::scalar::Scalar;
use crate::math::scalar::isqrt;
use crate::math::scalar::lemma_isqrt_bounds;
use crate::math::scalar::lemma_mul_abs_bound;
use crate::math::scalar::lemma_tdiv_abs_bound;
use crate::math::scalar::lemma_tdiv_bounds;
use crate::math::scalar::mul_sat_spec;
use crate::math::scalar::mul_wide;
use crate::math::scalar::tdiv;
use crate::math::scalar::tdiv_i128;
use crate::math::scalar::isqrt_u128;
use crate::math::uv::UV;
use crate::math::vector::Vector;
use crate::math::vector::lemma_cauchy_schwarz;
use crate::math::vector::lemma_norm_component_bound;
use crate::shading::material::Material;
use crate::tracing::hit::HitPoint;
use crate::tracing::hit::HitPointData;
use crate::tracing::hit::Hitable;
use crate::tracing::traceable::Traceable;
use vstd::arithmetic::div_mod::lemma_div_by_multiple;
use vstd::arithmetic::div_mod::lemma_fundamental_div_mod;
use vstd::arithmetic::div_mod::lemma_mod_bound;
use vstd::arithmetic::div_mod::lemma_div_is_ordered;

/// The center-minus-origin displacement, x component (raw units).
pub open spec fn sph_ocx(s: Sphere, r: Ray) -> int {
    s.center.x@ - r.origin.x@
}

/// The center-minus-origin displacement, y component.
pub open spec fn sph_ocy(s: Sphere, r: Ray) -> int {
    s.center.y@ - r.origin.y@
}

/// The center-minus-origin displacement, z component.
pub open spec fn sph_ocz(s: Sphere, r: Ray) -> int {
    s.center.z@ - r.origin.z@
}

/// The wide dot product of the displacement with the ray direction: the
/// closest-approach parameter times the squared direction length.
pub open spec fn sph_q(s: Sphere, r: Ray) -> int {
    sph_ocx(s, r) * r.direction.x@ + sph_ocy(s, r) * r.direction.y@ + sph_ocz(s, r)
        * r.direction.z@
}

/// The squared length of the ray direction, in wide raw units.
pub open spec fn sph_n(r: Ray) -> int {
    r.direction.dot_wide(r.direction)
}

/// The squared length of the displacement, in wide raw units.
pub open spec fn sph_cc(s: Sphere, r: Ray) -> int {
    sph_ocx(s, r) * sph_ocx(s, r) + sph_ocy(s, r) * sph_ocy(s, r) + sph_ocz(s, r) * sph_ocz(s, r)
}

/// The exact conservative hit test: the closest approach lies ahead of the
/// origin and the line passes within the radius.  Equivalent to
/// `cc - q^2/n <= radius^2` over the rationals, cleared of denominators.
pub open spec fn sphere_sees_spec(s: Sphere, r: Ray) -> bool {
    &&& sph_q(s, r) >= 0
    &&& sph_cc(s, r) * sph_n(r) - sph_q(s, r) * sph_q(s, r) <= (s.radius@ * s.radius@) * sph_n(r)
}

/// The half chord between entering the sphere and the closest approach,
/// rounded down to the raw grid.
pub open spec fn sphere_half_chord(s: Sphere, r: Ray) -> int {
    isqrt(s.radius@ * s.radius@ - sph_cc(s, r) + tdiv(sph_q(s, r) * sph_q(s, r), sph_n(r)))
}

/// The entry distance `trace` reports on a hit, in raw units.
pub open spec fn sphere_dist_raw(s: Sphere, r: Ray) -> int {
    tdiv(sph_q(s, r), SCALE as int) - sphere_half_chord(s, r)
}

/// The exact trace result: the rounded entry distance, or nothing when the
/// ray misses, starts past the sphere, or has a zero direction.
pub open spec fn sphere_trace_dist(s: Sphere, r: Ray) -> Option<int> {
    if sph_n(r) > 0 && sphere_sees_spec(s, r) && sphere_dist_raw(s, r) >= 0 {
        Some(sphere_dist_raw(s, r))
    } else {
        None
    }
}

/// The squared distance between two sphere centers, in wide raw units.
pub open spec fn sphere_cc2(a: Sphere, b: Sphere) -> int {
    (b.center.x@ - a.center.x@) * (b.center.x@ - a.center.x@) + (b.center.y@ - a.center.y@) * (
    b.center.y@ - a.center.y@) + (b.center.z@ - a.center.z@) * (b.center.z@ - a.center.z@)
}

/// The distance between two sphere centers, rounded down to the raw grid.
pub open spec fn sphere_center_dist(a: Sphere, b: Sphere) -> int {
    isqrt(tdiv(sphere_cc2(a, b), SCALE as int) * SCALE)
}

/// A total order on spheres by center and radius; `combine` canonicalizes
/// its arguments through it so that the hull is exactly commutative.
pub open spec fn sphere_key_le(a: Sphere, b: Sphere) -> bool {
    if a.center.x@ != b.center.x@ {
        a.center.x@ < b.center.x@
    } else if a.center.y@ != b.center.y@ {
        a.center.y@ < b.center.y@
    } else if a.center.z@ != b.center.z@ {
        a.center.z@ < b.center.z@
    } else {
        a.radius@ <= b.radius@
    }
}

/// The smallest sphere enclosing the ordered pair: the larger input when
/// one already contains the other (which also covers coincident or
/// sub-resolution center distances), otherwise the sphere spanning both
/// extremes, its center offset from `a` along the center line.
pub open spec fn sphere_hull(a: Sphere, b: Sphere) -> Sphere {
    let d = sphere_center_dist(a, b);
    let big = if a.radius@ >= b.radius@ {
        a
    } else {
        b
    };
    let small = if a.radius@ >= b.radius@ {
        b
    } else {
        a
    };
    if d + small.radius@ <= big.radius@ {
        big
    } else {
        let nr = tdiv((d + a.radius@ + b.radius@) * 32768, SCALE as int);
        let t = nr - a.radius@;
        Sphere {
            center: point_from_ints(
                a.center.x@ + tdiv(tdiv((b.center.x@ - a.center.x@) * t, SCALE as int) * SCALE, d),
                a.center.y@ + tdiv(tdiv((b.center.y@ - a.center.y@) * t, SCALE as int) * SCALE, d),
                a.center.z@ + tdiv(tdiv((b.center.z@ - a.center.z@) * t, SCALE as int) * SCALE, d),
            ),
            radius: Scalar { raw: nr as i64 },
            radius_sq: Scalar { raw: tdiv(nr * nr, SCALE as int) as i64 },
        }
    }
}

/// A sphere, with its squared radius cached at construction.
#[derive(Clone, Copy, PartialEq, Eq, Structural, Debug)]
pub struct Sphere {
    pub center: Point,
    pub radius: Scalar,
    pub radius_sq: Scalar,
}

impl Sphere {
    /// Coordinates in scene range, a nonnegative radius, and a squared
    /// radius that matches.
    pub open spec fn wf(self) -> bool {
        &&& self.center.bounded(COORD_MAX as int)
        &&& 0 <= self.radius@ <= COORD_MAX
        &&& self.radius_sq@ == tdiv(self.radius@ * self.radius@, SCALE as int)
    }

    /// The sphere with the given center and radius.
    pub fn new(center: Point, radius: Scalar) -> (r: Sphere)
        requires
            center.bounded(COORD_MAX as int),
            0 <= radius@ <= COORD_MAX,
        ensures
            r.center == center,
            r.radius == radius,
            r.wf(),
    {
        proof {
            lemma_mul_abs_bound(radius@, radius@, COORD_MAX as int, COORD_MAX as int);
            lemma_tdiv_abs_bound(
                radius@ * radius@,
                SCALE as int,
                (COORD_MAX as int) * (COORD_MAX as int),
            );
            lemma_tdiv_bounds((COORD_MAX as int) * (COORD_MAX as int), SCALE as int);
        }
        Sphere { center, radius, radius_sq: radius.mul(radius) }
    }

    /// The outward surface normal at a point: the unit vector from the
    /// center through it.
    pub fn normal_at(&self, point: Point) -> (r: Vector)
        requires
            self.center.bounded(COORD_MAX as int),
            point.bounded(0x1F00_0000_0000),
        ensures
            r == crate::math::vector::vec_from_ints(
                point.x@ - self.center.x@,
                point.y@ - self.center.y@,
                point.z@ - self.center.z@,
            ).normalized_spec(),
            r.bounded(2 * SCALE),
    {
        point.sub_point(self.center).normalized()
    }
}

/// A sphere bundled with the material its surface answers with.
#[derive(Clone, Copy, Debug)]
pub struct ShadedSphere<M: Material> {
    pub inner: Sphere,
    pub material: M,
}

impl<M: Material> ShadedSphere<M> {
    /// The shaded sphere with the given geometry and material.
    pub fn new(center: Point, radius: Scalar, material: M) -> (r: ShadedSphere<M>)
        requires
            center.bounded(COORD_MAX as int),
            0 <= radius@ <= COORD_MAX,
        ensures
            r.inner.center == center,
            r.inner.radius == radius,
            r.inner.wf(),
            r.material == material,
    {
        ShadedSphere { inner: Sphere::new(center, radius), material }
    }
}

/// Per-product bounds for the wide trace arithmetic.
proof fn lemma_wide_term_bounds(ocx: int, ocy: int, ocz: int, dx: int, dy: int, dz: int)
    requires
        -0x8000_0000 <= ocx <= 0x8000_0000,
        -0x8000_0000 <= ocy <= 0x8000_0000,
        -0x8000_0000 <= ocz <= 0x8000_0000,
        -0x10_0000 <= dx <= 0x10_0000,
        -0x10_0000 <= dy <= 0x10_0000,
        -0x10_0000 <= dz <= 0x10_0000,
    ensures
        -0x8_0000_0000_0000 <= ocx * dx <= 0x8_0000_0000_0000,
        -0x8_0000_0000_0000 <= ocy * dy <= 0x8_0000_0000_0000,
        -0x8_0000_0000_0000 <= ocz * dz <= 0x8_0000_0000_0000,
        0 <= dx * dx <= 0x100_0000_0000,
        0 <= dy * dy <= 0x100_0000_0000,
        0 <= dz * dz <= 0x100_0000_0000,
        0 <= ocx * ocx <= 0x4000_0000_0000_0000,
        0 <= ocy * ocy <= 0x4000_0000_0000_0000,
        0 <= ocz * ocz <= 0x4000_0000_0000_0000,
{
    lemma_mul_abs_bound(ocx, dx, 0x8000_0000, 0x10_0000);
    lemma_mul_abs_bound(ocy, dy, 0x8000_0000, 0x10_0000);
    lemma_mul_abs_bound(ocz, dz, 0x8000_0000, 0x10_0000);
    lemma_mul_abs_bound(dx, dx, 0x10_0000, 0x10_0000);
    lemma_mul_abs_bound(dy, dy, 0x10_0000, 0x10_0000);
    lemma_mul_abs_bound(dz, dz, 0x10_0000, 0x10_0000);
    lemma_mul_abs_bound(ocx, ocx, 0x8000_0000, 0x8000_0000);
    lemma_mul_abs_bound(ocy, ocy, 0x8000_0000, 0x8000_0000);
    lemma_mul_abs_bound(ocz, ocz, 0x8000_0000, 0x8000_0000);
    assert(dx * dx >= 0 && dy * dy >= 0 && dz * dz >= 0) by (nonlinear_arith);
    assert(ocx * ocx >= 0 && ocy * ocy >= 0 && ocz * ocz >= 0) by (nonlinear_arith);
}

/// Raw-value bounds for the trace arithmetic, all consequences of the
/// sphere's and ray's well-formedness.
proof fn lemma_trace_bounds(s: Sphere, r: Ray)
    requires
        s.wf(),
        r.wf(),
    ensures
        -0x8000_0000 <= sph_ocx(s, r) <= 0x8000_0000,
        -0x8000_0000 <= sph_ocy(s, r) <= 0x8000_0000,
        -0x8000_0000 <= sph_ocz(s, r) <= 0x8000_0000,
        -0x18_0000_0000_0000 <= sph_q(s, r) <= 0x18_0000_0000_0000,
        0 <= sph_n(r) <= 0x300_0000_0000,
        0 <= sph_cc(s, r) <= 0xC000_0000_0000_0000,
        0 <= s.radius@ * s.radius@ <= 0x1000_0000_0000_0000,
{
    lemma_mul_abs_bound(sph_ocx(s, r), r.direction.x@, 0x8000_0000, 0x10_0000);
    lemma_mul_abs_bound(sph_ocy(s, r), r.direction.y@, 0x8000_0000, 0x10_0000);
    lemma_mul_abs_bound(sph_ocz(s, r), r.direction.z@, 0x8000_0000, 0x10_0000);
    lemma_mul_abs_bound(r.direction.x@, r.direction.x@, 0x10_0000, 0x10_0000);
    lemma_mul_abs_bound(r.direction.y@, r.direction.y@, 0x10_0000, 0x10_0000);
    lemma_mul_abs_bound(r.direction.z@, r.direction.z@, 0x10_0000, 0x10_0000);
    assert(r.direction.x@ * r.direction.x@ >= 0) by (nonlinear_arith);
    assert(r.direction.y@ * r.direction.y@ >= 0) by (nonlinear_arith);
    assert(r.direction.z@ * r.direction.z@ >= 0) by (nonlinear_arith);
    lemma_mul_abs_bound(sph_ocx(s, r), sph_ocx(s, r), 0x8000_0000, 0x8000_0000);
    lemma_mul_abs_bound(sph_ocy(s, r), sph_ocy(s, r), 0x8000_0000, 0x8000_0000);
    lemma_mul_abs_bound(sph_ocz(s, r), sph_ocz(s, r), 0x8000_0000, 0x8000_0000);
    assert(sph_ocx(s, r) * sph_ocx(s, r) >= 0) by (nonlinear_arith);
    assert(sph_ocy(s, r) * sph_ocy(s, r) >= 0) by (nonlinear_arith);
    assert(sph_ocz(s, r) * sph_ocz(s, r) >= 0) by (nonlinear_arith);
    lemma_mul_abs_bound(s.radius@, s.radius@, COORD_MAX as int, COORD_MAX as int);
    assert(s.radius@ * s.radius@ >= 0) by (nonlinear_arith);
}

/// On a sighting, the half-chord radicand is a floor of a nonnegative
/// rational and stays within the squared radius (Cauchy–Schwarz).
proof fn lemma_half_chord_radicand(s: Sphere, r: Ray)
    requires
        s.wf(),
        r.wf(),
        sph_n(r) > 0,
        sphere_sees_spec(s, r),
    ensures
        0 <= s.radius@ * s.radius@ - sph_cc(s, r) + tdiv(sph_q(s, r) * sph_q(s, r), sph_n(r)),
        s.radius@ * s.radius@ - sph_cc(s, r) + tdiv(sph_q(s, r) * sph_q(s, r), sph_n(r))
            <= s.radius@ * s.radius@,
{
    let q = sph_q(s, r);
    let n = sph_n(r);
    let cc = sph_cc(s, r);
    let rr = s.radius@ * s.radius@;
    let w = tdiv(q * q, n);
    assert(q * q >= 0) by (nonlinear_arith);
    lemma_tdiv_bounds(q * q, n);
    lemma_fundamental_div_mod(q * q, n);
    lemma_mod_bound(q * q, n);
    // lower bound: n*(cc - rr) <= q*q < n*(w + 1) forces cc - rr <= w
    assert(cc - rr <= w) by (nonlinear_arith)
        requires
            cc * n - q * q <= rr * n,
            q * q == n * w + (q * q) % n,
            0 <= (q * q) % n < n,
            n > 0,
    ;
    // upper bound: Cauchy-Schwarz gives q*q <= cc * n, so w <= cc
    assert(cc >= 0) by (nonlinear_arith)
        requires
            cc == sph_ocx(s, r) * sph_ocx(s, r) + sph_ocy(s, r) * sph_ocy(s, r) + sph_ocz(s, r)
                * sph_ocz(s, r),
    ;
    lemma_cauchy_schwarz(
        sph_ocx(s, r),
        sph_ocy(s, r),
        sph_ocz(s, r),
        r.direction.x@,
        r.direction.y@,
        r.direction.z@,
    );
    lemma_div_is_ordered(q * q, cc * n, n);
    lemma_div_by_multiple(cc, n);
    assert(cc * n == n * cc) by (nonlinear_arith);
    assert(w <= cc);
}

impl<M: Material> Traceable<M> for ShadedSphere<M> {
    open spec fn trace_req(self, ray: Ray) -> bool {
        self.inner.wf() && ray.wf()
    }

    open spec fn trace_spec(self, ray: Ray) -> Option<(Scalar, ShadedSphere<M>)> {
        match sphere_trace_dist(self.inner, ray) {
            Some(d) => Some((Scalar { raw: d as i64 }, self)),
            None => None,
        }
    }

    fn trace<'a>(&'a self, ray: &Ray) -> (r: Option<(Scalar, &'a ShadedSphere<M>)>) {
        let s = self.inner;
        proof {
            lemma_trace_bounds(s, *ray);
        }
        let ocx = s.center.x.raw - ray.origin.x.raw;
        let ocy = s.center.y.raw - ray.origin.y.raw;
        let ocz = s.center.z.raw - ray.origin.z.raw;
        let dx = ray.direction.x.raw;
        let dy = ray.direction.y.raw;
        let dz = ray.direction.z.raw;
        proof {
            lemma_wide_term_bounds(ocx as int, ocy as int, ocz as int, dx as int, dy as int,
                dz as int);
        }
        let q: i128 = mul_wide(ocx, dx) + mul_wide(ocy, dy) + mul_wide(ocz, dz);
        if q < 0 {
            // closest approach lies behind the origin
            return None;
        }
        let n: i128 = mul_wide(dx, dx) + mul_wide(dy, dy) + mul_wide(dz, dz);
        let cc: i128 = mul_wide(ocx, ocx) + mul_wide(ocy, ocy) + mul_wide(ocz, ocz);
        let rr: i128 = mul_wide(s.radius.raw, s.radius.raw);
        proof {
            lemma_mul_abs_bound(cc as int, n as int, 0xC000_0000_0000_0000, 0x300_0000_0000);
            lemma_mul_abs_bound(q as int, q as int, 0x18_0000_0000_0000, 0x18_0000_0000_0000);
            lemma_mul_abs_bound(rr as int, n as int, 0x1000_0000_0000_0000, 0x300_0000_0000);
        }
        if cc * n - q * q > rr * n {
            // the line stays farther from the center than the radius
            return None;
        }
        if n == 0 {
            return None;
        }
        proof {
            lemma_half_chord_radicand(s, *ray);
        }
        let tc = tdiv_i128(q, SCALE as i128);
        let w = tdiv_i128(q * q, n);
        let radicand = rr - cc + w;
        let half = isqrt_u128(radicand as u128) as i128;
        let dist = tc - half;
        if dist < 0 {
            // the entry point lies behind the origin
            return None;
        }
        proof {
            lemma_tdiv_bounds(q as int, SCALE as int);
            lemma_isqrt_bounds(radicand as int);
        }
        Some((Scalar { raw: dist as i64 }, self))
    }
}

/// `(q*b - a*n)^2` expanded over its defining products.
proof fn lemma_perp_term(q: int, n: int, a: int, b: int, w: int)
    requires
        w == q * b - a * n,
    ensures
        w * w == (q * q) * (b * b) - 2 * ((q * (a * b)) * n) + (a * a) * (n * n),
{
    assert(w * w == (q * b) * (q * b) - 2 * ((q * b) * (a * n)) + (a * n) * (a * n))
        by (nonlinear_arith)
        requires
            w == q * b - a * n,
    ;
    assert((q * b) * (q * b) == (q * q) * (b * b)) by (nonlinear_arith);
    assert((q * b) * (a * n) == (q * (a * b)) * n) by (nonlinear_arith);
    assert((a * n) * (a * n) == (a * a) * (n * n)) by (nonlinear_arith);
}

/// The residual identity behind the closest-approach decomposition: the
/// componentwise distance from the closest point to the center, cleared of
/// denominators, sums to `n * (cc * n - q^2)`.
proof fn lemma_perp_identity(
    a1: int,
    a2: int,
    a3: int,
    b1: int,
    b2: int,
    b3: int,
    q: int,
    n: int,
    cc: int,
)
    requires
        q == a1 * b1 + a2 * b2 + a3 * b3,
        n == b1 * b1 + b2 * b2 + b3 * b3,
        cc == a1 * a1 + a2 * a2 + a3 * a3,
    ensures
        (q * b1 - a1 * n) * (q * b1 - a1 * n) + (q * b2 - a2 * n) * (q * b2 - a2 * n) + (q * b3
            - a3 * n) * (q * b3 - a3 * n) == n * (cc * n - q * q),
{
    let w1 = q * b1 - a1 * n;
    let w2 = q * b2 - a2 * n;
    let w3 = q * b3 - a3 * n;
    lemma_perp_term(q, n, a1, b1, w1);
    lemma_perp_term(q, n, a2, b2, w2);
    lemma_perp_term(q, n, a3, b3, w3);
    assert((q * q) * (b1 * b1) + (q * q) * (b2 * b2) + (q * q) * (b3 * b3) == (q * q) * n)
        by (nonlinear_arith)
        requires
            n == b1 * b1 + b2 * b2 + b3 * b3,
    ;
    assert((q * (a1 * b1)) * n + (q * (a2 * b2)) * n + (q * (a3 * b3)) * n == (q * q) * n)
        by (nonlinear_arith)
        requires
            q == a1 * b1 + a2 * b2 + a3 * b3,
    ;
    assert((a1 * a1) * (n * n) + (a2 * a2) * (n * n) + (a3 * a3) * (n * n) == cc * (n * n))
        by (nonlinear_arith)
        requires
            cc == a1 * a1 + a2 * a2 + a3 * a3,
    ;
    assert(cc * (n * n) - (q * q) * n == n * (cc * n - q * q)) by (nonlinear_arith);
}

/// Cross-multiplied transitivity through the closest-approach parameter:
/// one slab's lower endpoint is at most another's upper endpoint.
proof fn lemma_pair_step(lo_i: int, den_i: int, hi_j: int, den_j: int, q: int, n: int)
    requires
        lo_i * n <= q * den_i,
        q * den_j <= hi_j * n,
        n > 0,
        den_i > 0,
        den_j > 0,
    ensures
        lo_i * den_j <= hi_j * den_i,
{
    assert((lo_i * den_j) * n <= (hi_j * den_i) * n) by (nonlinear_arith)
        requires
            lo_i * n <= q * den_i,
            q * den_j <= hi_j * n,
            n > 0,
            den_i > 0,
            den_j > 0,
    ;
    assert(lo_i * den_j <= hi_j * den_i) by (nonlinear_arith)
        requires
            (lo_i * den_j) * n <= (hi_j * den_i) * n,
            n > 0,
    ;
}

/// When a sighted sphere's box lies inside `b`, the ray's line meets `b`:
/// the closest-approach point, a rational point within the radius of the
/// center, witnesses every slab interval.
pub proof fn lemma_sees_implies_box_test(s: Sphere, ray: Ray, b: Aabb)
    requires
        s.wf(),
        ray.wf(),
        sph_n(ray) > 0,
        sphere_sees_spec(s, ray),
        b.contains_box(sphere_aabb(s)),
    ensures
        crate::math::aabb::aabb_test_spec(b, ray),
{
    let q = sph_q(s, ray);
    let n = sph_n(ray);
    let cc = sph_cc(s, ray);
    let r = s.radius@;
    let a1 = sph_ocx(s, ray);
    let a2 = sph_ocy(s, ray);
    let a3 = sph_ocz(s, ray);
    let b1 = ray.direction.x@;
    let b2 = ray.direction.y@;
    let b3 = ray.direction.z@;
    lemma_perp_identity(a1, a2, a3, b1, b2, b3, q, n, cc);
    let w1 = q * b1 - a1 * n;
    let w2 = q * b2 - a2 * n;
    let w3 = q * b3 - a3 * n;
    // each residual is bounded by r * n in magnitude
    assert(n * (cc * n - q * q) <= (r * n) * (r * n)) by (nonlinear_arith)
        requires
            cc * n - q * q <= (r * r) * n,
            n > 0,
            r >= 0,
    ;
    assert(w1 * w1 >= 0 && w2 * w2 >= 0 && w3 * w3 >= 0) by (nonlinear_arith);
    assert(r * n >= 0) by (nonlinear_arith)
        requires
            r >= 0,
            n > 0,
    ;
    assert(-(r * n) <= w1 <= r * n && -(r * n) <= w2 <= r * n && -(r * n) <= w3 <= r * n)
        by (nonlinear_arith)
        requires
            w1 * w1 + w2 * w2 + w3 * w3 <= (r * n) * (r * n),
            w1 * w1 >= 0,
            w2 * w2 >= 0,
            w3 * w3 >= 0,
            r * n >= 0,
    ;
    lemma_trace_bounds(s, ray);
    // per-axis: the closest point's coordinate (times n) lies within the
    // sphere box, hence within b's faces, scaled by n
    assert forall|i: int| 0 <= i < 3 implies #[trigger] crate::math::aabb::axis_ok(b, ray, i) by {
        lemma_axis_facts(s, ray, b, i);
    }
    assert forall|i: int, j: int| 0 <= i < 3 && 0 <= j < 3 implies #[trigger] crate::math::aabb::pair_ok(
        b,
        ray,
        i,
        j,
    ) by {
        lemma_axis_facts(s, ray, b, i);
        lemma_axis_facts(s, ray, b, j);
        let di = crate::math::aabb::axis_d(ray, i);
        let dj = crate::math::aabb::axis_d(ray, j);
        if di != 0 && dj != 0 {
            lemma_pair_step(
                crate::math::aabb::slab_lo(b, ray, i),
                crate::math::aabb::slab_den(ray, i),
                crate::math::aabb::slab_hi(b, ray, j),
                crate::math::aabb::slab_den(ray, j),
                q,
                n,
            );
        }
    }
}

/// Per-axis consequences of the residual bound: a zero-direction axis pins
/// the origin inside the faces, a nonzero one brackets the
/// closest-approach parameter inside the axis slab.
proof fn lemma_axis_facts(s: Sphere, ray: Ray, b: Aabb, i: int)
    requires
        s.wf(),
        ray.wf(),
        sph_n(ray) > 0,
        sphere_sees_spec(s, ray),
        b.contains_box(sphere_aabb(s)),
        0 <= i < 3,
        -(s.radius@ * sph_n(ray)) <= sph_q(s, ray) * crate::math::aabb::axis_d(ray, i) - (
        crate::math::aabb::axis_min(crate::scenegraph::sphere::sphere_aabb(s), i) + s.radius@
            - crate::math::aabb::axis_o(ray, i)) * sph_n(ray) <= s.radius@ * sph_n(ray),
    ensures
        crate::math::aabb::axis_ok(b, ray, i),
        crate::math::aabb::axis_d(ray, i) != 0 ==> crate::math::aabb::slab_lo(b, ray, i) * sph_n(
            ray,
        ) <= sph_q(s, ray) * crate::math::aabb::slab_den(ray, i),
        crate::math::aabb::axis_d(ray, i) != 0 ==> sph_q(s, ray) * crate::math::aabb::slab_den(
            ray,
            i,
        ) <= crate::math::aabb::slab_hi(b, ray, i) * sph_n(ray),
{
    let q = sph_q(s, ray);
    let n = sph_n(ray);
    let r = s.radius@;
    let d = crate::math::aabb::axis_d(ray, i);
    let o = crate::math::aabb::axis_o(ray, i);
    let c = if i == 0 {
        s.center.x@
    } else if i == 1 {
        s.center.y@
    } else {
        s.center.z@
    };
    assert(crate::math::aabb::axis_min(sphere_aabb(s), i) == c - r);
    assert(crate::math::aabb::axis_max(sphere_aabb(s), i) == c + r);
    let w = q * d - (c - o) * n;
    assert(-(r * n) <= w <= r * n);
    // the closest point's scaled coordinate lies within the sphere box
    assert((c - r) * n <= o * n + q * d <= (c + r) * n) by (nonlinear_arith)
        requires
            w == q * d - (c - o) * n,
            -(r * n) <= w <= r * n,
    ;
    // and the sphere box lies within b on this axis
    let bmin = crate::math::aabb::axis_min(b, i);
    let bmax = crate::math::aabb::axis_max(b, i);
    assert(bmin <= c - r && c + r <= bmax);
    assert(bmin * n <= (c - r) * n && (c + r) * n <= bmax * n) by (nonlinear_arith)
        requires
            bmin <= c - r,
            c + r <= bmax,
            n > 0,
    ;
    if d == 0 {
        assert(q * d == 0) by (nonlinear_arith)
            requires
                d == 0,
        ;
        assert(bmin * n <= o * n <= bmax * n);
        assert(bmin <= o <= bmax) by (nonlinear_arith)
            requires
                bmin * n <= o * n <= bmax * n,
                n > 0,
        ;
    } else if d > 0 {
        assert(crate::math::aabb::slab_lo(b, ray, i) * n == bmin * n - o * n) by (nonlinear_arith)
            requires
                crate::math::aabb::slab_lo(b, ray, i) == bmin - o,
        ;
        assert(crate::math::aabb::slab_hi(b, ray, i) * n == bmax * n - o * n) by (nonlinear_arith)
            requires
                crate::math::aabb::slab_hi(b, ray, i) == bmax - o,
        ;
    } else {
        assert(crate::math::aabb::slab_lo(b, ray, i) * n == o * n - bmax * n) by (nonlinear_arith)
            requires
                crate::math::aabb::slab_lo(b, ray, i) == o - bmax,
        ;
        assert(crate::math::aabb::slab_hi(b, ray, i) * n == o * n - bmin * n) by (nonlinear_arith)
            requires
                crate::math::aabb::slab_hi(b, ray, i) == o - bmin,
        ;
        assert(q * crate::math::aabb::slab_den(ray, i) == -(q * d)) by (nonlinear_arith)
            requires
                crate::math::aabb::slab_den(ray, i) == -d,
    ;
    }
}

/// Combining never produces a volume smaller than either input: the hull
/// sphere's radius is at least both input radii.
pub proof fn lemma_sphere_combine_no_smaller(a: Sphere, b: Sphere)
    requires
        a.wf(),
        b.wf(),
    ensures
        BoundingVolume::combine_spec(a, b).radius@ >= a.radius@,
        BoundingVolume::combine_spec(a, b).radius@ >= b.radius@,
{
    lemma_sphere_hull_no_smaller(a, b);
    lemma_sphere_hull_no_smaller(b, a);
}

/// The ordered hull's radius covers both inputs.
proof fn lemma_sphere_hull_no_smaller(a: Sphere, b: Sphere)
    requires
        a.wf(),
        b.wf(),
    ensures
        sphere_hull(a, b).radius@ >= a.radius@,
        sphere_hull(a, b).radius@ >= b.radius@,
{
    let d = sphere_center_dist(a, b);
    let ra = a.radius@;
    let rb = b.radius@;
    crate::math::scalar::lemma_isqrt_nonneg(tdiv(sphere_cc2(a, b), SCALE as int) * SCALE);
    let big_r = if ra >= rb {
        ra
    } else {
        rb
    };
    let small_r = if ra >= rb {
        rb
    } else {
        ra
    };
    if d + small_r <= big_r {
        // the larger sphere is kept as is
    } else {
        let nd = d + ra + rb;
        let nr = tdiv(nd * 32768, SCALE as int);
        // past the containment branch, d exceeds the radius gap both ways
        assert(nd >= 2 * ra && nd >= 2 * rb);
        lemma_fundamental_div_mod(nd * 32768, SCALE as int);
        lemma_mod_bound(nd * 32768, SCALE as int);
        assert(nd * 32768 >= 0) by (nonlinear_arith)
            requires
                nd >= 0,
        ;
        assert(nr >= ra && nr >= rb) by (nonlinear_arith)
            requires
                nd * 32768 == 65536 * ((nd * 32768) / 65536) + (nd * 32768) % 65536,
                0 <= (nd * 32768) % 65536 < 65536,
                nr == (nd * 32768) / 65536,
                nd >= 2 * ra,
                nd >= 2 * rb,
        ;
        // the hull radius also fits the raw range, so the stored field is it
        assert((b.center.x@ - a.center.x@) * (b.center.x@ - a.center.x@) >= 0 && (b.center.y@
            - a.center.y@) * (b.center.y@ - a.center.y@) >= 0 && (b.center.z@ - a.center.z@) * (
        b.center.z@ - a.center.z@) >= 0) by (nonlinear_arith);
        lemma_mul_abs_bound(b.center.x@ - a.center.x@, b.center.x@ - a.center.x@, 0x8000_0000,
            0x8000_0000);
        lemma_mul_abs_bound(b.center.y@ - a.center.y@, b.center.y@ - a.center.y@, 0x8000_0000,
            0x8000_0000);
        lemma_mul_abs_bound(b.center.z@ - a.center.z@, b.center.z@ - a.center.z@, 0x8000_0000,
            0x8000_0000);
        lemma_tdiv_bounds(sphere_cc2(a, b), SCALE as int);
        lemma_isqrt_bounds(tdiv(sphere_cc2(a, b), SCALE as int) * SCALE);
        lemma_tdiv_abs_bound(sphere_cc2(a, b), SCALE as int, 0xC000_0000_0000_0000);
        if d > 0x2_0000_0000 {
            assert(d * d > 0x4_0000_0000_0000_0000) by (nonlinear_arith)
                requires
                    d > 0x2_0000_0000,
            ;
            assert(tdiv(sphere_cc2(a, b), SCALE as int) * SCALE <= sphere_cc2(a, b));
            assert(false);
        }
        lemma_tdiv_bounds(nd * 32768, SCALE as int);
        lemma_mul_abs_bound(nd, 32768, 0x2_8000_0000, 32768);
        assert(sphere_hull(a, b).radius@ == nr);
    }
}

/// A ray aimed straight at a sphere's center hits at exactly the center
/// distance minus the radius: for a unit direction (`n == SCALE^2`) whose
/// scaled displacement alignment is exact (`oc * SCALE == dist * d`
/// componentwise) and a center farther away than the radius, the reported
/// entry distance is `dist - radius`, with no rounding loss at all.
pub proof fn lemma_direct_hit_distance(s: Sphere, ray: Ray, dist: int)
    requires
        s.wf(),
        ray.wf(),
        sph_n(ray) == (SCALE as int) * (SCALE as int),
        sph_ocx(s, ray) * SCALE == dist * ray.direction.x@,
        sph_ocy(s, ray) * SCALE == dist * ray.direction.y@,
        sph_ocz(s, ray) * SCALE == dist * ray.direction.z@,
        0 < s.radius@ < dist,
    ensures
        sphere_trace_dist(s, ray) == Some(dist - s.radius@),
{
    let q = sph_q(s, ray);
    let n = sph_n(ray);
    let cc = sph_cc(s, ray);
    let r = s.radius@;
    let a1 = sph_ocx(s, ray);
    let a2 = sph_ocy(s, ray);
    let a3 = sph_ocz(s, ray);
    let b1 = ray.direction.x@;
    let b2 = ray.direction.y@;
    let b3 = ray.direction.z@;
    let sc = SCALE as int;
    // q * SCALE == dist * n, hence q == dist * SCALE
    assert((a1 * b1) * sc == dist * (b1 * b1)) by (nonlinear_arith)
        requires
            a1 * sc == dist * b1,
            sc == 65536,
    ;
    assert((a2 * b2) * sc == dist * (b2 * b2)) by (nonlinear_arith)
        requires
            a2 * sc == dist * b2,
            sc == 65536,
    ;
    assert((a3 * b3) * sc == dist * (b3 * b3)) by (nonlinear_arith)
        requires
            a3 * sc == dist * b3,
            sc == 65536,
    ;
    assert(q * sc == (a1 * b1) * sc + (a2 * b2) * sc + (a3 * b3) * sc) by (nonlinear_arith)
        requires
            q == a1 * b1 + a2 * b2 + a3 * b3,
    ;
    assert(dist * n == dist * (b1 * b1) + dist * (b2 * b2) + dist * (b3 * b3))
        by (nonlinear_arith)
        requires
            n == b1 * b1 + b2 * b2 + b3 * b3,
    ;
    assert(q * sc == dist * n);
    assert(q == dist * sc) by (nonlinear_arith)
        requires
            q * sc == dist * n,
            n == sc * sc,
            sc > 0,
    ;
    // cc * SCALE^2 == dist^2 * n, hence cc == dist^2
    assert((a1 * a1) * (sc * sc) == (dist * dist) * (b1 * b1)) by (nonlinear_arith)
        requires
            a1 * sc == dist * b1,
    ;
    assert((a2 * a2) * (sc * sc) == (dist * dist) * (b2 * b2)) by (nonlinear_arith)
        requires
            a2 * sc == dist * b2,
    ;
    assert((a3 * a3) * (sc * sc) == (dist * dist) * (b3 * b3)) by (nonlinear_arith)
        requires
            a3 * sc == dist * b3,
    ;
    assert(cc * (sc * sc) == (a1 * a1) * (sc * sc) + (a2 * a2) * (sc * sc) + (a3 * a3) * (sc
        * sc)) by (nonlinear_arith)
        requires
            cc == a1 * a1 + a2 * a2 + a3 * a3,
    ;
    assert((dist * dist) * n == (dist * dist) * (b1 * b1) + (dist * dist) * (b2 * b2) + (dist
        * dist) * (b3 * b3)) by (nonlinear_arith)
        requires
            n == b1 * b1 + b2 * b2 + b3 * b3,
    ;
    assert(cc * (sc * sc) == (dist * dist) * n);
    assert(cc == dist * dist) by (nonlinear_arith)
        requires
            cc * (sc * sc) == (dist * dist) * n,
            n == sc * sc,
            sc > 0,
    ;
    // the sighting holds with equality: the line passes through the center
    assert(q > 0) by (nonlinear_arith)
        requires
            q == dist * sc,
            dist > 0,
            sc > 0,
    ;
    assert(cc * n - q * q == 0) by (nonlinear_arith)
        requires
            cc == dist * dist,
            q == dist * sc,
            n == sc * sc,
    ;
    assert((r * r) * n >= 0) by (nonlinear_arith)
        requires
            n > 0,
    ;
    // the rounded pieces are all exact
    assert(q * q == (dist * dist) * n) by (nonlinear_arith)
        requires
            q == dist * sc,
            n == sc * sc,
    ;
    lemma_div_by_multiple(dist * dist, n);
    assert(tdiv(q * q, n) == dist * dist);
    lemma_div_by_multiple(dist, sc);
    assert(q == dist * sc && q >= 0);
    assert(tdiv(q, sc) == dist);
    assert(0 <= r * r && r * r < (r + 1) * (r + 1)) by (nonlinear_arith)
        requires
            r >= 0,
    ;
    crate::math::scalar::lemma_isqrt_unique(r * r, r);
    assert(sphere_half_chord(s, ray) == r);
    assert(sphere_dist_raw(s, ray) == dist - r);
}

/// The sphere volume's test is conservative: it never reports a miss for
/// a ray whose trace actually hits the sphere.
pub proof fn lemma_sphere_test_conservative(s: Sphere, ray: Ray)
    ensures
        sphere_trace_dist(s, ray) is Some ==> BoundingVolume::test_spec(s, ray),
{
}

/// A ray whose line passes the sphere farther than the radius reports no
/// hit: the perpendicular-offset condition, cleared of denominators.
pub proof fn lemma_miss_past_sphere(s: Sphere, ray: Ray)
    requires
        sph_cc(s, ray) * sph_n(ray) - sph_q(s, ray) * sph_q(s, ray) > (s.radius@ * s.radius@)
            * sph_n(ray),
    ensures
        sphere_trace_dist(s, ray) is None,
{
}

/// A sphere's trace result is its own leaf with a distance in a fixed
/// machine range.
pub proof fn lemma_sphere_trace_result<M: Material>(l: ShadedSphere<M>, ray: Ray)
    requires
        l.inner.wf(),
        ray.wf(),
    ensures
        match l.trace_spec(ray) {
            Some(t) => t.1 == l && 0 <= t.0@ <= 0x18_0000_0000,
            None => true,
        },
{
    let s = l.inner;
    if sphere_trace_dist(s, ray) is Some {
        lemma_trace_bounds(s, ray);
        crate::math::scalar::lemma_isqrt_nonneg(
            s.radius@ * s.radius@ - sph_cc(s, ray) + tdiv(
                sph_q(s, ray) * sph_q(s, ray),
                sph_n(ray),
            ),
        );
        lemma_tdiv_abs_bound(sph_q(s, ray), SCALE as int, 0x18_0000_0000_0000);
        lemma_div_by_multiple(0x18_0000_0000, SCALE as int);
        assert(0x18_0000_0000int * (SCALE as int) == 0x18_0000_0000_0000int);
    }
}

impl BoundingVolume for Sphere {
    open spec fn wf(self) -> bool {
        Sphere::wf(self)
    }

    open spec fn combine_spec(self, rhs: Sphere) -> Sphere {
        if sphere_key_le(self, rhs) {
            sphere_hull(self, rhs)
        } else {
            sphere_hull(rhs, self)
        }
    }

    open spec fn test_spec(self, ray: Ray) -> bool {
        sphere_sees_spec(self, ray)
    }

    open spec fn volume_spec(self) -> int {
        mul_sat_spec(mul_sat_spec(mul_sat_spec(mul_sat_spec(87381, self.radius@), self.radius@), self.radius@), 205887)
    }

    fn combine(&self, rhs: &Sphere) -> (r: Sphere) {
        let (a, b) = if sphere_key_le_exec(self, rhs) {
            (*self, *rhs)
        } else {
            (*rhs, *self)
        };
        sphere_hull_exec(a, b)
    }

    fn estimated_volume(&self) -> (r: Scalar) {
        let four_over_three = Scalar::from_int(4).div(Scalar::from_int(3));
        assert(four_over_three@ == 87381);
        four_over_three.mul_sat(self.radius).mul_sat(self.radius).mul_sat(self.radius).mul_sat(
            Scalar::pi(),
        )
    }

    fn test(&self, against: &Ray) -> (r: bool) {
        let s = *self;
        proof {
            lemma_trace_bounds(s, *against);
        }
        let ocx = s.center.x.raw - against.origin.x.raw;
        let ocy = s.center.y.raw - against.origin.y.raw;
        let ocz = s.center.z.raw - against.origin.z.raw;
        let dx = against.direction.x.raw;
        let dy = against.direction.y.raw;
        let dz = against.direction.z.raw;
        proof {
            lemma_wide_term_bounds(ocx as int, ocy as int, ocz as int, dx as int, dy as int,
                dz as int);
        }
        let q: i128 = mul_wide(ocx, dx) + mul_wide(ocy, dy) + mul_wide(ocz, dz);
        if q < 0 {
            return false;
        }
        let n: i128 = mul_wide(dx, dx) + mul_wide(dy, dy) + mul_wide(dz, dz);
        let cc: i128 = mul_wide(ocx, ocx) + mul_wide(ocy, ocy) + mul_wide(ocz, ocz);
        let rr: i128 = mul_wide(s.radius.raw, s.radius.raw);
        proof {
            lemma_mul_abs_bound(cc as int, n as int, 0xC000_0000_0000_0000, 0x300_0000_0000);
            lemma_mul_abs_bound(q as int, q as int, 0x18_0000_0000_0000, 0x18_0000_0000_0000);
            lemma_mul_abs_bound(rr as int, n as int, 0x1000_0000_0000_0000, 0x300_0000_0000);
        }
        cc * n - q * q <= rr * n
    }

    proof fn lemma_combine_commutes(a: Sphere, b: Sphere) {
        if sphere_key_le(a, b) && sphere_key_le(b, a) {
            assert(a.radius@ == b.radius@);
            assert(a.center.x == b.center.x && a.center.y == b.center.y && a.center.z
                == b.center.z);
            assert(a.radius == b.radius);
            assert(a.radius_sq@ == b.radius_sq@);
            assert(a == b);
        }
    }
}

/// Whether `a` precedes `b` in the canonical sphere order.
fn sphere_key_le_exec(a: &Sphere, b: &Sphere) -> (r: bool)
    ensures
        r == sphere_key_le(*a, *b),
{
    if a.center.x.raw != b.center.x.raw {
        a.center.x.raw < b.center.x.raw
    } else if a.center.y.raw != b.center.y.raw {
        a.center.y.raw < b.center.y.raw
    } else if a.center.z.raw != b.center.z.raw {
        a.center.z.raw < b.center.z.raw
    } else {
        a.radius.raw <= b.radius.raw
    }
}

/// The truncated center offset stays within three times the scaled span.
proof fn lemma_hull_offset_fits(dsp: int, t: int, cc: int, dist: int)
    requires
        dist == isqrt(tdiv(cc, SCALE as int) * SCALE),
        dist >= 1,
        dsp * dsp <= cc,
        cc >= 0,
        0 <= t <= 0x2_0000_0000,
    ensures
        -3 * t <= tdiv(tdiv(dsp * t, SCALE as int) * SCALE, dist) <= 3 * t,
{
    lemma_norm_component_bound(dsp, cc, dist);
    assert(-3 * dist <= dsp <= 3 * dist);
    let bound = 3 * dist * t;
    lemma_mul_abs_bound(dsp, t, 3 * dist, t);
    assert(bound >= 0) by (nonlinear_arith)
        requires
            dist >= 1,
            t >= 0,
            bound == 3 * dist * t,
    ;
    lemma_tdiv_abs_bound(dsp * t, SCALE as int, bound);
    let u = tdiv(dsp * t, SCALE as int);
    lemma_tdiv_bounds(bound, SCALE as int);
    // |u| * SCALE <= bound
    lemma_fundamental_div_mod(bound, SCALE as int);
    lemma_mod_bound(bound, SCALE as int);
    assert(tdiv(bound, SCALE as int) * SCALE <= bound);
    assert(-bound <= u * SCALE <= bound) by (nonlinear_arith)
        requires
            -tdiv(bound, SCALE as int) <= u <= tdiv(bound, SCALE as int),
            tdiv(bound, SCALE as int) * SCALE <= bound,
            0 <= tdiv(bound, SCALE as int),
            SCALE == 65536,
    ;
    lemma_tdiv_abs_bound(u * SCALE, dist, bound);
    lemma_div_by_multiple(3 * t, dist);
    assert((3 * t) * dist == 3 * dist * t) by (nonlinear_arith);
    assert(tdiv(bound, dist) == 3 * t);
}

/// The hull of an ordered sphere pair, exactly `sphere_hull`.
fn sphere_hull_exec(a: Sphere, b: Sphere) -> (r: Sphere)
    requires
        a.wf(),
        b.wf(),
    ensures
        r == sphere_hull(a, b),
{
    proof {
        lemma_mul_abs_bound(
            b.center.x@ - a.center.x@,
            b.center.x@ - a.center.x@,
            0x8000_0000,
            0x8000_0000,
        );
        lemma_mul_abs_bound(
            b.center.y@ - a.center.y@,
            b.center.y@ - a.center.y@,
            0x8000_0000,
            0x8000_0000,
        );
        lemma_mul_abs_bound(
            b.center.z@ - a.center.z@,
            b.center.z@ - a.center.z@,
            0x8000_0000,
            0x8000_0000,
        );
        assert((b.center.x@ - a.center.x@) * (b.center.x@ - a.center.x@) >= 0) by (nonlinear_arith);
        assert((b.center.y@ - a.center.y@) * (b.center.y@ - a.center.y@) >= 0) by (nonlinear_arith);
        assert((b.center.z@ - a.center.z@) * (b.center.z@ - a.center.z@) >= 0) by (nonlinear_arith);
        lemma_tdiv_bounds(sphere_cc2(a, b), SCALE as int);
        lemma_tdiv_abs_bound(sphere_cc2(a, b), SCALE as int, 0xC000_0000_0000_0000);
    }
    let disp = b.center.sub_point(a.center);
    let distance = disp.magnitude();
    proof {
        assert(disp.dot_wide(disp) == sphere_cc2(a, b));
        assert(distance@ == sphere_center_dist(a, b));
        lemma_isqrt_bounds(tdiv(sphere_cc2(a, b), SCALE as int) * SCALE);
        // distance fits comfortably: its square is at most 3 * 2^62
        if distance@ > 0x2_0000_0000 {
            assert(distance@ * distance@ > 0x4_0000_0000_0000_0000) by (nonlinear_arith)
                requires
                    distance@ > 0x2_0000_0000,
            ;
            assert(tdiv(sphere_cc2(a, b), SCALE as int) * SCALE <= sphere_cc2(a, b));
        }
        assert(0 <= distance@ <= 0x2_0000_0000);
    }
    let big = if a.radius.raw >= b.radius.raw {
        a
    } else {
        b
    };
    let small = if a.radius.raw >= b.radius.raw {
        b
    } else {
        a
    };
    if distance.add(small.radius).le(big.radius) {
        return big;
    }
    let new_diameter = distance.add(a.radius).add(b.radius);
    let new_radius = new_diameter.mul(Scalar::half());
    proof {
        lemma_tdiv_bounds(new_diameter@ * 32768, SCALE as int);
        lemma_mul_abs_bound(new_diameter@, 32768, 0x2_8000_0000_0000, 32768);
        lemma_tdiv_abs_bound(new_diameter@ * 32768, SCALE as int, 0x2_8000_0000_0000int * 32768);
    }
    let t = new_radius.sub(a.radius);
    proof {
        // past the containment branch the new radius covers `a`'s
        assert(new_diameter@ >= 2 * a.radius@ + 1 || b.radius@ >= a.radius@);
        assert(t@ >= 0) by (nonlinear_arith)
            requires
                t@ == tdiv(new_diameter@ * 32768, SCALE as int) - a.radius@,
                new_diameter@ >= 0,
                a.radius@ >= 0,
                new_diameter@ >= 2 * a.radius@,
                tdiv(new_diameter@ * 32768, SCALE as int) == (new_diameter@ * 32768) / 65536,
                SCALE == 65536,
        ;
        assert(0 <= t@ <= 0x2_0000_0000);
        assert(distance@ >= 1);
        lemma_hull_offset_fits(disp.x@, t@, sphere_cc2(a, b), distance@);
        lemma_hull_offset_fits(disp.y@, t@, sphere_cc2(a, b), distance@);
        lemma_hull_offset_fits(disp.z@, t@, sphere_cc2(a, b), distance@);
    }
    let offset = disp.mul(t);
    let cx = a.center.x.add(offset.x.div(distance));
    let cy = a.center.y.add(offset.y.div(distance));
    let cz = a.center.z.add(offset.z.div(distance));
    proof {
        lemma_mul_abs_bound(new_radius@, new_radius@, 0x1_4000_0000, 0x1_4000_0000);
        lemma_tdiv_abs_bound(
            new_radius@ * new_radius@,
            SCALE as int,
            0x1_4000_0000int * 0x1_4000_0000int,
        );
    }
    Sphere {
        center: Point { x: cx, y: cy, z: cz },
        radius: new_radius,
        radius_sq: new_radius.mul(new_radius),
    }
}

impl Bounded<Sphere> for Sphere {
    open spec fn bounding_req(self) -> bool {
        true
    }

    open spec fn bounding_volume_spec(self) -> Sphere {
        self
    }

    fn bounding_volume(&self) -> (r: Sphere) {
        *self
    }
}

/// The axis-aligned box spanning `center - radius` to `center + radius`.
pub open spec fn sphere_aabb(s: Sphere) -> Aabb {
    Aabb {
        x_min: Scalar { raw: (s.center.x@ - s.radius@) as i64 },
        x_max: Scalar { raw: (s.center.x@ + s.radius@) as i64 },
        y_min: Scalar { raw: (s.center.y@ - s.radius@) as i64 },
        y_max: Scalar { raw: (s.center.y@ + s.radius@) as i64 },
        z_min: Scalar { raw: (s.center.z@ - s.radius@) as i64 },
        z_max: Scalar { raw: (s.center.z@ + s.radius@) as i64 },
    }
}

impl Bounded<Aabb> for Sphere {
    open spec fn bounding_req(self) -> bool {
        self.wf()
    }

    open spec fn bounding_volume_spec(self) -> Aabb {
        sphere_aabb(self)
    }

    fn bounding_volume(&self) -> (r: Aabb) {
        Aabb {
            x_min: self.center.x.sub(self.radius),
            x_max: self.center.x.add(self.radius),
            y_min: self.center.y.sub(self.radius),
            y_max: self.center.y.add(self.radius),
            z_min: self.center.z.sub(self.radius),
            z_max: self.center.z.add(self.radius),
        }
    }
}

impl<M: Material> Bounded<Aabb> for ShadedSphere<M> {
    open spec fn bounding_req(self) -> bool {
        self.inner.wf()
    }

    open spec fn bounding_volume_spec(self) -> Aabb {
        sphere_aabb(self.inner)
    }

    fn bounding_volume(&self) -> (r: Aabb) {
        Bounded::<Aabb>::bounding_volume(&self.inner)
    }
}

impl<M: Material> Hitable for ShadedSphere<M> {
    type Material = M;

    open spec fn get_hit_req(self, ray: Ray, distance: Scalar) -> bool {
        self.inner.wf() && ray.wf() && 0 <= distance@ <= 0x40_0000_0000
    }

    open spec fn get_hit_spec(self, ray: Ray, distance: Scalar) -> HitPoint<M> {
        let point = ray.point_at_spec(distance@);
        HitPoint {
            data: HitPointData {
                point,
                normal: crate::math::vector::vec_from_ints(
                    point.x@ - self.inner.center.x@,
                    point.y@ - self.inner.center.y@,
                    point.z@ - self.inner.center.z@,
                ).normalized_spec(),
                incoming_dir: ray.direction,
                uv: UV { u: Scalar { raw: 0 }, v: Scalar { raw: 0 } },
            },
            material: self.material,
        }
    }

    fn get_hit(&self, ray: &Ray, distance: Scalar) -> (h: HitPoint<M>) {
        proof {
            lemma_mul_abs_bound(ray.direction.x@, distance@, 0x10_0000, 0x40_0000_0000);
            lemma_mul_abs_bound(ray.direction.y@, distance@, 0x10_0000, 0x40_0000_0000);
            lemma_mul_abs_bound(ray.direction.z@, distance@, 0x10_0000, 0x40_0000_0000);
            lemma_tdiv_abs_bound(
                ray.direction.x@ * distance@,
                SCALE as int,
                0x10_0000int * 0x40_0000_0000int,
            );
            lemma_tdiv_abs_bound(
                ray.direction.y@ * distance@,
                SCALE as int,
                0x10_0000int * 0x40_0000_0000int,
            );
            lemma_tdiv_abs_bound(
                ray.direction.z@ * distance@,
                SCALE as int,
                0x10_0000int * 0x40_0000_0000int,
            );
            lemma_div_by_multiple(0x400_0000_0000, SCALE as int);
            assert(0x400_0000_0000int * (SCALE as int) == 0x10_0000int * 0x40_0000_0000int);
        }
        let point = ray.point_at_distance(distance);
        HitPoint::new(
            point,
            self.inner.normal_at(point),
            ray.direction,
            UV { u: Scalar::zero(), v: Scalar::zero() },
            self.material,
        )
    }
}

} // verus!
