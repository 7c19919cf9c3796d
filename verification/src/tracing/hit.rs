//! Hit points: the full detail of a confirmed intersection, built lazily
//! only for the nearest primitive, plus the `Hitable` protocol for types
//! that can produce one.

use vstd::prelude::*;

verus! {

use crate::light::bounce_quota::BounceQuota;
use crate::light::spectrum::Spectrum;
use crate::math::point::Point;
use crate::math::ray::Ray;
use crate::math::scalar::Scalar;
use crate::math::uv::UV;
use crate::math::vector::Vector;
use crate::shading::material::Material;

/// Surface data of an intersection: where, facing which way, hit from
/// where, and at which surface parameters.
#[derive(Clone, Copy, PartialEq, Eq, Structural, Debug)]
pub struct HitPointData {
    pub point: Point,
    pub normal: Vector,
    pub incoming_dir: Vector,
    pub uv: UV,
}

impl HitPointData {
    /// Bundle the surface data of an intersection.
    pub fn new(point: Point, normal: Vector, incoming_dir: Vector, uv: UV) -> (r: HitPointData)
        ensures
            r == (HitPointData { point, normal, incoming_dir, uv }),
    {
        HitPointData { point, normal, incoming_dir, uv }
    }
}

/// A hit's surface data together with the struck material.
#[derive(Clone, Copy, Debug)]
pub struct HitPoint<M: Material> {
    pub data: HitPointData,
    pub material: M,
}

impl<M: Material> HitPoint<M> {
    /// Bundle surface data with the struck material.
    pub fn new(point: Point, normal: Vector, incoming_dir: Vector, uv: UV, material: M) -> (r:
        HitPoint<M>)
        ensures
            r.data == (HitPointData { point, normal, incoming_dir, uv }),
            r.material == material,
    {
        HitPoint { data: HitPointData::new(point, normal, incoming_dir, uv), material }
    }

    /// Ask the struck material for its contribution under `quota`.
    pub fn evaluate_material(self, quota: BounceQuota) -> (r: Spectrum)
        ensures
            r.v@ == self.material.evaluate_spec(self.data, quota),
    {
        let material = self.material;
        material.evaluate(self.data, quota)
    }
}

/// A shape that can report full hit details once a distance is confirmed.
pub trait Hitable {
    type Material: Material;

    /// When the hit computation's arithmetic is exact and in range.
    spec fn get_hit_req(self, ray: Ray, distance: Scalar) -> bool;

    /// The exact hit point produced for a ray at a confirmed distance.
    spec fn get_hit_spec(self, ray: Ray, distance: Scalar) -> HitPoint<Self::Material>;

    /// Compute the full hit details for a confirmed nearest distance.
    fn get_hit(&self, ray: &Ray, distance: Scalar) -> (h: HitPoint<Self::Material>)
        requires
            self.get_hit_req(*ray, distance),
        ensures
            h == self.get_hit_spec(*ray, distance),
    ;
}

} // verus!
