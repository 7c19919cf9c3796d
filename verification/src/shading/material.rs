//! The material contract: from hit data and a bounce quota to a spectral
//! contribution, with the exact samples pinned by each implementation.
//!
//! A material that wants to recurse must first spend quota through
//! `BounceQuota::attempt`; once the category is exhausted the attempt fails
//! and the material must settle for a terminal value, which is what bounds
//! every light path.

use vstd::prelude::*;

verus! {

use crate::light::bounce_quota::BounceQuota;
use crate::light::bounce_quota::BounceType;
use crate::light::spectrum::Spectrum;
use crate::math::scalar::Scalar;
use crate::tracing::hit::HitPointData;

/// A surface response: hit data and remaining quota map to exact samples.
/// Materials are plain values, copied freely into each hit point.
pub trait Material: Sized + Clone + Copy {
    /// The exact wavelength samples this material contributes.
    spec fn evaluate_spec(self, hit_point: HitPointData, quota: BounceQuota) -> Seq<Scalar>;

    /// Produce the spectral contribution for a confirmed hit.
    fn evaluate(&self, hit_point: HitPointData, quota: BounceQuota) -> (r: Spectrum)
        ensures
            r.v@ == self.evaluate_spec(hit_point, quota),
    ;
}

/// A material that shades with the surface normal's components, spending one
/// diffuse bounce if any remains and going dark otherwise.
#[derive(Clone, Copy, PartialEq, Eq, Structural, Debug)]
pub struct DebugNormalMaterial {}

impl Material for DebugNormalMaterial {
    open spec fn evaluate_spec(self, hit_point: HitPointData, quota: BounceQuota) -> Seq<Scalar> {
        if quota.attempt_spec(BounceType::Diffuse) is Some {
            seq![hit_point.normal.x, hit_point.normal.y, hit_point.normal.z, Scalar { raw: 0 }]
        } else {
            seq![Scalar { raw: 0 }, Scalar { raw: 0 }, Scalar { raw: 0 }, Scalar { raw: 0 }]
        }
    }

    fn evaluate(&self, hit_point: HitPointData, quota: BounceQuota) -> (r: Spectrum) {
        let out = if let Some(_new_quota) = quota.attempt(BounceType::Diffuse) {
            let normal = hit_point.normal;
            let light = Spectrum { v: [normal.x, normal.y, normal.z, Scalar::zero()] };
            proof {
                assert(light.v@ =~= self.evaluate_spec(hit_point, quota));
            }
            light
        } else {
            Spectrum::zero()
        };
        out
    }
}

} // verus!
