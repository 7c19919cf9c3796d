//! The tracing job: a ray, a shared handle to the immutable scene
//! geometry, and a private bounce-quota snapshot.
//!
//! `run` is the complete, synchronous body of one scheduled task: trace the
//! ray through the hierarchy, build the hit point for the nearest leaf, and
//! ask its material for the spectral contribution.  An executor may run any
//! number of jobs in any order; each job's result is a pure function of its
//! ray, geometry and quota, which is what makes concurrent and sequential
//! renders agree.

use vstd::prelude::*;

verus! {

use std::sync::Arc;
use crate::light::bounce_quota::BounceQuota;
use crate::light::spectrum::Spectrum;
use crate::math::ray::Ray;
use crate::math::scalar::Scalar;
use crate::scenegraph::bvh::Bvh;
use crate::scenegraph::bvh::bvh_trace_spec;
use crate::scenegraph::bvh::bvh_wf;
use crate::scenegraph::bvh::lemma_bvh_trace_result;
use crate::shading::material::Material;
use crate::tracing::hit::Hitable;
use crate::tracing::traceable::Traceable;

/// The exact outcome of running one job against geometry `b`: `None` when
/// the ray escapes the scene, else the struck material's samples for the
/// nearest hit under the job's quota.
pub open spec fn job_result_spec<M: Material>(b: Bvh<M>, ray: Ray, quota: BounceQuota) -> Option<
    Seq<Scalar>,
> {
    match bvh_trace_spec(b, ray) {
        None => None,
        Some(t) => {
            let hp = t.1.get_hit_spec(ray, t.0);
            Some(hp.material.evaluate_spec(hp.data, quota))
        },
    }
}

/// A job's outcome is a pure function of its ray, geometry and quota: two
/// jobs over the same inputs resolve identically, whichever workers run
/// them and in whatever order.  Together with the framebuffer's delivery
/// lemma, a concurrent render of a static scene equals a sequential one.
pub proof fn lemma_job_results_deterministic<M: Material>(a: &TracingJob<M>, b: &TracingJob<M>)
    requires
        a.ray == b.ray,
        *a.traceable == *b.traceable,
        a.quota == b.quota,
    ensures
        job_result_spec(*a.traceable, a.ray, a.quota) == job_result_spec(
            *b.traceable,
            b.ray,
            b.quota,
        ),
{
}

/// One schedulable unit of work.  Geometry is shared read-only; the quota
/// is this job's own immutable copy.
pub struct TracingJob<M: Material> {
    pub ray: Ray,
    pub traceable: Arc<Bvh<M>>,
    pub quota: BounceQuota,
}

impl<M: Material> TracingJob<M> {
    /// When the job's ray and geometry are in range for exact tracing.
    pub open spec fn wf(self) -> bool {
        bvh_wf(*self.traceable) && self.ray.wf()
    }

    /// Package a ray with shared geometry and a quota snapshot.
    pub fn new(ray: Ray, traceable: Arc<Bvh<M>>, quota: BounceQuota) -> (j: TracingJob<M>)
        ensures
            j.ray == ray,
            j.traceable == traceable,
            j.quota == quota,
    {
        TracingJob { ray, traceable, quota }
    }

    /// Execute the job to completion: `None` exactly when the ray escapes
    /// the scene, otherwise the nearest hit's material response.
    pub fn run(&self) -> (r: Option<Spectrum>)
        requires
            self.wf(),
        ensures
            match r {
                None => job_result_spec(*self.traceable, self.ray, self.quota) is None,
                Some(sp) => job_result_spec(*self.traceable, self.ray, self.quota) == Some(sp.v@),
            },
    {
        match self.traceable.trace(&self.ray) {
            None => None,
            Some((dist, hitable)) => {
                proof {
                    lemma_bvh_trace_result(&self.traceable, self.ray);
                }
                let hit = hitable.get_hit(&self.ray, dist);
                Some(hit.evaluate_material(self.quota))
            },
        }
    }
}

} // verus!
