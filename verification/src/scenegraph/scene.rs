//! The scene: a camera, shared immutable geometry, and the bounce-quota
//! template copied into every job.

use vstd::prelude::*;

verus! {

use std::sync::Arc;
use crate::light::bounce_quota::BounceQuota;
use crate::math::point2d::Point2D;
use crate::scenegraph::bvh::Bvh;
use crate::scenegraph::bvh::bvh_wf;
use crate::scheduling::tracing_job::TracingJob;
use crate::shading::material::Material;
use crate::tracing::camera::Camera;
use crate::tracing::camera::screen_pos_ok;

/// A renderable scene.  Geometry is immutable once built; the camera may
/// be replaced between frames.
pub struct Scene<M: Material, C: Camera> {
    pub camera: C,
    pub traceable: Arc<Bvh<M>>,
    pub quota: BounceQuota,
}

impl<M: Material, C: Camera> Scene<M, C> {
    /// When the scene can produce traceable jobs.
    pub open spec fn wf(self) -> bool {
        self.camera.camera_wf() && bvh_wf(*self.traceable)
    }

    /// A scene over the given camera, geometry and quota template.
    pub fn new(camera: C, traceable: Bvh<M>, quota: BounceQuota) -> (s: Scene<M, C>)
        ensures
            s.camera == camera,
            s.traceable == traceable,
            s.quota == quota,
    {
        Scene { camera, traceable: Arc::new(traceable), quota }
    }

    /// Replace the camera for the next frame; geometry and quota stay.
    pub fn set_camera(&mut self, camera: C)
        ensures
            final (self).camera == camera,
            final (self).traceable == old(self).traceable,
            final (self).quota == old(self).quota,
    {
        self.camera = camera;
    }

    /// The job that renders one screen fragment: its ray comes from the
    /// camera, its geometry handle and quota from the scene.
    pub fn job_for_fragment(&self, point: &Point2D) -> (j: TracingJob<M>)
        requires
            self.wf(),
            screen_pos_ok(*point),
        ensures
            j.ray == self.camera.screen_ray_spec(*point),
            j.traceable == self.traceable,
            j.quota == self.quota,
            j.wf(),
    {
        let ray = self.camera.screen_ray(point);
        TracingJob::new(ray, self.traceable.clone(), self.quota)
    }
}

} // verus!
