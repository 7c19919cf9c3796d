//! The nearest-hit protocol: a traceable entity reports the closest
//! non-negative intersection distance and the leaf primitive that produced
//! it, or nothing when the ray misses.

use vstd::prelude::*;

verus! {

use crate::math::ray::Ray;
use crate::math::scalar::Scalar;
use crate::scenegraph::sphere::ShadedSphere;
use crate::shading::material::Material;

/// Something a ray can be traced against.
pub trait Traceable<M: Material> {
    /// The bounds under which tracing arithmetic is exact.
    spec fn trace_req(self, ray: Ray) -> bool;

    /// The exact distance and struck leaf that `trace` reports.
    spec fn trace_spec(self, ray: Ray) -> Option<(Scalar, ShadedSphere<M>)>;

    /// The nearest hit along `ray`, if any.
    fn trace<'a>(&'a self, ray: &Ray) -> (r: Option<(Scalar, &'a ShadedSphere<M>)>)
        requires
            self.trace_req(*ray),
        ensures
            match r {
                None => self.trace_spec(*ray) is None,
                Some(t) => self.trace_spec(*ray) == Some((t.0, *t.1)),
            },
    ;
}

} // verus!
