//! A verified real-time ray-tracing core.
//!
//! The crate proves the geometric and scheduling logic of a small renderer:
//! vectors, points and rays, bounding volumes (axis-aligned boxes and
//! spheres), a bounding-volume hierarchy with a nearest-hit query, bounce
//! quotas that bound recursive light transport, and the per-fragment job
//! logic that ties them together.  Window presentation and the asynchronous
//! executor live outside the library.
//!
//! All geometry runs on a fixed-point scalar (`math::scalar::Scalar`): a
//! 64-bit raw integer denoting `raw / 2^16`.  Every arithmetic step is
//! specified exactly over the raw integers — products and quotients truncate
//! toward zero, square roots round down — so each contract pins one
//! mathematical result.  Intersection decisions are made on integer forms
//! cleared of denominators and are therefore exact for the real line through
//! each ray: only reported hit distances round, once, onto the raw grid.
//! This is what makes the hierarchy's pruning provably complete and
//! `combine` exactly commutative, with no tolerance anywhere.

pub mod color;
pub mod drawing;
pub mod light;
pub mod math;
pub mod scenegraph;
pub mod scheduling;
pub mod shading;
pub mod tracing;
