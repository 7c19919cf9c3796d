//! Tracing interfaces: cameras, hit points, and the nearest-hit protocol.

pub mod camera;
pub mod hit;
pub mod traceable;

pub use camera::Camera;
pub use camera::PlaneCamera;
pub use hit::HitPoint;
pub use hit::HitPointData;
pub use hit::Hitable;
pub use traceable::Traceable;
