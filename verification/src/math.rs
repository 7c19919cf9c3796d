//! Numeric and geometric foundations: the fixed-point scalar and the
//! vector, point, ray and bounding-volume types built on it.

pub mod aabb;
pub mod bounding_volume;
pub mod point;
pub mod point2d;
pub mod ray;
pub mod scalar;
pub mod uv;
pub mod vector;

pub use aabb::Aabb;
pub use bounding_volume::Bounded;
pub use bounding_volume::BoundingVolume;
pub use bounding_volume::BoundingVolumeSum;
pub use point::Point;
pub use point2d::Point2D;
pub use ray::Ray;
pub use scalar::Scalar;
pub use scalar::SCALE;
pub use uv::UV;
pub use vector::Vector;
