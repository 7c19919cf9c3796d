//! The scene graph: primitives and the bounding-volume hierarchy over them.

pub mod bvh;
pub mod scene;
pub mod bvh_node;
pub mod sphere;

pub use bvh::Bvh;
pub use scene::Scene;
pub use bvh_node::BvhLeaf;
pub use bvh_node::BvhNode;
pub use sphere::ShadedSphere;
pub use sphere::Sphere;
