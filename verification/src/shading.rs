//! Surface shading: the material contract and a debug material.

pub mod material;

pub use material::DebugNormalMaterial;
pub use material::Material;
