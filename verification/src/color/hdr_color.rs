//! High-dynamic-range color, before any tonemapping.

use vstd::prelude::*;

verus! {

use crate::math::scalar::Scalar;

/// An unclamped linear color.
#[derive(Clone, Copy, PartialEq, Eq, Structural, Debug)]
pub struct HdrColor {
    pub r: Scalar,
    pub g: Scalar,
    pub b: Scalar,
}

} // verus!
