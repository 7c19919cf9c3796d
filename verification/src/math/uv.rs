//! Surface parameterization coordinates.

use vstd::prelude::*;

verus! {

use crate::math::scalar::Scalar;

/// A surface parameterization sample, defaulting to the patch origin.
#[derive(Clone, Copy, PartialEq, Eq, Structural, Debug)]
pub struct UV {
    pub u: Scalar,
    pub v: Scalar,
}

impl Default for UV {
    /// The origin of the parameter patch.
    fn default() -> (r: UV)
        ensures
            r.u@ == 0 && r.v@ == 0,
    {
        UV { u: Scalar::zero(), v: Scalar::zero() }
    }
}

} // verus!
