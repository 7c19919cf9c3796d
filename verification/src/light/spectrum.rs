//! Spectral light estimates, as a small fixed set of wavelength samples.

use vstd::prelude::*;

verus! {

use crate::math::scalar::Scalar;

/// How many hero wavelengths a spectrum carries.
pub const WAVELENGTH_SAMPLES: usize = 4;

/// A light intensity estimate at `WAVELENGTH_SAMPLES` chosen wavelengths.
#[derive(Clone, Copy, Debug)]
pub struct Spectrum {
    pub v: [Scalar; 4],
}

impl Spectrum {
    /// The spectrum carrying no light at any wavelength.
    pub fn zero() -> (r: Spectrum)
        ensures
            r.v@ == seq![
                Scalar { raw: 0 },
                Scalar { raw: 0 },
                Scalar { raw: 0 },
                Scalar { raw: 0 },
            ],
    {
        let r = Spectrum { v: [Scalar::zero(), Scalar::zero(), Scalar::zero(), Scalar::zero()] };
        proof {
            assert(r.v@ =~= seq![
                Scalar { raw: 0 },
                Scalar { raw: 0 },
                Scalar { raw: 0 },
                Scalar { raw: 0 },
            ]);
        }
        r
    }
}

} // verus!
