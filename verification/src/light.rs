//! Light transport bookkeeping: bounce budgets and spectral samples.

pub mod bounce_quota;
pub mod spectrum;

pub use bounce_quota::BounceQuota;
pub use bounce_quota::BounceType;
pub use spectrum::Spectrum;
pub use spectrum::WAVELENGTH_SAMPLES;
