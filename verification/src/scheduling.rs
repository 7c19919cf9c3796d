//! Job scheduling: the per-fragment unit of work and its decision logic.
//!
//! Executors, fibers and channels live outside the library; what is
//! verified here is everything a worker does between receiving a job and
//! producing its spectral result.

pub mod tracing_job;

pub use tracing_job::TracingJob;
