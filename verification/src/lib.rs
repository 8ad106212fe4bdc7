//! A Monte Carlo path tracer core over exact fixed-point arithmetic.
//!
//! Scalars are stored as `i128` counts of millionths (see [`fixed::SCALE`]);
//! every arithmetic step, including its rounding, is pinned by a spec-level
//! model, so the geometry and scattering algorithms are verified exactly
//! against that model.

pub mod fixed;
pub mod hit;
pub mod material;
pub mod ray;
pub mod rng;
pub mod sphere;
pub mod trace;
pub mod vec3;
