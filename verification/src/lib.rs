//! A stochastic path-tracing core over fixed-point arithmetic.
//!
//! Geometry and color are carried as signed 64.16-style fixed-point values in
//! `i128` words: the raw integer `v` stands for the real number `v / SCALE`.
//! Every operation of the core — vector algebra, ray/sphere intersection,
//! material scattering and the recursive radiance estimator — is verified
//! against an exact integer model of that arithmetic.

pub mod fixed;
pub mod laws;
pub mod material;
pub mod object;
pub mod ray;
pub mod rng;
pub mod sphere;
pub mod tracer;
pub mod vec3;
