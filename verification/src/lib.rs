//! A recursive, stochastic ray tracer over fixed-point arithmetic.
//!
//! Scalars are signed 64-bit fixed-point numbers with 16 fractional bits
//! (`fixed::FX_ONE` is the representation of 1). Every arithmetic step of
//! the renderer is specified exactly over mathematical integers, so the
//! geometry, shading and integration logic is verified end to end; only
//! the draws from the random number generator are trusted.

pub mod camera;
pub mod fixed;
pub mod hittable;
pub mod material;
pub mod ray;
pub mod render;
pub mod rng;
pub mod sphere;
pub mod vec;
