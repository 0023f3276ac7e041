//! A dimension-generic geometric intersection kernel over exact rational
//! arithmetic: given a ray (origin and direction) and a shape, it computes the
//! closest forward intersection distance and, on request, the surface normal
//! at the hit point.

pub mod bignum;
pub mod matrix;
pub mod ray;
pub mod raytrace;
pub mod rational;
pub mod vector;
pub mod scalar;
pub mod shapes;

pub use ray::Ray;
pub use raytrace::{Raytrace, RaytraceWithNorm};
pub use rational::Frac;
pub use scalar::Scalar;
