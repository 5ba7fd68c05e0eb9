//! A small stochastic path tracer over fixed-point arithmetic.
//!
//! Every world quantity (coordinate, distance, colour channel) is an `i64`
//! counting 1/65536ths of a world unit, so that the geometry layer and the
//! light-transport estimator can be verified exactly: each operation's
//! contract states the integer value it computes, and the key geometric
//! facts (unit norms, orthogonality bounds, hit resolution, depth cutoff)
//! are proved from those contracts.

pub mod fixed;
pub mod vector;
pub mod color;
pub mod material;
pub mod ray;
pub mod surface_element;
pub mod triangle;
pub mod sphere;
pub mod rng;
pub mod sampling;
pub mod scene;
pub mod camera;
pub mod rendering;
pub mod model;
