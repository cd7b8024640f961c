//! A small path-tracing renderer with a verified core.
//!
//! Every scalar the renderer works with is a fixed-point number: an `i64`
//! counting steps of `1 / fixed::SCALE`. On top of that scalar the crate
//! builds three-component vectors and rays, analytic sphere intersection,
//! the three classic scattering models (diffuse, metal, dielectric), a
//! deterministic sample generator, and the recursive colour integrator,
//! each with a contract that pins the result down exactly.

pub mod fixed;
pub mod random;
pub mod linear_algebra;
pub mod geometry;
pub mod materials;
pub mod camera;
pub mod render;
