//! A signed-distance-function (SDF) evaluation library for constructive
//! solid geometry (CSG), built over a saturating fixed-point scalar domain.
//!
//! The same shape formulas can be evaluated as plain values, as dual numbers
//! carrying analytic gradients, or as interval / reduced-affine enclosures
//! that conservatively bound the result over a whole region.

pub mod fixed;
pub mod vector;
pub mod interval;
pub mod deriv;
pub mod affine;
pub mod sdf;
pub mod tree;
pub mod display;
pub mod inst;
pub mod arrayvec;
pub mod grid;
