//! A verified geometry core for viewing printed-circuit manufacturing artwork.
//!
//! The library models the transform pipeline of a 2D viewer exactly: all
//! coordinates and matrix entries are rational numbers held as 64-bit
//! numerator/denominator pairs, and every operation either returns the exact
//! mathematical result (normalized by the greatest common divisor) or reports
//! that the result does not fit the 64-bit representation.
pub mod arc;
pub mod bbox;
pub mod frac;
pub mod geometry;
pub mod polygon;
pub mod primitive;
pub mod rat;
pub mod renderer;
pub mod transform;
pub mod view;
