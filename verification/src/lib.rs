//! Parametric quadric-surface generation and projection over exact rational
//! arithmetic.
//!
//! The library evaluates closed-form parametric equations for six surface
//! families (sphere, ellipsoid, hyperboloid, paraboloid, plane, cone), applies
//! a model rotation and a perspective projection to the resulting points, and
//! maps them to pixel coordinates. All scalar work is done on exact rational
//! numbers; values that are irrational in general (sines, cosines, square
//! roots) enter as rational samples supplied by the caller.

pub mod error;
pub mod laws;
pub mod mat;
pub mod rat;
pub mod screen;
pub mod surface;
pub mod vec3;
