//! Failure modes of the surface evaluator and the vector kernel.

use vstd::prelude::*;

verus! {

/// Every failure the pipeline can report. No operation in this library
/// panics; each degenerate input is turned into one of these values.
#[derive(Clone, Copy, PartialEq, Eq, Structural, Debug)]
pub enum JiveError {
    /// Normalization was asked for a zero-length vector.
    DegenerateVector,
    /// Plane coefficients a = b = c = 0 describe no plane.
    DegeneratePlane,
    /// Plane coefficients with c = 0 but a and b nonzero: the evaluator
    /// solves for z, which such a plane does not determine.
    UnsolvablePlane,
    /// A cone whose steepness coefficient is zero has no finite scale.
    DegenerateCone,
    /// A surface tag outside the six known variants.
    InvalidSurfaceType,
    /// An exact result would leave the representable range.
    OutOfRange,
}

} // verus!
