//! The ways in which computing a spectrum can fail.
use vstd::prelude::*;

verus! {

/// Why a spectrum could not be computed.  No partial output accompanies
/// either failure.
#[derive(Clone, Copy, Debug, PartialEq, Eq, Structural)]
pub enum ComputationError {
    /// Height, width, stride and the length of a buffer do not describe a
    /// grid: a dimension is zero, a row is longer than the stride, or the
    /// buffer ends before the last cell.
    ShapeMismatch,
    /// A one-dimensional transform could not be carried out for the
    /// requested line.
    TransformFailure,
}

} // verus!
