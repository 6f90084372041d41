//! The errors that the library reports.
use vstd::prelude::*;

verus! {

/// Why an operation of the library did not complete.
#[derive(Clone, Copy, Debug, PartialEq, Eq)]
pub enum FoldingError {
    /// The constraint-system shapes of the instances disagree.
    ShapeMismatch,
    /// An instance's committed or claimed values do not match their recomputation.
    RelationNotSatisfied,
    /// A claimed sum-check evaluation disagrees with the value recomputed from the openings.
    SumCheckVerificationFailed,
    /// Vectors or matrices of the wrong dimensions were combined.
    DimensionMismatch,
    /// A byte string that should encode a curve point does not.
    InvalidPoint,
}

} // verus!
