use vstd::prelude::*;

verus! {

/// Failures the engine reports to its callers.
#[derive(Clone, Debug, PartialEq, Eq)]
pub enum EngineError {
    /// A crop rectangle with non-positive extent or outside the image.
    InvalidCrop,
    /// Settings the engine cannot run with (e.g. a zero side length).
    InvalidSettings,
    /// An assignment that is not a permutation of the grid's slots.
    MalformedAssignment,
    /// The run observed its cancellation flag.
    Cancelled,
    /// Any other internal failure, with a description.
    SolverFailure(String),
}

} // verus!
