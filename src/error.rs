use vstd::prelude::*;

verus! {

/// Why a test could not be carried out.
#[derive(Debug, Clone, Copy, PartialEq, Eq, Structural)]
pub enum StatsError {
    /// A reference distribution was asked for with a degrees-of-freedom
    /// parameter that is not positive.
    InvalidParameter,
    /// Too few observations for the requested test.
    InsufficientObservations,
    /// Fewer than two groups were given to an analysis of variance.
    InvalidGroupCount,
    /// A paired test was given samples of different lengths, or of fewer
    /// than two pairs.
    MismatchedSampleLengths,
    /// A contingency table whose counts sum to zero.
    EmptyContingencyTable,
}

} // verus!
