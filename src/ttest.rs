use vstd::prelude::*;

use crate::distribution::DistributionSpec;
use crate::error::StatsError;

verus! {

/// The outcome of preparing a pooled-variance two-sample t-test on samples
/// of `n1` and `n2` observations.
///
/// Both samples need at least two observations, so that each sample variance
/// is defined; the statistic then follows Student's t with `n1 + n2 - 2`
/// degrees of freedom.
pub open spec fn independent_design(n1: nat, n2: nat) -> Result<DistributionSpec, StatsError> {
    if n1 < 2 || n2 < 2 {
        Err(StatsError::InsufficientObservations)
    } else {
        Ok(DistributionSpec::StudentsT { df: (n1 + n2 - 2) as u128 })
    }
}

/// The outcome of preparing a paired t-test on samples of `n1` and `n2`
/// observations: both must hold the same number `n >= 2` of observations,
/// and the statistic follows Student's t with `n - 1` degrees of freedom.
pub open spec fn paired_design(n1: nat, n2: nat) -> Result<DistributionSpec, StatsError> {
    if n1 != n2 || n2 < 2 {
        Err(StatsError::MismatchedSampleLengths)
    } else {
        Ok(DistributionSpec::StudentsT { df: (n1 - 1) as u128 })
    }
}

/// Decides whether a pooled-variance two-sample t-test is defined on these
/// samples and, if so, which distribution its statistic follows.
pub fn independent_t_test_design<T>(sample1: &[T], sample2: &[T]) -> (r: Result<
    DistributionSpec,
    StatsError,
>)
    ensures
        r == independent_design(sample1@.len(), sample2@.len()),
        r matches Ok(d) ==> d.valid(),
{
    let n1 = sample1.len();
    let n2 = sample2.len();
    if n1 < 2 || n2 < 2 {
        return Err(StatsError::InsufficientObservations);
    }
    let df: u128 = (n1 - 1) as u128 + (n2 - 1) as u128;
    DistributionSpec::students_t(df)
}

/// Decides whether a paired t-test is defined on these samples and, if so,
/// which distribution its statistic follows. Nothing is computed from the
/// observations when the lengths differ or are below two.
pub fn paired_t_test_design<T>(sample1: &[T], sample2: &[T]) -> (r: Result<
    DistributionSpec,
    StatsError,
>)
    ensures
        r == paired_design(sample1@.len(), sample2@.len()),
        r is Err <==> (sample1@.len() != sample2@.len() || sample1@.len() < 2),
        r matches Ok(d) ==> d.valid(),
{
    let n1 = sample1.len();
    let n2 = sample2.len();
    if n1 != n2 || n2 < 2 {
        return Err(StatsError::MismatchedSampleLengths);
    }
    DistributionSpec::students_t((n1 - 1) as u128)
}

/// Swapping the two samples of an independent t-test changes neither whether
/// the test is defined nor the distribution of its statistic.
pub proof fn lemma_independent_design_symmetric(n1: nat, n2: nat)
    ensures
        independent_design(n1, n2) == independent_design(n2, n1),
{
}

} // verus!
