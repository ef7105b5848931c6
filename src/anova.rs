use vstd::prelude::*;

use crate::distribution::DistributionSpec;
use crate::error::StatsError;

verus! {

/// Number of observations over all groups.
pub open spec fn total_observations<T>(groups: Seq<&[T]>) -> nat
    decreases groups.len(),
{
    if groups.len() == 0 {
        0
    } else {
        total_observations(groups.drop_last()) + groups.last()@.len()
    }
}

/// The outcome of preparing a one-way analysis of variance over `k` groups
/// holding `n` observations in all.
///
/// At least two groups are needed, then more observations than groups; the
/// F statistic follows the Fisher-Snedecor distribution with `k - 1` and
/// `n - k` degrees of freedom.
pub open spec fn anova_design(k: nat, n: nat) -> Result<DistributionSpec, StatsError> {
    if k < 2 {
        Err(StatsError::InvalidGroupCount)
    } else if n <= k {
        Err(StatsError::InsufficientObservations)
    } else {
        Ok(DistributionSpec::FisherSnedecor { df1: (k - 1) as u128, df2: (n - k) as u128 })
    }
}

/// Decides whether a one-way analysis of variance is defined on these groups
/// and, if so, which distribution its F statistic follows. The group count is
/// checked first, then the number of observations; empty groups count as
/// groups.
pub fn one_way_anova_design<T>(groups: &[&[T]]) -> (r: Result<DistributionSpec, StatsError>)
    ensures
        r == anova_design(groups@.len(), total_observations(groups@)),
        r matches Ok(d) ==> d.valid(),
{
    let k = groups.len();
    if k < 2 {
        return Err(StatsError::InvalidGroupCount);
    }
    let mut n: u128 = 0;
    let mut i: usize = 0;
    while i < k
        invariant
            k == groups@.len(),
            i <= k,
            n == total_observations(groups@.subrange(0, i as int)),
            n <= i * usize::MAX,
        decreases k - i,
    {
        let g: &[T] = groups[i];
        proof {
            let s = groups@.subrange(0, i as int + 1);
            assert(s.drop_last() =~= groups@.subrange(0, i as int));
            assert((i as int) * usize::MAX + usize::MAX == (i as int + 1) * usize::MAX)
                by (nonlinear_arith);
            assert((i as int + 1) * usize::MAX <= usize::MAX * usize::MAX)
                by (nonlinear_arith) requires i < usize::MAX;
        }
        n = n + g.len() as u128;
        i = i + 1;
    }
    assert(groups@.subrange(0, k as int) =~= groups@);
    if n <= k as u128 {
        return Err(StatsError::InsufficientObservations);
    }
    DistributionSpec::fisher_snedecor((k - 1) as u128, n - k as u128)
}

} // verus!
