use vstd::prelude::*;

use crate::error::StatsError;

verus! {

/// A continuous reference distribution together with its shape parameters.
///
/// The constructors below refuse a degrees-of-freedom parameter of zero, so
/// every value that they hand out satisfies `valid` and describes a
/// distribution whose CDF is defined.
#[derive(Debug, Clone, Copy, PartialEq, Eq, Structural)]
pub enum DistributionSpec {
    /// Student's t with location 0 and scale 1.
    StudentsT { df: u128 },
    /// Fisher-Snedecor F.
    FisherSnedecor { df1: u128, df2: u128 },
    /// Chi-squared.
    ChiSquared { df: u128 },
}

impl DistributionSpec {
    /// Every degrees-of-freedom parameter is positive.
    pub open spec fn valid(self) -> bool {
        match self {
            DistributionSpec::StudentsT { df } => df > 0,
            DistributionSpec::FisherSnedecor { df1, df2 } => df1 > 0 && df2 > 0,
            DistributionSpec::ChiSquared { df } => df > 0,
        }
    }

    /// Student's t distribution with `df` degrees of freedom.
    pub fn students_t(df: u128) -> (r: Result<DistributionSpec, StatsError>)
        ensures
            df > 0 ==> r == Ok::<DistributionSpec, StatsError>(DistributionSpec::StudentsT { df }),
            df == 0 ==> r == Err::<DistributionSpec, StatsError>(StatsError::InvalidParameter),
    {
        if df == 0 {
            Err(StatsError::InvalidParameter)
        } else {
            Ok(DistributionSpec::StudentsT { df })
        }
    }

    /// Fisher-Snedecor F distribution with `df1` and `df2` degrees of freedom.
    pub fn fisher_snedecor(df1: u128, df2: u128) -> (r: Result<DistributionSpec, StatsError>)
        ensures
            df1 > 0 && df2 > 0 ==> r == Ok::<DistributionSpec, StatsError>(
                DistributionSpec::FisherSnedecor { df1, df2 },
            ),
            df1 == 0 || df2 == 0 ==> r == Err::<DistributionSpec, StatsError>(
                StatsError::InvalidParameter,
            ),
    {
        if df1 == 0 || df2 == 0 {
            Err(StatsError::InvalidParameter)
        } else {
            Ok(DistributionSpec::FisherSnedecor { df1, df2 })
        }
    }

    /// Chi-squared distribution with `df` degrees of freedom.
    pub fn chi_squared(df: u128) -> (r: Result<DistributionSpec, StatsError>)
        ensures
            df > 0 ==> r == Ok::<DistributionSpec, StatsError>(DistributionSpec::ChiSquared { df }),
            df == 0 ==> r == Err::<DistributionSpec, StatsError>(StatsError::InvalidParameter),
    {
        if df == 0 {
            Err(StatsError::InvalidParameter)
        } else {
            Ok(DistributionSpec::ChiSquared { df })
        }
    }
}

} // verus!
