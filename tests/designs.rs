use salary_stats::{
    independent_t_test_design, one_way_anova_design, paired_t_test_design, DistributionSpec,
    StatsError,
};

#[test]
fn independent_equal_samples_have_four_degrees_of_freedom() {
    let a = [10.0, 20.0, 30.0];
    let b = [10.0, 20.0, 30.0];
    assert_eq!(
        independent_t_test_design(&a, &b),
        Ok(DistributionSpec::StudentsT { df: 4 })
    );
}

#[test]
fn independent_shifted_samples_have_four_degrees_of_freedom() {
    let a = [1.0, 2.0, 3.0];
    let b = [4.0, 5.0, 6.0];
    assert_eq!(
        independent_t_test_design(&a, &b),
        Ok(DistributionSpec::StudentsT { df: 4 })
    );
}

#[test]
fn independent_unequal_lengths() {
    let a = [1.0, 2.0];
    let b = [4.0, 5.0, 6.0, 7.0, 8.0];
    assert_eq!(
        independent_t_test_design(&a, &b),
        Ok(DistributionSpec::StudentsT { df: 5 })
    );
}

#[test]
fn independent_design_is_symmetric() {
    let a = [1.0, 2.0];
    let b = [4.0, 5.0, 6.0, 7.0, 8.0];
    assert_eq!(independent_t_test_design(&a, &b), independent_t_test_design(&b, &a));
    let c = [1.0];
    assert_eq!(independent_t_test_design(&a, &c), independent_t_test_design(&c, &a));
}

#[test]
fn independent_needs_two_observations_per_sample() {
    let a = [1.0];
    let b = [4.0, 5.0, 6.0];
    assert_eq!(
        independent_t_test_design(&a, &b),
        Err(StatsError::InsufficientObservations)
    );
    let e: [f64; 0] = [];
    assert_eq!(
        independent_t_test_design(&b, &e),
        Err(StatsError::InsufficientObservations)
    );
}

#[test]
fn paired_identical_samples() {
    let a = [5.0, 6.0, 7.0];
    let b = [5.0, 6.0, 7.0];
    assert_eq!(
        paired_t_test_design(&a, &b),
        Ok(DistributionSpec::StudentsT { df: 2 })
    );
}

#[test]
fn paired_rejects_mismatched_lengths() {
    let a = [5.0, 6.0, 7.0];
    let b = [5.0, 6.0];
    assert_eq!(
        paired_t_test_design(&a, &b),
        Err(StatsError::MismatchedSampleLengths)
    );
}

#[test]
fn paired_rejects_single_pair() {
    let a = [5.0];
    let b = [6.0];
    assert_eq!(
        paired_t_test_design(&a, &b),
        Err(StatsError::MismatchedSampleLengths)
    );
    let e: [f64; 0] = [];
    assert_eq!(
        paired_t_test_design(&e, &e),
        Err(StatsError::MismatchedSampleLengths)
    );
}

#[test]
fn anova_three_constant_groups() {
    let g1 = [1.0, 1.0, 1.0];
    let g2 = [2.0, 2.0, 2.0];
    let g3 = [3.0, 3.0, 3.0];
    let groups: [&[f64]; 3] = [&g1, &g2, &g3];
    assert_eq!(
        one_way_anova_design(&groups),
        Ok(DistributionSpec::FisherSnedecor { df1: 2, df2: 6 })
    );
}

#[test]
fn anova_rejects_fewer_than_two_groups() {
    let g1 = [1.0, 2.0, 3.0];
    let one: [&[f64]; 1] = [&g1];
    assert_eq!(one_way_anova_design(&one), Err(StatsError::InvalidGroupCount));
    let none: [&[f64]; 0] = [];
    assert_eq!(one_way_anova_design(&none), Err(StatsError::InvalidGroupCount));
}

#[test]
fn anova_rejects_as_many_observations_as_groups() {
    let g1 = [1.0];
    let g2 = [2.0];
    let groups: [&[f64]; 2] = [&g1, &g2];
    assert_eq!(
        one_way_anova_design(&groups),
        Err(StatsError::InsufficientObservations)
    );
}

#[test]
fn anova_counts_empty_groups() {
    let g1: [f64; 0] = [];
    let g2 = [1.0, 2.0];
    let g3 = [3.0];
    let groups: [&[f64]; 3] = [&g1, &g2, &g3];
    assert_eq!(
        one_way_anova_design(&groups),
        Err(StatsError::InsufficientObservations)
    );
    let g4 = [3.0, 4.0];
    let groups: [&[f64]; 3] = [&g1, &g2, &g4];
    assert_eq!(
        one_way_anova_design(&groups),
        Ok(DistributionSpec::FisherSnedecor { df1: 2, df2: 1 })
    );
}

#[test]
fn distributions_refuse_zero_degrees_of_freedom() {
    assert_eq!(DistributionSpec::students_t(0), Err(StatsError::InvalidParameter));
    assert_eq!(DistributionSpec::chi_squared(0), Err(StatsError::InvalidParameter));
    assert_eq!(
        DistributionSpec::fisher_snedecor(0, 3),
        Err(StatsError::InvalidParameter)
    );
    assert_eq!(
        DistributionSpec::fisher_snedecor(3, 0),
        Err(StatsError::InvalidParameter)
    );
    assert_eq!(
        DistributionSpec::fisher_snedecor(2, 3),
        Ok(DistributionSpec::FisherSnedecor { df1: 2, df2: 3 })
    );
    assert_eq!(
        DistributionSpec::students_t(7),
        Ok(DistributionSpec::StudentsT { df: 7 })
    );
    assert_eq!(
        DistributionSpec::chi_squared(1),
        Ok(DistributionSpec::ChiSquared { df: 1 })
    );
}
