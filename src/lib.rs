//! Classical hypothesis tests over grouped survey data.
//!
//! The library decides, with proofs, everything about a test that does not
//! depend on floating-point arithmetic: when a test is defined, which
//! reference distribution (and with which degrees of freedom) its statistic
//! follows, and how a contingency table is tallied and cross-tabulated.
pub mod error;
pub mod distribution;
pub mod ttest;
pub mod anova;
pub mod contingency;
pub mod survey;

pub use error::StatsError;
pub use distribution::DistributionSpec;
pub use contingency::{ChiSquareDesign, ContingencyTable, ExpectedCell, TableCell};
pub use survey::{group_by_title, JobTitle};
pub use anova::one_way_anova_design;
pub use ttest::{independent_t_test_design, paired_t_test_design};
