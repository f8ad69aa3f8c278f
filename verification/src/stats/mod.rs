use vstd::prelude::*;

pub use crate::metrics::ResponseStatusCode;
pub use category::{lemma_domain_no_duplicates, EnumerableCategory};
pub use chi::{
    chi_square, chi_square_test, degenerate, distinct, lemma_distinct, lemma_distinct_of_distinct,
    lemma_merged_domain, lemma_squared_error_fits, lemma_squared_error_ignores_sign,
    lemma_terms_sum_to_chi_square, merged_columns, p_value, share, squared_error, sum_terms,
    takes_every_question, terms, test_statistic, tested, well_posed, ChiSquareError, Statistic,
    Term,
};
pub use engine::{
    capped, default_alpha_cutoff, lemma_fresh_totals_count_the_routed,
    lemma_no_action_before_observations, lemma_totals_count_the_routed, recorded, routed,
    ChiSquareEngine, EngineConfig,
};
pub use table::{
    degrees_of_freedom, lemma_sum_all_covers, lemma_sum_all_update, lemma_sum_all_zeros,
    lemma_sum_counts_grows, lemma_total_is_sum_all, sum_all, sum_counts, total, ContingencyTable,
    FixedContingencyTable,
};

/// Categories whose groups can be listed.
mod category;
/// The chi-square statistic and the test that rests on it.
mod chi;
/// The decision engine that rests on the chi-square test.
mod engine;
/// Contingency tables.
mod table;

verus! {

/// The cohort that an observation comes from.
#[derive(Hash, Debug, PartialEq, Eq, Structural, PartialOrd, Ord, Clone, Copy)]
pub enum Group {
    /// The deployment that is serving now.
    Control,
    /// The canary deployment.
    Experimental,
}

/// One measured outcome of one cohort.
#[derive(Debug)]
pub struct Observation<C> {
    /// The cohort that the outcome was measured in.
    pub group: Group,
    /// The outcome, as a group of its category.
    pub outcome: C,
}

/// The category by which observations of response statuses are sorted.
pub type StatusCategory = ResponseStatusCode;

} // verus!
