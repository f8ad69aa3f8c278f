//! The decision core of a canary deployment tool.
//!
//! Observations of a control cohort and of an experimental cohort are tallied
//! into contingency tables, a chi-square statistic measures how far the two
//! tallies diverge, and a decision engine turns a significant divergence into
//! an [`Action`](adapters::Action). An engine controller decides when an engine
//! is fed and when it is asked.

pub use config::Flags;

/// Decision engines, their controller, and the interfaces to what surrounds them.
pub mod adapters;
/// The commands of the command line.
pub mod cmd;
/// What the command line can ask for.
pub mod config;
/// The outcome categories that canary health is judged by.
pub mod metrics;
/// Exact fractions, for cutoffs and tail probabilities.
pub mod ratio;
/// Contingency tables and the chi-square test.
pub mod stats;
