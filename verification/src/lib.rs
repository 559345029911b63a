//! A movie recommendation library: an immutable ratings index, two
//! candidate-generation sources, a composable filter chain, per-candidate
//! feature computation, and a ranking stage, all with verified contracts.
//!
//! Fractional quantities (rating values, averages, scores) are held as
//! fixed-point integers: rating values in tenths, averages and scores in
//! thousandths.

pub mod candidate;
pub mod errors;
pub mod features;
pub mod filters;
pub mod index;
pub mod orchestrator;
pub mod parser;
pub mod phoenix;
pub mod seqtools;
pub mod sort;
pub mod stats;
pub mod strutil;
pub mod tally;
pub mod thunder;
pub mod types;
pub mod user_context;
