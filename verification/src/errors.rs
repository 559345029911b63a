//! Error types for dataset loading, remote scoring, and request handling.

use vstd::prelude::*;

verus! {

/// Errors raised while parsing or validating the dataset.
#[derive(Debug)]
pub enum DataLoadError {
    /// A line of a data file could not be parsed.
    ParseError { file: String, line: usize, reason: String },
    /// A field held a value outside its domain.
    InvalidValue { field: String, value: String },
    /// A rating referenced a user or movie that does not exist.
    MissingReference { entity: String, id: u32 },
    /// Dataset validation failed.
    ValidationError(String),
}

/// Errors raised at the scoring boundary.
#[derive(Debug)]
pub enum MLClientError {
    /// The scoring service could not be reached.
    ConnectionError(String),
    /// The scoring call failed.
    ScoringError(String),
    /// The scoring response did not match the request; holds the number of
    /// feature records sent and the number of scores received.
    InvalidResponse { expected: usize, got: usize },
}

/// Errors raised while serving one recommendation request.
#[derive(Debug)]
pub enum RecommendError {
    /// The requested user does not exist.
    NotFound { user_id: u32 },
    /// The remote scoring call failed or its response did not match the
    /// request.
    RemoteScoring(MLClientError),
    /// An internal length-consistency check failed; a bug signal.
    InternalMismatch { expected: usize, got: usize },
}

} // verus!
