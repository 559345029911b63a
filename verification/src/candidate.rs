//! Candidates: movies proposed for recommendation, tagged with the source
//! that found them and a provisional score in thousandths.

use vstd::prelude::*;
use crate::types::{Genre, MovieId, Milli};

verus! {

/// The strategy family that proposed a candidate.
#[derive(Clone, Copy, PartialEq, Eq, Structural, Debug)]
pub enum CandidateSource {
    /// The collaborative, neighbor-based source.
    Thunder,
    /// The discovery source.
    Phoenix,
}

/// Where and how a candidate was found.
#[derive(Clone, Debug)]
pub struct CandidateMetadata {
    /// How many similar users liked the movie, for collaborative
    /// candidates.
    pub similar_users_count: Option<u32>,
    /// The preferred genres the movie matched, for genre discovery.
    pub matched_genres: Vec<Genre>,
    /// Whether popularity discovery found the movie.
    pub from_popularity: bool,
    /// Whether temporal discovery found the movie.
    pub from_temporal: bool,
}

impl CandidateMetadata {
    /// Metadata with nothing recorded.
    pub fn new() -> (r: Self)
        ensures
            r.similar_users_count is None,
            r.matched_genres@ == Seq::<Genre>::empty(),
            !r.from_popularity,
            !r.from_temporal,
    {
        CandidateMetadata {
            similar_users_count: None,
            matched_genres: Vec::new(),
            from_popularity: false,
            from_temporal: false,
        }
    }
}

/// A movie proposed for recommendation.
#[derive(Clone, Debug)]
pub struct Candidate {
    pub movie_id: MovieId,
    pub source: CandidateSource,
    /// Provisional score in thousandths.
    pub base_score: Milli,
    pub metadata: CandidateMetadata,
}

impl Candidate {
    /// A candidate with empty metadata.
    pub fn new(movie_id: MovieId, source: CandidateSource, base_score: Milli) -> (r: Self)
        ensures
            r.movie_id == movie_id,
            r.source == source,
            r.base_score == base_score,
            r.metadata.similar_users_count is None,
            r.metadata.matched_genres@ == Seq::<Genre>::empty(),
            !r.metadata.from_popularity,
            !r.metadata.from_temporal,
    {
        Candidate { movie_id, source, base_score, metadata: CandidateMetadata::new() }
    }
}

/// Whether some candidate of the list names the movie.
pub open spec fn spec_has_movie(s: Seq<Candidate>, mid: u32) -> bool {
    exists|i: int| 0 <= i < s.len() && (#[trigger] s[i]).movie_id == mid
}

/// Candidate scores never increase along the list.
pub open spec fn sorted_desc_scores(s: Seq<Candidate>) -> bool {
    forall|i: int, j: int| 0 <= i < j < s.len() ==> s[i].base_score >= s[j].base_score
}

} // verus!
