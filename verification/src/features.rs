//! Per-candidate feature computation: a fixed feature record for each
//! surviving candidate, each record independent of the others.

use vstd::prelude::*;
use std::sync::Arc;
use crate::types::{Genre, MovieId, Milli, spec_genre_at, genre_from_index, has_genre, GENRE_COUNT};
use crate::index::{DataIndex, movie_has_genre};
use crate::user_context::{UserContext, spec_top_genres};
use crate::candidate::Candidate;

verus! {

broadcast use vstd::std_specs::hash::group_hash_axioms;

/// The fixed reference year for the recency feature.
pub const REFERENCE_YEAR: u16 = 2026;

/// The feature record handed to the scoring stage, one per candidate.
/// Fractional features are in thousandths.
#[derive(Clone, Debug)]
pub struct CandidateFeatures {
    pub movie_id: MovieId,
    /// Jaccard overlap of the movie's genres with the user's top genres,
    /// in thousandths.
    pub genre_overlap_score: Milli,
    /// Reserved; always zero.
    pub genre_diversity_score: Milli,
    /// The candidate's provisional score, in thousandths.
    pub collaborative_score: Milli,
    /// How many similar users liked the movie, zero when unknown.
    pub similar_users_count: u32,
    /// The movie's average rating, in thousandths.
    pub avg_rating: Milli,
    /// How many ratings the movie has.
    pub rating_count: u32,
    /// The rating count against a fixed scale of five hundred, clamped to
    /// one, in thousandths.
    pub popularity_percentile: Milli,
    pub movie_year: Option<u16>,
    /// Nearness of the movie's year to the user's preferred era, in
    /// thousandths; one half when either is unknown.
    pub year_preference_score: Milli,
    /// Days between the fixed reference year and the release year, zero
    /// when the year is unknown or in the future.
    pub days_since_released: u64,
}

impl CandidateFeatures {
    /// The all-default record a candidate without movie data receives.
    pub fn new(movie_id: MovieId) -> (r: Self)
        ensures
            r == spec_default_features(movie_id),
    {
        CandidateFeatures {
            movie_id,
            genre_overlap_score: 0,
            genre_diversity_score: 0,
            collaborative_score: 0,
            similar_users_count: 0,
            avg_rating: 0,
            rating_count: 0,
            popularity_percentile: 0,
            movie_year: None,
            year_preference_score: 0,
            days_since_released: 0,
        }
    }
}

/// The all-default feature record.
pub open spec fn spec_default_features(movie_id: MovieId) -> CandidateFeatures {
    CandidateFeatures {
        movie_id,
        genre_overlap_score: 0,
        genre_diversity_score: 0,
        collaborative_score: 0,
        similar_users_count: 0,
        avg_rating: 0,
        rating_count: 0,
        popularity_percentile: 0,
        movie_year: None,
        year_preference_score: 0,
        days_since_released: 0,
    }
}

/// How many of the first `upto` genres both the movie and the top list
/// carry.
pub open spec fn spec_inter_count(
    movies: Map<u32, crate::types::Movie>,
    mid: u32,
    top: Seq<Genre>,
    upto: int,
) -> int
    decreases upto,
{
    if upto <= 0 {
        0
    } else {
        spec_inter_count(movies, mid, top, upto - 1) + if movie_has_genre(
            movies,
            mid,
            spec_genre_at(upto - 1),
        ) && top.contains(spec_genre_at(upto - 1)) {
            1int
        } else {
            0
        }
    }
}

/// How many of the first `upto` genres the movie or the top list
/// carries.
pub open spec fn spec_union_count(
    movies: Map<u32, crate::types::Movie>,
    mid: u32,
    top: Seq<Genre>,
    upto: int,
) -> int
    decreases upto,
{
    if upto <= 0 {
        0
    } else {
        spec_union_count(movies, mid, top, upto - 1) + if movie_has_genre(
            movies,
            mid,
            spec_genre_at(upto - 1),
        ) || top.contains(spec_genre_at(upto - 1)) {
            1int
        } else {
            0
        }
    }
}

/// Jaccard overlap of the movie's genre set and the top-genre set, in
/// thousandths; zero when the union of the two sets is empty.
pub open spec fn spec_genre_overlap_milli(
    movies: Map<u32, crate::types::Movie>,
    mid: u32,
    top: Seq<Genre>,
) -> int {
    let inter = spec_inter_count(movies, mid, top, 18);
    let combined = spec_union_count(movies, mid, top, 18);
    if combined == 0 {
        0
    } else {
        inter * 1000 / combined
    }
}

/// A movie present in the store but tagged with no genre at all.
pub open spec fn movie_genres_empty(idx: DataIndex, mid: u32) -> bool {
    idx.movie_map().contains_key(mid) && idx.movie_map()[mid].genres@.len() == 0
}

/// A ratio of a part to its whole never exceeds one, in thousandths.
proof fn lemma_div_bound(part: int, whole: int)
    requires
        0 <= part <= whole,
        whole >= 1,
    ensures
        0 <= part * 1000 / whole <= 1000,
{
    assert(part * 1000 / whole <= 1000) by (nonlinear_arith)
        requires
            0 <= part <= whole,
            whole >= 1,
    ;
    assert(part * 1000 / whole >= 0) by (nonlinear_arith)
        requires
            0 <= part,
            whole >= 1,
    ;
}

/// The intersection never exceeds the union count, and both lie within the
/// number of genres.
proof fn lemma_overlap_counts(
    movies: Map<u32, crate::types::Movie>,
    mid: u32,
    top: Seq<Genre>,
    upto: int,
)
    requires
        upto >= 0,
    ensures
        0 <= spec_inter_count(movies, mid, top, upto) <= spec_union_count(movies, mid, top, upto),
        spec_union_count(movies, mid, top, upto) <= upto,
    decreases upto,
{
    if upto > 0 {
        lemma_overlap_counts(movies, mid, top, upto - 1);
    }
}

/// The year-preference feature: half when either year is unknown, else
/// one minus a fiftieth per year of distance, floored at zero, in
/// thousandths.
pub open spec fn spec_year_preference(movie_year: Option<u16>, era: Option<u16>) -> int {
    match (movie_year, era) {
        (Some(my), Some(pe)) => {
            let d = if my >= pe {
                my - pe
            } else {
                pe - my
            };
            if d >= 50 {
                0
            } else {
                1000 - d * 20
            }
        },
        _ => 500,
    }
}

/// The popularity-percentile feature: twice the rating count, clamped at
/// one thousand.
pub open spec fn spec_popularity_percentile(count: u32) -> int {
    if count >= 500 {
        1000
    } else {
        count * 2
    }
}

/// The feature record a candidate yields: all defaults when its movie or
/// statistics are missing, else the fixed formulas.
pub open spec fn spec_features_for(idx: DataIndex, ctx: UserContext, c: Candidate) -> CandidateFeatures {
    if idx.movie_map().contains_key(c.movie_id) && idx.stats_map().contains_key(c.movie_id) {
        let movie = idx.movie_map()[c.movie_id];
        let stats = idx.stats_map()[c.movie_id];
        CandidateFeatures {
            movie_id: c.movie_id,
            genre_overlap_score: spec_genre_overlap_milli(
                idx.movie_map(),
                c.movie_id,
                spec_top_genres(ctx.prefs(), 3),
            ) as u64,
            genre_diversity_score: 0,
            collaborative_score: c.base_score,
            similar_users_count: c.metadata.similar_users_count.unwrap_or(0),
            avg_rating: stats.avg_rating,
            rating_count: stats.rating_count,
            popularity_percentile: spec_popularity_percentile(stats.rating_count) as u64,
            movie_year: movie.year,
            year_preference_score: spec_year_preference(movie.year, ctx.preferred_era) as u64,
            days_since_released: match movie.year {
                Some(y) => if y <= REFERENCE_YEAR {
                    ((REFERENCE_YEAR - y) * 365) as u64
                } else {
                    0
                },
                None => 0,
            },
        }
    } else {
        spec_default_features(c.movie_id)
    }
}

/// Computes feature records for candidates, one each, independently.
pub struct FeatureEngineer {
    pub data_index: Arc<DataIndex>,
}

impl FeatureEngineer {
    /// The shared index.
    pub open spec fn index(&self) -> DataIndex {
        *self.data_index
    }

    /// An engineer over the shared index.
    pub fn new(data_index: Arc<DataIndex>) -> (r: Self)
        ensures
            r.index() == *data_index,
    {
        FeatureEngineer { data_index }
    }

    /// The genre-overlap feature: Jaccard overlap between the movie's
    /// genre set and the user's top three genres, in thousandths. Always
    /// between zero and one thousand, and zero whenever the movie has no
    /// genres or the user has no top genres.
    pub fn compute_genre_overlap(&self, movie_id: MovieId, user_context: &UserContext) -> (r: u64)
        requires
            self.index().wf(),
        ensures
            r == spec_genre_overlap_milli(
                self.index().movie_map(),
                movie_id,
                spec_top_genres(user_context.prefs(), 3),
            ),
            0 <= r <= 1000,
            !self.index().movie_map().contains_key(movie_id) ==> r == 0,
            movie_genres_empty(self.index(), movie_id) ==> r == 0,
            spec_top_genres(user_context.prefs(), 3).len() == 0 ==> r == 0,
    {
        let ghost movies = self.index().movie_map();
        let top = user_context.top_genres(3);
        let ghost topv = top@;
        let mut inter: u64 = 0;
        let mut combined: u64 = 0;
        let mut gi: usize = 0;
        while gi < GENRE_COUNT
            invariant
                self.index().wf(),
                movies == self.index().movie_map(),
                topv == top@,
                topv == spec_top_genres(user_context.prefs(), 3),
                gi <= GENRE_COUNT,
                inter == spec_inter_count(movies, movie_id, topv, gi as int),
                combined == spec_union_count(movies, movie_id, topv, gi as int),
                inter <= combined <= gi,
            decreases GENRE_COUNT - gi,
        {
            let g = genre_from_index(gi);
            let mut in_movie = false;
            match self.data_index.get_movie(movie_id) {
                Some(mv) => {
                    if has_genre(&mv.genres, g) {
                        in_movie = true;
                    }
                },
                None => {},
            }
            let in_top = has_genre(&top, g);
            proof {
                assert(in_movie == movie_has_genre(movies, movie_id, spec_genre_at(gi as int)));
                assert(in_top == topv.contains(spec_genre_at(gi as int)));
            }
            if in_movie && in_top {
                inter = inter + 1;
            }
            if in_movie || in_top {
                combined = combined + 1;
            }
            gi = gi + 1;
        }
        if combined == 0 {
            return 0;
        }
        proof {
            lemma_div_bound(inter as int, combined as int);
            if movie_genres_empty(self.index(), movie_id) {
                lemma_no_genres_zero_inter(movies, movie_id, topv, 18);
            }
            if !movies.contains_key(movie_id) {
                lemma_no_genres_zero_inter(movies, movie_id, topv, 18);
            }
            if topv.len() == 0 {
                lemma_empty_top_zero_inter(movies, movie_id, topv, 18);
            }
        }
        (inter * 1000) / combined
    }

    /// The year-preference feature.
    pub fn compute_year_preference(&self, movie_year: Option<u16>, preferred_era: Option<u16>) -> (r:
        u64)
        ensures
            r == spec_year_preference(movie_year, preferred_era),
            0 <= r <= 1000,
    {
        match (movie_year, preferred_era) {
            (Some(my), Some(pe)) => {
                let d: u16 = if my >= pe {
                    my - pe
                } else {
                    pe - my
                };
                if d >= 50 {
                    0
                } else {
                    1000 - (d as u64) * 20
                }
            },
            _ => 500,
        }
    }

    /// The popularity-percentile feature.
    pub fn compute_popularity_percentile(&self, movie_id: MovieId) -> (r: u64)
        ensures
            r == match self.index().stats_map().contains_key(movie_id) {
                true => spec_popularity_percentile(self.index().stats_map()[movie_id].rating_count),
                false => spec_popularity_percentile(0),
            },
            0 <= r <= 1000,
    {
        let count: u32 = match self.data_index.get_movie_stats(movie_id) {
            Some(stats) => stats.rating_count,
            None => 0,
        };
        if count >= 500 {
            1000
        } else {
            (count as u64) * 2
        }
    }

    /// The feature record of one candidate: the fixed formulas, or all
    /// defaults when the movie or its statistics are missing.
    pub fn compute_single(&self, candidate: &Candidate, user_context: &UserContext) -> (r:
        CandidateFeatures)
        requires
            self.index().wf(),
        ensures
            r == spec_features_for(self.index(), *user_context, *candidate),
            0 <= r.genre_overlap_score <= 1000,
    {
        let movie_year: Option<u16>;
        match self.data_index.get_movie(candidate.movie_id) {
            Some(mv) => {
                movie_year = mv.year;
            },
            None => {
                return CandidateFeatures::new(candidate.movie_id);
            },
        }
        let stats = match self.data_index.get_movie_stats(candidate.movie_id) {
            Some(s) => *s,
            None => {
                return CandidateFeatures::new(candidate.movie_id);
            },
        };
        let genre_overlap_score = self.compute_genre_overlap(candidate.movie_id, user_context);
        let similar_users_count = match candidate.metadata.similar_users_count {
            Some(n) => n,
            None => 0,
        };
        let popularity_percentile = self.compute_popularity_percentile(candidate.movie_id);
        let year_preference_score = self.compute_year_preference(
            movie_year,
            user_context.preferred_era,
        );
        let days_since_released: u64 = match movie_year {
            Some(y) => if y <= REFERENCE_YEAR {
                ((REFERENCE_YEAR - y) as u64) * 365
            } else {
                0
            },
            None => 0,
        };
        CandidateFeatures {
            movie_id: candidate.movie_id,
            genre_overlap_score,
            genre_diversity_score: 0,
            collaborative_score: candidate.base_score,
            similar_users_count,
            avg_rating: stats.avg_rating,
            rating_count: stats.rating_count,
            popularity_percentile,
            movie_year,
            year_preference_score,
            days_since_released,
        }
    }

    /// Feature records for all candidates, one each, in candidate order.
    pub fn compute_features(&self, candidates: &Vec<Candidate>, user_context: &UserContext) -> (r:
        Vec<CandidateFeatures>)
        requires
            self.index().wf(),
        ensures
            r@.len() == candidates@.len(),
            forall|i: int|
                0 <= i < r@.len() ==> #[trigger] r@[i] == spec_features_for(
                    self.index(),
                    *user_context,
                    candidates@[i],
                ),
            forall|i: int|
                0 <= i < r@.len() ==> 0 <= (#[trigger] r@[i]).genre_overlap_score <= 1000,
    {
        let mut out: Vec<CandidateFeatures> = Vec::new();
        let mut i: usize = 0;
        while i < candidates.len()
            invariant
                self.index().wf(),
                i <= candidates@.len(),
                out@.len() == i,
                forall|p: int|
                    0 <= p < i ==> #[trigger] out@[p] == spec_features_for(
                        self.index(),
                        *user_context,
                        candidates@[p],
                    ),
                forall|p: int|
                    0 <= p < i ==> 0 <= (#[trigger] out@[p]).genre_overlap_score <= 1000,
            decreases candidates@.len() - i,
        {
            let f = self.compute_single(&candidates[i], user_context);
            out.push(f);
            i = i + 1;
        }
        out
    }
}

/// A movie without genres (or without a record) contributes nothing to
/// the intersection.
proof fn lemma_no_genres_zero_inter(
    movies: Map<u32, crate::types::Movie>,
    mid: u32,
    top: Seq<Genre>,
    upto: int,
)
    requires
        upto >= 0,
        !movies.contains_key(mid) || movies[mid].genres@.len() == 0,
    ensures
        spec_inter_count(movies, mid, top, upto) == 0,
    decreases upto,
{
    if upto > 0 {
        lemma_no_genres_zero_inter(movies, mid, top, upto - 1);
    }
}

/// An empty top-genre list contributes nothing to the intersection.
proof fn lemma_empty_top_zero_inter(
    movies: Map<u32, crate::types::Movie>,
    mid: u32,
    top: Seq<Genre>,
    upto: int,
)
    requires
        upto >= 0,
        top.len() == 0,
    ensures
        spec_inter_count(movies, mid, top, upto) == 0,
    decreases upto,
{
    if upto > 0 {
        lemma_empty_top_zero_inter(movies, mid, top, upto - 1);
    }
}

} // verus!
