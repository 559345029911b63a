//! The discovery candidate source: three independent strategies — genre
//! affinity, overall popularity, and the user's preferred era — folded
//! into one list keyed by movie.

use vstd::prelude::*;
use std::sync::Arc;
use crate::types::{Genre, MovieId, Milli};
use crate::index::{DataIndex, movie_has_genre};
use crate::user_context::{UserContext, spec_top_genres, spec_pref_of};
use crate::candidate::{Candidate, CandidateSource, sorted_desc_scores, spec_has_movie};
use crate::sort::{sort_candidates_desc, lemma_elements_carry, lemma_permutation_keeps_movies, lemma_permutation_keeps_distinct_keys};
use crate::seqtools::reverse_vec;

verus! {

broadcast use vstd::std_specs::hash::group_hash_axioms;

/// Years either side of the preferred era that temporal discovery covers.
pub const ERA_TOLERANCE: u16 = 5;

/// A movie whose statistics pass the configured quality thresholds.
pub open spec fn spec_quality_ok(idx: DataIndex, m: u32, min_avg: u64, min_cnt: u32) -> bool {
    &&& idx.stats_map().contains_key(m)
    &&& idx.stats_map()[m].avg_rating >= min_avg
    &&& idx.stats_map()[m].rating_count >= min_cnt
}

/// The genre-affinity score: normalized average rating times the genre
/// preference, in thousandths, clamped into `u64`.
pub open spec fn spec_genre_score(idx: DataIndex, m: u32, pref: u64) -> int {
    if idx.stats_map().contains_key(m) {
        let x = idx.stats_map()[m].avg_rating * pref / 5000;
        if x > u64::MAX {
            u64::MAX as int
        } else {
            x
        }
    } else {
        0
    }
}

/// The year-proximity term: one minus a tenth per year of distance, at
/// most ten years, in thousandths.
pub open spec fn spec_year_term(y: u16, era: u16) -> int {
    let d = if y >= era {
        y - era
    } else {
        era - y
    };
    if d < 10 {
        1000 - d * 100
    } else {
        0
    }
}

/// The temporal score: the mean of the year-proximity term and the
/// normalized average rating, in thousandths.
pub open spec fn spec_temporal_score(idx: DataIndex, m: u32, y: u16, era: u16) -> int {
    if idx.stats_map().contains_key(m) {
        (spec_year_term(y, era) + idx.stats_map()[m].avg_rating / 5) / 2
    } else {
        0
    }
}

/// The first year temporal discovery covers for an era.
pub open spec fn spec_era_lo(era: u16) -> u16 {
    if era >= ERA_TOLERANCE {
        (era - ERA_TOLERANCE) as u16
    } else {
        0
    }
}

/// The last year temporal discovery covers for an era.
pub open spec fn spec_era_hi(era: u16) -> u16 {
    if era <= u16::MAX - ERA_TOLERANCE {
        (era + ERA_TOLERANCE) as u16
    } else {
        u16::MAX
    }
}

/// Every candidate of the discovery source carries at least one strategy
/// mark.
pub open spec fn discovery_marked(c: Candidate) -> bool {
    c.metadata.from_popularity || c.metadata.from_temporal
        || c.metadata.matched_genres@.len() > 0
}

/// The discovery candidate source.
pub struct PhoenixSource {
    pub data_index: Arc<DataIndex>,
    /// Smallest average rating (thousandths) a candidate's movie may
    /// have.
    pub min_avg_rating: Milli,
    /// Smallest rating count a candidate's movie may have.
    pub min_rating_count: u32,
}

impl PhoenixSource {
    /// The shared index.
    pub open spec fn index(&self) -> DataIndex {
        *self.data_index
    }

    /// Whether a movie passes this source's quality thresholds.
    pub open spec fn quality(&self, m: u32) -> bool {
        spec_quality_ok(self.index(), m, self.min_avg_rating, self.min_rating_count)
    }

    /// A source over the shared index with the default thresholds of a
    /// 3.5-star average and ten ratings.
    pub fn new(data_index: Arc<DataIndex>) -> (r: Self)
        ensures
            r.index() == *data_index,
            r.min_avg_rating == 3500,
            r.min_rating_count == 10,
    {
        PhoenixSource { data_index, min_avg_rating: 3500, min_rating_count: 10 }
    }

    /// The same source with another minimum average rating, in
    /// thousandths.
    pub fn with_min_avg_rating(self, rating: Milli) -> (r: Self)
        ensures
            r.index() == self.index(),
            r.min_avg_rating == rating,
            r.min_rating_count == self.min_rating_count,
    {
        PhoenixSource { min_avg_rating: rating, ..self }
    }

    /// The same source with another minimum rating count.
    pub fn with_min_rating_count(self, count: u32) -> (r: Self)
        ensures
            r.index() == self.index(),
            r.min_avg_rating == self.min_avg_rating,
            r.min_rating_count == count,
    {
        PhoenixSource { min_rating_count: count, ..self }
    }

    /// Genre discovery: unwatched, quality movies in the user's top three
    /// genres, scored by rating and genre affinity, best first, at most
    /// `limit`.
    pub fn get_genre_based(&self, ctx: &UserContext, limit: usize) -> (r: Vec<Candidate>)
        requires
            self.index().wf(),
        ensures
            r@.len() <= limit,
            sorted_desc_scores(r@),
            forall|i: int|
                0 <= i < r@.len() ==> {
                    let c = #[trigger] r@[i];
                    &&& c.source == CandidateSource::Phoenix
                    &&& !ctx.watched_movies@.contains(c.movie_id)
                    &&& self.quality(c.movie_id)
                    &&& c.metadata.matched_genres@.len() == 1
                    &&& spec_top_genres(ctx.prefs(), 3).contains(c.metadata.matched_genres@[0])
                    &&& movie_has_genre(
                        self.index().movie_map(),
                        c.movie_id,
                        c.metadata.matched_genres@[0],
                    )
                    &&& c.base_score == spec_genre_score(
                        self.index(),
                        c.movie_id,
                        spec_pref_of(ctx.prefs(), c.metadata.matched_genres@[0]).unwrap_or(0),
                    )
                },
            forall|g: Genre, m: u32|
                #![trigger self.index().genre_movies_of(g).contains(m), self.quality(m)]
                (spec_top_genres(ctx.prefs(), 3).contains(g) && self.index().genre_movies_of(
                    g,
                ).contains(m) && movie_has_genre(self.index().movie_map(), m, g)
                    && !ctx.watched_movies@.contains(m) && self.quality(m)) ==> spec_has_movie(
                    r@,
                    m,
                ) || r@.len() == limit,
            genre_result_ok(
                self.index(),
                *ctx,
                self.min_avg_rating,
                self.min_rating_count,
                limit as int,
                r@,
            ),
    {
        let ghost idx = self.index();
        let top = ctx.top_genres(3);
        let mut candidates: Vec<Candidate> = Vec::new();
        let mut gi: usize = 0;
        while gi < top.len()
            invariant
                self.index().wf(),
                idx == self.index(),
                top@ == spec_top_genres(ctx.prefs(), 3),
                gi <= top@.len(),
                forall|k: int, m: u32|
                    #![trigger top@[k], self.quality(m)]
                    (0 <= k < gi && idx.genre_movies_of(top@[k]).contains(m) && movie_has_genre(
                        idx.movie_map(),
                        m,
                        top@[k],
                    ) && !ctx.watched_movies@.contains(m) && self.quality(m)) ==> spec_has_movie(
                        candidates@,
                        m,
                    ),
                forall|i: int|
                    0 <= i < candidates@.len() ==> {
                        let c = #[trigger] candidates@[i];
                        &&& c.source == CandidateSource::Phoenix
                        &&& !ctx.watched_movies@.contains(c.movie_id)
                        &&& self.quality(c.movie_id)
                        &&& c.metadata.matched_genres@.len() == 1
                        &&& spec_top_genres(ctx.prefs(), 3).contains(c.metadata.matched_genres@[0])
                        &&& movie_has_genre(idx.movie_map(), c.movie_id, c.metadata.matched_genres@[0])
                        &&& c.base_score == spec_genre_score(
                            idx,
                            c.movie_id,
                            spec_pref_of(ctx.prefs(), c.metadata.matched_genres@[0]).unwrap_or(0),
                        )
                    },
            decreases top@.len() - gi,
        {
            let g = top[gi];
            let pref: u64 = match ctx.genre_preference(g) {
                Some(v) => v,
                None => 0,
            };
            let movie_ids = self.data_index.get_movies_by_genre(g);
            let mut mi: usize = 0;
            while mi < movie_ids.len()
                invariant
                    self.index().wf(),
                    idx == self.index(),
                    top@ == spec_top_genres(ctx.prefs(), 3),
                    gi < top@.len(),
                    g == top@[gi as int],
                    pref == spec_pref_of(ctx.prefs(), g).unwrap_or(0),
                    mi <= movie_ids@.len(),
                    movie_ids@ == idx.genre_movies_of(g),
                    forall|k: int, m: u32|
                        #![trigger top@[k], self.quality(m)]
                        (0 <= k < gi && idx.genre_movies_of(top@[k]).contains(m)
                            && movie_has_genre(idx.movie_map(), m, top@[k])
                            && !ctx.watched_movies@.contains(m) && self.quality(m))
                            ==> spec_has_movie(candidates@, m),
                    forall|j: int|
                        0 <= j < mi && movie_has_genre(
                            idx.movie_map(),
                            #[trigger] movie_ids@[j],
                            g,
                        ) && !ctx.watched_movies@.contains(movie_ids@[j]) && self.quality(
                            movie_ids@[j],
                        ) ==> spec_has_movie(candidates@, movie_ids@[j]),
                    forall|i: int|
                        0 <= i < candidates@.len() ==> {
                            let c = #[trigger] candidates@[i];
                            &&& c.source == CandidateSource::Phoenix
                            &&& !ctx.watched_movies@.contains(c.movie_id)
                            &&& self.quality(c.movie_id)
                            &&& c.metadata.matched_genres@.len() == 1
                            &&& spec_top_genres(ctx.prefs(), 3).contains(
                                c.metadata.matched_genres@[0],
                            )
                            &&& movie_has_genre(
                                idx.movie_map(),
                                c.movie_id,
                                c.metadata.matched_genres@[0],
                            )
                            &&& c.base_score == spec_genre_score(
                                idx,
                                c.movie_id,
                                spec_pref_of(ctx.prefs(), c.metadata.matched_genres@[0]).unwrap_or(
                                    0,
                                ),
                            )
                        },
                decreases movie_ids@.len() - mi,
            {
                let mid = movie_ids[mi];
                let ghost cand_before = candidates@;
                if !ctx.watched_movies.contains(&mid) {
                    let mut tagged = false;
                    match self.data_index.get_movie(mid) {
                        Some(mv) => {
                            if crate::types::has_genre(&mv.genres, g) {
                                tagged = true;
                            }
                        },
                        None => {},
                    }
                    match self.data_index.get_movie_stats(mid) {
                        Some(stats) => {
                            if tagged && stats.avg_rating >= self.min_avg_rating
                                && stats.rating_count >= self.min_rating_count {
                                proof {
                                    assert((stats.avg_rating as u128) * (pref as u128)
                                        < 0x100000000000000000000000000000000) by (nonlinear_arith)
                                        requires
                                            stats.avg_rating <= 0xffffffffffffffffu64,
                                            pref <= 0xffffffffffffffffu64,
                                    ;
                                }
                                let prod: u128 = (stats.avg_rating as u128) * (pref as u128)
                                    / 5000;
                                let score: u64 = if prod > u64::MAX as u128 {
                                    u64::MAX
                                } else {
                                    prod as u64
                                };
                                let mut c = Candidate::new(mid, CandidateSource::Phoenix, score);
                                c.metadata.matched_genres.push(g);
                                proof {
                                    assert(c.metadata.matched_genres@ =~= seq![g]);
                                    assert(top@.contains(g)) by {
                                        assert(top@[gi as int] == g);
                                    }
                                }
                                candidates.push(c);
                            }
                        },
                        None => {},
                    }
                }
                proof {
                    assert forall|k: int, m: u32|
                        #![trigger top@[k], self.quality(m)]
                        (0 <= k < gi && idx.genre_movies_of(top@[k]).contains(m)
                            && movie_has_genre(idx.movie_map(), m, top@[k])
                            && !ctx.watched_movies@.contains(m) && self.quality(
                            m,
                        )) implies spec_has_movie(candidates@, m) by {
                        let i0 = choose|i0: int|
                            0 <= i0 < cand_before.len() && (#[trigger] cand_before[i0]).movie_id
                                == m;
                        assert(candidates@[i0].movie_id == m);
                    }
                    assert forall|j: int|
                        0 <= j < mi + 1 && movie_has_genre(
                            idx.movie_map(),
                            #[trigger] movie_ids@[j],
                            g,
                        ) && !ctx.watched_movies@.contains(movie_ids@[j]) && self.quality(
                            movie_ids@[j],
                        ) implies spec_has_movie(candidates@, movie_ids@[j]) by {
                        if j < mi {
                            let i0 = choose|i0: int|
                                0 <= i0 < cand_before.len() && (
                                #[trigger] cand_before[i0]).movie_id == movie_ids@[j];
                            assert(candidates@[i0].movie_id == movie_ids@[j]);
                        } else {
                            assert(candidates@[candidates@.len() - 1].movie_id == mid);
                        }
                    }
                }
                mi = mi + 1;
            }
            proof {
                assert forall|k: int, m: u32|
                    #![trigger top@[k], self.quality(m)]
                    (0 <= k < gi + 1 && idx.genre_movies_of(top@[k]).contains(m)
                        && movie_has_genre(idx.movie_map(), m, top@[k])
                        && !ctx.watched_movies@.contains(m) && self.quality(
                        m,
                    )) implies spec_has_movie(candidates@, m) by {
                    if k == gi {
                        let j = choose|j: int|
                            0 <= j < movie_ids@.len() && #[trigger] movie_ids@[j] == m;
                        assert(spec_has_movie(candidates@, movie_ids@[j]));
                    }
                }
            }
            gi = gi + 1;
        }
        let ghost cand_view = candidates@;
        let sorted = sort_candidates_desc(candidates);
        let ghost sorted_full = sorted@;
        let mut sorted = sorted;
        if sorted.len() > limit {
            sorted.truncate(limit);
        }
        proof {
            lemma_elements_carry(
                cand_view,
                sorted_full,
                |c: Candidate|
                    {
                        &&& c.source == CandidateSource::Phoenix
                        &&& !ctx.watched_movies@.contains(c.movie_id)
                        &&& self.quality(c.movie_id)
                        &&& c.metadata.matched_genres@.len() == 1
                        &&& spec_top_genres(ctx.prefs(), 3).contains(c.metadata.matched_genres@[0])
                        &&& movie_has_genre(idx.movie_map(), c.movie_id, c.metadata.matched_genres@[0])
                        &&& c.base_score == spec_genre_score(
                            idx,
                            c.movie_id,
                            spec_pref_of(ctx.prefs(), c.metadata.matched_genres@[0]).unwrap_or(0),
                        )
                    },
            );
            lemma_permutation_keeps_movies(cand_view, sorted_full);
            assert forall|g: Genre, m: u32|
                #![trigger idx.genre_movies_of(g).contains(m), self.quality(m)]
                (spec_top_genres(ctx.prefs(), 3).contains(g) && idx.genre_movies_of(g).contains(
                    m,
                ) && movie_has_genre(idx.movie_map(), m, g) && !ctx.watched_movies@.contains(m)
                    && self.quality(m)) implies spec_has_movie(sorted@, m) || sorted@.len()
                == limit by {
                let k = choose|k: int| 0 <= k < top@.len() && #[trigger] top@[k] == g;
                assert(spec_has_movie(cand_view, m));
                assert(spec_has_movie(sorted_full, m));
                if sorted_full.len() <= limit {
                    let i0 = choose|i0: int|
                        0 <= i0 < sorted_full.len() && (#[trigger] sorted_full[i0]).movie_id == m;
                    assert(sorted@[i0].movie_id == m);
                }
            }
            assert forall|g: Genre, m: u32|
                #![trigger idx.genre_movies_of(g).contains(m), spec_quality_ok(idx, m, self.min_avg_rating, self.min_rating_count)]
                (spec_top_genres(ctx.prefs(), 3).contains(g) && idx.genre_movies_of(g).contains(
                    m,
                ) && movie_has_genre(idx.movie_map(), m, g) && !ctx.watched_movies@.contains(m)
                    && spec_quality_ok(
                    idx,
                    m,
                    self.min_avg_rating,
                    self.min_rating_count,
                )) implies spec_has_movie(sorted@, m) || sorted@.len() == limit by {
                assert(self.quality(m));
            }
            assert(genre_result_ok(
                self.index(),
                *ctx,
                self.min_avg_rating,
                self.min_rating_count,
                limit as int,
                sorted@,
            ));
        }
        sorted
    }

    /// Popularity discovery: unwatched, quality movies scored by their
    /// precomputed popularity, best first, at most `limit`.
    pub fn get_popularity_based(&self, ctx: &UserContext, limit: usize) -> (r: Vec<Candidate>)
        requires
            self.index().wf(),
        ensures
            r@.len() <= limit,
            sorted_desc_scores(r@),
            forall|i: int|
                0 <= i < r@.len() ==> {
                    let c = #[trigger] r@[i];
                    &&& c.source == CandidateSource::Phoenix
                    &&& !ctx.watched_movies@.contains(c.movie_id)
                    &&& self.quality(c.movie_id)
                    &&& c.metadata.from_popularity
                    &&& c.base_score == self.index().stats_map()[c.movie_id].popularity_score
                },
            forall|m: u32|
                self.index().movie_map().contains_key(m) && !ctx.watched_movies@.contains(m)
                    && #[trigger] self.quality(m) ==> spec_has_movie(r@, m) || r@.len() == limit,
            popularity_result_ok(
                self.index(),
                *ctx,
                self.min_avg_rating,
                self.min_rating_count,
                limit as int,
                r@,
            ),
    {
        let ghost idx = self.index();
        let movie_ids = self.data_index.get_all_movie_ids();
        let mut candidates: Vec<Candidate> = Vec::new();
        let mut mi: usize = 0;
        while mi < movie_ids.len()
            invariant
                self.index().wf(),
                idx == self.index(),
                mi <= movie_ids@.len(),
                movie_ids@ == idx.movie_id_list(),
                forall|i: int|
                    0 <= i < candidates@.len() ==> {
                        let c = #[trigger] candidates@[i];
                        &&& c.source == CandidateSource::Phoenix
                        &&& !ctx.watched_movies@.contains(c.movie_id)
                        &&& self.quality(c.movie_id)
                        &&& c.metadata.from_popularity
                        &&& c.base_score == idx.stats_map()[c.movie_id].popularity_score
                    },
                forall|j: int|
                    0 <= j < mi && !ctx.watched_movies@.contains(#[trigger] movie_ids@[j])
                        && self.quality(movie_ids@[j]) ==> spec_has_movie(
                        candidates@,
                        movie_ids@[j],
                    ),
            decreases movie_ids@.len() - mi,
        {
            let mid = movie_ids[mi];
            let ghost cand_before = candidates@;
            if !ctx.watched_movies.contains(&mid) {
                match self.data_index.get_movie_stats(mid) {
                    Some(stats) => {
                        if stats.avg_rating >= self.min_avg_rating && stats.rating_count
                            >= self.min_rating_count {
                            let mut c = Candidate::new(
                                mid,
                                CandidateSource::Phoenix,
                                stats.popularity_score,
                            );
                            c.metadata.from_popularity = true;
                            candidates.push(c);
                        }
                    },
                    None => {},
                }
            }
            proof {
                assert forall|j: int|
                    0 <= j < mi + 1 && !ctx.watched_movies@.contains(#[trigger] movie_ids@[j])
                        && self.quality(movie_ids@[j]) implies spec_has_movie(
                    candidates@,
                    movie_ids@[j],
                ) by {
                    if j < mi {
                        let i0 = choose|i0: int|
                            0 <= i0 < cand_before.len() && (#[trigger] cand_before[i0]).movie_id
                                == movie_ids@[j];
                        assert(candidates@[i0].movie_id == movie_ids@[j]);
                    } else {
                        assert(candidates@[candidates@.len() - 1].movie_id == mid);
                    }
                }
            }
            mi = mi + 1;
        }
        let ghost cand_view = candidates@;
        let sorted = sort_candidates_desc(candidates);
        let ghost sorted_full = sorted@;
        let mut sorted = sorted;
        if sorted.len() > limit {
            sorted.truncate(limit);
        }
        proof {
            lemma_elements_carry(
                cand_view,
                sorted_full,
                |c: Candidate|
                    {
                        &&& c.source == CandidateSource::Phoenix
                        &&& !ctx.watched_movies@.contains(c.movie_id)
                        &&& self.quality(c.movie_id)
                        &&& c.metadata.from_popularity
                        &&& c.base_score == idx.stats_map()[c.movie_id].popularity_score
                    },
            );
            lemma_permutation_keeps_movies(cand_view, sorted_full);
            self.data_index.lemma_wf_facts();
            assert forall|m: u32|
                idx.movie_map().contains_key(m) && !ctx.watched_movies@.contains(m)
                    && #[trigger] self.quality(m) implies spec_has_movie(sorted@, m) || sorted@.len()
                == limit by {
                assert(idx.movie_id_list().contains(m));
                let j = choose|j: int|
                    0 <= j < idx.movie_id_list().len() && #[trigger] idx.movie_id_list()[j] == m;
                assert(spec_has_movie(cand_view, m));
                assert(spec_has_movie(sorted_full, m));
                if sorted_full.len() <= limit {
                    let i0 = choose|i0: int|
                        0 <= i0 < sorted_full.len() && (#[trigger] sorted_full[i0]).movie_id == m;
                    assert(sorted@[i0].movie_id == m);
                }
            }
            assert forall|m: u32|
                idx.movie_map().contains_key(m) && !ctx.watched_movies@.contains(m)
                    && #[trigger] spec_quality_ok(
                    idx,
                    m,
                    self.min_avg_rating,
                    self.min_rating_count,
                ) implies spec_has_movie(sorted@, m) || sorted@.len() == limit by {
                assert(self.quality(m));
            }
            assert(popularity_result_ok(
                self.index(),
                *ctx,
                self.min_avg_rating,
                self.min_rating_count,
                limit as int,
                sorted@,
            ));
        }
        sorted
    }

    /// Temporal discovery: unwatched, quality movies released within five
    /// years of the user's preferred era, scored by year proximity and
    /// rating, best first, at most `limit`. Empty when no era is known.
    pub fn get_temporal(&self, ctx: &UserContext, limit: usize) -> (r: Vec<Candidate>)
        requires
            self.index().wf(),
        ensures
            r@.len() <= limit,
            sorted_desc_scores(r@),
            ctx.preferred_era is None ==> r@.len() == 0,
            forall|i: int|
                0 <= i < r@.len() ==> {
                    let c = #[trigger] r@[i];
                    &&& c.source == CandidateSource::Phoenix
                    &&& !ctx.watched_movies@.contains(c.movie_id)
                    &&& self.quality(c.movie_id)
                    &&& c.metadata.from_temporal
                    &&& ctx.preferred_era is Some
                    &&& self.index().movie_map().contains_key(c.movie_id)
                    &&& self.index().movie_map()[c.movie_id].year is Some
                    &&& spec_era_lo(ctx.preferred_era.unwrap())
                        <= self.index().movie_map()[c.movie_id].year.unwrap() <= spec_era_hi(
                        ctx.preferred_era.unwrap(),
                    )
                    &&& c.base_score == spec_temporal_score(
                        self.index(),
                        c.movie_id,
                        self.index().movie_map()[c.movie_id].year.unwrap(),
                        ctx.preferred_era.unwrap(),
                    )
                },
            temporal_result_ok(
                self.index(),
                *ctx,
                self.min_avg_rating,
                self.min_rating_count,
                limit as int,
                r@,
            ),
            forall|m: u32|
                (ctx.preferred_era is Some && self.index().year_range_movies(
                    spec_era_lo(ctx.preferred_era.unwrap()) as int,
                    spec_era_hi(ctx.preferred_era.unwrap()) as int,
                ).contains(m) && self.index().movie_map().contains_key(m) && self.index().movie_map()[m].year is Some
                    && spec_era_lo(ctx.preferred_era.unwrap())
                    <= self.index().movie_map()[m].year.unwrap() <= spec_era_hi(
                    ctx.preferred_era.unwrap(),
                ) && !ctx.watched_movies@.contains(m) && #[trigger] self.quality(m))
                    ==> spec_has_movie(r@, m) || r@.len() == limit,
    {
        let ghost idx = self.index();
        let era = match ctx.preferred_era {
            Some(y) => y,
            None => {
                return Vec::new();
            },
        };
        let start_year = if era >= ERA_TOLERANCE {
            era - ERA_TOLERANCE
        } else {
            0
        };
        let end_year = if era <= u16::MAX - ERA_TOLERANCE {
            era + ERA_TOLERANCE
        } else {
            u16::MAX
        };
        proof {
            assert(start_year == spec_era_lo(era));
            assert(end_year == spec_era_hi(era));
        }
        let movie_ids = self.data_index.get_movies_in_year_range(start_year, end_year);
        let mut candidates: Vec<Candidate> = Vec::new();
        let mut mi: usize = 0;
        while mi < movie_ids.len()
            invariant
                self.index().wf(),
                idx == self.index(),
                mi <= movie_ids@.len(),
                movie_ids@ == idx.year_range_movies(start_year as int, end_year as int),
                start_year == spec_era_lo(era),
                end_year == spec_era_hi(era),
                forall|j: int|
                    0 <= j < mi && idx.movie_map().contains_key(#[trigger] movie_ids@[j])
                        && idx.movie_map()[movie_ids@[j]].year is Some && spec_era_lo(era)
                        <= idx.movie_map()[movie_ids@[j]].year.unwrap() <= spec_era_hi(era)
                        && !ctx.watched_movies@.contains(movie_ids@[j]) && self.quality(
                        movie_ids@[j],
                    ) ==> spec_has_movie(candidates@, movie_ids@[j]),
                ctx.preferred_era == Some(era),
                forall|i: int|
                    0 <= i < candidates@.len() ==> {
                        let c = #[trigger] candidates@[i];
                        &&& c.source == CandidateSource::Phoenix
                        &&& !ctx.watched_movies@.contains(c.movie_id)
                        &&& self.quality(c.movie_id)
                        &&& c.metadata.from_temporal
                        &&& idx.movie_map().contains_key(c.movie_id)
                        &&& idx.movie_map()[c.movie_id].year is Some
                        &&& spec_era_lo(era) <= idx.movie_map()[c.movie_id].year.unwrap()
                            <= spec_era_hi(era)
                        &&& c.base_score == spec_temporal_score(
                            idx,
                            c.movie_id,
                            idx.movie_map()[c.movie_id].year.unwrap(),
                            era,
                        )
                    },
            decreases movie_ids@.len() - mi,
        {
            let mid = movie_ids[mi];
            let ghost cand_before = candidates@;
            if !ctx.watched_movies.contains(&mid) {
                let mut year_found: Option<u16> = None;
                match self.data_index.get_movie(mid) {
                    Some(mv) => {
                        year_found = mv.year;
                    },
                    None => {},
                }
                match year_found {
                    Some(y) if start_year <= y && y <= end_year => {
                        match self.data_index.get_movie_stats(mid) {
                            Some(stats) => {
                                if stats.avg_rating >= self.min_avg_rating && stats.rating_count
                                    >= self.min_rating_count {
                                    let d: u16 = if y >= era {
                                        y - era
                                    } else {
                                        era - y
                                    };
                                    let year_score: u64 = if d < 10 {
                                        1000 - (d as u64) * 100
                                    } else {
                                        0
                                    };
                                    let rating_score: u64 = stats.avg_rating / 5;
                                    let score: u64 = (year_score + rating_score) / 2;
                                    let mut c = Candidate::new(
                                        mid,
                                        CandidateSource::Phoenix,
                                        score,
                                    );
                                    c.metadata.from_temporal = true;
                                    candidates.push(c);
                                }
                            },
                            None => {},
                        }
                    },
                    _ => {},
                }
            }
            proof {
                assert forall|j: int|
                    0 <= j < mi + 1 && idx.movie_map().contains_key(#[trigger] movie_ids@[j])
                        && idx.movie_map()[movie_ids@[j]].year is Some && spec_era_lo(era)
                        <= idx.movie_map()[movie_ids@[j]].year.unwrap() <= spec_era_hi(era)
                        && !ctx.watched_movies@.contains(movie_ids@[j]) && self.quality(
                        movie_ids@[j],
                    ) implies spec_has_movie(candidates@, movie_ids@[j]) by {
                    if j < mi {
                        let i0 = choose|i0: int|
                            0 <= i0 < cand_before.len() && (#[trigger] cand_before[i0]).movie_id
                                == movie_ids@[j];
                        assert(candidates@[i0].movie_id == movie_ids@[j]);
                    } else {
                        assert(candidates@[candidates@.len() - 1].movie_id == mid);
                    }
                }
            }
            mi = mi + 1;
        }
        let ghost cand_view = candidates@;
        let sorted = sort_candidates_desc(candidates);
        let ghost sorted_full = sorted@;
        let mut sorted = sorted;
        if sorted.len() > limit {
            sorted.truncate(limit);
        }
        proof {
            lemma_elements_carry(
                cand_view,
                sorted_full,
                |c: Candidate|
                    {
                        &&& c.source == CandidateSource::Phoenix
                        &&& !ctx.watched_movies@.contains(c.movie_id)
                        &&& self.quality(c.movie_id)
                        &&& c.metadata.from_temporal
                        &&& idx.movie_map().contains_key(c.movie_id)
                        &&& idx.movie_map()[c.movie_id].year is Some
                        &&& spec_era_lo(era) <= idx.movie_map()[c.movie_id].year.unwrap()
                            <= spec_era_hi(era)
                        &&& c.base_score == spec_temporal_score(
                            idx,
                            c.movie_id,
                            idx.movie_map()[c.movie_id].year.unwrap(),
                            era,
                        )
                    },
            );
            lemma_permutation_keeps_movies(cand_view, sorted_full);
            assert forall|m: u32|
                (ctx.preferred_era is Some && idx.year_range_movies(
                    spec_era_lo(era) as int,
                    spec_era_hi(era) as int,
                ).contains(m) && idx.movie_map().contains_key(m) && idx.movie_map()[m].year is Some
                    && spec_era_lo(era) <= idx.movie_map()[m].year.unwrap() <= spec_era_hi(era)
                    && !ctx.watched_movies@.contains(m) && #[trigger] self.quality(
                    m,
                )) implies spec_has_movie(sorted@, m) || sorted@.len() == limit by {
                let j = choose|j: int|
                    0 <= j < movie_ids@.len() && #[trigger] movie_ids@[j] == m;
                assert(spec_has_movie(cand_view, m));
                assert(spec_has_movie(sorted_full, m));
                if sorted_full.len() <= limit {
                    let i0 = choose|i0: int|
                        0 <= i0 < sorted_full.len() && (#[trigger] sorted_full[i0]).movie_id == m;
                    assert(sorted@[i0].movie_id == m);
                }
            }
            assert forall|m: u32|
                (ctx.preferred_era is Some && idx.year_range_movies(
                    spec_era_lo(era) as int,
                    spec_era_hi(era) as int,
                ).contains(m) && idx.movie_map().contains_key(m) && idx.movie_map()[m].year is Some
                    && spec_era_lo(era) <= idx.movie_map()[m].year.unwrap() <= spec_era_hi(era)
                    && !ctx.watched_movies@.contains(m) && #[trigger] spec_quality_ok(
                    idx,
                    m,
                    self.min_avg_rating,
                    self.min_rating_count,
                )) implies spec_has_movie(sorted@, m) || sorted@.len() == limit by {
                assert(self.quality(m));
            }
            assert(temporal_result_ok(
                self.index(),
                *ctx,
                self.min_avg_rating,
                self.min_rating_count,
                limit as int,
                sorted@,
            ));
        }
        sorted
    }

    /// Generates discovery candidates: the three strategies run with
    /// partial limits and fold into one list keyed by movie id, a movie
    /// found twice keeping the running average of its scores and the
    /// union of its strategy marks; sorted best first, at most `limit`.
    #[verifier::rlimit(100)]
    pub fn get_candidates(&self, user_context: &UserContext, limit: usize) -> (r: Vec<Candidate>)
        requires
            self.index().wf(),
        ensures
            r@.len() <= limit,
            sorted_desc_scores(r@),
            forall|i: int, j: int|
                0 <= i < j < r@.len() ==> (#[trigger] r@[i]).movie_id != (
                #[trigger] r@[j]).movie_id,
            forall|i: int|
                0 <= i < r@.len() ==> {
                    let c = #[trigger] r@[i];
                    &&& c.source == CandidateSource::Phoenix
                    &&& !user_context.watched_movies@.contains(c.movie_id)
                    &&& self.quality(c.movie_id)
                    &&& discovery_marked(c)
                },
            phoenix_output_ok(
                self.index(),
                *user_context,
                self.min_avg_rating,
                self.min_rating_count,
                limit as int,
                r@,
            ),
    {
        let ghost idx = self.index();
        let ghost ma = self.min_avg_rating;
        let ghost mc = self.min_rating_count;
        let ghost prop = phoenix_prop(idx, *user_context, ma, mc);
        let genre_candidates = self.get_genre_based(user_context, limit / 2);
        let ghost gcv = genre_candidates@;
        let mut acc: Vec<Candidate> = Vec::new();
        let mut rest = reverse_vec(genre_candidates);
        proof {
            assert(gcv.skip(0).reverse() =~= rest@);
            assert(gcv.take(0) =~= Seq::<Candidate>::empty());
            assert(acc_mirrors(acc@, fold_replace(Map::empty(), gcv.take(0))));
        }
        while rest.len() > 0
            invariant
                rest@.len() <= gcv.len(),
                rest@ == gcv.skip(gcv.len() - rest@.len()).reverse(),
                acc_mirrors(acc@, fold_replace(Map::empty(), gcv.take(gcv.len() - rest@.len()))),
            decreases rest@.len(),
        {
            let ghost n = gcv.len() - rest@.len();
            let c = rest.pop().unwrap();
            proof {
                assert(c == gcv.skip(n).reverse().last());
                assert(c == gcv[n]);
                assert(rest@ =~= gcv.skip(n + 1).reverse());
                assert(gcv.take(n + 1).drop_last() =~= gcv.take(n as int));
                assert(gcv.take(n + 1).last() == gcv[n as int]);
            }
            fold_set(&mut acc, c, Ghost(fold_replace(Map::empty(), gcv.take(n as int))));
        }
        proof {
            assert(gcv.take(gcv.len() as int) =~= gcv);
        }
        let ghost m1 = fold_replace(Map::empty(), gcv);
        let popularity_candidates = self.get_popularity_based(user_context, limit / 3);
        let ghost pcv = popularity_candidates@;
        let mut rest = reverse_vec(popularity_candidates);
        proof {
            assert(pcv.skip(0).reverse() =~= rest@);
            assert(pcv.take(0) =~= Seq::<Candidate>::empty());
            assert(fold_average(m1, pcv.take(0), true, false) == m1);
        }
        while rest.len() > 0
            invariant
                rest@.len() <= pcv.len(),
                rest@ == pcv.skip(pcv.len() - rest@.len()).reverse(),
                acc_mirrors(acc@, fold_average(m1, pcv.take(pcv.len() - rest@.len()), true, false)),
            decreases rest@.len(),
        {
            let ghost n = pcv.len() - rest@.len();
            let c = rest.pop().unwrap();
            proof {
                assert(c == pcv.skip(n).reverse().last());
                assert(c == pcv[n]);
                assert(rest@ =~= pcv.skip(n + 1).reverse());
                assert(pcv.take(n + 1).drop_last() =~= pcv.take(n as int));
                assert(pcv.take(n + 1).last() == pcv[n as int]);
            }
            fold_blend(&mut acc, c, true, false, Ghost(fold_average(m1, pcv.take(n as int), true, false)));
        }
        proof {
            assert(pcv.take(pcv.len() as int) =~= pcv);
        }
        let ghost m2 = fold_average(m1, pcv, true, false);
        let ghost has_era = user_context.preferred_era is Some;
        let ghost mut tcv = Seq::<Candidate>::empty();
        if ctx_has_era(user_context) {
            let temporal_candidates = self.get_temporal(user_context, limit / 3);
            proof {
                tcv = temporal_candidates@;
            }
            let mut rest = reverse_vec(temporal_candidates);
            proof {
                assert(tcv.skip(0).reverse() =~= rest@);
                assert(tcv.take(0) =~= Seq::<Candidate>::empty());
                assert(fold_average(m2, tcv.take(0), false, true) == m2);
            }
            while rest.len() > 0
                invariant
                    rest@.len() <= tcv.len(),
                    rest@ == tcv.skip(tcv.len() - rest@.len()).reverse(),
                    acc_mirrors(
                        acc@,
                        fold_average(m2, tcv.take(tcv.len() - rest@.len()), false, true),
                    ),
                decreases rest@.len(),
            {
                let ghost n = tcv.len() - rest@.len();
                let c = rest.pop().unwrap();
                proof {
                    assert(c == tcv.skip(n).reverse().last());
                    assert(c == tcv[n]);
                    assert(rest@ =~= tcv.skip(n + 1).reverse());
                    assert(tcv.take(n + 1).drop_last() =~= tcv.take(n as int));
                    assert(tcv.take(n + 1).last() == tcv[n as int]);
                }
                fold_blend(
                    &mut acc,
                    c,
                    false,
                    true,
                    Ghost(fold_average(m2, tcv.take(n as int), false, true)),
                );
            }
            proof {
                assert(tcv.take(tcv.len() as int) =~= tcv);
            }
        }
        let ghost m_final = spec_phoenix_fold(gcv, pcv, tcv, has_era);
        proof {
            if !has_era {
                assert(m_final == m2);
            }
            assert(acc_mirrors(acc@, m_final));
            lemma_phoenix_fold_props(
                idx,
                *user_context,
                ma,
                mc,
                gcv,
                pcv,
                tcv,
                has_era,
                (limit / 2) as int,
                (limit / 3) as int,
            );
        }
        let ghost acc_view = acc@;
        let sorted = sort_candidates_desc(acc);
        let ghost sorted_full = sorted@;
        let mut sorted = sorted;
        if sorted.len() > limit {
            sorted.truncate(limit);
        }
        proof {
            assert(sorted@ =~= sorted_full.take(sorted@.len() as int));
            lemma_phoenix_assemble(m_final, prop, acc_view, sorted_full, sorted@, limit as int);
            assert forall|i: int|
                0 <= i < sorted@.len() implies {
                let c = #[trigger] sorted@[i];
                &&& c.source == CandidateSource::Phoenix
                &&& !user_context.watched_movies@.contains(c.movie_id)
                &&& self.quality(c.movie_id)
                &&& discovery_marked(c)
            } by {
                assert(prop(sorted@[i]));
            }
            assert((limit / 2) as int == limit as int / 2);
            assert((limit / 3) as int == limit as int / 3);
            assert(genre_result_ok(idx, *user_context, ma, mc, limit as int / 2, gcv));
            assert(popularity_result_ok(idx, *user_context, ma, mc, limit as int / 3, pcv));
            assert(temporal_result_ok(idx, *user_context, ma, mc, limit as int / 3, tcv));
            assert(phoenix_output_ok(idx, *user_context, ma, mc, limit as int, sorted@));
        }
        sorted
    }
}

/// The genre-discovery answer: at most `limit` sorted candidates, each an
/// unwatched, quality movie of one of the user's top three genres with the
/// genre-affinity score, and every eligible movie appears unless the
/// answer is at its limit.
pub open spec fn genre_result_ok(
    idx: DataIndex,
    ctx: UserContext,
    min_avg: u64,
    min_cnt: u32,
    limit: int,
    r: Seq<Candidate>,
) -> bool {
    &&& r.len() <= limit
    &&& sorted_desc_scores(r)
    &&& forall|i: int|
        0 <= i < r.len() ==> {
            let c = #[trigger] r[i];
            &&& c.source == CandidateSource::Phoenix
            &&& !ctx.watched_movies@.contains(c.movie_id)
            &&& spec_quality_ok(idx, c.movie_id, min_avg, min_cnt)
            &&& c.metadata.matched_genres@.len() == 1
            &&& spec_top_genres(ctx.prefs(), 3).contains(c.metadata.matched_genres@[0])
            &&& movie_has_genre(idx.movie_map(), c.movie_id, c.metadata.matched_genres@[0])
            &&& c.base_score == spec_genre_score(
                idx,
                c.movie_id,
                spec_pref_of(ctx.prefs(), c.metadata.matched_genres@[0]).unwrap_or(0),
            )
        }
    &&& forall|g: Genre, m: u32|
        #![trigger idx.genre_movies_of(g).contains(m), spec_quality_ok(idx, m, min_avg, min_cnt)]
        (spec_top_genres(ctx.prefs(), 3).contains(g) && idx.genre_movies_of(g).contains(m)
            && movie_has_genre(idx.movie_map(), m, g) && !ctx.watched_movies@.contains(m)
            && spec_quality_ok(idx, m, min_avg, min_cnt)) ==> spec_has_movie(r, m) || r.len()
            == limit
}

/// The popularity-discovery answer: at most `limit` sorted candidates,
/// each an unwatched, quality movie carrying its popularity score and
/// mark, and every eligible movie appears unless the answer is at its
/// limit.
pub open spec fn popularity_result_ok(
    idx: DataIndex,
    ctx: UserContext,
    min_avg: u64,
    min_cnt: u32,
    limit: int,
    r: Seq<Candidate>,
) -> bool {
    &&& r.len() <= limit
    &&& sorted_desc_scores(r)
    &&& forall|i: int|
        0 <= i < r.len() ==> {
            let c = #[trigger] r[i];
            &&& c.source == CandidateSource::Phoenix
            &&& !ctx.watched_movies@.contains(c.movie_id)
            &&& spec_quality_ok(idx, c.movie_id, min_avg, min_cnt)
            &&& c.metadata.from_popularity
            &&& c.base_score == idx.stats_map()[c.movie_id].popularity_score
        }
    &&& forall|m: u32|
        idx.movie_map().contains_key(m) && !ctx.watched_movies@.contains(m)
            && #[trigger] spec_quality_ok(idx, m, min_avg, min_cnt) ==> spec_has_movie(r, m)
            || r.len() == limit
}

/// The temporal-discovery answer: empty without a preferred era; else at
/// most `limit` sorted candidates, each an unwatched, quality movie from
/// the era's neighbourhood carrying the year-proximity score and mark, and
/// every eligible movie appears unless the answer is at its limit.
pub open spec fn temporal_result_ok(
    idx: DataIndex,
    ctx: UserContext,
    min_avg: u64,
    min_cnt: u32,
    limit: int,
    r: Seq<Candidate>,
) -> bool {
    &&& r.len() <= limit
    &&& sorted_desc_scores(r)
    &&& (ctx.preferred_era is None ==> r.len() == 0)
    &&& forall|i: int|
        0 <= i < r.len() ==> {
            let c = #[trigger] r[i];
            &&& c.source == CandidateSource::Phoenix
            &&& !ctx.watched_movies@.contains(c.movie_id)
            &&& spec_quality_ok(idx, c.movie_id, min_avg, min_cnt)
            &&& c.metadata.from_temporal
            &&& ctx.preferred_era is Some
            &&& idx.movie_map().contains_key(c.movie_id)
            &&& idx.movie_map()[c.movie_id].year is Some
            &&& spec_era_lo(ctx.preferred_era.unwrap())
                <= idx.movie_map()[c.movie_id].year.unwrap() <= spec_era_hi(
                ctx.preferred_era.unwrap(),
            )
            &&& c.base_score == spec_temporal_score(
                idx,
                c.movie_id,
                idx.movie_map()[c.movie_id].year.unwrap(),
                ctx.preferred_era.unwrap(),
            )
        }
    &&& forall|m: u32|
        (ctx.preferred_era is Some && idx.year_range_movies(
            spec_era_lo(ctx.preferred_era.unwrap()) as int,
            spec_era_hi(ctx.preferred_era.unwrap()) as int,
        ).contains(m) && idx.movie_map().contains_key(m) && idx.movie_map()[m].year is Some
            && spec_era_lo(ctx.preferred_era.unwrap())
            <= idx.movie_map()[m].year.unwrap() <= spec_era_hi(ctx.preferred_era.unwrap())
            && !ctx.watched_movies@.contains(m) && #[trigger] spec_quality_ok(
            idx,
            m,
            min_avg,
            min_cnt,
        )) ==> spec_has_movie(r, m) || r.len() == limit
}

/// One strategy's candidate folded over an earlier one for the same
/// movie: the running pairwise average of the scores, and the union of
/// the strategy marks.
pub open spec fn spec_blend(
    e: Candidate,
    c: Candidate,
    mark_popularity: bool,
    mark_temporal: bool,
) -> Candidate {
    Candidate {
        movie_id: e.movie_id,
        source: e.source,
        base_score: ((e.base_score + c.base_score) / 2) as u64,
        metadata: crate::candidate::CandidateMetadata {
            similar_users_count: e.metadata.similar_users_count,
            matched_genres: e.metadata.matched_genres,
            from_popularity: e.metadata.from_popularity || mark_popularity,
            from_temporal: e.metadata.from_temporal || mark_temporal,
        },
    }
}

/// Folding a strategy list where a movie seen again simply replaces its
/// earlier entry.
pub open spec fn fold_replace(m: Map<u32, Candidate>, s: Seq<Candidate>) -> Map<u32, Candidate>
    decreases s.len(),
{
    if s.len() == 0 {
        m
    } else {
        fold_replace(m, s.drop_last()).insert(s.last().movie_id, s.last())
    }
}

/// Folding a strategy list where a movie seen again blends with its
/// earlier entry.
pub open spec fn fold_average(
    m: Map<u32, Candidate>,
    s: Seq<Candidate>,
    mark_popularity: bool,
    mark_temporal: bool,
) -> Map<u32, Candidate>
    decreases s.len(),
{
    if s.len() == 0 {
        m
    } else {
        let m2 = fold_average(m, s.drop_last(), mark_popularity, mark_temporal);
        let c = s.last();
        if m2.contains_key(c.movie_id) {
            m2.insert(c.movie_id, spec_blend(m2[c.movie_id], c, mark_popularity, mark_temporal))
        } else {
            m2.insert(c.movie_id, c)
        }
    }
}

/// The folded store of the three strategies, genre first, then
/// popularity, then (when an era is known) temporal.
pub open spec fn spec_phoenix_fold(
    g: Seq<Candidate>,
    p: Seq<Candidate>,
    t: Seq<Candidate>,
    has_era: bool,
) -> Map<u32, Candidate> {
    let m1 = fold_replace(Map::empty(), g);
    let m2 = fold_average(m1, p, true, false);
    if has_era {
        fold_average(m2, t, false, true)
    } else {
        m2
    }
}

/// A candidate list mirroring a folded store, sorted and cut to `limit`:
/// distinct movies, each entry the store's entry for its movie, and every
/// stored movie present unless the list is at its limit.
pub open spec fn phoenix_mirrors_fold(
    m: Map<u32, Candidate>,
    limit: int,
    r: Seq<Candidate>,
) -> bool {
    &&& r.len() <= limit
    &&& sorted_desc_scores(r)
    &&& forall|i: int, j: int|
        0 <= i < j < r.len() ==> (#[trigger] r[i]).movie_id != (#[trigger] r[j]).movie_id
    &&& forall|i: int|
        0 <= i < r.len() ==> m.contains_key((#[trigger] r[i]).movie_id) && r[i] == m[r[i].movie_id]
    &&& forall|k: u32| #[trigger] m.contains_key(k) ==> spec_has_movie(r, k) || r.len() == limit
}

/// The discovery answer comes from three strategy answers folded
/// together.
pub open spec fn phoenix_output_ok(
    idx: DataIndex,
    ctx: UserContext,
    min_avg: u64,
    min_cnt: u32,
    limit: int,
    r: Seq<Candidate>,
) -> bool {
    exists|gc: Seq<Candidate>, pc: Seq<Candidate>, tc: Seq<Candidate>|
        #![trigger genre_result_ok(idx, ctx, min_avg, min_cnt, limit / 2, gc), popularity_result_ok(idx, ctx, min_avg, min_cnt, limit / 3, pc), temporal_result_ok(idx, ctx, min_avg, min_cnt, limit / 3, tc)]
        genre_result_ok(idx, ctx, min_avg, min_cnt, limit / 2, gc) && popularity_result_ok(
            idx,
            ctx,
            min_avg,
            min_cnt,
            limit / 3,
            pc,
        ) && temporal_result_ok(idx, ctx, min_avg, min_cnt, limit / 3, tc)
            && phoenix_mirrors_fold(
            spec_phoenix_fold(gc, pc, tc, ctx.preferred_era is Some),
            limit,
            r,
        )
}

/// A per-movie list mirroring a folded store so far: distinct movies,
/// entries equal to the store's, every stored movie present.
pub open spec fn acc_mirrors(acc: Seq<Candidate>, m: Map<u32, Candidate>) -> bool {
    &&& forall|i: int, j: int|
        0 <= i < j < acc.len() ==> (#[trigger] acc[i]).movie_id != (#[trigger] acc[j]).movie_id
    &&& forall|i: int|
        0 <= i < acc.len() ==> m.contains_key((#[trigger] acc[i]).movie_id) && acc[i]
            == m[acc[i].movie_id]
    &&& forall|k: u32|
        #[trigger] m.contains_key(k) ==> exists|i: int|
            0 <= i < acc.len() && (#[trigger] acc[i]).movie_id == k
}

/// Every candidate of the discovery source: its movie unwatched and of
/// quality, with a strategy mark.
pub open spec fn phoenix_prop(idx: DataIndex, ctx: UserContext, min_avg: u64, min_cnt: u32) -> spec_fn(
    Candidate,
) -> bool {
    |c: Candidate|
        {
            &&& c.source == CandidateSource::Phoenix
            &&& !ctx.watched_movies@.contains(c.movie_id)
            &&& spec_quality_ok(idx, c.movie_id, min_avg, min_cnt)
            &&& discovery_marked(c)
        }
}

/// A replacing fold of well-marked candidates keeps the store
/// well-marked.
proof fn lemma_fold_replace_preserves(
    m: Map<u32, Candidate>,
    s: Seq<Candidate>,
    prop: spec_fn(Candidate) -> bool,
)
    requires
        forall|k: u32| #[trigger] m.contains_key(k) ==> prop(m[k]),
        forall|i: int| 0 <= i < s.len() ==> prop(#[trigger] s[i]),
    ensures
        forall|k: u32|
            #[trigger] fold_replace(m, s).contains_key(k) ==> prop(fold_replace(m, s)[k]),
    decreases s.len(),
{
    if s.len() > 0 {
        assert(forall|i: int| 0 <= i < s.len() - 1 ==> prop(#[trigger] s.drop_last()[i]));
        lemma_fold_replace_preserves(m, s.drop_last(), prop);
        assert(prop(s.last()));
        let prev = fold_replace(m, s.drop_last());
        assert forall|k: u32| #[trigger] fold_replace(m, s).contains_key(k) implies prop(
            fold_replace(m, s)[k],
        ) by {
            if k != s.last().movie_id {
                assert(prev.contains_key(k));
                assert(prop(prev[k]));
            }
        }
    }
}

/// A blending fold keeps the store well-marked when blending preserves
/// the property.
proof fn lemma_fold_average_preserves(
    m: Map<u32, Candidate>,
    s: Seq<Candidate>,
    mark_popularity: bool,
    mark_temporal: bool,
    prop: spec_fn(Candidate) -> bool,
)
    requires
        forall|k: u32| #[trigger] m.contains_key(k) ==> prop(m[k]),
        forall|i: int| 0 <= i < s.len() ==> prop(#[trigger] s[i]),
        forall|e: Candidate, c: Candidate|
            prop(e) && #[trigger] prop(c) ==> prop(
                #[trigger] spec_blend(e, c, mark_popularity, mark_temporal),
            ),
    ensures
        forall|k: u32|
            #[trigger] fold_average(m, s, mark_popularity, mark_temporal).contains_key(k) ==> prop(
                fold_average(m, s, mark_popularity, mark_temporal)[k],
            ),
    decreases s.len(),
{
    if s.len() > 0 {
        assert(forall|i: int| 0 <= i < s.len() - 1 ==> prop(#[trigger] s.drop_last()[i]));
        lemma_fold_average_preserves(m, s.drop_last(), mark_popularity, mark_temporal, prop);
        assert(prop(s.last()));
        let prev = fold_average(m, s.drop_last(), mark_popularity, mark_temporal);
        let whole = fold_average(m, s, mark_popularity, mark_temporal);
        assert forall|k: u32| #[trigger] whole.contains_key(k) implies prop(whole[k]) by {
            if k == s.last().movie_id {
                if prev.contains_key(k) {
                    assert(prop(prev[k]));
                    assert(prop(spec_blend(prev[k], s.last(), mark_popularity, mark_temporal)));
                }
            } else {
                assert(prev.contains_key(k));
                assert(prop(prev[k]));
            }
        }
    }
}

/// Every entry of the three strategies' folded store is a marked,
/// unwatched, quality discovery candidate.
proof fn lemma_phoenix_fold_props(
    idx: DataIndex,
    ctx: UserContext,
    ma: u64,
    mc: u32,
    gcv: Seq<Candidate>,
    pcv: Seq<Candidate>,
    tcv: Seq<Candidate>,
    has_era: bool,
    limit2: int,
    limit3: int,
)
    requires
        genre_result_ok(idx, ctx, ma, mc, limit2, gcv),
        popularity_result_ok(idx, ctx, ma, mc, limit3, pcv),
        temporal_result_ok(idx, ctx, ma, mc, limit3, tcv),
    ensures
        forall|k: u32|
            #[trigger] spec_phoenix_fold(gcv, pcv, tcv, has_era).contains_key(k) ==> phoenix_prop(
                idx,
                ctx,
                ma,
                mc,
            )(spec_phoenix_fold(gcv, pcv, tcv, has_era)[k]),
{
    let prop = phoenix_prop(idx, ctx, ma, mc);
    assert forall|e: Candidate, c2: Candidate|
        prop(e) && #[trigger] prop(c2) implies prop(#[trigger] spec_blend(e, c2, true, false)) by {}
    assert forall|e: Candidate, c2: Candidate|
        prop(e) && #[trigger] prop(c2) implies prop(#[trigger] spec_blend(e, c2, false, true)) by {}
    assert(forall|i: int| 0 <= i < gcv.len() ==> prop(#[trigger] gcv[i]));
    assert(forall|i: int| 0 <= i < pcv.len() ==> prop(#[trigger] pcv[i]));
    assert(forall|i: int| 0 <= i < tcv.len() ==> prop(#[trigger] tcv[i]));
    let m1 = fold_replace(Map::empty(), gcv);
    let m2 = fold_average(m1, pcv, true, false);
    lemma_fold_replace_preserves(Map::empty(), gcv, prop);
    lemma_fold_average_preserves(m1, pcv, true, false, prop);
    if has_era {
        lemma_fold_average_preserves(m2, tcv, false, true, prop);
    }
}

/// Sorting and cutting a mirror of the folded store keeps it a mirror,
/// and its entries keep the store's properties.
proof fn lemma_phoenix_assemble(
    m_final: Map<u32, Candidate>,
    prop: spec_fn(Candidate) -> bool,
    acc_view: Seq<Candidate>,
    sorted_full: Seq<Candidate>,
    svw: Seq<Candidate>,
    limit: int,
)
    requires
        acc_mirrors(acc_view, m_final),
        forall|k: u32| #[trigger] m_final.contains_key(k) ==> prop(m_final[k]),
        acc_view.to_multiset() == sorted_full.to_multiset(),
        sorted_desc_scores(sorted_full),
        svw.len() <= sorted_full.len(),
        svw == sorted_full.take(svw.len() as int),
        svw.len() <= limit,
        sorted_full.len() > limit ==> svw.len() == limit,
        sorted_full.len() <= limit ==> svw.len() == sorted_full.len(),
    ensures
        phoenix_mirrors_fold(m_final, limit, svw),
        forall|i: int| 0 <= i < svw.len() ==> prop(#[trigger] svw[i]),
{
    lemma_elements_carry(
        acc_view,
        sorted_full,
        |c: Candidate| m_final.contains_key(c.movie_id) && c == m_final[c.movie_id],
    );
    lemma_permutation_keeps_distinct_keys(acc_view, sorted_full, |c: Candidate| c.movie_id);
    lemma_permutation_keeps_movies(acc_view, sorted_full);
    assert forall|i: int|
        0 <= i < svw.len() implies m_final.contains_key((#[trigger] svw[i]).movie_id) && svw[i]
        == m_final[svw[i].movie_id] && prop(svw[i]) by {
        assert(svw[i] == sorted_full[i]);
    }
    assert forall|k: u32|
        #[trigger] m_final.contains_key(k) implies spec_has_movie(svw, k) || svw.len()
        == limit by {
        assert(spec_has_movie(acc_view, k)) by {
            let i0 = choose|i0: int|
                0 <= i0 < acc_view.len() && (#[trigger] acc_view[i0]).movie_id == k;
        }
        assert(spec_has_movie(sorted_full, k));
        if sorted_full.len() <= limit {
            let i0 = choose|i0: int|
                0 <= i0 < sorted_full.len() && (#[trigger] sorted_full[i0]).movie_id == k;
            assert(svw[i0].movie_id == k);
        }
    }
}

/// Folds one candidate into the mirror list, replacing any earlier entry
/// for its movie.
fn fold_set(acc: &mut Vec<Candidate>, c: Candidate, m: Ghost<Map<u32, Candidate>>)
    requires
        acc_mirrors(old(acc)@, m@),
    ensures
        acc_mirrors(final(acc)@, m@.insert(c.movie_id, c)),
{
    let ghost m_after = m@.insert(c.movie_id, c);
    match find_candidate(acc, c.movie_id) {
        Some(j) => {
            let _ = acc.remove(j);
            acc.insert(j, c);
            proof {
                assert forall|k: u32| #[trigger] m_after.contains_key(k) implies exists|i: int|
                    0 <= i < acc@.len() && (#[trigger] acc@[i]).movie_id == k by {
                    if k == c.movie_id {
                        assert(acc@[j as int].movie_id == k);
                    } else {
                        let i0 = choose|i0: int|
                            0 <= i0 < old(acc)@.len() && (#[trigger] old(acc)@[i0]).movie_id == k;
                        assert(acc@[i0].movie_id == k);
                    }
                }
            }
        },
        None => {
            proof {
                if m@.contains_key(c.movie_id) {
                    let i0 = choose|i0: int|
                        0 <= i0 < old(acc)@.len() && (#[trigger] old(acc)@[i0]).movie_id
                            == c.movie_id;
                    assert(false);
                }
            }
            acc.push(c);
            proof {
                assert forall|k: u32| #[trigger] m_after.contains_key(k) implies exists|i: int|
                    0 <= i < acc@.len() && (#[trigger] acc@[i]).movie_id == k by {
                    if k == c.movie_id {
                        assert(acc@[acc@.len() - 1].movie_id == k);
                    } else {
                        let i0 = choose|i0: int|
                            0 <= i0 < old(acc)@.len() && (#[trigger] old(acc)@[i0]).movie_id == k;
                        assert(acc@[i0].movie_id == k);
                    }
                }
            }
        },
    }
}

/// Folds one candidate into the mirror list, blending with any earlier
/// entry for its movie.
fn fold_blend(
    acc: &mut Vec<Candidate>,
    c: Candidate,
    mark_popularity: bool,
    mark_temporal: bool,
    m: Ghost<Map<u32, Candidate>>,
)
    requires
        acc_mirrors(old(acc)@, m@),
    ensures
        acc_mirrors(
            final(acc)@,
            if m@.contains_key(c.movie_id) {
                m@.insert(c.movie_id, spec_blend(m@[c.movie_id], c, mark_popularity, mark_temporal))
            } else {
                m@.insert(c.movie_id, c)
            },
        ),
{
    match find_candidate(acc, c.movie_id) {
        Some(j) => {
            proof {
                assert(m@.contains_key(c.movie_id));
            }
            let ghost m_after = m@.insert(
                c.movie_id,
                spec_blend(m@[c.movie_id], c, mark_popularity, mark_temporal),
            );
            let mut e = acc.remove(j);
            proof {
                assert(e == m@[c.movie_id]);
                assert(e.base_score / 2 + c.base_score / 2 + (e.base_score % 2 + c.base_score % 2)
                    / 2 == (e.base_score + c.base_score) / 2);
            }
            e.base_score = e.base_score / 2 + c.base_score / 2 + (e.base_score % 2 + c.base_score
                % 2) / 2;
            if mark_popularity {
                e.metadata.from_popularity = true;
            }
            if mark_temporal {
                e.metadata.from_temporal = true;
            }
            proof {
                assert(e == spec_blend(m@[c.movie_id], c, mark_popularity, mark_temporal));
            }
            acc.insert(j, e);
            proof {
                assert forall|k: u32| #[trigger] m_after.contains_key(k) implies exists|i: int|
                    0 <= i < acc@.len() && (#[trigger] acc@[i]).movie_id == k by {
                    if k == c.movie_id {
                        assert(acc@[j as int].movie_id == k);
                    } else {
                        let i0 = choose|i0: int|
                            0 <= i0 < old(acc)@.len() && (#[trigger] old(acc)@[i0]).movie_id == k;
                        assert(acc@[i0].movie_id == k);
                    }
                }
            }
        },
        None => {
            proof {
                if m@.contains_key(c.movie_id) {
                    let i0 = choose|i0: int|
                        0 <= i0 < old(acc)@.len() && (#[trigger] old(acc)@[i0]).movie_id
                            == c.movie_id;
                    assert(false);
                }
            }
            let ghost m_after = m@.insert(c.movie_id, c);
            acc.push(c);
            proof {
                assert forall|k: u32| #[trigger] m_after.contains_key(k) implies exists|i: int|
                    0 <= i < acc@.len() && (#[trigger] acc@[i]).movie_id == k by {
                    if k == c.movie_id {
                        assert(acc@[acc@.len() - 1].movie_id == k);
                    } else {
                        let i0 = choose|i0: int|
                            0 <= i0 < old(acc)@.len() && (#[trigger] old(acc)@[i0]).movie_id == k;
                        assert(acc@[i0].movie_id == k);
                    }
                }
            }
        },
    }
}

/// Whether the context carries a preferred era.
fn ctx_has_era(ctx: &UserContext) -> (r: bool)
    ensures
        r == (ctx.preferred_era is Some),
{
    match ctx.preferred_era {
        Some(_) => true,
        None => false,
    }
}

/// The position of a movie in the accumulator, when present.
pub fn find_candidate(acc: &Vec<Candidate>, mid: MovieId) -> (r: Option<usize>)
    ensures
        match r {
            Some(j) => j < acc@.len() && acc@[j as int].movie_id == mid,
            None => forall|j: int| 0 <= j < acc@.len() ==> (#[trigger] acc@[j]).movie_id != mid,
        },
{
    let mut j: usize = 0;
    while j < acc.len()
        invariant
            j <= acc@.len(),
            forall|p: int| 0 <= p < j ==> (#[trigger] acc@[p]).movie_id != mid,
        decreases acc@.len() - j,
    {
        if acc[j].movie_id == mid {
            return Some(j);
        }
        j = j + 1;
    }
    None
}

} // verus!
