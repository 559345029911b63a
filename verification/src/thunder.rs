//! The collaborative candidate source: find users whose high ratings
//! overlap the target user's, then propose what those neighbors liked.

use vstd::prelude::*;
use std::sync::Arc;
use crate::types::{Rating, MovieId, UserId};
use crate::index::DataIndex;
use crate::user_context::UserContext;
use crate::candidate::{Candidate, CandidateSource, sorted_desc_scores, spec_has_movie};
use crate::tally::CountTable;
use crate::sort::{sort_pairs_desc, sort_candidates_desc, lemma_permutation_keeps_distinct_keys};

verus! {

broadcast use vstd::std_specs::hash::group_hash_axioms;

/// An integer clamped into `u64`.
pub open spec fn cap64(x: int) -> int {
    if x > u64::MAX {
        u64::MAX as int
    } else {
        x
    }
}

/// The provisional score a like-count yields: a thousand per liking
/// entry, clamped into `u64`.
pub open spec fn spec_thunder_base(score: int) -> int {
    cap64(cap64(score) * 1000)
}

/// The like-count stored in a candidate's metadata, clamped into `u32`.
pub open spec fn spec_count_u32(score: int) -> u32 {
    if cap64(score) >= u32::MAX {
        u32::MAX
    } else {
        cap64(score) as u32
    }
}

/// How many entries of a movie's rating list are high ratings by `other`,
/// excluding the target user's own entries.
pub open spec fn count_matching(s: Seq<Rating>, target: u32, other: u32, thr: u32) -> int
    decreases s.len(),
{
    if s.len() == 0 {
        0
    } else {
        count_matching(s.drop_last(), target, other, thr) + if s.last().user_id == other && other
            != target && s.last().rating >= thr {
            1int
        } else {
            0
        }
    }
}

/// How many high ratings `other` shares with the target across the
/// target's highly-rated movies.
pub open spec fn spec_shared_count(
    idx: DataIndex,
    highly: Seq<u32>,
    target: u32,
    other: u32,
    thr: u32,
) -> int
    decreases highly.len(),
{
    if highly.len() == 0 {
        0
    } else {
        spec_shared_count(idx, highly.drop_last(), target, other, thr) + count_matching(
            idx.movie_ratings_of(highly.last()),
            target,
            other,
            thr,
        )
    }
}

/// How many entries of a user's rating list are high ratings of movie
/// `m`.
pub open spec fn count_likes_in(s: Seq<Rating>, m: u32, thr: u32) -> int
    decreases s.len(),
{
    if s.len() == 0 {
        0
    } else {
        count_likes_in(s.drop_last(), m, thr) + if s.last().movie_id == m && s.last().rating
            >= thr {
            1int
        } else {
            0
        }
    }
}

/// How many of the given neighbors' rating entries are high ratings of
/// movie `m`.
pub open spec fn spec_movie_score(idx: DataIndex, similar: Seq<u32>, m: u32, thr: u32) -> int
    decreases similar.len(),
{
    if similar.len() == 0 {
        0
    } else {
        spec_movie_score(idx, similar.drop_last(), m, thr) + count_likes_in(
            idx.user_ratings_of(similar.last()),
            m,
            thr,
        )
    }
}

/// A user similar enough to the target: not the target, and sharing at
/// least `min_shared` high ratings with them.
pub open spec fn spec_qualifies(
    idx: DataIndex,
    ctx: UserContext,
    thr: u32,
    min_shared: u32,
    u: u32,
) -> bool {
    u != ctx.user_id && spec_shared_count(idx, ctx.highly_rated_movies@, ctx.user_id, u, thr)
        >= min_shared
}

/// The collaborative answer a neighbor list yields: at most `limit`
/// distinct, unwatched movies, sorted by score, best first; each carries a
/// thousand times its neighbor like-count as score and that count in its
/// metadata; and, when the answer is shorter than `limit`, every unwatched
/// movie some neighbor likes appears.
pub open spec fn thunder_candidates_from(
    idx: DataIndex,
    ctx: UserContext,
    thr: u32,
    min_shared: u32,
    limit: int,
    sims: Seq<u32>,
    r: Seq<Candidate>,
) -> bool {
    &&& spec_neighbors_ok(idx, ctx, thr, min_shared, sims)
    &&& r.len() <= limit
    &&& sorted_desc_scores(r)
    &&& forall|i: int, j: int|
        0 <= i < j < r.len() ==> (#[trigger] r[i]).movie_id != (#[trigger] r[j]).movie_id
    &&& forall|i: int|
        0 <= i < r.len() ==> {
            let c = #[trigger] r[i];
            &&& c.source == CandidateSource::Thunder
            &&& !ctx.watched_movies@.contains(c.movie_id)
            &&& spec_movie_score(idx, sims, c.movie_id, thr) >= 1
            &&& c.base_score == spec_thunder_base(spec_movie_score(idx, sims, c.movie_id, thr))
            &&& c.metadata.similar_users_count == Some(
                spec_count_u32(spec_movie_score(idx, sims, c.movie_id, thr)),
            )
        }
    &&& r.len() < limit ==> forall|m: u32|
        !ctx.watched_movies@.contains(m) && #[trigger] spec_movie_score(idx, sims, m, thr) > 0
            ==> spec_has_movie(r, m)
}

/// The collaborative answer comes from some well-formed neighbor list.
pub open spec fn thunder_output_ok(
    idx: DataIndex,
    ctx: UserContext,
    thr: u32,
    min_shared: u32,
    limit: int,
    r: Seq<Candidate>,
) -> bool {
    exists|sims: Seq<u32>|
        #[trigger] thunder_candidates_from(idx, ctx, thr, min_shared, limit, sims, r)
}

/// Whether some qualifying neighbor has a high rating entry for the
/// movie.
pub open spec fn liked_by_a_neighbor(
    idx: DataIndex,
    ctx: UserContext,
    thr: u32,
    min_shared: u32,
    m: u32,
) -> bool {
    exists|u: u32|
        spec_qualifies(idx, ctx, thr, min_shared, u) && count_likes_in(
            idx.user_ratings_of(u),
            m,
            thr,
        ) > 0
}

/// The most neighbors kept for candidate generation.
pub const NEIGHBOR_LIMIT: usize = 500;

/// A well-formed neighbor list for a target user: at most five hundred
/// distinct users, every one of them qualifying, ordered by their shared
/// count (clamped at the top of `u64`), best first; every qualifying user
/// left out implies the list is full, and anyone left out shares at most
/// as much as everyone kept.
pub open spec fn spec_neighbors_ok(
    idx: DataIndex,
    ctx: UserContext,
    thr: u32,
    min_shared: u32,
    sims: Seq<u32>,
) -> bool {
    &&& sims.len() <= NEIGHBOR_LIMIT
    &&& forall|i: int|
        0 <= i < sims.len() ==> spec_qualifies(idx, ctx, thr, min_shared, #[trigger] sims[i])
    &&& forall|i: int, j: int| 0 <= i < j < sims.len() ==> sims[i] != sims[j]
    &&& forall|i: int, j: int|
        0 <= i < j < sims.len() ==> cap64(
            spec_shared_count(idx, ctx.highly_rated_movies@, ctx.user_id, sims[i], thr),
        ) >= cap64(spec_shared_count(idx, ctx.highly_rated_movies@, ctx.user_id, sims[j], thr))
    &&& forall|u: u32|
        min_shared >= 1 && spec_qualifies(idx, ctx, thr, min_shared, u) && !sims.contains(u)
            ==> sims.len() == NEIGHBOR_LIMIT
    &&& forall|u: u32, i: int|
        #![trigger spec_qualifies(idx, ctx, thr, min_shared, u), sims[i]]
        spec_qualifies(idx, ctx, thr, min_shared, u) && !sims.contains(u) && 0 <= i < sims.len()
            ==> cap64(
            spec_shared_count(idx, ctx.highly_rated_movies@, ctx.user_id, sims[i], thr),
        ) >= cap64(spec_shared_count(idx, ctx.highly_rated_movies@, ctx.user_id, u, thr))
}

/// The collaborative candidate source.
pub struct ThunderSource {
    pub data_index: Arc<DataIndex>,
    /// Rating threshold (tenths) above which a rating counts as liking.
    pub high_rating_threshold: u32,
    /// Smallest shared-movie count that makes a user a neighbor.
    pub min_shared_movies: u32,
}

impl ThunderSource {
    /// The shared index.
    pub open spec fn index(&self) -> DataIndex {
        *self.data_index
    }

    /// The configured high-rating threshold, in tenths.
    pub open spec fn threshold(&self) -> u32 {
        self.high_rating_threshold
    }

    /// The configured minimum shared-movie count.
    pub open spec fn min_shared(&self) -> u32 {
        self.min_shared_movies
    }

    /// A source over the shared index with the default thresholds of 4.0
    /// stars and three shared movies.
    pub fn new(data_index: Arc<DataIndex>) -> (r: Self)
        ensures
            r.index() == *data_index,
            r.threshold() == 40,
            r.min_shared() == 3,
    {
        ThunderSource { data_index, high_rating_threshold: 40, min_shared_movies: 3 }
    }

    /// The same source with another high-rating threshold, in tenths.
    pub fn with_high_rating_threshold(self, threshold: u32) -> (r: Self)
        ensures
            r.index() == self.index(),
            r.threshold() == threshold,
            r.min_shared() == self.min_shared(),
    {
        ThunderSource { high_rating_threshold: threshold, ..self }
    }

    /// The same source with another minimum shared-movie count.
    pub fn with_min_shared_movies(self, min: u32) -> (r: Self)
        ensures
            r.index() == self.index(),
            r.threshold() == self.threshold(),
            r.min_shared() == min,
    {
        ThunderSource { min_shared_movies: min, ..self }
    }

    /// Finds the target user's neighbors: every user sharing at least the
    /// configured number of highly-rated movies, the best-matching five
    /// hundred of them when more qualify.
    pub fn find_similar_users(&self, ctx: &UserContext) -> (r: Vec<UserId>)
        requires
            self.index().wf(),
        ensures
            r@.len() <= NEIGHBOR_LIMIT,
            forall|i: int|
                0 <= i < r@.len() ==> spec_qualifies(
                    self.index(),
                    *ctx,
                    self.threshold(),
                    self.min_shared(),
                    #[trigger] r@[i],
                ),
            forall|u: u32|
                self.min_shared() >= 1 && spec_qualifies(
                    self.index(),
                    *ctx,
                    self.threshold(),
                    self.min_shared(),
                    u,
                ) && !r@.contains(u) ==> r@.len() == NEIGHBOR_LIMIT,
            spec_neighbors_ok(self.index(), *ctx, self.threshold(), self.min_shared(), r@),
            ctx.highly_rated_movies@.len() == 0 ==> r@.len() == 0,
    {
        broadcast use vstd::seq_lib::group_to_multiset_ensures;

        let ghost idx = self.index();
        let ghost highly = ctx.highly_rated_movies@;
        let ghost target = ctx.user_id;
        let ghost thr = self.high_rating_threshold;
        let mut tally = CountTable::new();
        let mut i: usize = 0;
        proof {
            assert forall|u: u32| #[trigger] tally.count_of(u) == cap64(
                spec_shared_count(idx, highly.take(0), target, u, thr),
            ) by {
                assert(highly.take(0) =~= Seq::<u32>::empty());
            }
        }
        while i < ctx.highly_rated_movies.len()
            invariant
                self.index().wf(),
                idx == self.index(),
                highly == ctx.highly_rated_movies@,
                target == ctx.user_id,
                thr == self.high_rating_threshold,
                i <= highly.len(),
                tally.wf(),
                forall|u: u32|
                    #[trigger] tally.count_of(u) == cap64(
                        spec_shared_count(idx, highly.take(i as int), target, u, thr),
                    ),
                forall|u: u32|
                    #[trigger] tally.has_key(u) <==> spec_shared_count(
                        idx,
                        highly.take(i as int),
                        target,
                        u,
                        thr,
                    ) > 0,
            decreases highly.len() - i,
        {
            let mid = ctx.highly_rated_movies[i];
            let ratings = self.data_index.get_movie_ratings(mid);
            let ghost rl = ratings@;
            let mut j: usize = 0;
            proof {
                assert(highly.take(i + 1 as int).drop_last() =~= highly.take(i as int));
                assert(highly.take(i + 1 as int).last() == highly[i as int]);
                assert forall|u: u32| #[trigger] tally.count_of(u) == cap64(
                    spec_shared_count(idx, highly.take(i as int), target, u, thr)
                        + count_matching(rl.take(0), target, u, thr),
                ) by {
                    assert(rl.take(0) =~= Seq::<Rating>::empty());
                }
            }
            while j < ratings.len()
                invariant
                    self.index().wf(),
                    idx == self.index(),
                    highly == ctx.highly_rated_movies@,
                    target == ctx.user_id,
                    thr == self.high_rating_threshold,
                    i < highly.len(),
                    j <= rl.len(),
                    ratings@ == rl,
                    rl == idx.movie_ratings_of(highly[i as int]),
                    tally.wf(),
                    forall|u: u32|
                        #[trigger] tally.count_of(u) == cap64(
                            spec_shared_count(idx, highly.take(i as int), target, u, thr)
                                + count_matching(rl.take(j as int), target, u, thr),
                        ),
                    forall|u: u32|
                        #[trigger] tally.has_key(u) <==> spec_shared_count(
                            idx,
                            highly.take(i as int),
                            target,
                            u,
                            thr,
                        ) + count_matching(rl.take(j as int), target, u, thr) > 0,
                decreases rl.len() - j,
            {
                let r = ratings[j];
                proof {
                    assert(rl.take(j + 1 as int).drop_last() =~= rl.take(j as int));
                    assert(rl.take(j + 1 as int).last() == rl[j as int]);
                    lemma_count_matching_nonneg(rl.take(j as int), target, thr);
                    lemma_shared_nonneg(idx, highly.take(i as int), target, thr);
                }
                if r.user_id != ctx.user_id && r.rating >= self.high_rating_threshold {
                    tally.add_one(r.user_id);
                }
                j = j + 1;
            }
            proof {
                assert(rl.take(rl.len() as int) =~= rl);
                assert forall|u: u32| #[trigger] tally.count_of(u) == cap64(
                    spec_shared_count(idx, highly.take(i + 1 as int), target, u, thr),
                ) by {
                    assert(spec_shared_count(idx, highly.take(i + 1 as int), target, u, thr)
                        == spec_shared_count(idx, highly.take(i as int), target, u, thr)
                        + count_matching(idx.movie_ratings_of(highly[i as int]), target, u, thr));
                }
                assert forall|u: u32| #[trigger] tally.has_key(u) <==> spec_shared_count(
                    idx,
                    highly.take(i + 1 as int),
                    target,
                    u,
                    thr,
                ) > 0 by {
                    assert(spec_shared_count(idx, highly.take(i + 1 as int), target, u, thr)
                        == spec_shared_count(idx, highly.take(i as int), target, u, thr)
                        + count_matching(idx.movie_ratings_of(highly[i as int]), target, u, thr));
                }
            }
            i = i + 1;
        }
        proof {
            assert(highly.take(highly.len() as int) =~= highly);
            tally.lemma_key_facts();
            assert forall|u: u32| #[trigger] tally.has_key(u) implies u != target by {
                if u == target {
                    lemma_shared_self(idx, highly, target, thr);
                }
            }
        }
        let mut pairs: Vec<(u32, u64)> = Vec::new();
        let mut k: usize = 0;
        let n = tally.len();
        while k < n
            invariant
                tally.wf(),
                idx == self.index(),
                highly == ctx.highly_rated_movies@,
                target == ctx.user_id,
                thr == self.high_rating_threshold,
                n == tally.key_list().len(),
                k <= n,
                forall|u: u32|
                    #[trigger] tally.count_of(u) == cap64(
                        spec_shared_count(idx, highly, target, u, thr),
                    ),
                forall|u: u32|
                    #[trigger] tally.has_key(u) <==> spec_shared_count(idx, highly, target, u, thr)
                        > 0,
                forall|u: u32| #[trigger] tally.has_key(u) ==> u != target,
                pairs@.len() <= k,
                forall|p: int|
                    0 <= p < pairs@.len() ==> spec_qualifies(
                        idx,
                        *ctx,
                        thr,
                        self.min_shared(),
                        (#[trigger] pairs@[p]).0,
                    ),
                forall|p1: int, p2: int|
                    0 <= p1 < p2 < pairs@.len() ==> (#[trigger] pairs@[p1]).0 != (
                    #[trigger] pairs@[p2]).0,
                forall|p: int|
                    0 <= p < pairs@.len() ==> tally.key_list().take(k as int).contains(
                        (#[trigger] pairs@[p]).0,
                    ),
                forall|p: int|
                    0 <= p < pairs@.len() ==> (#[trigger] pairs@[p]).1 == cap64(
                        spec_shared_count(idx, highly, target, pairs@[p].0, thr),
                    ),
                forall|u: u32|
                    spec_qualifies(idx, *ctx, thr, self.min_shared(), u) && tally.key_list().take(
                        k as int,
                    ).contains(u) ==> exists|p: int|
                        0 <= p < pairs@.len() && (#[trigger] pairs@[p]).0 == u,
            decreases n - k,
        {
            let e = tally.entry(k);
            let ghost pairs_before = pairs@;
            proof {
                lemma_shared_nonneg(idx, highly, target, thr);
                tally.lemma_key_facts();
                assert(tally.has_key(e.0));
                assert(tally.count_of(e.0) == cap64(
                    spec_shared_count(idx, highly, target, e.0, thr),
                ));
            }
            if e.1 >= self.min_shared_movies as u64 {
                pairs.push((e.0, e.1));
            }
            proof {
                assert forall|p1: int, p2: int|
                    0 <= p1 < p2 < pairs@.len() implies (#[trigger] pairs@[p1]).0 != (
                #[trigger] pairs@[p2]).0 by {
                    if p2 == pairs@.len() - 1 && pairs@.len() > pairs_before.len() {
                        if pairs@[p1].0 == e.0 {
                            assert(tally.key_list().take(k as int).contains(pairs_before[p1].0));
                            let q0 = choose|q0: int|
                                0 <= q0 < k && #[trigger] tally.key_list().take(k as int)[q0]
                                    == pairs_before[p1].0;
                            assert(tally.key_list()[q0] == tally.key_list()[k as int]);
                        }
                    }
                }
                assert forall|p: int|
                    0 <= p < pairs@.len() implies tally.key_list().take(k + 1 as int).contains(
                    (#[trigger] pairs@[p]).0,
                ) by {
                    if p < pairs_before.len() {
                        let q0 = choose|q0: int|
                            0 <= q0 < k && #[trigger] tally.key_list().take(k as int)[q0]
                                == pairs_before[p].0;
                        assert(tally.key_list().take(k + 1 as int)[q0] == pairs@[p].0);
                    } else {
                        assert(tally.key_list().take(k + 1 as int)[k as int] == e.0);
                    }
                }
                assert forall|u: u32|
                    spec_qualifies(idx, *ctx, thr, self.min_shared(), u) && tally.key_list().take(
                        k + 1 as int,
                    ).contains(u) implies exists|p: int|
                    0 <= p < pairs@.len() && (#[trigger] pairs@[p]).0 == u by {
                    let q = choose|q: int|
                        0 <= q < k + 1 && #[trigger] tally.key_list().take(k + 1 as int)[q] == u;
                    if q < k {
                        assert(tally.key_list().take(k as int)[q] == u);
                        assert(tally.key_list().take(k as int).contains(u));
                        let p0 = choose|p0: int|
                            0 <= p0 < pairs_before.len() && (#[trigger] pairs_before[p0]).0 == u;
                        assert(pairs@[p0].0 == u);
                    } else {
                        assert(tally.key_list()[k as int] == u);
                        assert(tally.has_key(u));
                        assert(tally.count_of(u) == cap64(
                            spec_shared_count(idx, highly, target, u, thr),
                        ));
                        assert(tally.count_of(u) >= self.min_shared());
                        assert(e.1 >= self.min_shared_movies as u64);
                        assert(pairs@[pairs@.len() - 1].0 == u);
                    }
                }
            }
            k = k + 1;
        }
        proof {
            assert(tally.key_list().take(n as int) =~= tally.key_list());
        }
        let ghost pairs_view = pairs@;
        let sorted = sort_pairs_desc(pairs);
        let ghost sorted_full = sorted@;
        let mut sorted = sorted;
        if sorted.len() > NEIGHBOR_LIMIT {
            sorted.truncate(NEIGHBOR_LIMIT);
        }
        proof {
            lemma_permutation_keeps_distinct_keys(pairs_view, sorted_full, |p: (u32, u64)| p.0);
            crate::sort::lemma_elements_carry(
                pairs_view,
                sorted_full,
                |p: (u32, u64)|
                    spec_qualifies(idx, *ctx, thr, self.min_shared(), p.0) && p.1 == cap64(
                        spec_shared_count(idx, highly, target, p.0, thr),
                    ),
            );
            assert(sorted@ =~= sorted_full.take(sorted@.len() as int));
        }
        let mut out: Vec<u32> = Vec::new();
        let mut q: usize = 0;
        while q < sorted.len()
            invariant
                q <= sorted@.len(),
                out@.len() == q,
                idx == self.index(),
                highly == ctx.highly_rated_movies@,
                target == ctx.user_id,
                thr == self.high_rating_threshold,
                forall|p: int| 0 <= p < q ==> #[trigger] out@[p] == sorted@[p].0,
                forall|p: int|
                    0 <= p < sorted@.len() ==> spec_qualifies(
                        idx,
                        *ctx,
                        thr,
                        self.min_shared(),
                        (#[trigger] sorted@[p]).0,
                    ) && (#[trigger] sorted@[p]).1 == cap64(
                        spec_shared_count(idx, highly, target, sorted@[p].0, thr),
                    ),
            decreases sorted@.len() - q,
        {
            out.push(sorted[q].0);
            q = q + 1;
        }
        proof {
            if highly.len() == 0 {
                assert forall|u: u32| !(#[trigger] tally.has_key(u)) by {
                    assert(spec_shared_count(idx, highly, target, u, thr) == 0);
                }
                assert(tally.key_list().len() == 0) by {
                    tally.lemma_key_facts();
                    if tally.key_list().len() > 0 {
                        assert(tally.has_key(tally.key_list()[0]));
                    }
                }
            }
            assert forall|u: u32|
                self.min_shared() >= 1 && spec_qualifies(
                    idx,
                    *ctx,
                    thr,
                    self.min_shared(),
                    u,
                ) && !out@.contains(u) implies out@.len() == NEIGHBOR_LIMIT by {
                assert(spec_shared_count(idx, highly, target, u, thr) >= 1);
                assert(tally.has_key(u));
                tally.lemma_key_facts();
                assert(tally.key_list().contains(u));
                let p = choose|p: int| 0 <= p < pairs@.len() && (#[trigger] pairs@[p]).0 == u;
                assert(sorted_full.to_multiset().count(pairs@[p]) > 0);
                assert(sorted_full.contains(pairs@[p]));
                if sorted_full.len() <= NEIGHBOR_LIMIT {
                    let w = choose|w: int|
                        0 <= w < sorted_full.len() && #[trigger] sorted_full[w] == pairs@[p];
                    assert(sorted@[w] == pairs@[p]);
                    assert(out@[w] == u);
                    assert(false);
                }
            }
            assert forall|i: int, j: int| 0 <= i < j < out@.len() implies out@[i] != out@[j] by {
                assert(out@[i] == sorted@[i].0);
                assert(out@[j] == sorted@[j].0);
                assert(sorted_full[i].0 != sorted_full[j].0);
            }
            assert forall|i: int, j: int|
                0 <= i < j < out@.len() implies cap64(
                spec_shared_count(idx, highly, target, out@[i], thr),
            ) >= cap64(spec_shared_count(idx, highly, target, out@[j], thr)) by {
                assert(sorted@[i].1 >= sorted@[j].1);
            }
            assert forall|u: u32, i: int|
                #![trigger spec_qualifies(idx, *ctx, thr, self.min_shared(), u), out@[i]]
                spec_qualifies(idx, *ctx, thr, self.min_shared(), u) && !out@.contains(u) && 0 <= i
                    < out@.len() implies cap64(
                spec_shared_count(idx, highly, target, out@[i], thr),
            ) >= cap64(spec_shared_count(idx, highly, target, u, thr)) by {
                lemma_shared_nonneg(idx, highly, target, thr);
                if spec_shared_count(idx, highly, target, u, thr) >= 1 {
                    assert(tally.has_key(u));
                    tally.lemma_key_facts();
                    assert(tally.key_list().contains(u));
                    let p = choose|p: int|
                        0 <= p < pairs_view.len() && (#[trigger] pairs_view[p]).0 == u;
                    assert(pairs_view[p].1 == cap64(
                        spec_shared_count(idx, highly, target, u, thr),
                    ));
                    assert(sorted_full.to_multiset().count(pairs_view[p]) > 0);
                    assert(sorted_full.contains(pairs_view[p]));
                    let w = choose|w: int|
                        0 <= w < sorted_full.len() && #[trigger] sorted_full[w] == pairs_view[p];
                    if w < sorted@.len() {
                        assert(sorted@[w] == pairs_view[p]);
                        assert(out@[w] == u);
                        assert(false);
                    }
                    assert(sorted_full[i as int].1 >= sorted_full[w].1);
                    assert(sorted@[i] == sorted_full[i as int]);
                }
            }
            assert(spec_neighbors_ok(idx, *ctx, thr, self.min_shared(), out@));
        }
        out
    }

    /// Tallies, per unwatched movie, how many rating entries of the given
    /// neighbors like it.
    pub fn get_candidate_scores(&self, similar_users: &Vec<UserId>, ctx: &UserContext) -> (r: Vec<
        (MovieId, u64),
    >)
        requires
            self.index().wf(),
        ensures
            forall|p: int|
                0 <= p < r@.len() ==> !ctx.watched_movies@.contains((#[trigger] r@[p]).0),
            forall|p: int|
                0 <= p < r@.len() ==> (#[trigger] r@[p]).1 == cap64(
                    spec_movie_score(self.index(), similar_users@, r@[p].0, self.threshold()),
                ),
            forall|p: int| 0 <= p < r@.len() ==> (#[trigger] r@[p]).1 >= 1,
            forall|p1: int, p2: int|
                0 <= p1 < p2 < r@.len() ==> (#[trigger] r@[p1]).0 != (#[trigger] r@[p2]).0,
            forall|m: u32|
                spec_movie_score(self.index(), similar_users@, m, self.threshold()) > 0
                    && !ctx.watched_movies@.contains(m) ==> exists|p: int|
                    0 <= p < r@.len() && (#[trigger] r@[p]).0 == m,
            similar_users@.len() == 0 ==> r@.len() == 0,
    {
        let ghost idx = self.index();
        let ghost sim = similar_users@;
        let ghost thr = self.high_rating_threshold;
        let ghost watched = ctx.watched_movies@;
        let mut tally = CountTable::new();
        let mut i: usize = 0;
        proof {
            assert forall|m: u32| #[trigger] tally.count_of(m) == if watched.contains(m) {
                0int
            } else {
                cap64(spec_movie_score(idx, sim.take(0), m, thr))
            } by {
                assert(sim.take(0) =~= Seq::<u32>::empty());
            }
        }
        while i < similar_users.len()
            invariant
                self.index().wf(),
                idx == self.index(),
                sim == similar_users@,
                thr == self.high_rating_threshold,
                watched == ctx.watched_movies@,
                i <= sim.len(),
                tally.wf(),
                forall|m: u32|
                    #[trigger] tally.count_of(m) == if watched.contains(m) {
                        0int
                    } else {
                        cap64(spec_movie_score(idx, sim.take(i as int), m, thr))
                    },
                forall|m: u32|
                    #[trigger] tally.has_key(m) <==> (!watched.contains(m) && spec_movie_score(
                        idx,
                        sim.take(i as int),
                        m,
                        thr,
                    ) > 0),
            decreases sim.len() - i,
        {
            let uid = similar_users[i];
            let ratings = self.data_index.get_user_ratings(uid);
            let ghost rl = ratings@;
            let mut j: usize = 0;
            proof {
                assert(sim.take(i + 1 as int).drop_last() =~= sim.take(i as int));
                assert(sim.take(i + 1 as int).last() == sim[i as int]);
                assert forall|m: u32| #[trigger] tally.count_of(m) == if watched.contains(m) {
                    0int
                } else {
                    cap64(
                        spec_movie_score(idx, sim.take(i as int), m, thr) + count_likes_in(
                            rl.take(0),
                            m,
                            thr,
                        ),
                    )
                } by {
                    assert(rl.take(0) =~= Seq::<Rating>::empty());
                }
            }
            while j < ratings.len()
                invariant
                    self.index().wf(),
                    idx == self.index(),
                    sim == similar_users@,
                    thr == self.high_rating_threshold,
                    watched == ctx.watched_movies@,
                    i < sim.len(),
                    j <= rl.len(),
                    ratings@ == rl,
                    rl == idx.user_ratings_of(sim[i as int]),
                    tally.wf(),
                    forall|m: u32|
                        #[trigger] tally.count_of(m) == if watched.contains(m) {
                            0int
                        } else {
                            cap64(
                                spec_movie_score(idx, sim.take(i as int), m, thr)
                                    + count_likes_in(rl.take(j as int), m, thr),
                            )
                        },
                    forall|m: u32|
                        #[trigger] tally.has_key(m) <==> (!watched.contains(m) && spec_movie_score(
                            idx,
                            sim.take(i as int),
                            m,
                            thr,
                        ) + count_likes_in(rl.take(j as int), m, thr) > 0),
                decreases rl.len() - j,
            {
                let r = ratings[j];
                proof {
                    assert(rl.take(j + 1 as int).drop_last() =~= rl.take(j as int));
                    assert(rl.take(j + 1 as int).last() == rl[j as int]);
                    lemma_count_likes_nonneg(rl.take(j as int), thr);
                    lemma_movie_score_nonneg(idx, sim.take(i as int), thr);
                }
                if r.rating >= self.high_rating_threshold && !ctx.watched_movies.contains(
                    &r.movie_id,
                ) {
                    tally.add_one(r.movie_id);
                }
                j = j + 1;
            }
            proof {
                assert(rl.take(rl.len() as int) =~= rl);
                assert forall|m: u32| #[trigger] tally.count_of(m) == if watched.contains(m) {
                    0int
                } else {
                    cap64(spec_movie_score(idx, sim.take(i + 1 as int), m, thr))
                } by {
                    assert(spec_movie_score(idx, sim.take(i + 1 as int), m, thr)
                        == spec_movie_score(idx, sim.take(i as int), m, thr) + count_likes_in(
                        idx.user_ratings_of(sim[i as int]),
                        m,
                        thr,
                    ));
                }
                assert forall|m: u32| #[trigger] tally.has_key(m) <==> (!watched.contains(m)
                    && spec_movie_score(idx, sim.take(i + 1 as int), m, thr) > 0) by {
                    assert(spec_movie_score(idx, sim.take(i + 1 as int), m, thr)
                        == spec_movie_score(idx, sim.take(i as int), m, thr) + count_likes_in(
                        idx.user_ratings_of(sim[i as int]),
                        m,
                        thr,
                    ));
                }
            }
            i = i + 1;
        }
        proof {
            assert(sim.take(sim.len() as int) =~= sim);
            tally.lemma_key_facts();
        }
        let mut out: Vec<(u32, u64)> = Vec::new();
        let mut k: usize = 0;
        let n = tally.len();
        while k < n
            invariant
                tally.wf(),
                idx == self.index(),
                sim == similar_users@,
                thr == self.high_rating_threshold,
                watched == ctx.watched_movies@,
                n == tally.key_list().len(),
                k <= n,
                out@.len() == k,
                forall|m: u32|
                    #[trigger] tally.count_of(m) == if watched.contains(m) {
                        0int
                    } else {
                        cap64(spec_movie_score(idx, sim, m, thr))
                    },
                forall|m: u32|
                    #[trigger] tally.has_key(m) <==> (!watched.contains(m) && spec_movie_score(
                        idx,
                        sim,
                        m,
                        thr,
                    ) > 0),
                forall|p: int|
                    0 <= p < k ==> #[trigger] out@[p] == (
                    tally.key_list()[p],
                    tally.count_of(tally.key_list()[p]) as u64,
                ),
                forall|p: int| 0 <= p < k ==> !watched.contains((#[trigger] out@[p]).0),
                forall|p: int| 0 <= p < k ==> (#[trigger] out@[p]).1 >= 1,
            decreases n - k,
        {
            let e = tally.entry(k);
            proof {
                tally.lemma_key_facts();
                assert(tally.has_key(tally.key_list()[k as int]));
                lemma_movie_score_nonneg(idx, sim, thr);
            }
            out.push(e);
            k = k + 1;
        }
        proof {
            assert forall|p1: int, p2: int|
                0 <= p1 < p2 < out@.len() implies (#[trigger] out@[p1]).0 != (
            #[trigger] out@[p2]).0 by {
                tally.lemma_key_facts();
                assert(out@[p1].0 == tally.key_list()[p1]);
                assert(out@[p2].0 == tally.key_list()[p2]);
            }
            assert forall|m: u32|
                spec_movie_score(idx, sim, m, thr) > 0 && !watched.contains(m) implies exists|
                p: int,
            |
                0 <= p < out@.len() && (#[trigger] out@[p]).0 == m by {
                assert(tally.has_key(m));
                tally.lemma_key_facts();
                assert(tally.key_list().contains(m));
                let p = choose|p: int|
                    0 <= p < tally.key_list().len() && #[trigger] tally.key_list()[p] == m;
                assert(out@[p].0 == m);
            }
            if sim.len() == 0 {
                assert forall|m: u32| !(#[trigger] tally.has_key(m)) by {
                    assert(spec_movie_score(idx, sim, m, thr) == 0);
                }
                tally.lemma_key_facts();
                if tally.key_list().len() > 0 {
                    assert(tally.has_key(tally.key_list()[0]));
                }
            }
        }
        out
    }

    /// Generates collaborative candidates for a user: movies the user's
    /// neighbors like that the user has not watched, scored by how many
    /// neighbor rating entries like them, best first.
    pub fn get_candidates(&self, user_context: &UserContext, limit: usize) -> (r: Vec<Candidate>)
        requires
            self.index().wf(),
        ensures
            r@.len() <= limit,
            sorted_desc_scores(r@),
            forall|i: int| 0 <= i < r@.len() ==> (#[trigger] r@[i]).source == CandidateSource::Thunder,
            forall|i: int|
                0 <= i < r@.len() ==> !user_context.watched_movies@.contains(
                    (#[trigger] r@[i]).movie_id,
                ),
            forall|i: int|
                0 <= i < r@.len() ==> liked_by_a_neighbor(
                    self.index(),
                    *user_context,
                    self.threshold(),
                    self.min_shared(),
                    (#[trigger] r@[i]).movie_id,
                ),
            forall|i: int, j: int|
                0 <= i < j < r@.len() ==> (#[trigger] r@[i]).movie_id != (
                #[trigger] r@[j]).movie_id,
            thunder_output_ok(
                self.index(),
                *user_context,
                self.threshold(),
                self.min_shared(),
                limit as int,
                r@,
            ),
            user_context.highly_rated_movies@.len() == 0 ==> r@.len() == 0,
    {
        broadcast use vstd::seq_lib::group_to_multiset_ensures;

        let ghost idx = self.index();
        let similar = self.find_similar_users(user_context);
        let scores = self.get_candidate_scores(&similar, user_context);
        let mut candidates: Vec<Candidate> = Vec::new();
        let mut i: usize = 0;
        while i < scores.len()
            invariant
                self.index().wf(),
                idx == self.index(),
                i <= scores@.len(),
                candidates@.len() == i,
                forall|p: int|
                    0 <= p < scores@.len() ==> !user_context.watched_movies@.contains(
                        (#[trigger] scores@[p]).0,
                    ),
                forall|p: int| 0 <= p < scores@.len() ==> (#[trigger] scores@[p]).1 >= 1,
                forall|p: int|
                    0 <= p < scores@.len() ==> (#[trigger] scores@[p]).1 == cap64(
                        spec_movie_score(idx, similar@, scores@[p].0, self.threshold()),
                    ),
                forall|p: int|
                    0 <= p < similar@.len() ==> spec_qualifies(
                        idx,
                        *user_context,
                        self.threshold(),
                        self.min_shared(),
                        #[trigger] similar@[p],
                    ),
                forall|p1: int, p2: int|
                    0 <= p1 < p2 < scores@.len() ==> (#[trigger] scores@[p1]).0 != (
                    #[trigger] scores@[p2]).0,
                forall|p: int|
                    0 <= p < i ==> !user_context.watched_movies@.contains(
                        (#[trigger] candidates@[p]).movie_id,
                    ),
                forall|p: int|
                    0 <= p < i ==> (#[trigger] candidates@[p]).source == CandidateSource::Thunder,
                forall|p: int| 0 <= p < i ==> (#[trigger] candidates@[p]).movie_id == scores@[p].0,
                forall|p: int|
                    0 <= p < i ==> {
                        let c = #[trigger] candidates@[p];
                        &&& spec_movie_score(idx, similar@, c.movie_id, self.threshold()) >= 1
                        &&& c.base_score == spec_thunder_base(
                            spec_movie_score(idx, similar@, c.movie_id, self.threshold()),
                        )
                        &&& c.metadata.similar_users_count == Some(
                            spec_count_u32(
                                spec_movie_score(idx, similar@, c.movie_id, self.threshold()),
                            ),
                        )
                    },
                forall|p: int|
                    0 <= p < i ==> liked_by_a_neighbor(
                        idx,
                        *user_context,
                        self.threshold(),
                        self.min_shared(),
                        (#[trigger] candidates@[p]).movie_id,
                    ),
            decreases scores@.len() - i,
        {
            let (movie_id, cnt) = scores[i];
            let base: u64 = if cnt > 0xffffffffffffffffu64 / 1000 {
                0xffffffffffffffffu64
            } else {
                cnt * 1000
            };
            let mut c = Candidate::new(movie_id, CandidateSource::Thunder, base);
            let similar_count: u32 = if cnt >= 0xffffffffu64 {
                0xffffffffu32
            } else {
                cnt as u32
            };
            c.metadata.similar_users_count = Some(similar_count);
            candidates.push(c);
            proof {
                assert(scores@[i as int].1 >= 1);
                lemma_movie_score_positive_witness(
                    idx,
                    similar@,
                    scores@[i as int].0,
                    self.threshold(),
                );
                let wp = choose|p2: int|
                    0 <= p2 < similar@.len() && count_likes_in(
                        idx.user_ratings_of(#[trigger] similar@[p2]),
                        scores@[i as int].0,
                        self.threshold(),
                    ) > 0;
                assert forall|p: int|
                    0 <= p < i + 1 implies liked_by_a_neighbor(
                    idx,
                    *user_context,
                    self.threshold(),
                    self.min_shared(),
                    (#[trigger] candidates@[p]).movie_id,
                ) by {
                    if p == i {
                        let u0 = similar@[wp];
                        assert(spec_qualifies(
                            idx,
                            *user_context,
                            self.threshold(),
                            self.min_shared(),
                            u0,
                        ) && count_likes_in(
                            idx.user_ratings_of(u0),
                            candidates@[p].movie_id,
                            self.threshold(),
                        ) > 0);
                    }
                }
            }
            i = i + 1;
        }
        let ghost cand_view = candidates@;
        let sorted = sort_candidates_desc(candidates);
        let ghost sorted_full = sorted@;
        let mut sorted = sorted;
        if sorted.len() > limit {
            sorted.truncate(limit);
        }
        proof {
            assert forall|i: int, j: int|
                0 <= i < j < cand_view.len() implies (#[trigger] cand_view[i]).movie_id != (
            #[trigger] cand_view[j]).movie_id by {
                assert(scores@[i].0 != scores@[j].0);
            }
            lemma_permutation_keeps_distinct_keys(
                cand_view,
                sorted_full,
                |c: Candidate| c.movie_id,
            );
            crate::sort::lemma_permutation_keeps_movies(cand_view, sorted_full);
            assert forall|p: int|
                0 <= p < sorted@.len() implies !user_context.watched_movies@.contains(
                (#[trigger] sorted@[p]).movie_id,
            ) && sorted@[p].source == CandidateSource::Thunder && spec_movie_score(
                idx,
                similar@,
                sorted@[p].movie_id,
                self.threshold(),
            ) >= 1 && sorted@[p].base_score == spec_thunder_base(
                spec_movie_score(idx, similar@, sorted@[p].movie_id, self.threshold()),
            ) && sorted@[p].metadata.similar_users_count == Some(
                spec_count_u32(
                    spec_movie_score(idx, similar@, sorted@[p].movie_id, self.threshold()),
                ),
            ) && liked_by_a_neighbor(
                self.index(),
                *user_context,
                self.threshold(),
                self.min_shared(),
                sorted@[p].movie_id,
            ) by {
                assert(sorted_full.to_multiset().contains(sorted_full[p]));
                assert(cand_view.to_multiset().contains(sorted_full[p]));
                assert(cand_view.contains(sorted_full[p]));
                let j = choose|j: int|
                    0 <= j < cand_view.len() && #[trigger] cand_view[j] == sorted_full[p];
                assert(sorted@[p] == cand_view[j]);
                assert(liked_by_a_neighbor(
                    idx,
                    *user_context,
                    self.threshold(),
                    self.min_shared(),
                    cand_view[j].movie_id,
                ));
            }
            if sorted@.len() < limit {
                assert(sorted_full.len() <= limit);
                assert(sorted@ == sorted_full);
                assert forall|m: u32|
                    !user_context.watched_movies@.contains(m) && #[trigger] spec_movie_score(
                        idx,
                        similar@,
                        m,
                        self.threshold(),
                    ) > 0 implies spec_has_movie(sorted@, m) by {
                    let p = choose|p: int|
                        0 <= p < scores@.len() && (#[trigger] scores@[p]).0 == m;
                    assert(cand_view[p].movie_id == m);
                    assert(spec_has_movie(cand_view, m));
                    assert(spec_has_movie(sorted_full, m));
                }
            }
            assert(thunder_candidates_from(
                self.index(),
                *user_context,
                self.threshold(),
                self.min_shared(),
                limit as int,
                similar@,
                sorted@,
            ));
            if user_context.highly_rated_movies@.len() == 0 {
                assert(similar@.len() == 0);
                assert(scores@.len() == 0);
            }
        }
        sorted
    }
}

proof fn lemma_count_matching_nonneg(s: Seq<Rating>, target: u32, thr: u32)
    ensures
        forall|u: u32| 0 <= #[trigger] count_matching(s, target, u, thr) <= s.len(),
    decreases s.len(),
{
    if s.len() > 0 {
        lemma_count_matching_nonneg(s.drop_last(), target, thr);
        assert forall|u: u32| 0 <= #[trigger] count_matching(s, target, u, thr) <= s.len() by {
            assert(0 <= count_matching(s.drop_last(), target, u, thr) <= s.drop_last().len());
        }
    }
}

/// No user shares anything with themselves: self entries are skipped.
proof fn lemma_count_matching_self(s: Seq<Rating>, target: u32, thr: u32)
    ensures
        count_matching(s, target, target, thr) == 0,
    decreases s.len(),
{
    if s.len() > 0 {
        lemma_count_matching_self(s.drop_last(), target, thr);
    }
}

proof fn lemma_shared_self(idx: DataIndex, highly: Seq<u32>, target: u32, thr: u32)
    ensures
        spec_shared_count(idx, highly, target, target, thr) == 0,
    decreases highly.len(),
{
    if highly.len() > 0 {
        lemma_shared_self(idx, highly.drop_last(), target, thr);
        lemma_count_matching_self(idx.movie_ratings_of(highly.last()), target, thr);
    }
}

proof fn lemma_shared_nonneg(idx: DataIndex, highly: Seq<u32>, target: u32, thr: u32)
    ensures
        forall|u: u32| #[trigger] spec_shared_count(idx, highly, target, u, thr) >= 0,
    decreases highly.len(),
{
    if highly.len() > 0 {
        lemma_shared_nonneg(idx, highly.drop_last(), target, thr);
        lemma_count_matching_nonneg(idx.movie_ratings_of(highly.last()), target, thr);
        assert forall|u: u32| #[trigger] spec_shared_count(idx, highly, target, u, thr) >= 0 by {
            assert(spec_shared_count(idx, highly.drop_last(), target, u, thr) >= 0);
            assert(count_matching(idx.movie_ratings_of(highly.last()), target, u, thr) >= 0);
        }
    }
}

proof fn lemma_count_likes_nonneg(s: Seq<Rating>, thr: u32)
    ensures
        forall|m: u32| 0 <= #[trigger] count_likes_in(s, m, thr) <= s.len(),
    decreases s.len(),
{
    if s.len() > 0 {
        lemma_count_likes_nonneg(s.drop_last(), thr);
        assert forall|m: u32| 0 <= #[trigger] count_likes_in(s, m, thr) <= s.len() by {
            assert(0 <= count_likes_in(s.drop_last(), m, thr) <= s.drop_last().len());
        }
    }
}

proof fn lemma_movie_score_nonneg(idx: DataIndex, sim: Seq<u32>, thr: u32)
    ensures
        forall|m: u32| #[trigger] spec_movie_score(idx, sim, m, thr) >= 0,
    decreases sim.len(),
{
    if sim.len() > 0 {
        lemma_movie_score_nonneg(idx, sim.drop_last(), thr);
        lemma_count_likes_nonneg(idx.user_ratings_of(sim.last()), thr);
        assert forall|m: u32| #[trigger] spec_movie_score(idx, sim, m, thr) >= 0 by {
            assert(spec_movie_score(idx, sim.drop_last(), m, thr) >= 0);
            assert(count_likes_in(idx.user_ratings_of(sim.last()), m, thr) >= 0);
        }
    }
}

/// A positive combined score names at least one neighbor with a liking
/// entry.
proof fn lemma_movie_score_positive_witness(idx: DataIndex, sim: Seq<u32>, m: u32, thr: u32)
    requires
        spec_movie_score(idx, sim, m, thr) > 0,
    ensures
        exists|p: int|
            0 <= p < sim.len() && count_likes_in(
                idx.user_ratings_of(#[trigger] sim[p]),
                m,
                thr,
            ) > 0,
    decreases sim.len(),
{
    lemma_movie_score_nonneg(idx, sim.drop_last(), thr);
    if count_likes_in(idx.user_ratings_of(sim.last()), m, thr) > 0 {
        assert(sim[sim.len() - 1] == sim.last());
    } else {
        lemma_count_likes_nonneg(idx.user_ratings_of(sim.last()), thr);
        lemma_movie_score_positive_witness(idx, sim.drop_last(), m, thr);
        let p = choose|p: int|
            0 <= p < sim.drop_last().len() && count_likes_in(
                idx.user_ratings_of(#[trigger] sim.drop_last()[p]),
                m,
                thr,
            ) > 0;
        assert(sim[p] == sim.drop_last()[p]);
    }
}

} // verus!
