//! The filter chain: an ordered list of predicate stages over a candidate
//! list. Every stage keeps exactly the candidates its predicate accepts,
//! in their incoming order; the chain is their sequential composition.

use vstd::prelude::*;
use std::sync::Arc;
use crate::index::DataIndex;
use crate::user_context::{UserContext, spec_top_genres};
use crate::candidate::Candidate;
use crate::errors::RecommendError;
use crate::phoenix::spec_quality_ok;
use crate::seqtools::{lemma_filter_push, lemma_filter_all_true};

verus! {

broadcast use vstd::std_specs::hash::group_hash_axioms;

/// A predicate stage over candidates.
///
/// An implementation names itself, gives its predicate as a spec
/// function, and filters a list down to exactly the candidates the
/// predicate accepts, keeping their order.
pub trait Filter: Sized {
    /// Whether this filter keeps the candidate under the given context.
    spec fn keeps(&self, c: Candidate, ctx: UserContext) -> bool;

    /// The filter's name, for reporting.
    fn name(&self) -> (r: &'static str);

    /// Keeps exactly the accepted candidates, in order.
    fn apply(&self, candidates: Vec<Candidate>, context: &UserContext) -> (r: Result<
        Vec<Candidate>,
        RecommendError,
    >)
        ensures
            r matches Ok(out) ==> out@ == candidates@.filter(
                |c: Candidate| self.keeps(c, *context),
            ),
    ;
}

/// Drops candidates whose movie the user has already rated.
pub struct AlreadyWatchedFilter;

impl Filter for AlreadyWatchedFilter {
    open spec fn keeps(&self, c: Candidate, ctx: UserContext) -> bool {
        !ctx.watched_movies@.contains(c.movie_id)
    }

    fn name(&self) -> (r: &'static str) {
        "AlreadyWatchedFilter"
    }

    fn apply(&self, candidates: Vec<Candidate>, context: &UserContext) -> (r: Result<
        Vec<Candidate>,
        RecommendError,
    >)
        ensures
            r is Ok,
    {
        let ghost orig = candidates@;
        let ghost pred = |c: Candidate| self.keeps(c, *context);
        let mut rest = candidates;
        let mut out: Vec<Candidate> = Vec::new();
        proof {
            assert(orig.take(0) =~= Seq::<Candidate>::empty());
            assert(orig.take(0).filter(pred) =~= Seq::<Candidate>::empty());
        }
        while rest.len() > 0
            invariant
                rest@.len() <= orig.len(),
                rest@ == orig.skip(orig.len() - rest@.len()),
                out@ == orig.take(orig.len() - rest@.len()).filter(pred),
                pred == (|c: Candidate| self.keeps(c, *context)),
            decreases rest@.len(),
        {
            let ghost i = orig.len() - rest@.len();
            let c = rest.remove(0);
            proof {
                assert(c == orig[i]);
                assert(rest@ =~= orig.skip(i + 1));
                assert(orig.take(i + 1) =~= orig.take(i).push(orig[i]));
                lemma_filter_push(orig.take(i), pred, orig[i]);
            }
            let keep = !context.watched_movies.contains(&c.movie_id);
            if keep {
                out.push(c);
            }
        }
        proof {
            assert(orig.skip(orig.len() as int) =~= Seq::<Candidate>::empty());
            assert(orig.take(orig.len() as int) =~= orig);
        }
        Ok(out)
    }
}

/// Drops candidates whose movie misses the quality thresholds.
pub struct MinimumRatingFilter {
    pub data_index: Arc<DataIndex>,
    /// Smallest acceptable average rating, in thousandths.
    pub min_rating: u64,
    /// Smallest acceptable rating count.
    pub min_count: u32,
}

impl MinimumRatingFilter {
    /// A quality filter over the shared index.
    pub fn new(data_index: Arc<DataIndex>, min_rating: u64, min_count: u32) -> (r: Self)
        ensures
            *r.data_index == *data_index,
            r.min_rating == min_rating,
            r.min_count == min_count,
    {
        MinimumRatingFilter { data_index, min_rating, min_count }
    }
}

impl Filter for MinimumRatingFilter {
    open spec fn keeps(&self, c: Candidate, ctx: UserContext) -> bool {
        spec_quality_ok(*self.data_index, c.movie_id, self.min_rating, self.min_count)
    }

    fn name(&self) -> (r: &'static str) {
        "MinimumRatingFilter"
    }

    fn apply(&self, candidates: Vec<Candidate>, context: &UserContext) -> (r: Result<
        Vec<Candidate>,
        RecommendError,
    >)
        ensures
            r is Ok,
    {
        let ghost orig = candidates@;
        let ghost pred = |c: Candidate| self.keeps(c, *context);
        let mut rest = candidates;
        let mut out: Vec<Candidate> = Vec::new();
        proof {
            assert(orig.take(0) =~= Seq::<Candidate>::empty());
            assert(orig.take(0).filter(pred) =~= Seq::<Candidate>::empty());
        }
        while rest.len() > 0
            invariant
                rest@.len() <= orig.len(),
                rest@ == orig.skip(orig.len() - rest@.len()),
                out@ == orig.take(orig.len() - rest@.len()).filter(pred),
                pred == (|c: Candidate| self.keeps(c, *context)),
            decreases rest@.len(),
        {
            let ghost i = orig.len() - rest@.len();
            let c = rest.remove(0);
            proof {
                assert(c == orig[i]);
                assert(rest@ =~= orig.skip(i + 1));
                assert(orig.take(i + 1) =~= orig.take(i).push(orig[i]));
                lemma_filter_push(orig.take(i), pred, orig[i]);
            }
            let keep = match self.data_index.get_movie_stats(c.movie_id) {
                Some(stats) => stats.avg_rating >= self.min_rating && stats.rating_count
                    >= self.min_count,
                None => false,
            };
            if keep {
                out.push(c);
            }
        }
        proof {
            assert(orig.skip(orig.len() as int) =~= Seq::<Candidate>::empty());
            assert(orig.take(orig.len() as int) =~= orig);
        }
        Ok(out)
    }
}

/// Keeps only candidates whose movie shares a genre with the user's top
/// genres.
pub struct GenrePreferenceFilter {
    pub data_index: Arc<DataIndex>,
    /// How many of the user's best genres count as preferred.
    pub top_n_genres: usize,
}

impl GenrePreferenceFilter {
    /// A genre filter over the shared index.
    pub fn new(data_index: Arc<DataIndex>, top_n_genres: usize) -> (r: Self)
        ensures
            *r.data_index == *data_index,
            r.top_n_genres == top_n_genres,
    {
        GenrePreferenceFilter { data_index, top_n_genres }
    }
}

impl Filter for GenrePreferenceFilter {
    open spec fn keeps(&self, c: Candidate, ctx: UserContext) -> bool {
        &&& (*self.data_index).movie_map().contains_key(c.movie_id)
        &&& exists|gi: int|
            0 <= gi < (*self.data_index).movie_map()[c.movie_id].genres@.len()
                && spec_top_genres(ctx.prefs(), self.top_n_genres as int).contains(
                (*self.data_index).movie_map()[c.movie_id].genres@[gi],
            )
    }

    fn name(&self) -> (r: &'static str) {
        "GenrePreferenceFilter"
    }

    fn apply(&self, candidates: Vec<Candidate>, context: &UserContext) -> (r: Result<
        Vec<Candidate>,
        RecommendError,
    >)
        ensures
            r is Ok,
    {
        let ghost orig = candidates@;
        let ghost pred = |c: Candidate| self.keeps(c, *context);
        let top = context.top_genres(self.top_n_genres);
        let mut rest = candidates;
        let mut out: Vec<Candidate> = Vec::new();
        proof {
            assert(orig.take(0) =~= Seq::<Candidate>::empty());
            assert(orig.take(0).filter(pred) =~= Seq::<Candidate>::empty());
        }
        while rest.len() > 0
            invariant
                rest@.len() <= orig.len(),
                rest@ == orig.skip(orig.len() - rest@.len()),
                out@ == orig.take(orig.len() - rest@.len()).filter(pred),
                pred == (|c: Candidate| self.keeps(c, *context)),
                top@ == spec_top_genres(context.prefs(), self.top_n_genres as int),
            decreases rest@.len(),
        {
            let ghost i = orig.len() - rest@.len();
            let c = rest.remove(0);
            proof {
                assert(c == orig[i]);
                assert(rest@ =~= orig.skip(i + 1));
                assert(orig.take(i + 1) =~= orig.take(i).push(orig[i]));
                lemma_filter_push(orig.take(i), pred, orig[i]);
            }
            let keep = match self.data_index.get_movie(c.movie_id) {
                Some(movie) => {
                    let mut found = false;
                    let mut gj: usize = 0;
                    while gj < movie.genres.len()
                        invariant
                            gj <= movie.genres@.len(),
                            top@ == spec_top_genres(context.prefs(), self.top_n_genres as int),
                            found == exists|g2: int|
                                0 <= g2 < gj && top@.contains(#[trigger] movie.genres@[g2]),
                        decreases movie.genres@.len() - gj,
                    {
                        if crate::types::has_genre(&top, movie.genres[gj]) {
                            proof {
                                assert(top@.contains(movie.genres@[gj as int]));
                            }
                            found = true;
                        }
                        gj = gj + 1;
                    }
                    found
                },
                None => false,
            };
            proof {
                assert(keep == pred(c));
            }
            if keep {
                out.push(c);
            }
        }
        proof {
            assert(orig.skip(orig.len() as int) =~= Seq::<Candidate>::empty());
            assert(orig.take(orig.len() as int) =~= orig);
        }
        Ok(out)
    }
}

/// Keeps candidates near the user's preferred era; a context without an
/// era keeps everything.
pub struct RecencyFilter {
    pub data_index: Arc<DataIndex>,
    /// Years either side of the preferred era that stay in.
    pub year_tolerance: u16,
}

impl RecencyFilter {
    /// An era filter over the shared index.
    pub fn new(data_index: Arc<DataIndex>, year_tolerance: u16) -> (r: Self)
        ensures
            *r.data_index == *data_index,
            r.year_tolerance == year_tolerance,
    {
        RecencyFilter { data_index, year_tolerance }
    }
}

impl Filter for RecencyFilter {
    open spec fn keeps(&self, c: Candidate, ctx: UserContext) -> bool {
        match ctx.preferred_era {
            None => true,
            Some(era) => {
                &&& (*self.data_index).movie_map().contains_key(c.movie_id)
                &&& match (*self.data_index).movie_map()[c.movie_id].year {
                    None => true,
                    Some(y) => {
                        let lo = if era >= self.year_tolerance {
                            era - self.year_tolerance
                        } else {
                            0
                        };
                        let hi = if era <= u16::MAX - self.year_tolerance {
                            era + self.year_tolerance
                        } else {
                            u16::MAX as int
                        };
                        lo <= y <= hi
                    },
                }
            },
        }
    }

    fn name(&self) -> (r: &'static str) {
        "RecencyFilter"
    }

    fn apply(&self, candidates: Vec<Candidate>, context: &UserContext) -> (r: Result<
        Vec<Candidate>,
        RecommendError,
    >)
        ensures
            r is Ok,
    {
        let ghost orig = candidates@;
        let ghost pred = |c: Candidate| self.keeps(c, *context);
        let era = match context.preferred_era {
            Some(era) => era,
            None => {
                proof {
                    lemma_filter_all_true(orig, pred);
                }
                return Ok(candidates);
            },
        };
        let lo: u16 = if era >= self.year_tolerance {
            era - self.year_tolerance
        } else {
            0
        };
        let hi: u16 = if era <= u16::MAX - self.year_tolerance {
            era + self.year_tolerance
        } else {
            u16::MAX
        };
        let mut rest = candidates;
        let mut out: Vec<Candidate> = Vec::new();
        proof {
            assert(orig.take(0) =~= Seq::<Candidate>::empty());
            assert(orig.take(0).filter(pred) =~= Seq::<Candidate>::empty());
        }
        while rest.len() > 0
            invariant
                rest@.len() <= orig.len(),
                rest@ == orig.skip(orig.len() - rest@.len()),
                out@ == orig.take(orig.len() - rest@.len()).filter(pred),
                pred == (|c: Candidate| self.keeps(c, *context)),
                context.preferred_era == Some(era),
                lo == if era >= self.year_tolerance {
                    era - self.year_tolerance
                } else {
                    0
                },
                hi == if era <= u16::MAX - self.year_tolerance {
                    era + self.year_tolerance
                } else {
                    u16::MAX as int
                },
            decreases rest@.len(),
        {
            let ghost i = orig.len() - rest@.len();
            let c = rest.remove(0);
            proof {
                assert(c == orig[i]);
                assert(rest@ =~= orig.skip(i + 1));
                assert(orig.take(i + 1) =~= orig.take(i).push(orig[i]));
                lemma_filter_push(orig.take(i), pred, orig[i]);
            }
            let keep = match self.data_index.get_movie(c.movie_id) {
                Some(movie) => match movie.year {
                    Some(y) => lo <= y && y <= hi,
                    None => true,
                },
                None => false,
            };
            if keep {
                out.push(c);
            }
        }
        proof {
            assert(orig.skip(orig.len() as int) =~= Seq::<Candidate>::empty());
            assert(orig.take(orig.len() as int) =~= orig);
        }
        Ok(out)
    }
}

/// One stage of the chain: any of the stock filters.
pub enum FilterStage {
    AlreadyWatched(AlreadyWatchedFilter),
    MinimumRating(MinimumRatingFilter),
    GenrePreference(GenrePreferenceFilter),
    Recency(RecencyFilter),
}

/// The predicate a stage applies.
pub open spec fn stage_keeps(stage: FilterStage, c: Candidate, ctx: UserContext) -> bool {
    match stage {
        FilterStage::AlreadyWatched(f) => f.keeps(c, ctx),
        FilterStage::MinimumRating(f) => f.keeps(c, ctx),
        FilterStage::GenrePreference(f) => f.keeps(c, ctx),
        FilterStage::Recency(f) => f.keeps(c, ctx),
    }
}

/// A stage's predicate, as a function value.
pub open spec fn stage_pred(stage: FilterStage, ctx: UserContext) -> spec_fn(Candidate) -> bool {
    |c: Candidate| stage_keeps(stage, c, ctx)
}

/// What one stage leaves of a list.
pub open spec fn spec_stage_apply(stage: FilterStage, s: Seq<Candidate>, ctx: UserContext) -> Seq<
    Candidate,
> {
    s.filter(stage_pred(stage, ctx))
}

/// What the whole chain leaves of a list: each stage's output feeds the
/// next.
pub open spec fn spec_chain(stages: Seq<FilterStage>, s: Seq<Candidate>, ctx: UserContext) -> Seq<
    Candidate,
>
    decreases stages.len(),
{
    if stages.len() == 0 {
        s
    } else {
        spec_chain(stages.drop_first(), spec_stage_apply(stages.first(), s, ctx), ctx)
    }
}

impl FilterStage {
    /// Applies this stage's filter.
    pub fn apply(&self, candidates: Vec<Candidate>, context: &UserContext) -> (r: Result<
        Vec<Candidate>,
        RecommendError,
    >)
        ensures
            r is Ok,
            r matches Ok(out) ==> out@ == spec_stage_apply(*self, candidates@, *context),
    {
        match self {
            FilterStage::AlreadyWatched(f) => {
                let r = f.apply(candidates, context);
                proof {
                    if r is Ok {
                        assert(r->Ok_0@ =~= spec_stage_apply(*self, candidates@, *context)) by {
                            lemma_filter_congruent(
                                candidates@,
                                |c: Candidate| f.keeps(c, *context),
                                stage_pred(*self, *context),
                            );
                        }
                    }
                }
                r
            },
            FilterStage::MinimumRating(f) => {
                let r = f.apply(candidates, context);
                proof {
                    if r is Ok {
                        assert(r->Ok_0@ =~= spec_stage_apply(*self, candidates@, *context)) by {
                            lemma_filter_congruent(
                                candidates@,
                                |c: Candidate| f.keeps(c, *context),
                                stage_pred(*self, *context),
                            );
                        }
                    }
                }
                r
            },
            FilterStage::GenrePreference(f) => {
                let r = f.apply(candidates, context);
                proof {
                    if r is Ok {
                        assert(r->Ok_0@ =~= spec_stage_apply(*self, candidates@, *context)) by {
                            lemma_filter_congruent(
                                candidates@,
                                |c: Candidate| f.keeps(c, *context),
                                stage_pred(*self, *context),
                            );
                        }
                    }
                }
                r
            },
            FilterStage::Recency(f) => {
                let r = f.apply(candidates, context);
                proof {
                    if r is Ok {
                        assert(r->Ok_0@ =~= spec_stage_apply(*self, candidates@, *context)) by {
                            lemma_filter_congruent(
                                candidates@,
                                |c: Candidate| f.keeps(c, *context),
                                stage_pred(*self, *context),
                            );
                        }
                    }
                }
                r
            },
        }
    }
}

/// Two pointwise-equal predicates filter a list identically.
proof fn lemma_filter_congruent<A>(s: Seq<A>, p: spec_fn(A) -> bool, q: spec_fn(A) -> bool)
    requires
        forall|x: A| #[trigger] p(x) == q(x),
    ensures
        s.filter(p) == s.filter(q),
    decreases s.len(),
{
    reveal(Seq::filter);
    if s.len() > 0 {
        lemma_filter_congruent(s.drop_last(), p, q);
        assert(p(s.last()) == q(s.last()));
    }
}

/// An ordered list of filter stages, applied in order.
pub struct FilterPipeline {
    pub filters: Vec<FilterStage>,
}

impl FilterPipeline {
    /// The stages, in application order.
    pub open spec fn stages(&self) -> Seq<FilterStage> {
        self.filters@
    }

    /// An empty chain, which leaves any list unchanged.
    pub fn new() -> (r: Self)
        ensures
            r.stages() == Seq::<FilterStage>::empty(),
    {
        FilterPipeline { filters: Vec::new() }
    }

    /// The chain with one more stage at the end.
    pub fn add_filter(self, filter: FilterStage) -> (r: Self)
        ensures
            r.stages() == self.stages().push(filter),
    {
        let mut filters = self.filters;
        filters.push(filter);
        FilterPipeline { filters }
    }

    /// Applies every stage in order; the output of each feeds the next.
    pub fn apply(&self, candidates: Vec<Candidate>, context: &UserContext) -> (r: Result<
        Vec<Candidate>,
        RecommendError,
    >)
        ensures
            r is Ok,
            r matches Ok(out) ==> out@ == spec_chain(self.stages(), candidates@, *context),
    {
        let ghost orig = candidates@;
        let mut current = candidates;
        let mut i: usize = 0;
        proof {
            assert(self.filters@.skip(0) =~= self.filters@);
        }
        while i < self.filters.len()
            invariant
                i <= self.filters@.len(),
                spec_chain(self.filters@, orig, *context) == spec_chain(
                    self.filters@.skip(i as int),
                    current@,
                    *context,
                ),
            decreases self.filters@.len() - i,
        {
            proof {
                assert(self.filters@.skip(i as int).first() == self.filters@[i as int]);
                assert(self.filters@.skip(i as int).drop_first() =~= self.filters@.skip(
                    i + 1 as int,
                ));
            }
            let stage = &self.filters[i];
            let next = match stage.apply(current, context) {
                Ok(v) => v,
                Err(e) => {
                    proof {
                        assert(false);
                    }
                    return Err(e);
                },
            };
            current = next;
            i = i + 1;
        }
        proof {
            assert(self.filters@.skip(self.filters@.len() as int) =~= Seq::<FilterStage>::empty());
        }
        Ok(current)
    }
}

/// The chain is empty by default.
impl Default for FilterPipeline {
    fn default() -> (r: Self)
        ensures
            r.stages() == Seq::<FilterStage>::empty(),
    {
        FilterPipeline::new()
    }
}

/// A pass-through stage — one whose predicate keeps every candidate of a
/// list — leaves that list exactly as it was: same candidates, same
/// order, same count.
pub proof fn lemma_pass_through_stage(stage: FilterStage, s: Seq<Candidate>, ctx: UserContext)
    requires
        forall|i: int| 0 <= i < s.len() ==> stage_keeps(stage, #[trigger] s[i], ctx),
    ensures
        spec_stage_apply(stage, s, ctx) == s,
{
    lemma_filter_all_true(s, stage_pred(stage, ctx));
}

/// An empty chain is itself a pass-through: it changes neither the order
/// nor the count of a candidate list.
pub proof fn lemma_empty_chain_identity(s: Seq<Candidate>, ctx: UserContext)
    ensures
        spec_chain(Seq::<FilterStage>::empty(), s, ctx) == s,
{
}

/// No candidate surviving the watched filter has a movie in the context's
/// watched set.
pub proof fn lemma_watched_filter_excludes(s: Seq<Candidate>, ctx: UserContext)
    ensures
        forall|i: int|
            0 <= i < spec_stage_apply(
                FilterStage::AlreadyWatched(AlreadyWatchedFilter),
                s,
                ctx,
            ).len() ==> !ctx.watched_movies@.contains(
                (#[trigger] spec_stage_apply(
                    FilterStage::AlreadyWatched(AlreadyWatchedFilter),
                    s,
                    ctx,
                )[i]).movie_id,
            ),
{
    let pred = stage_pred(FilterStage::AlreadyWatched(AlreadyWatchedFilter), ctx);
    let out = s.filter(pred);
    s.filter_lemma(pred);
    assert forall|i: int| 0 <= i < out.len() implies !ctx.watched_movies@.contains(
        (#[trigger] out[i]).movie_id,
    ) by {
        assert(pred(out[i]));
    }
}

} // verus!
