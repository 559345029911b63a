//! The request orchestrator: build the user's context, generate
//! candidates from both sources, merge them by movie id, filter, compute
//! features, check the scoring response, and rank the survivors.
//!
//! The remote scoring call itself stands outside the library; callers run
//! the prepared request through their scorer and hand the scores back.

use vstd::prelude::*;
use std::sync::Arc;
use crate::types::{Genre, MovieId, UserId};
use crate::index::DataIndex;
use crate::user_context::{UserContext, build_user_context};
use crate::candidate::{Candidate, CandidateSource, spec_has_movie};
use crate::thunder::ThunderSource;
use crate::phoenix::PhoenixSource;
use crate::filters::{
    FilterPipeline, FilterStage, AlreadyWatchedFilter, MinimumRatingFilter, GenrePreferenceFilter,
    spec_chain,
};
use crate::features::{FeatureEngineer, CandidateFeatures, spec_features_for};
use crate::errors::{MLClientError, RecommendError};
use crate::sort::{ScoredCandidate, sort_scored_desc, sorted_desc_scored, lemma_elements_carry};
use crate::strutil::{milli_to_string_2dp, spec_milli_2dp};

verus! {

broadcast use vstd::std_specs::hash::group_hash_axioms;

/// How many candidates the collaborative source is asked for.
pub const THUNDER_CANDIDATES: usize = 300;

/// How many candidates the discovery source is asked for.
pub const PHOENIX_CANDIDATES: usize = 200;

/// Relies on `Arc::clone`: the returned handle shares the same value.
#[verifier::external_body]
fn share_index(a: &Arc<DataIndex>) -> (r: Arc<DataIndex>)
    ensures
        *r == **a,
{
    Arc::clone(a)
}

/// One entry of the final answer.
#[derive(Clone, Debug)]
pub struct MovieRecommendation {
    pub movie_id: MovieId,
    pub title: String,
    pub genres: Vec<String>,
    pub year: Option<u16>,
    /// The score the scoring stage returned, in thousandths.
    pub score: i64,
    pub source: CandidateSource,
    pub explanation: String,
}

/// Folding one candidate into the merged store: a new movie enters; a
/// movie seen before keeps whichever entry scores higher, the first seen
/// winning ties.
pub open spec fn merge_step(m: Map<u32, Candidate>, c: Candidate) -> Map<u32, Candidate> {
    if m.contains_key(c.movie_id) {
        if c.base_score > m[c.movie_id].base_score {
            m.insert(c.movie_id, c)
        } else {
            m
        }
    } else {
        m.insert(c.movie_id, c)
    }
}

/// The merged store after folding a list in order.
pub open spec fn merge_fold(s: Seq<Candidate>) -> Map<u32, Candidate>
    decreases s.len(),
{
    if s.len() == 0 {
        Map::empty()
    } else {
        merge_step(merge_fold(s.drop_last()), s.last())
    }
}

/// The merged store of two candidate lists, the first processed first.
pub open spec fn spec_merged(thunder: Seq<Candidate>, phoenix: Seq<Candidate>) -> Map<
    u32,
    Candidate,
> {
    merge_fold(thunder + phoenix)
}

/// The highest score any entry of the list gives a movie.
pub open spec fn spec_max_score_for(s: Seq<Candidate>, mid: u32) -> int
    decreases s.len(),
{
    if s.len() == 0 {
        -1
    } else {
        let rest = spec_max_score_for(s.drop_last(), mid);
        if s.last().movie_id == mid && s.last().base_score > rest {
            s.last().base_score as int
        } else {
            rest
        }
    }
}

/// What the merged store holds: a movie is present exactly when some
/// entry of the folded list names it, and its entry carries the highest
/// score any such entry gives it.
pub proof fn lemma_merge_fold_facts(s: Seq<Candidate>, mid: u32)
    ensures
        merge_fold(s).contains_key(mid) <==> spec_has_movie(s, mid),
        merge_fold(s).contains_key(mid) ==> merge_fold(s)[mid].movie_id == mid
            && merge_fold(s)[mid].base_score == spec_max_score_for(s, mid),
        !merge_fold(s).contains_key(mid) ==> spec_max_score_for(s, mid) == -1,
    decreases s.len(),
{
    if s.len() > 0 {
        lemma_merge_fold_facts(s.drop_last(), mid);
        if spec_has_movie(s, mid) {
            let i = choose|i: int| 0 <= i < s.len() && (#[trigger] s[i]).movie_id == mid;
            if i < s.len() - 1 {
                assert(s.drop_last()[i].movie_id == mid);
                assert(spec_has_movie(s.drop_last(), mid));
            }
        }
        if spec_has_movie(s.drop_last(), mid) {
            let i = choose|i: int|
                0 <= i < s.drop_last().len() && (#[trigger] s.drop_last()[i]).movie_id == mid;
            assert(s[i].movie_id == mid);
        }
        if s.last().movie_id == mid {
            assert(s[s.len() - 1].movie_id == mid);
        }
    }
}

/// Merging two candidate lists that share a movie id yields, for that id,
/// an entry scoring the maximum of everything either list gives it, and a
/// merged key set that is exactly the union of the two lists' movie ids.
pub proof fn lemma_merge_shared_takes_max(
    thunder: Seq<Candidate>,
    phoenix: Seq<Candidate>,
    mid: u32,
)
    ensures
        spec_merged(thunder, phoenix).contains_key(mid) <==> (spec_has_movie(thunder, mid)
            || spec_has_movie(phoenix, mid)),
        spec_merged(thunder, phoenix).contains_key(mid) ==> spec_merged(
            thunder,
            phoenix,
        )[mid].base_score == spec_max_score_for(thunder + phoenix, mid),
{
    lemma_merge_fold_facts(thunder + phoenix, mid);
    let both = thunder + phoenix;
    if spec_has_movie(both, mid) {
        let i = choose|i: int| 0 <= i < both.len() && (#[trigger] both[i]).movie_id == mid;
        if i < thunder.len() {
            assert(thunder[i].movie_id == mid);
        } else {
            assert(phoenix[i - thunder.len()].movie_id == mid);
        }
    }
    if spec_has_movie(thunder, mid) {
        let i = choose|i: int| 0 <= i < thunder.len() && (#[trigger] thunder[i]).movie_id == mid;
        assert(both[i].movie_id == mid);
    }
    if spec_has_movie(phoenix, mid) {
        let i = choose|i: int| 0 <= i < phoenix.len() && (#[trigger] phoenix[i]).movie_id == mid;
        assert(both[thunder.len() + i].movie_id == mid);
    }
}

/// The prepared candidate list of one request: the stock filter chain run
/// over the merge of a collaborative answer and a discovery answer, each
/// satisfying its source's contract for this context.
pub open spec fn prepared_candidates_ok(
    o: RecommendationOrchestrator,
    ctx: UserContext,
    cands: Seq<Candidate>,
) -> bool {
    exists|tc: Seq<Candidate>, pc: Seq<Candidate>, merged: Seq<Candidate>|
        #![trigger crate::thunder::thunder_output_ok(o.index(), ctx, o.thunder.high_rating_threshold, o.thunder.min_shared_movies, THUNDER_CANDIDATES as int, tc), crate::phoenix::phoenix_output_ok(o.index(), ctx, o.phoenix.min_avg_rating, o.phoenix.min_rating_count, PHOENIX_CANDIDATES as int, pc), merged_matches(spec_merged(tc, pc), merged)]
        crate::thunder::thunder_output_ok(
            o.index(),
            ctx,
            o.thunder.high_rating_threshold,
            o.thunder.min_shared_movies,
            THUNDER_CANDIDATES as int,
            tc,
        ) && crate::phoenix::phoenix_output_ok(
            o.index(),
            ctx,
            o.phoenix.min_avg_rating,
            o.phoenix.min_rating_count,
            PHOENIX_CANDIDATES as int,
            pc,
        ) && merged_matches(spec_merged(tc, pc), merged) && cands == spec_chain(
            o.filter_pipeline.stages(),
            merged,
            ctx,
        )
}

/// A candidate list mirroring a merged store: distinct movies, each entry
/// the store's entry for its movie, every stored movie present.
pub open spec fn merged_matches(m: Map<u32, Candidate>, r: Seq<Candidate>) -> bool {
    &&& forall|i: int, j: int|
        0 <= i < j < r.len() ==> (#[trigger] r[i]).movie_id != (#[trigger] r[j]).movie_id
    &&& forall|i: int|
        0 <= i < r.len() ==> m.contains_key((#[trigger] r[i]).movie_id) && r[i] == m[r[i].movie_id]
    &&& forall|k: u32|
        #[trigger] m.contains_key(k) ==> exists|i: int|
            0 <= i < r.len() && (#[trigger] r[i]).movie_id == k
}

/// Checks a scoring response against the number of submitted feature
/// records: the scores come back exactly when the lengths agree, and a
/// mismatch is the remote-response error carrying both lengths.
pub fn validate_score_response(expected: usize, scores: Vec<i64>) -> (r: Result<
    Vec<i64>,
    MLClientError,
>)
    ensures
        r is Ok <==> scores@.len() == expected,
        r matches Ok(v) ==> v@ == scores@,
        r matches Err(e) ==> e == (MLClientError::InvalidResponse {
            expected,
            got: scores@.len() as usize,
        }),
{
    if scores.len() != expected {
        let got = scores.len();
        return Err(MLClientError::InvalidResponse { expected, got });
    }
    Ok(scores)
}

/// The name of a genre, as written in the final answer.
pub open spec fn spec_genre_name(g: Genre) -> Seq<char> {
    match g {
        Genre::Action => "Action"@,
        Genre::Adventure => "Adventure"@,
        Genre::Animation => "Animation"@,
        Genre::Children => "Children"@,
        Genre::Comedy => "Comedy"@,
        Genre::Crime => "Crime"@,
        Genre::Documentary => "Documentary"@,
        Genre::Drama => "Drama"@,
        Genre::Fantasy => "Fantasy"@,
        Genre::FilmNoir => "FilmNoir"@,
        Genre::Horror => "Horror"@,
        Genre::Musical => "Musical"@,
        Genre::Mystery => "Mystery"@,
        Genre::Romance => "Romance"@,
        Genre::SciFi => "SciFi"@,
        Genre::Thriller => "Thriller"@,
        Genre::War => "War"@,
        Genre::Western => "Western"@,
    }
}

/// The display name of a genre.
pub fn genre_name(g: Genre) -> (r: &'static str)
    ensures
        r@ == spec_genre_name(g),
{
    match g {
        Genre::Action => "Action",
        Genre::Adventure => "Adventure",
        Genre::Animation => "Animation",
        Genre::Children => "Children",
        Genre::Comedy => "Comedy",
        Genre::Crime => "Crime",
        Genre::Documentary => "Documentary",
        Genre::Drama => "Drama",
        Genre::Fantasy => "Fantasy",
        Genre::FilmNoir => "FilmNoir",
        Genre::Horror => "Horror",
        Genre::Musical => "Musical",
        Genre::Mystery => "Mystery",
        Genre::Romance => "Romance",
        Genre::SciFi => "SciFi",
        Genre::Thriller => "Thriller",
        Genre::War => "War",
        Genre::Western => "Western",
    }
}

/// The name of a candidate source, as written in the final answer.
pub open spec fn spec_source_name(s: CandidateSource) -> Seq<char> {
    match s {
        CandidateSource::Thunder => "Thunder"@,
        CandidateSource::Phoenix => "Phoenix"@,
    }
}

/// The display name of a candidate source.
pub fn source_name(s: CandidateSource) -> (r: &'static str)
    ensures
        r@ == spec_source_name(s),
{
    match s {
        CandidateSource::Thunder => "Thunder",
        CandidateSource::Phoenix => "Phoenix",
    }
}

/// The explanation line of one recommendation.
pub open spec fn spec_explanation(score: i64, source: CandidateSource) -> Seq<char> {
    let magnitude = if score >= 0 {
        spec_milli_2dp(score as int)
    } else {
        seq!['-'] + spec_milli_2dp(-score as int)
    };
    "Score: "@ + magnitude + ", Source: "@ + spec_source_name(source)
}

/// Writes the explanation line, as in `Score: 1.50, Source: Thunder`.
pub fn explanation_line(score: i64, source: CandidateSource) -> (r: String)
    ensures
        r@ == spec_explanation(score, source),
{
    let mut s = "Score: ".to_owned();
    if score >= 0 {
        let m = milli_to_string_2dp(score as u64);
        s.append(m.as_str());
    } else {
        s.append("-");
        let magnitude: u64 = (0i128 - score as i128) as u64;
        let m = milli_to_string_2dp(magnitude);
        proof {
            reveal_strlit("-");
            assert(seq!['-'] + m@ =~= "-"@ + m@);
        }
        s.append(m.as_str());
    }
    s.append(", Source: ");
    s.append(source_name(source));
    s
}

/// Drives one recommendation request over a frozen index.
pub struct RecommendationOrchestrator {
    pub data_index: Arc<DataIndex>,
    pub thunder: ThunderSource,
    pub phoenix: PhoenixSource,
    pub filter_pipeline: FilterPipeline,
    pub feature_engineer: FeatureEngineer,
}

impl RecommendationOrchestrator {
    /// The shared index.
    pub open spec fn index(&self) -> DataIndex {
        *self.data_index
    }

    /// Whether every component shares this orchestrator's index.
    pub open spec fn wf(&self) -> bool {
        &&& self.index().wf()
        &&& self.thunder.index() == self.index()
        &&& self.phoenix.index() == self.index()
        &&& self.feature_engineer.index() == self.index()
    }

    /// An orchestrator over a frozen index, with the stock filter chain:
    /// drop watched movies, drop low-quality movies, keep only preferred
    /// genres.
    pub fn new(data_index: Arc<DataIndex>) -> (r: Self)
        requires
            data_index.wf(),
        ensures
            r.wf(),
            r.index() == *data_index,
    {
        let thunder = ThunderSource::new(share_index(&data_index));
        let phoenix = PhoenixSource::new(share_index(&data_index));
        let filter_pipeline = FilterPipeline::new().add_filter(
            FilterStage::AlreadyWatched(AlreadyWatchedFilter),
        ).add_filter(
            FilterStage::MinimumRating(MinimumRatingFilter::new(share_index(&data_index), 3500, 10)),
        ).add_filter(
            FilterStage::GenrePreference(GenrePreferenceFilter::new(share_index(&data_index), 3)),
        );
        let feature_engineer = FeatureEngineer::new(share_index(&data_index));
        RecommendationOrchestrator {
            data_index,
            thunder,
            phoenix,
            filter_pipeline,
            feature_engineer,
        }
    }

    /// The target user's taste profile; fails exactly when the user is
    /// unknown.
    pub fn build_user_context(&self, user_id: UserId) -> (r: Result<UserContext, RecommendError>)
        requires
            self.wf(),
        ensures
            r is Ok <==> self.index().user_map().contains_key(user_id),
            r matches Ok(ctx) ==> ctx.user_id == user_id && ctx.prefs_wf(),
            r matches Ok(ctx) ==> crate::user_context::built_context_ok(
                self.index(),
                user_id,
                ctx,
            ),
    {
        build_user_context(&self.data_index, user_id)
    }

    /// Candidates from both sources, collaborative first.
    pub fn generate_candidates(&self, context: &UserContext) -> (r: (Vec<Candidate>, Vec<
        Candidate,
    >))
        requires
            self.wf(),
        ensures
            r.0@.len() <= THUNDER_CANDIDATES,
            r.1@.len() <= PHOENIX_CANDIDATES,
            forall|i: int|
                0 <= i < r.0@.len() ==> (#[trigger] r.0@[i]).source == CandidateSource::Thunder
                    && !context.watched_movies@.contains(r.0@[i].movie_id),
            forall|i: int|
                0 <= i < r.1@.len() ==> (#[trigger] r.1@[i]).source == CandidateSource::Phoenix
                    && !context.watched_movies@.contains(r.1@[i].movie_id),
            crate::thunder::thunder_output_ok(
                self.index(),
                *context,
                self.thunder.high_rating_threshold,
                self.thunder.min_shared_movies,
                THUNDER_CANDIDATES as int,
                r.0@,
            ),
            crate::phoenix::phoenix_output_ok(
                self.index(),
                *context,
                self.phoenix.min_avg_rating,
                self.phoenix.min_rating_count,
                PHOENIX_CANDIDATES as int,
                r.1@,
            ),
            context.highly_rated_movies@.len() == 0 ==> r.0@.len() == 0,
    {
        let thunder_candidates = self.thunder.get_candidates(context, THUNDER_CANDIDATES);
        let phoenix_candidates = self.phoenix.get_candidates(context, PHOENIX_CANDIDATES);
        (thunder_candidates, phoenix_candidates)
    }

    /// Merges the two sources' candidates by movie id: each movie keeps
    /// its highest-scoring entry, the collaborative list's entries seen
    /// first; the merged ids are exactly the union of the inputs' ids.
    pub fn merge_candidates(&self, thunder_candidates: Vec<Candidate>, phoenix_candidates: Vec<
        Candidate,
    >) -> (r: Vec<Candidate>)
        ensures
            forall|i: int, j: int|
                0 <= i < j < r@.len() ==> (#[trigger] r@[i]).movie_id != (
                #[trigger] r@[j]).movie_id,
            forall|i: int|
                0 <= i < r@.len() ==> spec_merged(
                    thunder_candidates@,
                    phoenix_candidates@,
                ).contains_key((#[trigger] r@[i]).movie_id) && r@[i] == spec_merged(
                    thunder_candidates@,
                    phoenix_candidates@,
                )[r@[i].movie_id],
            forall|k: u32|
                #[trigger] spec_merged(thunder_candidates@, phoenix_candidates@).contains_key(k)
                    ==> exists|i: int| 0 <= i < r@.len() && (#[trigger] r@[i]).movie_id == k,
            merged_matches(spec_merged(thunder_candidates@, phoenix_candidates@), r@),
    {
        let ghost tv = thunder_candidates@;
        let ghost pv = phoenix_candidates@;
        let ghost both = tv + pv;
        let mut acc: Vec<Candidate> = Vec::new();
        let mut rest = crate::seqtools::reverse_vec(thunder_candidates);
        proof {
            assert(both.take(0) =~= Seq::<Candidate>::empty());
        }
        while rest.len() > 0
            invariant
                rest@.len() <= tv.len(),
                rest@ == tv.skip(tv.len() - rest@.len()).reverse(),
                both == tv + pv,
                merge_invariant(acc@, both.take(tv.len() - rest@.len())),
            decreases rest@.len(),
        {
            let ghost n = tv.len() - rest@.len();
            let c = rest.pop().unwrap();
            proof {
                assert(c == tv.skip(n).reverse().last());
                assert(c == tv[n]);
                assert(rest@ =~= tv.skip(n + 1).reverse());
                assert(both.take(n + 1).drop_last() =~= both.take(n as int));
                assert(both.take(n + 1).last() == both[n as int]);
                assert(both[n as int] == tv[n]);
                assert(both.take(n + 1) =~= both.take(n as int).push(c));
            }
            merge_one(&mut acc, c, Ghost(both.take(n as int)));
        }
        let mut rest = crate::seqtools::reverse_vec(phoenix_candidates);
        proof {
            assert(tv.skip(tv.len() as int).reverse() =~= Seq::<Candidate>::empty());
        }
        while rest.len() > 0
            invariant
                rest@.len() <= pv.len(),
                rest@ == pv.skip(pv.len() - rest@.len()).reverse(),
                both == tv + pv,
                merge_invariant(acc@, both.take(tv.len() + pv.len() - rest@.len())),
            decreases rest@.len(),
        {
            let ghost n = pv.len() - rest@.len();
            let ghost t = tv.len() + n;
            let c = rest.pop().unwrap();
            proof {
                assert(c == pv.skip(n).reverse().last());
                assert(c == pv[n]);
                assert(rest@ =~= pv.skip(n + 1).reverse());
                assert(both.take(t + 1).drop_last() =~= both.take(t));
                assert(both.take(t + 1).last() == both[t]);
                assert(both[t] == pv[n]);
                assert(both.take(t + 1) =~= both.take(t).push(c));
            }
            merge_one(&mut acc, c, Ghost(both.take(t)));
        }
        proof {
            assert(both.take(both.len() as int) =~= both);
            assert(spec_merged(tv, pv) == merge_fold(both));
        }
        acc
    }

    /// Runs the filter chain over the merged candidates.
    pub fn apply_filters(&self, candidates: Vec<Candidate>, context: &UserContext) -> (r: Result<
        Vec<Candidate>,
        RecommendError,
    >)
        ensures
            r is Ok,
            r matches Ok(out) ==> out@ == spec_chain(
                self.filter_pipeline.stages(),
                candidates@,
                *context,
            ),
    {
        self.filter_pipeline.apply(candidates, context)
    }

    /// One feature record per surviving candidate, in candidate order.
    pub fn compute_features(&self, candidates: &Vec<Candidate>, context: &UserContext) -> (r: Vec<
        CandidateFeatures,
    >)
        requires
            self.wf(),
        ensures
            r@.len() == candidates@.len(),
            forall|i: int|
                0 <= i < r@.len() ==> #[trigger] r@[i] == spec_features_for(
                    self.index(),
                    *context,
                    candidates@[i],
                ),
    {
        self.feature_engineer.compute_features(candidates, context)
    }

    /// Ranks scored candidates and builds the final answer: candidates are
    /// paired with their scores in order, those whose movie the index does
    /// not know are silently dropped, the rest are sorted by score, best
    /// first, and cut to `limit`; each survivor carries its movie's title,
    /// genres and year, and an explanation line.
    pub fn rank_and_select(
        &self,
        candidates: Vec<Candidate>,
        features: Vec<CandidateFeatures>,
        scores: Vec<i64>,
        limit: usize,
    ) -> (r: Result<Vec<MovieRecommendation>, RecommendError>)
        requires
            self.wf(),
        ensures
            r is Ok,
            r matches Ok(out) ==> ranked_output_ok(
                self.index(),
                candidates@,
                scores@,
                limit as int,
                out@,
            ),
    {
        let ghost idx = self.index();
        let ghost cv = candidates@;
        let ghost sv = scores@;
        let n = if candidates.len() <= scores.len() {
            candidates.len()
        } else {
            scores.len()
        };
        let mut pairs: Vec<ScoredCandidate> = Vec::new();
        let mut rest = candidates;
        let mut i: usize = 0;
        proof {
            assert(cv.skip(0) =~= cv);
        }
        while i < n
            invariant
                self.wf(),
                idx == self.index(),
                n <= cv.len(),
                n <= scores@.len(),
                sv == scores@,
                i <= n,
                rest@ == cv.skip(i as int),
                pairs@.len() == count_resolvable(idx, cv, i as int),
                forall|p: int|
                    0 <= p < pairs@.len() ==> idx.movie_map().contains_key(
                        (#[trigger] pairs@[p]).candidate.movie_id,
                    ),
                forall|p: int|
                    0 <= p < pairs@.len() ==> pair_in_input(
                        idx,
                        cv,
                        sv,
                        i as int,
                        (#[trigger] pairs@[p]).candidate.movie_id,
                        pairs@[p].candidate.source,
                        pairs@[p].score,
                    ),
                forall|j: int|
                    0 <= j < i && idx.movie_map().contains_key(
                        (#[trigger] cv[j]).movie_id,
                    ) ==> pair_in_scored(pairs@, cv[j].movie_id, cv[j].source, sv[j]),
            decreases n - i,
        {
            let c = rest.remove(0);
            let score = scores[i];
            let ghost pairs_before = pairs@;
            proof {
                assert(c == cv[i as int]);
                assert(rest@ =~= cv.skip(i + 1 as int));
            }
            let resolvable = match self.data_index.get_movie(c.movie_id) {
                Some(_) => true,
                None => false,
            };
            if resolvable {
                pairs.push(ScoredCandidate { candidate: c, score });
            }
            proof {
                assert forall|p: int| 0 <= p < pairs@.len() implies pair_in_input(
                    idx,
                    cv,
                    sv,
                    i + 1 as int,
                    (#[trigger] pairs@[p]).candidate.movie_id,
                    pairs@[p].candidate.source,
                    pairs@[p].score,
                ) by {
                    if p < pairs_before.len() {
                        let j0 = choose|j0: int|
                            0 <= j0 < i && idx.movie_map().contains_key(
                                (#[trigger] cv[j0]).movie_id,
                            ) && cv[j0].movie_id == pairs_before[p].candidate.movie_id
                                && cv[j0].source == pairs_before[p].candidate.source && sv[j0]
                                == pairs_before[p].score;
                        assert(pairs@[p] == pairs_before[p]);
                    } else {
                        assert(pairs@[p].candidate == cv[i as int]);
                    }
                }
                assert forall|j: int|
                    0 <= j < i + 1 && idx.movie_map().contains_key(
                        (#[trigger] cv[j]).movie_id,
                    ) implies pair_in_scored(pairs@, cv[j].movie_id, cv[j].source, sv[j]) by {
                    if j < i {
                        let p0 = choose|p0: int|
                            0 <= p0 < pairs_before.len() && (
                            #[trigger] pairs_before[p0]).candidate.movie_id == cv[j].movie_id
                                && pairs_before[p0].candidate.source == cv[j].source
                                && pairs_before[p0].score == sv[j];
                        assert(pairs@[p0] == pairs_before[p0]);
                    } else {
                        assert(pairs@[pairs@.len() - 1].candidate == cv[i as int]);
                    }
                }
            }
            i = i + 1;
        }
        let ghost pairs_view = pairs@;
        let sorted = sort_scored_desc(pairs);
        let ghost sorted_full = sorted@;
        let mut sorted = sorted;
        if sorted.len() > limit {
            sorted.truncate(limit);
        }
        proof {
            lemma_elements_carry(
                pairs_view,
                sorted_full,
                |p: ScoredCandidate| idx.movie_map().contains_key(p.candidate.movie_id),
            );
            lemma_elements_carry(
                pairs_view,
                sorted_full,
                |p: ScoredCandidate|
                    pair_in_input(
                        idx,
                        cv,
                        sv,
                        n as int,
                        p.candidate.movie_id,
                        p.candidate.source,
                        p.score,
                    ),
            );
        }
        let mut out: Vec<MovieRecommendation> = Vec::new();
        let mut k: usize = 0;
        while k < sorted.len()
            invariant
                self.wf(),
                idx == self.index(),
                k <= sorted@.len(),
                out@.len() == k,
                sorted_desc_scored(sorted@),
                forall|p: int|
                    0 <= p < sorted@.len() ==> idx.movie_map().contains_key(
                        (#[trigger] sorted@[p]).candidate.movie_id,
                    ),
                forall|p: int|
                    0 <= p < k ==> (#[trigger] out@[p]).score == sorted@[p].score
                        && out@[p].movie_id == sorted@[p].candidate.movie_id && out@[p].source
                        == sorted@[p].candidate.source,
                forall|p: int|
                    0 <= p < k ==> {
                        let rec = #[trigger] out@[p];
                        &&& idx.movie_map().contains_key(rec.movie_id)
                        &&& rec.title@ == idx.movie_map()[rec.movie_id].title@
                        &&& rec.year == idx.movie_map()[rec.movie_id].year
                        &&& rec.genres@.len() == idx.movie_map()[rec.movie_id].genres@.len()
                        &&& rec.explanation@ == spec_explanation(rec.score, rec.source)
                    },
                forall|p: int, q: int|
                    0 <= p < k && 0 <= q < out@[p].genres@.len() ==> (
                    #[trigger] out@[p].genres@[q])@ == spec_genre_name(
                        idx.movie_map()[out@[p].movie_id].genres@[q],
                    ),
            decreases sorted@.len() - k,
        {
            let entry = &sorted[k];
            let mid = entry.candidate.movie_id;
            let (title, year, genres) = match self.data_index.get_movie(mid) {
                Some(movie) => {
                    let title = crate::strutil::string_from_chars(
                        &crate::parser::chars_of(movie.title.as_str()),
                    );
                    let mut names: Vec<String> = Vec::new();
                    let mut gj: usize = 0;
                    while gj < movie.genres.len()
                        invariant
                            gj <= movie.genres@.len(),
                            names@.len() == gj,
                            forall|q: int|
                                0 <= q < gj ==> (#[trigger] names@[q])@ == spec_genre_name(
                                    movie.genres@[q],
                                ),
                        decreases movie.genres@.len() - gj,
                    {
                        names.push(genre_name(movie.genres[gj]).to_owned());
                        gj = gj + 1;
                    }
                    (title, movie.year, names)
                },
                None => {
                    proof {
                        assert(false);
                    }
                    (String::new(), None, Vec::new())
                },
            };
            let explanation = explanation_line(entry.score, entry.candidate.source);
            let rec = MovieRecommendation {
                movie_id: mid,
                title,
                genres,
                year,
                score: entry.score,
                source: entry.candidate.source,
                explanation,
            };
            out.push(rec);
            k = k + 1;
        }
        proof {
            broadcast use vstd::seq_lib::group_to_multiset_ensures;

            let resolvable = count_resolvable(idx, cv, n as int);
            if resolvable <= limit {
                assert(sorted_full.len() == resolvable);
                assert(sorted@ == sorted_full);
                assert forall|j: int|
                    0 <= j < n && idx.movie_map().contains_key(
                        (#[trigger] cv[j]).movie_id,
                    ) implies pair_in_output(out@, cv[j].movie_id, cv[j].source, sv[j]) by {
                    let p0 = choose|p0: int|
                        0 <= p0 < pairs_view.len() && (
                        #[trigger] pairs_view[p0]).candidate.movie_id == cv[j].movie_id
                            && pairs_view[p0].candidate.source == cv[j].source
                            && pairs_view[p0].score == sv[j];
                    assert(pairs_view.to_multiset().contains(pairs_view[p0]));
                    assert(sorted_full.contains(pairs_view[p0]));
                    let q = choose|q: int|
                        0 <= q < sorted_full.len() && #[trigger] sorted_full[q] == pairs_view[p0];
                    assert(out@[q].movie_id == cv[j].movie_id);
                }
            }
        }
        Ok(out)
    }

    /// Prepares one request up to the scoring boundary: context,
    /// candidate generation, merge, filters and features. Fails exactly
    /// when the user is unknown.
    pub fn prepare_request(&self, user_id: UserId) -> (r: Result<
        (UserContext, Vec<Candidate>, Vec<CandidateFeatures>),
        RecommendError,
    >)
        requires
            self.wf(),
        ensures
            r is Ok <==> self.index().user_map().contains_key(user_id),
            r matches Ok(p) ==> {
                &&& crate::user_context::built_context_ok(self.index(), user_id, p.0)
                &&& prepared_candidates_ok(*self, p.0, p.1@)
                &&& p.2@.len() == p.1@.len()
                &&& forall|i: int|
                    0 <= i < p.2@.len() ==> #[trigger] p.2@[i] == spec_features_for(
                        self.index(),
                        p.0,
                        p.1@[i],
                    )
            },
    {
        let context = match self.build_user_context(user_id) {
            Ok(ctx) => ctx,
            Err(e) => {
                return Err(e);
            },
        };
        let (thunder_candidates, phoenix_candidates) = self.generate_candidates(&context);
        let ghost tc = thunder_candidates@;
        let ghost pc = phoenix_candidates@;
        let merged = self.merge_candidates(thunder_candidates, phoenix_candidates);
        let ghost mc = merged@;
        let filtered = match self.apply_filters(merged, &context) {
            Ok(v) => v,
            Err(e) => {
                proof {
                    assert(false);
                }
                return Err(e);
            },
        };
        let features = self.compute_features(&filtered, &context);
        proof {
            assert(merged_matches(spec_merged(tc, pc), mc));
            assert(prepared_candidates_ok(*self, context, filtered@));
        }
        Ok((context, filtered, features))
    }

    /// Finishes one request after scoring: the defensive length check
    /// between candidates and features, the response-length check between
    /// features and scores, then ranking. A response of the wrong length
    /// is the remote-scoring error; a features list of the wrong length is
    /// the internal-mismatch error.
    pub fn complete_request(
        &self,
        candidates: Vec<Candidate>,
        features: Vec<CandidateFeatures>,
        scores: Vec<i64>,
        limit: usize,
    ) -> (r: Result<Vec<MovieRecommendation>, RecommendError>)
        requires
            self.wf(),
        ensures
            r is Ok <==> (features@.len() == candidates@.len() && scores@.len()
                == features@.len()),
            features@.len() == candidates@.len() && scores@.len() != features@.len()
                ==> r matches Err(RecommendError::RemoteScoring(_)),
            features@.len() != candidates@.len() ==> (r matches Err(
                RecommendError::InternalMismatch { expected, got },
            ) && expected == candidates@.len() && got == features@.len()),
            r matches Ok(out) ==> ranked_output_ok(
                self.index(),
                candidates@,
                scores@,
                limit as int,
                out@,
            ),
    {
        if features.len() != candidates.len() {
            let expected = candidates.len();
            let got = features.len();
            return Err(RecommendError::InternalMismatch { expected, got });
        }
        let scores = match validate_score_response(features.len(), scores) {
            Ok(v) => v,
            Err(e) => {
                return Err(RecommendError::RemoteScoring(e));
            },
        };
        self.rank_and_select(candidates, features, scores, limit)
    }
}

/// The merged list mirrors the merged store of the candidates folded so
/// far: unique ids, entries equal to the store's, and every stored id
/// present.
pub open spec fn merge_invariant(acc: Seq<Candidate>, processed: Seq<Candidate>) -> bool {
    &&& forall|i: int, j: int|
        0 <= i < j < acc.len() ==> (#[trigger] acc[i]).movie_id != (#[trigger] acc[j]).movie_id
    &&& forall|i: int|
        0 <= i < acc.len() ==> merge_fold(processed).contains_key((#[trigger] acc[i]).movie_id)
            && acc[i] == merge_fold(processed)[acc[i].movie_id]
    &&& forall|k: u32|
        #[trigger] merge_fold(processed).contains_key(k) ==> exists|i: int|
            0 <= i < acc.len() && (#[trigger] acc[i]).movie_id == k
}

/// Folds one candidate into the merged list.
fn merge_one(acc: &mut Vec<Candidate>, c: Candidate, processed: Ghost<Seq<Candidate>>)
    requires
        merge_invariant(old(acc)@, processed@),
    ensures
        merge_invariant(final(acc)@, processed@.push(c)),
{
    proof {
        assert(processed@.push(c).drop_last() =~= processed@);
        assert(processed@.push(c).last() == c);
    }
    let ghost fold_before = merge_fold(processed@);
    let ghost fold_after = merge_fold(processed@.push(c));
    match crate::phoenix::find_candidate(acc, c.movie_id) {
        Some(j) => {
            proof {
                assert(fold_before.contains_key(c.movie_id));
            }
            if c.base_score > acc[j].base_score {
                let _ = acc.remove(j);
                acc.insert(j, c);
                proof {
                    assert(fold_after == fold_before.insert(c.movie_id, c));
                    assert forall|k: u32| #[trigger] fold_after.contains_key(k) implies exists|
                        i: int,
                    |
                        0 <= i < acc@.len() && (#[trigger] acc@[i]).movie_id == k by {
                        if k == c.movie_id {
                            assert(acc@[j as int].movie_id == k);
                        } else {
                            assert(fold_before.contains_key(k));
                            let i0 = choose|i0: int|
                                0 <= i0 < old(acc)@.len() && (#[trigger] old(acc)@[i0]).movie_id
                                    == k;
                            assert(acc@[i0].movie_id == k);
                        }
                    }
                }
            } else {
                proof {
                    assert(fold_after == fold_before);
                }
            }
        },
        None => {
            proof {
                if fold_before.contains_key(c.movie_id) {
                    let i0 = choose|i0: int|
                        0 <= i0 < old(acc)@.len() && (#[trigger] old(acc)@[i0]).movie_id
                            == c.movie_id;
                    assert(false);
                }
                assert(fold_after == fold_before.insert(c.movie_id, c));
            }
            acc.push(c);
            proof {
                assert forall|k: u32| #[trigger] fold_after.contains_key(k) implies exists|i: int|
                    0 <= i < acc@.len() && (#[trigger] acc@[i]).movie_id == k by {
                    if k == c.movie_id {
                        assert(acc@[acc@.len() - 1].movie_id == k);
                    } else {
                        assert(fold_before.contains_key(k));
                        let i0 = choose|i0: int|
                            0 <= i0 < old(acc)@.len() && (#[trigger] old(acc)@[i0]).movie_id == k;
                        assert(acc@[i0].movie_id == k);
                    }
                }
            }
        },
    }
}

/// Whether, among the first `n` input positions, some resolvable
/// candidate carries this movie, source and score.
pub open spec fn pair_in_input(
    idx: DataIndex,
    cands: Seq<Candidate>,
    scores: Seq<i64>,
    n: int,
    mid: u32,
    source: CandidateSource,
    score: i64,
) -> bool {
    exists|j: int|
        0 <= j < n && idx.movie_map().contains_key((#[trigger] cands[j]).movie_id)
            && cands[j].movie_id == mid && cands[j].source == source && scores[j] == score
}

/// Whether some answer entry carries this movie, source and score.
pub open spec fn pair_in_output(
    out: Seq<MovieRecommendation>,
    mid: u32,
    source: CandidateSource,
    score: i64,
) -> bool {
    exists|i: int|
        0 <= i < out.len() && (#[trigger] out[i]).movie_id == mid && out[i].source == source
            && out[i].score == score
}

/// Whether some scored candidate carries this movie, source and score.
pub open spec fn pair_in_scored(
    s: Seq<ScoredCandidate>,
    mid: u32,
    source: CandidateSource,
    score: i64,
) -> bool {
    exists|p: int|
        0 <= p < s.len() && (#[trigger] s[p]).candidate.movie_id == mid && s[p].candidate.source
            == source && s[p].score == score
}

/// The ranked answer a candidate list and score list yield: as many
/// entries as fit (the limit, or every resolvable candidate when fewer),
/// sorted by score, best first; every entry pairs an input candidate with
/// its own score and carries its movie's title, genre names, year and an
/// explanation line; and, when nothing was cut, every resolvable input
/// pair appears.
pub open spec fn ranked_output_ok(
    idx: DataIndex,
    cands: Seq<Candidate>,
    scores: Seq<i64>,
    limit: int,
    out: Seq<MovieRecommendation>,
) -> bool {
    let n = if cands.len() <= scores.len() {
        cands.len() as int
    } else {
        scores.len() as int
    };
    let resolvable = count_resolvable(idx, cands, n);
    &&& out.len() == if limit <= resolvable {
        limit
    } else {
        resolvable
    }
    &&& out.len() <= limit
    &&& forall|i: int, j: int|
        0 <= i < j < out.len() ==> (#[trigger] out[i]).score >= (#[trigger] out[j]).score
    &&& forall|i: int|
        0 <= i < out.len() ==> {
            let rec = #[trigger] out[i];
            &&& idx.movie_map().contains_key(rec.movie_id)
            &&& rec.title@ == idx.movie_map()[rec.movie_id].title@
            &&& rec.year == idx.movie_map()[rec.movie_id].year
            &&& rec.genres@.len() == idx.movie_map()[rec.movie_id].genres@.len()
            &&& rec.explanation@ == spec_explanation(rec.score, rec.source)
        }
    &&& forall|i: int, q: int|
        0 <= i < out.len() && 0 <= q < out[i].genres@.len() ==> (#[trigger] out[i].genres@[q])@
            == spec_genre_name(idx.movie_map()[out[i].movie_id].genres@[q])
    &&& forall|i: int|
        0 <= i < out.len() ==> pair_in_input(
            idx,
            cands,
            scores,
            n,
            (#[trigger] out[i]).movie_id,
            out[i].source,
            out[i].score,
        )
    &&& resolvable <= limit ==> forall|j: int|
        0 <= j < n && idx.movie_map().contains_key((#[trigger] cands[j]).movie_id)
            ==> pair_in_output(out, cands[j].movie_id, cands[j].source, scores[j])
}

/// How many of the first `n` candidates the index can resolve to a
/// movie.
pub open spec fn count_resolvable(idx: DataIndex, cands: Seq<Candidate>, n: int) -> int
    decreases n,
{
    if n <= 0 {
        0
    } else {
        count_resolvable(idx, cands, n - 1) + if idx.movie_map().contains_key(
            cands[n - 1].movie_id,
        ) {
            1int
        } else {
            0
        }
    }
}

} // verus!
