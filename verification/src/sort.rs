//! Verified selection sorts for the orderings the pipeline needs. Each
//! sort returns a permutation of its input; equal keys keep their first
//! occurrence earliest.

use vstd::prelude::*;
use vstd::seq_lib::group_to_multiset_ensures;
use vstd::multiset::Multiset;
use crate::candidate::{Candidate, sorted_desc_scores, spec_has_movie};

verus! {

/// Sorts candidates by score, highest first.
pub fn sort_candidates_desc(v: Vec<Candidate>) -> (r: Vec<Candidate>)
    ensures
        r@.len() == v@.len(),
        r@.to_multiset() == v@.to_multiset(),
        sorted_desc_scores(r@),
{
    broadcast use group_to_multiset_ensures;

    let mut rest = v;
    let mut out: Vec<Candidate> = Vec::new();
    proof {
        assert(out@.to_multiset().add(rest@.to_multiset()) =~= v@.to_multiset());
    }
    while rest.len() > 0
        invariant
            out@.len() + rest@.len() == v@.len(),
            out@.to_multiset().add(rest@.to_multiset()) == v@.to_multiset(),
            sorted_desc_scores(out@),
            forall|i: int, j: int|
                0 <= i < out@.len() && 0 <= j < rest@.len() ==> out@[i].base_score
                    >= rest@[j].base_score,
        decreases rest@.len(),
    {
        let mut mi: usize = 0;
        let mut k: usize = 1;
        while k < rest.len()
            invariant
                mi < k <= rest@.len() || (k <= rest@.len() && mi == 0),
                mi < rest@.len(),
                rest@.len() > 0,
                forall|j: int| 0 <= j < k ==> rest@[j].base_score <= rest@[mi as int].base_score,
            decreases rest@.len() - k,
        {
            if rest[k].base_score > rest[mi].base_score {
                mi = k;
            }
            k = k + 1;
        }
        let ghost before = rest@;
        let ghost out_before = out@;
        let c = rest.remove(mi);
        out.push(c);
        proof {
            broadcast use group_to_multiset_ensures;

            assert(before.remove(mi as int).to_multiset() =~= before.to_multiset().remove(c));
            assert(out@ == out_before.push(c));
            assert(out_before.push(c).to_multiset() =~= out_before.to_multiset().insert(c));
            assert(out@.to_multiset().add(rest@.to_multiset()) =~= out_before.to_multiset().add(
                before.to_multiset(),
            ));
            assert(forall|j: int|
                0 <= j < rest@.len() ==> rest@[j].base_score <= c.base_score);
        }
    }
    proof {
        assert(rest@.to_multiset() =~= Multiset::<Candidate>::empty());
        assert(out@.to_multiset().add(Multiset::<Candidate>::empty()) =~= out@.to_multiset());
    }
    out
}

/// Pair values never increase along the list.
pub open spec fn sorted_desc_second(s: Seq<(u32, u64)>) -> bool {
    forall|i: int, j: int| 0 <= i < j < s.len() ==> s[i].1 >= s[j].1
}

/// Sorts pairs by their second component, highest first.
pub fn sort_pairs_desc(v: Vec<(u32, u64)>) -> (r: Vec<(u32, u64)>)
    ensures
        r@.len() == v@.len(),
        r@.to_multiset() == v@.to_multiset(),
        sorted_desc_second(r@),
{
    broadcast use group_to_multiset_ensures;

    let mut rest = v;
    let mut out: Vec<(u32, u64)> = Vec::new();
    proof {
        assert(out@.to_multiset().add(rest@.to_multiset()) =~= v@.to_multiset());
    }
    while rest.len() > 0
        invariant
            out@.len() + rest@.len() == v@.len(),
            out@.to_multiset().add(rest@.to_multiset()) == v@.to_multiset(),
            sorted_desc_second(out@),
            forall|i: int, j: int|
                0 <= i < out@.len() && 0 <= j < rest@.len() ==> out@[i].1 >= rest@[j].1,
        decreases rest@.len(),
    {
        let mut mi: usize = 0;
        let mut k: usize = 1;
        while k < rest.len()
            invariant
                mi < rest@.len(),
                k <= rest@.len(),
                rest@.len() > 0,
                forall|j: int| 0 <= j < k ==> rest@[j].1 <= rest@[mi as int].1,
            decreases rest@.len() - k,
        {
            if rest[k].1 > rest[mi].1 {
                mi = k;
            }
            k = k + 1;
        }
        let ghost before = rest@;
        let ghost out_before = out@;
        let c = rest.remove(mi);
        out.push(c);
        proof {
            broadcast use group_to_multiset_ensures;

            assert(before.remove(mi as int).to_multiset() =~= before.to_multiset().remove(c));
            assert(out@ == out_before.push(c));
            assert(out_before.push(c).to_multiset() =~= out_before.to_multiset().insert(c));
            assert(out@.to_multiset().add(rest@.to_multiset()) =~= out_before.to_multiset().add(
                before.to_multiset(),
            ));
            assert(forall|j: int| 0 <= j < rest@.len() ==> rest@[j].1 <= c.1);
        }
    }
    proof {
        assert(rest@.to_multiset() =~= Multiset::<(u32, u64)>::empty());
        assert(out@.to_multiset().add(Multiset::<(u32, u64)>::empty()) =~= out@.to_multiset());
    }
    out
}

/// A candidate paired with the score the scoring stage returned for it,
/// in thousandths.
pub struct ScoredCandidate {
    pub candidate: Candidate,
    pub score: i64,
}

/// Returned scores never increase along the list.
pub open spec fn sorted_desc_scored(s: Seq<ScoredCandidate>) -> bool {
    forall|i: int, j: int| 0 <= i < j < s.len() ==> s[i].score >= s[j].score
}

/// Sorts scored candidates by returned score, highest first.
pub fn sort_scored_desc(v: Vec<ScoredCandidate>) -> (r: Vec<ScoredCandidate>)
    ensures
        r@.len() == v@.len(),
        r@.to_multiset() == v@.to_multiset(),
        sorted_desc_scored(r@),
{
    broadcast use group_to_multiset_ensures;

    let mut rest = v;
    let mut out: Vec<ScoredCandidate> = Vec::new();
    proof {
        assert(out@.to_multiset().add(rest@.to_multiset()) =~= v@.to_multiset());
    }
    while rest.len() > 0
        invariant
            out@.len() + rest@.len() == v@.len(),
            out@.to_multiset().add(rest@.to_multiset()) == v@.to_multiset(),
            sorted_desc_scored(out@),
            forall|i: int, j: int|
                0 <= i < out@.len() && 0 <= j < rest@.len() ==> out@[i].score >= rest@[j].score,
        decreases rest@.len(),
    {
        let mut mi: usize = 0;
        let mut k: usize = 1;
        while k < rest.len()
            invariant
                mi < rest@.len(),
                k <= rest@.len(),
                rest@.len() > 0,
                forall|j: int| 0 <= j < k ==> rest@[j].score <= rest@[mi as int].score,
            decreases rest@.len() - k,
        {
            if rest[k].score > rest[mi].score {
                mi = k;
            }
            k = k + 1;
        }
        let ghost before = rest@;
        let ghost out_before = out@;
        let c = rest.remove(mi);
        out.push(c);
        proof {
            broadcast use group_to_multiset_ensures;

            assert(before.remove(mi as int).to_multiset() =~= before.to_multiset().remove(c));
            assert(out@ == out_before.push(c));
            assert(out_before.push(c).to_multiset() =~= out_before.to_multiset().insert(c));
            assert(out@.to_multiset().add(rest@.to_multiset()) =~= out_before.to_multiset().add(
                before.to_multiset(),
            ));
            assert(forall|j: int| 0 <= j < rest@.len() ==> rest@[j].score <= c.score);
        }
    }
    proof {
        assert(rest@.to_multiset() =~= Multiset::<ScoredCandidate>::empty());
        assert(out@.to_multiset().add(Multiset::<ScoredCandidate>::empty())
            =~= out@.to_multiset());
    }
    out
}

/// A permutation holds the same movies.
pub proof fn lemma_permutation_keeps_movies(a: Seq<Candidate>, b: Seq<Candidate>)
    requires
        a.to_multiset() == b.to_multiset(),
    ensures
        forall|m: u32| spec_has_movie(a, m) <==> spec_has_movie(b, m),
{
    broadcast use group_to_multiset_ensures;

    assert forall|m: u32| spec_has_movie(a, m) <==> spec_has_movie(b, m) by {
        if spec_has_movie(a, m) {
            let i = choose|i: int| 0 <= i < a.len() && (#[trigger] a[i]).movie_id == m;
            assert(a.to_multiset().contains(a[i]));
            assert(b.contains(a[i]));
            let j = choose|j: int| 0 <= j < b.len() && #[trigger] b[j] == a[i];
            assert(b[j].movie_id == m);
        }
        if spec_has_movie(b, m) {
            let i = choose|i: int| 0 <= i < b.len() && (#[trigger] b[i]).movie_id == m;
            assert(b.to_multiset().contains(b[i]));
            assert(a.contains(b[i]));
            let j = choose|j: int| 0 <= j < a.len() && #[trigger] a[j] == b[i];
            assert(a[j].movie_id == m);
        }
    }
}

/// If no two elements of a list share a key, no two elements of any
/// permutation of it do either.
pub proof fn lemma_permutation_keeps_distinct_keys<T>(a: Seq<T>, b: Seq<T>, key: spec_fn(T) -> u32)
    requires
        a.to_multiset() == b.to_multiset(),
        forall|i: int, j: int| 0 <= i < j < a.len() ==> key(a[i]) != key(a[j]),
    ensures
        forall|i: int, j: int| 0 <= i < j < b.len() ==> key(b[i]) != key(b[j]),
{
    broadcast use group_to_multiset_ensures;

    assert forall|i: int, j: int| 0 <= i < j < b.len() implies key(b[i]) != key(b[j]) by {
        if key(b[i]) == key(b[j]) {
            if b[i] == b[j] {
                assert(b.remove(j).to_multiset() == b.to_multiset().remove(b[j]));
                assert(b.remove(j)[i] == b[i]);
                assert(b.remove(j).to_multiset().contains(b[i]));
                assert(b.to_multiset().count(b[i]) >= 2);
                assert(a.to_multiset().count(b[i]) >= 2);
                assert(a.contains(b[i]));
                let k1 = choose|k1: int| 0 <= k1 < a.len() && #[trigger] a[k1] == b[i];
                assert(a.remove(k1).to_multiset() == a.to_multiset().remove(a[k1]));
                assert(a.remove(k1).to_multiset().count(b[i]) >= 1);
                assert(a.remove(k1).contains(b[i]));
                let k2 = choose|k2: int|
                    0 <= k2 < a.remove(k1).len() && #[trigger] a.remove(k1)[k2] == b[i];
                if k2 < k1 {
                    assert(a[k2] == b[i]);
                    assert(key(a[k2]) == key(a[k1]));
                } else {
                    assert(a[k2 + 1] == b[i]);
                    assert(key(a[k1]) == key(a[k2 + 1]));
                }
            } else {
                assert(b.to_multiset().contains(b[i]));
                assert(a.contains(b[i]));
                assert(b.to_multiset().contains(b[j]));
                assert(a.contains(b[j]));
                let k1 = choose|k1: int| 0 <= k1 < a.len() && #[trigger] a[k1] == b[i];
                let k2 = choose|k2: int| 0 <= k2 < a.len() && #[trigger] a[k2] == b[j];
                assert(k1 != k2);
                assert(key(a[k1]) == key(a[k2]));
            }
        }
    }
}

/// A property of every element survives any permutation and any
/// truncation to a prefix of it.
pub proof fn lemma_elements_carry<T>(a: Seq<T>, b: Seq<T>, p: spec_fn(T) -> bool)
    requires
        a.to_multiset() == b.to_multiset(),
        forall|i: int| 0 <= i < a.len() ==> p(#[trigger] a[i]),
    ensures
        forall|i: int| 0 <= i < b.len() ==> p(#[trigger] b[i]),
{
    broadcast use group_to_multiset_ensures;

    assert forall|i: int| 0 <= i < b.len() implies p(#[trigger] b[i]) by {
        assert(b.to_multiset().contains(b[i]));
        assert(a.to_multiset().contains(b[i]));
        assert(a.contains(b[i]));
        let j = choose|j: int| 0 <= j < a.len() && #[trigger] a[j] == b[i];
        assert(p(a[j]));
    }
}

} // verus!
