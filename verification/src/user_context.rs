//! A per-request snapshot of one user's taste: what they watched, what
//! they rated highly, their per-genre averages, their preferred era, and
//! their overall average rating.

use vstd::prelude::*;
use std::collections::HashSet;
use crate::types::{Genre, Movie, Rating, UserId, MovieId, Milli};
use crate::index::{DataIndex, movie_has_genre, spec_avg_milli, spec_sum_tenths};
use crate::types::{GENRE_COUNT, genre_from_index, has_genre, lemma_genre_index_injective, spec_genre_index};
use crate::errors::RecommendError;
use crate::seqtools::lemma_filter_push;

verus! {

broadcast use vstd::std_specs::hash::group_hash_axioms;

/// The fixed threshold above which a rating counts as high: 4.0 stars in
/// tenths.
pub const HIGH_RATING_TENTHS: u32 = 40;

/// A rating at or above the high threshold, as a function value.
pub open spec fn high_pred() -> spec_fn(Rating) -> bool {
    |r: Rating| r.rating >= HIGH_RATING_TENTHS
}

/// The movie a rating names, as a function value.
pub open spec fn movie_id_fn() -> spec_fn(Rating) -> MovieId {
    |r: Rating| r.movie_id
}

/// Whether some rating in the list names the movie.
pub open spec fn spec_watched(rs: Seq<Rating>, m: u32) -> bool {
    exists|j: int| 0 <= j < rs.len() && rs[j].movie_id == m
}

/// The per-genre preference a rating list yields under a movie store:
/// summed rating (tenths) and rating count over the ratings whose movie
/// carries the genre.
pub open spec fn spec_genre_sum(movies: Map<u32, Movie>, rs: Seq<Rating>, g: Genre) -> int
    decreases rs.len(),
{
    if rs.len() == 0 {
        0
    } else {
        spec_genre_sum(movies, rs.drop_last(), g) + if movie_has_genre(
            movies,
            rs.last().movie_id,
            g,
        ) {
            rs.last().rating as int
        } else {
            0
        }
    }
}

/// How many ratings in the list fall on movies carrying the genre.
pub open spec fn spec_genre_cnt(movies: Map<u32, Movie>, rs: Seq<Rating>, g: Genre) -> int
    decreases rs.len(),
{
    if rs.len() == 0 {
        0
    } else {
        spec_genre_cnt(movies, rs.drop_last(), g) + if movie_has_genre(
            movies,
            rs.last().movie_id,
            g,
        ) {
            1int
        } else {
            0
        }
    }
}

/// The average rating for one genre, in thousandths; nothing when no
/// rated movie carries the genre.
pub open spec fn spec_genre_pref(movies: Map<u32, Movie>, rs: Seq<Rating>, g: Genre) -> Option<
    u64,
> {
    if spec_genre_cnt(movies, rs, g) > 0 {
        Some((spec_genre_sum(movies, rs, g) * 100 / spec_genre_cnt(movies, rs, g)) as u64)
    } else {
        None
    }
}

/// The preference an association list holds for a genre: the latest entry
/// wins.
pub open spec fn spec_pref_of(s: Seq<(Genre, u64)>, g: Genre) -> Option<u64>
    decreases s.len(),
{
    if s.len() == 0 {
        None
    } else if s.last().0 == g {
        Some(s.last().1)
    } else {
        spec_pref_of(s.drop_last(), g)
    }
}

/// The first position holding the greatest preference value.
pub open spec fn spec_first_max(s: Seq<(Genre, u64)>) -> int
    decreases s.len(),
{
    if s.len() <= 1 {
        0
    } else {
        let m = spec_first_max(s.drop_last());
        if s.last().1 > s[m].1 {
            s.len() - 1
        } else {
            m
        }
    }
}

proof fn lemma_first_max_bounds(s: Seq<(Genre, u64)>)
    requires
        s.len() > 0,
    ensures
        0 <= spec_first_max(s) < s.len(),
        forall|j: int| 0 <= j < s.len() ==> (#[trigger] s[j]).1 <= s[spec_first_max(s)].1,
    decreases s.len(),
{
    if s.len() > 1 {
        lemma_first_max_bounds(s.drop_last());
        assert(forall|j: int| 0 <= j < s.len() - 1 ==> s[j] == s.drop_last()[j]);
    }
}

/// The genres with the highest preferences, best first, at most `n` of
/// them, ties resolved toward the earlier entry.
pub open spec fn spec_top_genres(s: Seq<(Genre, u64)>, n: int) -> Seq<Genre>
    decreases n, s.len(),
{
    if n <= 0 || s.len() == 0 {
        Seq::empty()
    } else {
        let m = spec_first_max(s);
        if 0 <= m < s.len() {
            seq![s[m].0] + spec_top_genres(s.remove(m), n - 1)
        } else {
            Seq::empty()
        }
    }
}

/// A user's taste profile, derived once per request.
pub struct UserContext {
    pub user_id: UserId,
    /// Every movie the user has rated.
    pub watched_movies: HashSet<MovieId>,
    /// Movies rated at or above 4.0 stars, in rating order.
    pub highly_rated_movies: Vec<MovieId>,
    /// Per-genre average rating in thousandths, keyed uniquely by genre.
    pub genre_preferences: Vec<(Genre, u64)>,
    /// Lower-median release year of the highly-rated movies, when any has
    /// a known year.
    pub preferred_era: Option<u16>,
    /// Overall average rating in thousandths.
    pub avg_rating: Milli,
}

impl UserContext {
    /// The per-genre preference entries, earliest genre first.
    pub open spec fn prefs(&self) -> Seq<(Genre, u64)> {
        self.genre_preferences@
    }

    /// The preference held for a genre.
    pub open spec fn pref_of(&self, g: Genre) -> Option<u64> {
        spec_pref_of(self.prefs(), g)
    }

    /// Genre entries are unique.
    pub open spec fn prefs_wf(&self) -> bool {
        forall|i: int, j: int|
            0 <= i < j < self.genre_preferences@.len() ==> (#[trigger] self.genre_preferences@[i]).0 != (
            #[trigger] self.genre_preferences@[j]).0
    }

    /// An empty context: nothing watched, nothing highly rated, no genre
    /// preferences, no era, zero average.
    pub fn new(user_id: UserId) -> (r: Self)
        ensures
            r.user_id == user_id,
            r.watched_movies@ == Set::<MovieId>::empty(),
            r.highly_rated_movies@ == Seq::<MovieId>::empty(),
            r.prefs() == Seq::<(Genre, u64)>::empty(),
            r.prefs_wf(),
            r.preferred_era is None,
            r.avg_rating == 0,
    {
        UserContext {
            user_id,
            watched_movies: HashSet::new(),
            highly_rated_movies: Vec::new(),
            genre_preferences: Vec::new(),
            preferred_era: None,
            avg_rating: 0,
        }
    }

    /// The preference held for a genre.
    pub fn genre_preference(&self, g: Genre) -> (r: Option<u64>)
        ensures
            r == self.pref_of(g),
    {
        let mut i: usize = self.genre_preferences.len();
        proof {
            assert(self.genre_preferences@.take(i as int) =~= self.genre_preferences@);
        }
        while i > 0
            invariant
                i <= self.genre_preferences@.len(),
                spec_pref_of(self.genre_preferences@, g) == spec_pref_of(
                    self.genre_preferences@.take(i as int),
                    g,
                ),
            decreases i,
        {
            i = i - 1;
            let e = self.genre_preferences[i];
            proof {
                assert(self.genre_preferences@.take(i + 1 as int).last() == self.genre_preferences@[i as int]);
                assert(self.genre_preferences@.take(i + 1 as int).drop_last() =~= self
                    .genre_preferences@.take(i as int));
            }
            if e.0 == g {
                return Some(e.1);
            }
        }
        proof {
            assert(self.genre_preferences@.take(0) =~= Seq::<(Genre, u64)>::empty());
        }
        None
    }

    /// Sets the preference for a genre, replacing any earlier entry.
    pub fn set_genre_preference(&mut self, g: Genre, v: u64)
        requires
            old(self).prefs_wf(),
        ensures
            final(self).prefs_wf(),
            final(self).pref_of(g) == Some(v),
            forall|g2: Genre| g2 != g ==> #[trigger] final(self).pref_of(g2) == old(self).pref_of(g2),
            final(self).user_id == old(self).user_id,
            final(self).watched_movies@ == old(self).watched_movies@,
            final(self).highly_rated_movies@ == old(self).highly_rated_movies@,
            final(self).preferred_era == old(self).preferred_era,
            final(self).avg_rating == old(self).avg_rating,
    {
        let ghost before = self.genre_preferences@;
        let mut i: usize = 0;
        while i < self.genre_preferences.len()
            invariant
                *self == *old(self),
                old(self).prefs_wf(),
                before == self.genre_preferences@,
                i <= self.genre_preferences@.len(),
                forall|j: int| 0 <= j < i ==> (#[trigger] self.genre_preferences@[j]).0 != g,
            decreases self.genre_preferences@.len() - i,
        {
            if self.genre_preferences[i].0 == g {
                self.genre_preferences.set(i, (g, v));
                proof {
                    lemma_pref_of_unique_update(before, i as int, g, v);
                    assert forall|a: int, b: int|
                        0 <= a < b < self.genre_preferences@.len() implies (
                    #[trigger] self.genre_preferences@[a]).0 != (#[trigger] self.genre_preferences@[b]).0 by {
                        assert(before[a].0 != before[b].0);
                    }
                }
                return ;
            }
            i = i + 1;
        }
        self.genre_preferences.push((g, v));
        proof {
            assert forall|g2: Genre| g2 != g implies #[trigger] spec_pref_of(
                self.genre_preferences@,
                g2,
            ) == spec_pref_of(before, g2) by {
                assert(self.genre_preferences@.drop_last() =~= before);
            }
            assert(self.genre_preferences@.drop_last() =~= before);
        }
    }

    /// The user's best-loved genres: up to `n`, ranked by per-genre
    /// average, ties toward the earlier entry.
    #[verifier::rlimit(50)]
    pub fn top_genres(&self, n: usize) -> (r: Vec<Genre>)
        ensures
            r@ == spec_top_genres(self.prefs(), n as int),
    {
        let mut remaining: Vec<(Genre, u64)> = Vec::new();
        let mut i: usize = 0;
        while i < self.genre_preferences.len()
            invariant
                i <= self.genre_preferences@.len(),
                remaining@ == self.genre_preferences@.take(i as int),
            decreases self.genre_preferences@.len() - i,
        {
            remaining.push(self.genre_preferences[i]);
            proof {
                assert(remaining@ =~= self.genre_preferences@.take(i + 1 as int));
            }
            i = i + 1;
        }
        proof {
            assert(self.genre_preferences@.take(self.genre_preferences@.len() as int) =~= self.genre_preferences@);
        }
        let mut out: Vec<Genre> = Vec::new();
        let mut cnt: usize = 0;
        while cnt < n && remaining.len() > 0
            invariant
                cnt <= n,
                spec_top_genres(self.prefs(), n as int) == out@ + spec_top_genres(
                    remaining@,
                    n - cnt,
                ),
            decreases n - cnt,
        {
            let mut mi: usize = 0;
            let mut k: usize = 1;
            while k < remaining.len()
                invariant
                    mi < remaining@.len(),
                    k <= remaining@.len(),
                    remaining@.len() > 0,
                    mi == spec_first_max(remaining@.take(k as int)),
                    mi < k,
                decreases remaining@.len() - k,
            {
                proof {
                    assert(remaining@.take(k + 1 as int).drop_last() =~= remaining@.take(k as int));
                    assert(remaining@.take(k + 1 as int).last() == remaining@[k as int]);
                }
                if remaining[k].1 > remaining[mi].1 {
                    mi = k;
                }
                k = k + 1;
            }
            proof {
                assert(remaining@.take(remaining@.len() as int) =~= remaining@);
                lemma_first_max_bounds(remaining@);
            }
            let picked = remaining[mi];
            out.push(picked.0);
            let ghost rem_before = remaining@;
            let ghost out_before = out@;
            let _ = remaining.remove(mi);
            proof {
                assert(spec_top_genres(rem_before, n - cnt) == seq![rem_before[spec_first_max(
                    rem_before,
                )].0] + spec_top_genres(rem_before.remove(spec_first_max(rem_before)), n - cnt
                    - 1));
                assert(out@ + spec_top_genres(remaining@, n - cnt - 1) =~= (out_before.drop_last()
                    + spec_top_genres(rem_before, n - cnt)));
            }
            cnt = cnt + 1;
        }
        proof {
            assert(spec_top_genres(remaining@, n - cnt) =~= Seq::<Genre>::empty());
            assert(out@ + Seq::<Genre>::empty() =~= out@);
        }
        out
    }
}

/// Updating the unique entry of a genre replaces its preference and
/// leaves every other genre's preference alone.
proof fn lemma_pref_of_unique_update(s: Seq<(Genre, u64)>, i: int, g: Genre, v: u64)
    requires
        0 <= i < s.len(),
        s[i].0 == g,
        forall|a: int, b: int| 0 <= a < b < s.len() ==> (#[trigger] s[a]).0 != (#[trigger] s[b]).0,
    ensures
        spec_pref_of(s.update(i, (g, v)), g) == Some(v),
        forall|g2: Genre|
            g2 != g ==> #[trigger] spec_pref_of(s.update(i, (g, v)), g2) == spec_pref_of(s, g2),
    decreases s.len(),
{
    let t = s.update(i, (g, v));
    if i == s.len() - 1 {
        assert(t.last() == (g, v));
        assert(t.drop_last() =~= s.drop_last());
    } else {
        assert(t.last() == s.last());
        assert(forall|j: int| 0 <= j < s.len() - 1 ==> #[trigger] s.drop_last()[j] == s[j]);
        assert(s.last().0 != g);
        assert(t.drop_last() =~= s.drop_last().update(i, (g, v)));
        assert forall|a: int, b: int| 0 <= a < b < s.drop_last().len() implies (
        #[trigger] s.drop_last()[a]).0 != (#[trigger] s.drop_last()[b]).0 by {
            assert(s[a].0 != s[b].0);
        }
        lemma_pref_of_unique_update(s.drop_last(), i, g, v);
    }
    assert forall|g2: Genre|
        g2 != g implies #[trigger] spec_pref_of(s.update(i, (g, v)), g2) == spec_pref_of(
        s,
        g2,
    ) by {
        if i == s.len() - 1 {
            assert(spec_pref_of(t, g2) == spec_pref_of(t.drop_last(), g2));
            assert(spec_pref_of(s, g2) == spec_pref_of(s.drop_last(), g2));
        } else {
            if s.last().0 != g2 {
                assert(spec_pref_of(t, g2) == spec_pref_of(t.drop_last(), g2));
                assert(spec_pref_of(s, g2) == spec_pref_of(s.drop_last(), g2));
                assert(spec_pref_of(s.drop_last().update(i, (g, v)), g2) == spec_pref_of(
                    s.drop_last(),
                    g2,
                ));
            }
        }
    }
}

/// A movie whose release year the store knows, as a function value.
pub open spec fn year_known_pred(movies: Map<u32, Movie>) -> spec_fn(u32) -> bool {
    |m: u32| movies.contains_key(m) && movies[m].year is Some
}

/// The known release year of a movie, as a function value.
pub open spec fn year_of_fn(movies: Map<u32, Movie>) -> spec_fn(u32) -> u16 {
    |m: u32| movies[m].year.unwrap()
}

/// The known release years of a movie list, in list order.
pub open spec fn spec_known_years(movies: Map<u32, Movie>, ms: Seq<u32>) -> Seq<u16> {
    ms.filter(year_known_pred(movies)).map_values(year_of_fn(movies))
}

/// A sequence with one more element placed before the first element not
/// below it.
pub open spec fn spec_insert_sorted(x: u16, s: Seq<u16>) -> Seq<u16>
    decreases s.len(),
{
    if s.len() == 0 {
        seq![x]
    } else if x <= s[0] {
        seq![x] + s
    } else {
        seq![s[0]] + spec_insert_sorted(x, s.drop_first())
    }
}

/// The years sorted ascending, by repeated insertion.
pub open spec fn spec_sort_years(s: Seq<u16>) -> Seq<u16>
    decreases s.len(),
{
    if s.len() == 0 {
        Seq::empty()
    } else {
        spec_insert_sorted(s.last(), spec_sort_years(s.drop_last()))
    }
}

/// The preferred era of a taste profile: the lower median of the known
/// release years of the highly-rated movies, or nothing when no year is
/// known.
pub open spec fn spec_preferred_era(movies: Map<u32, Movie>, highly: Seq<u32>) -> Option<u16> {
    let ys = spec_known_years(movies, highly);
    if ys.len() == 0 {
        None
    } else {
        Some(spec_sort_years(ys)[(ys.len() - 1) as int / 2])
    }
}

proof fn lemma_insert_sorted_len(x: u16, s: Seq<u16>)
    ensures
        spec_insert_sorted(x, s).len() == s.len() + 1,
    decreases s.len(),
{
    if s.len() > 0 && x > s[0] {
        lemma_insert_sorted_len(x, s.drop_first());
    }
}

proof fn lemma_sort_years_len(s: Seq<u16>)
    ensures
        spec_sort_years(s).len() == s.len(),
    decreases s.len(),
{
    if s.len() > 0 {
        lemma_sort_years_len(s.drop_last());
        lemma_insert_sorted_len(s.last(), spec_sort_years(s.drop_last()));
    }
}

/// Inserting at the first position whose element is not below `x` is what
/// `spec_insert_sorted` does.
proof fn lemma_insert_sorted_at(s: Seq<u16>, x: u16, p: int)
    requires
        0 <= p <= s.len(),
        forall|j: int| 0 <= j < p ==> s[j] < x,
        p == s.len() || x <= s[p],
    ensures
        spec_insert_sorted(x, s) == s.take(p).push(x) + s.skip(p),
    decreases s.len(),
{
    if s.len() == 0 {
        assert(spec_insert_sorted(x, s) =~= s.take(p).push(x) + s.skip(p));
    } else if p == 0 {
        assert(s.take(0).push(x) + s.skip(0) =~= seq![x] + s);
    } else {
        assert(s[0] < x);
        assert(forall|j: int| 0 <= j < p - 1 ==> #[trigger] s.drop_first()[j] == s[j + 1]);
        lemma_insert_sorted_at(s.drop_first(), x, p - 1);
        assert(seq![s[0]] + (s.drop_first().take(p - 1).push(x) + s.drop_first().skip(p - 1))
            =~= s.take(p).push(x) + s.skip(p));
    }
}

/// Inserts a year into a sorted list of years.
fn insert_sorted_year(sorted: Vec<u16>, x: u16) -> (r: Vec<u16>)
    ensures
        r@ == spec_insert_sorted(x, sorted@),
{
    let mut v = sorted;
    let mut p: usize = 0;
    while p < v.len() && v[p] < x
        invariant
            p <= v@.len(),
            forall|j: int| 0 <= j < p ==> v@[j] < x,
        decreases v@.len() - p,
    {
        p = p + 1;
    }
    proof {
        lemma_insert_sorted_at(v@, x, p as int);
    }
    let ghost before = v@;
    v.insert(p, x);
    proof {
        assert(v@ =~= before.take(p as int).push(x) + before.skip(p as int));
    }
    v
}

/// Computes the per-genre average ratings of a rating list, keyed
/// uniquely by genre in genre order; a genre missing from every rated
/// movie gets no entry.
fn compute_genre_preferences(index: &DataIndex, rs: &[Rating]) -> (r: Vec<(Genre, u64)>)
    requires
        index.wf(),
    ensures
        forall|g: Genre| #[trigger] spec_pref_of(r@, g) == spec_genre_pref(index.movie_map(), rs@, g),
        forall|i: int, j: int| 0 <= i < j < r@.len() ==> (#[trigger] r@[i]).0 != (#[trigger] r@[j]).0,
    decreases rs@.len(),
{
    let ghost movies = index.movie_map();
    let mut sums: Vec<u128> = Vec::new();
    let mut cnts: Vec<u64> = Vec::new();
    let mut gi: usize = 0;
    while gi < GENRE_COUNT
        invariant
            gi <= GENRE_COUNT,
            sums@.len() == gi,
            cnts@.len() == gi,
            forall|j: int| 0 <= j < gi ==> (#[trigger] sums@[j]) == 0,
            forall|j: int| 0 <= j < gi ==> (#[trigger] cnts@[j]) == 0,
        decreases GENRE_COUNT - gi,
    {
        sums.push(0);
        cnts.push(0);
        gi = gi + 1;
    }
    let mut i: usize = 0;
    let total = rs.len();
    proof {
        assert(rs@.len() == total);
        assert forall|g: Genre| spec_genre_sum(movies, rs@.take(0), g) == 0 && spec_genre_cnt(
            movies,
            rs@.take(0),
            g,
        ) == 0 by {
            assert(rs@.take(0) =~= Seq::<Rating>::empty());
        }
    }
    while i < rs.len()
        invariant
            index.wf(),
            movies == index.movie_map(),
            i <= rs@.len(),
            rs@.len() <= usize::MAX,
            sums@.len() == GENRE_COUNT,
            cnts@.len() == GENRE_COUNT,
            forall|g: Genre|
                #[trigger] sums@[spec_genre_index(g)] == spec_genre_sum(movies, rs@.take(i as int), g),
            forall|g: Genre|
                #[trigger] cnts@[spec_genre_index(g)] == spec_genre_cnt(movies, rs@.take(i as int), g),
            forall|g: Genre|
                #[trigger] spec_genre_cnt(movies, rs@.take(i as int), g) <= i,
            forall|g: Genre|
                #[trigger] spec_genre_sum(movies, rs@.take(i as int), g) <= (i as int) * 0xffffffff,
        decreases rs@.len() - i,
    {
        let rating = rs[i];
        let mut gj: usize = 0;
        proof {
            assert(rs@.take(i + 1 as int).drop_last() =~= rs@.take(i as int));
            assert(rs@.take(i + 1 as int).last() == rs@[i as int]);
        }
        while gj < GENRE_COUNT
            invariant
                index.wf(),
                movies == index.movie_map(),
                i < rs@.len() <= usize::MAX,
                rating == rs@[i as int],
                gj <= GENRE_COUNT,
                sums@.len() == GENRE_COUNT,
                cnts@.len() == GENRE_COUNT,
                forall|g: Genre|
                    spec_genre_index(g) < gj ==> #[trigger] sums@[spec_genre_index(g)]
                        == spec_genre_sum(movies, rs@.take(i + 1 as int), g),
                forall|g: Genre|
                    spec_genre_index(g) >= gj ==> #[trigger] sums@[spec_genre_index(g)]
                        == spec_genre_sum(movies, rs@.take(i as int), g),
                forall|g: Genre|
                    spec_genre_index(g) < gj ==> #[trigger] cnts@[spec_genre_index(g)]
                        == spec_genre_cnt(movies, rs@.take(i + 1 as int), g),
                forall|g: Genre|
                    spec_genre_index(g) >= gj ==> #[trigger] cnts@[spec_genre_index(g)]
                        == spec_genre_cnt(movies, rs@.take(i as int), g),
                forall|g: Genre|
                    #[trigger] spec_genre_cnt(movies, rs@.take(i as int), g) <= i,
                forall|g: Genre|
                    #[trigger] spec_genre_sum(movies, rs@.take(i as int), g) <= (i as int)
                        * 0xffffffff,
            decreases GENRE_COUNT - gj,
        {
            let g = genre_from_index(gj);
            let mut tagged = false;
            match index.get_movie(rating.movie_id) {
                Some(mv) => {
                    if has_genre(&mv.genres, g) {
                        tagged = true;
                    }
                },
                None => {},
            }
            proof {
                assert(rs@.take(i + 1 as int).drop_last() =~= rs@.take(i as int));
                assert(rs@.take(i + 1 as int).last() == rs@[i as int]);
                assert(tagged == movie_has_genre(movies, rating.movie_id, g));
            }
            if tagged {
                let old_sum = sums[gj];
                let old_cnt = cnts[gj];
                sums.set(gj, old_sum + rating.rating as u128);
                cnts.set(gj, old_cnt + 1);
                proof {
                    assert forall|g2: Genre|
                        spec_genre_index(g2) < gj + 1 implies #[trigger] sums@[spec_genre_index(
                        g2,
                    )] == spec_genre_sum(movies, rs@.take(i + 1 as int), g2) by {
                        if spec_genre_index(g2) == gj {
                            lemma_genre_index_injective(g2, g);
                        }
                    }
                    assert forall|g2: Genre|
                        spec_genre_index(g2) < gj + 1 implies #[trigger] cnts@[spec_genre_index(
                        g2,
                    )] == spec_genre_cnt(movies, rs@.take(i + 1 as int), g2) by {
                        if spec_genre_index(g2) == gj {
                            lemma_genre_index_injective(g2, g);
                        }
                    }
                }
            } else {
                proof {
                    assert forall|g2: Genre|
                        spec_genre_index(g2) < gj + 1 implies #[trigger] sums@[spec_genre_index(
                        g2,
                    )] == spec_genre_sum(movies, rs@.take(i + 1 as int), g2) by {
                        if spec_genre_index(g2) == gj {
                            lemma_genre_index_injective(g2, g);
                        }
                    }
                    assert forall|g2: Genre|
                        spec_genre_index(g2) < gj + 1 implies #[trigger] cnts@[spec_genre_index(
                        g2,
                    )] == spec_genre_cnt(movies, rs@.take(i + 1 as int), g2) by {
                        if spec_genre_index(g2) == gj {
                            lemma_genre_index_injective(g2, g);
                        }
                    }
                }
            }
            gj = gj + 1;
        }
        proof {
            assert forall|g: Genre| #[trigger] spec_genre_cnt(movies, rs@.take(i + 1 as int), g)
                <= i + 1 by {
                assert(rs@.take(i + 1 as int).drop_last() =~= rs@.take(i as int));
                assert(spec_genre_cnt(movies, rs@.take(i as int), g) <= i);
            }
            assert forall|g: Genre| #[trigger] spec_genre_sum(movies, rs@.take(i + 1 as int), g)
                <= (i + 1 as int) * 0xffffffff by {
                assert(rs@.take(i + 1 as int).drop_last() =~= rs@.take(i as int));
                assert(spec_genre_sum(movies, rs@.take(i as int), g) <= (i as int) * 0xffffffff);
            }
        }
        i = i + 1;
    }
    proof {
        assert(rs@.take(rs@.len() as int) =~= rs@);
    }
    let mut prefs: Vec<(Genre, u64)> = Vec::new();
    let mut gk: usize = 0;
    while gk < GENRE_COUNT
        invariant
            gk <= GENRE_COUNT,
            sums@.len() == GENRE_COUNT,
            cnts@.len() == GENRE_COUNT,
            forall|g: Genre|
                #[trigger] sums@[spec_genre_index(g)] == spec_genre_sum(movies, rs@, g),
            forall|g: Genre|
                #[trigger] cnts@[spec_genre_index(g)] == spec_genre_cnt(movies, rs@, g),
            forall|g: Genre|
                #[trigger] spec_genre_cnt(movies, rs@, g) <= rs@.len(),
            forall|g: Genre|
                #[trigger] spec_genre_sum(movies, rs@, g) <= rs@.len() * 0xffffffff,
            rs@.len() <= usize::MAX,
            forall|k: int|
                0 <= k < prefs@.len() ==> spec_genre_index((#[trigger] prefs@[k]).0) < gk,
            forall|k1: int, k2: int|
                0 <= k1 < k2 < prefs@.len() ==> spec_genre_index((#[trigger] prefs@[k1]).0)
                    < spec_genre_index((#[trigger] prefs@[k2]).0),
            forall|g: Genre|
                spec_genre_index(g) < gk ==> #[trigger] spec_pref_of(prefs@, g) == spec_genre_pref(
                    movies,
                    rs@,
                    g,
                ),
            forall|g: Genre|
                spec_genre_index(g) >= gk ==> #[trigger] spec_pref_of(prefs@, g) is None,
        decreases GENRE_COUNT - gk,
    {
        let g = genre_from_index(gk);
        let cnt = cnts[gk];
        let ghost prefs_before = prefs@;
        if cnt > 0 {
            let sum = sums[gk];
            proof {
                lemma_genre_sum_cnt_bound(movies, rs@, g);
                assert(spec_genre_sum(movies, rs@, g) * 100 / spec_genre_cnt(movies, rs@, g)
                    <= 429496729500) by (nonlinear_arith)
                    requires
                        spec_genre_cnt(movies, rs@, g) >= 1,
                        0 <= spec_genre_sum(movies, rs@, g) <= spec_genre_cnt(movies, rs@, g)
                            * 0xffffffff,
                ;
            }
            let val: u64 = ((sum * 100) / (cnt as u128)) as u64;
            prefs.push((g, val));
        }
        proof {
            assert forall|g2: Genre|
                spec_genre_index(g2) < gk + 1 implies #[trigger] spec_pref_of(prefs@, g2)
                == spec_genre_pref(movies, rs@, g2) by {
                if spec_genre_index(g2) == gk {
                    lemma_genre_index_injective(g2, g);
                    if cnt > 0 {
                        assert(prefs@.last() == (g, prefs@.last().1));
                    } else {
                        assert(spec_pref_of(prefs_before, g2) is None);
                        assert(spec_genre_cnt(movies, rs@, g2) == 0);
                    }
                } else {
                    assert(spec_pref_of(prefs_before, g2) == spec_genre_pref(movies, rs@, g2));
                    if cnt > 0 {
                        assert(prefs@.drop_last() =~= prefs_before);
                        assert(prefs@.last().0 == g);
                        assert(g2 != g);
                    }
                }
            }
            assert forall|g2: Genre|
                spec_genre_index(g2) >= gk + 1 implies #[trigger] spec_pref_of(prefs@, g2)
                is None by {
                assert(spec_pref_of(prefs_before, g2) is None);
                if cnt > 0 {
                    assert(prefs@.drop_last() =~= prefs_before);
                    assert(prefs@.last().0 == g);
                    assert(spec_genre_index(g2) != spec_genre_index(g));
                }
            }
        }
        gk = gk + 1;
    }
    prefs
}

/// The per-genre sum stays below the count times the largest rating
/// value.
proof fn lemma_genre_sum_cnt_bound(movies: Map<u32, Movie>, rs: Seq<Rating>, g: Genre)
    ensures
        0 <= spec_genre_sum(movies, rs, g) <= spec_genre_cnt(movies, rs, g) * 0xffffffff,
        0 <= spec_genre_cnt(movies, rs, g) <= rs.len(),
    decreases rs.len(),
{
    if rs.len() > 0 {
        lemma_genre_sum_cnt_bound(movies, rs.drop_last(), g);
    }
}

/// Computes the preferred era of a list of highly-rated movies: the lower
/// median of their known release years.
fn compute_preferred_era(index: &DataIndex, highly: &Vec<u32>) -> (r: Option<u16>)
    requires
        index.wf(),
    ensures
        r == spec_preferred_era(index.movie_map(), highly@),
{
    let ghost movies = index.movie_map();
    let mut years: Vec<u16> = Vec::new();
    let mut i: usize = 0;
    proof {
        assert(highly@.take(0) =~= Seq::<u32>::empty());
        assert(spec_known_years(movies, highly@.take(0)) =~= Seq::<u16>::empty());
    }
    while i < highly.len()
        invariant
            index.wf(),
            movies == index.movie_map(),
            i <= highly@.len(),
            years@ == spec_known_years(movies, highly@.take(i as int)),
        decreases highly@.len() - i,
    {
        let mid = highly[i];
        let mut year_found: Option<u16> = None;
        match index.get_movie(mid) {
            Some(mv) => {
                year_found = mv.year;
            },
            None => {},
        }
        proof {
            assert(highly@.take(i + 1 as int) =~= highly@.take(i as int).push(highly@[i as int]));
            lemma_filter_push(highly@.take(i as int), year_known_pred(movies), highly@[i as int]);
        }
        match year_found {
            Some(y) => {
                years.push(y);
                proof {
                    assert(years@ =~= spec_known_years(movies, highly@.take(i + 1 as int)));
                }
            },
            None => {
                proof {
                    assert(years@ =~= spec_known_years(movies, highly@.take(i + 1 as int)));
                }
            },
        }
        i = i + 1;
    }
    proof {
        assert(highly@.take(highly@.len() as int) =~= highly@);
    }
    if years.len() == 0 {
        return None;
    }
    let ghost ys = years@;
    let mut sorted: Vec<u16> = Vec::new();
    let mut j: usize = 0;
    proof {
        assert(ys.take(0) =~= Seq::<u16>::empty());
        assert(spec_sort_years(ys.take(0)) =~= Seq::<u16>::empty());
    }
    while j < years.len()
        invariant
            j <= ys.len(),
            years@ == ys,
            sorted@ == spec_sort_years(ys.take(j as int)),
        decreases ys.len() - j,
    {
        proof {
            assert(ys.take(j + 1 as int).drop_last() =~= ys.take(j as int));
            assert(ys.take(j + 1 as int).last() == ys[j as int]);
        }
        sorted = insert_sorted_year(sorted, years[j]);
        j = j + 1;
    }
    proof {
        assert(ys.take(ys.len() as int) =~= ys);
        lemma_sort_years_len(ys);
    }
    let mid_idx: usize = (years.len() - 1) / 2;
    Some(sorted[mid_idx])
}

/// The taste profile the index yields for a user: the watched set holds
/// exactly the rated movies, the highly-rated list is the ratings at or
/// above 4.0 stars in order, the average and per-genre averages are the
/// fixed-point means, and the preferred era is the lower-median known
/// release year of the highly-rated movies.
pub open spec fn built_context_ok(idx: DataIndex, user_id: UserId, ctx: UserContext) -> bool {
    &&& ctx.user_id == user_id
    &&& ctx.prefs_wf()
    &&& forall|m: u32|
        #[trigger] ctx.watched_movies@.contains(m) == spec_watched(
            idx.user_ratings_of(user_id),
            m,
        )
    &&& ctx.highly_rated_movies@ == idx.user_ratings_of(user_id).filter(high_pred()).map_values(
        movie_id_fn(),
    )
    &&& ctx.avg_rating == spec_avg_milli(idx.user_ratings_of(user_id))
    &&& forall|g: Genre|
        #[trigger] ctx.pref_of(g) == spec_genre_pref(
            idx.movie_map(),
            idx.user_ratings_of(user_id),
            g,
        )
    &&& ctx.preferred_era == spec_preferred_era(idx.movie_map(), ctx.highly_rated_movies@)
}

/// Builds the taste profile of one user. Fails exactly when the user id
/// is unknown; a known user with no ratings yields the empty profile.
pub fn build_user_context(index: &DataIndex, user_id: UserId) -> (r: Result<
    UserContext,
    RecommendError,
>)
    requires
        index.wf(),
    ensures
        r is Ok <==> index.user_map().contains_key(user_id),
        r matches Ok(ctx) ==> built_context_ok(*index, user_id, ctx),
        r matches Ok(ctx) ==> {
            &&& ctx.user_id == user_id
            &&& ctx.prefs_wf()
            &&& forall|m: u32|
                #[trigger] ctx.watched_movies@.contains(m) == spec_watched(
                    index.user_ratings_of(user_id),
                    m,
                )
            &&& ctx.highly_rated_movies@ == index.user_ratings_of(user_id).filter(
                high_pred(),
            ).map_values(movie_id_fn())
            &&& ctx.avg_rating == spec_avg_milli(index.user_ratings_of(user_id))
            &&& forall|g: Genre|
                #[trigger] ctx.pref_of(g) == spec_genre_pref(
                    index.movie_map(),
                    index.user_ratings_of(user_id),
                    g,
                )
            &&& ctx.preferred_era == spec_preferred_era(
                index.movie_map(),
                ctx.highly_rated_movies@,
            )
        },
{
    match index.get_user(user_id) {
        Some(_) => {},
        None => {
            return Err(RecommendError::NotFound { user_id });
        },
    }
    let mut ctx = UserContext::new(user_id);
    let ratings = index.get_user_ratings(user_id);
    let ghost rs = ratings@;
    if ratings.len() == 0 {
        proof {
            assert(rs.filter(high_pred()) =~= Seq::<Rating>::empty());
            assert(rs.filter(high_pred()).map_values(movie_id_fn()) =~= Seq::<MovieId>::empty());
            assert forall|g: Genre| #[trigger] ctx.pref_of(g) == spec_genre_pref(
                index.movie_map(),
                rs,
                g,
            ) by {}
            assert(spec_known_years(index.movie_map(), ctx.highly_rated_movies@)
                =~= Seq::<u16>::empty());
        }
        return Ok(ctx);
    }
    let mut sum: u128 = 0;
    let mut i: usize = 0;
    proof {
        assert(rs.take(0) =~= Seq::<Rating>::empty());
        assert(rs.take(0).filter(high_pred()) =~= Seq::<Rating>::empty());
        assert(rs.take(0).filter(high_pred()).map_values(movie_id_fn())
            =~= Seq::<MovieId>::empty());
    }
    while i < ratings.len()
        invariant
            i <= rs.len(),
            rs.len() <= usize::MAX,
            ratings@ == rs,
            sum == spec_sum_tenths(rs.take(i as int)),
            sum <= (i as int) * 0xffffffff,
            forall|m: u32|
                #[trigger] ctx.watched_movies@.contains(m) == spec_watched(rs.take(i as int), m),
            ctx.highly_rated_movies@ == rs.take(i as int).filter(high_pred()).map_values(
                movie_id_fn(),
            ),
            ctx.user_id == user_id,
            ctx.prefs() == Seq::<(Genre, u64)>::empty(),
            ctx.preferred_era is None,
        decreases rs.len() - i,
    {
        let r = ratings[i];
        proof {
            assert(rs.take(i + 1 as int).drop_last() =~= rs.take(i as int));
            assert(rs.take(i + 1 as int).last() == rs[i as int]);
            assert(rs.take(i + 1 as int) =~= rs.take(i as int).push(rs[i as int]));
            lemma_filter_push(rs.take(i as int), high_pred(), rs[i as int]);
        }
        sum = sum + r.rating as u128;
        ctx.watched_movies.insert(r.movie_id);
        proof {
            assert forall|m: u32| #[trigger] ctx.watched_movies@.contains(m) == spec_watched(
                rs.take(i + 1 as int),
                m,
            ) by {
                if m == r.movie_id {
                    assert(rs.take(i + 1 as int)[i as int].movie_id == m);
                } else {
                    if spec_watched(rs.take(i + 1 as int), m) {
                        let j = choose|j: int|
                            0 <= j < i + 1 && (#[trigger] rs.take(i + 1 as int)[j]).movie_id == m;
                        assert(rs.take(i as int)[j].movie_id == m);
                    }
                    if spec_watched(rs.take(i as int), m) {
                        let j = choose|j: int|
                            0 <= j < i && (#[trigger] rs.take(i as int)[j]).movie_id == m;
                        assert(rs.take(i + 1 as int)[j].movie_id == m);
                    }
                }
            }
        }
        let ghost f_prev = rs.take(i as int).filter(high_pred());
        let ghost f_new = rs.take(i + 1 as int).filter(high_pred());
        if r.rating >= HIGH_RATING_TENTHS {
            ctx.highly_rated_movies.push(r.movie_id);
            proof {
                assert(f_new == f_prev.push(rs[i as int]));
                assert(f_prev.push(rs[i as int]).map_values(movie_id_fn()) =~= f_prev.map_values(
                    movie_id_fn(),
                ).push(r.movie_id));
                assert(ctx.highly_rated_movies@ == f_new.map_values(movie_id_fn()));
            }
        } else {
            proof {
                assert(f_new == f_prev);
                assert(ctx.highly_rated_movies@ == f_new.map_values(movie_id_fn()));
            }
        }
        i = i + 1;
    }
    proof {
        assert(rs.take(rs.len() as int) =~= rs);
        crate::index::lemma_avg_bound(rs);
    }
    ctx.avg_rating = ((sum * 100) / (ratings.len() as u128)) as u64;
    let prefs = compute_genre_preferences(index, ratings);
    ctx.genre_preferences = prefs;
    ctx.preferred_era = compute_preferred_era(index, &ctx.highly_rated_movies);
    Ok(ctx)
}

} // verus!
