//! The in-memory index of users, movies and ratings, with the derived
//! lookup structures and per-movie statistics.
//!
//! The index is built once, validated, and then only read. Lookup tables
//! are hash maps keyed by plain integers; beside each map an insertion-order
//! list of its keys makes iteration deterministic and lets contracts speak
//! of the keys as a sequence.

use vstd::prelude::*;
use std::collections::HashMap;
use crate::types::{
    User, Movie, Rating, MovieStats, Genre, UserId, MovieId, GENRE_COUNT, genre_index,
    spec_genre_index, rating_value_in_range,
};
use crate::types::{genre_from_index, has_genre, lemma_genre_index_injective};
use crate::stats::{spec_popularity, compute_popularity_score, MAX_AVG_MILLI};
use crate::errors::DataLoadError;
use crate::seqtools::{lemma_filter_push, lemma_filter_sub, reverse_vec};
use crate::types::{MIN_RATING_TENTHS, MAX_RATING_TENTHS};
use crate::strutil::{u64_to_string, spec_decimal};

verus! {

broadcast use vstd::std_specs::hash::group_hash_axioms;

/// The key list beside a map: free of duplicates and holding exactly the
/// map's keys.
pub open spec fn order_matches<V>(order: Seq<u32>, m: Map<u32, V>) -> bool {
    &&& forall|i: int, j: int| 0 <= i < j < order.len() ==> order[i] != order[j]
    &&& forall|i: int| 0 <= i < order.len() ==> m.contains_key(#[trigger] order[i])
    &&& forall|k: u32| #[trigger] m.contains_key(k) ==> order.contains(k)
}

/// A rating list held under one user key: non-empty and naming that user.
pub open spec fn ratings_all_by_user(s: Seq<Rating>, u: u32) -> bool {
    &&& s.len() > 0
    &&& forall|j: int| 0 <= j < s.len() ==> (#[trigger] s[j]).user_id == u
}

/// A rating list held under one movie key: non-empty and naming that movie.
pub open spec fn ratings_all_for_movie(s: Seq<Rating>, m: u32) -> bool {
    &&& s.len() > 0
    &&& forall|j: int| 0 <= j < s.len() ==> (#[trigger] s[j]).movie_id == m
}

/// Whether a movie exists and carries a genre tag.
pub open spec fn movie_has_genre(movies: Map<u32, Movie>, m: u32, g: Genre) -> bool {
    movies.contains_key(m) && movies[m].genres@.contains(g)
}

/// The by-genre membership test, as a function value for `Seq::filter`.
pub open spec fn genre_pred(movies: Map<u32, Movie>, g: Genre) -> spec_fn(u32) -> bool {
    |m: u32| movie_has_genre(movies, m, g)
}

/// Whether a movie exists and was released in a year.
pub open spec fn movie_has_year(movies: Map<u32, Movie>, m: u32, y: u16) -> bool {
    movies.contains_key(m) && movies[m].year == Some(y)
}

/// The by-year membership test, as a function value for `Seq::filter`.
pub open spec fn year_pred(movies: Map<u32, Movie>, y: u16) -> spec_fn(u32) -> bool {
    |m: u32| movie_has_year(movies, m, y)
}

/// The list a map of vectors holds under a key, empty when the key is
/// absent.
pub open spec fn year_view(m: Map<u16, Vec<u32>>, y: u16) -> Seq<u32> {
    if m.contains_key(y) {
        m[y]@
    } else {
        Seq::empty()
    }
}

/// Sum of the rating values (tenths) in a list.
pub open spec fn spec_sum_tenths(s: Seq<Rating>) -> int
    decreases s.len(),
{
    if s.len() == 0 {
        0
    } else {
        spec_sum_tenths(s.drop_last()) + s.last().rating
    }
}

/// A rating count clamped into `u32`.
pub open spec fn spec_rating_count_u32(s: Seq<Rating>) -> u32 {
    if s.len() > 0xffffffff {
        0xffffffffu32
    } else {
        s.len() as u32
    }
}

/// The average rating of a list, in thousandths, zero for an empty list.
pub open spec fn spec_avg_milli(s: Seq<Rating>) -> int {
    if s.len() == 0 {
        0
    } else {
        spec_sum_tenths(s) * 100 / (s.len() as int)
    }
}

/// The statistics record a rating list yields.
pub open spec fn spec_stats_for(s: Seq<Rating>) -> MovieStats {
    MovieStats {
        avg_rating: spec_avg_milli(s) as u64,
        rating_count: spec_rating_count_u32(s),
        popularity_score: spec_popularity(
            spec_avg_milli(s) as u64,
            spec_rating_count_u32(s),
        ) as u64,
    }
}

/// The sum is bounded by the largest rating value times the length.
pub proof fn lemma_sum_tenths_bound(s: Seq<Rating>)
    ensures
        0 <= spec_sum_tenths(s) <= s.len() * 0xffffffff,
    decreases s.len(),
{
    if s.len() > 0 {
        lemma_sum_tenths_bound(s.drop_last());
    }
}

/// The average of `u32` rating values stays within `MAX_AVG_MILLI`.
pub proof fn lemma_avg_bound(s: Seq<Rating>)
    ensures
        0 <= spec_avg_milli(s) <= MAX_AVG_MILLI,
{
    lemma_sum_tenths_bound(s);
    if s.len() > 0 {
        let n = s.len() as int;
        assert(spec_sum_tenths(s) * 100 / n <= 429496729500) by (nonlinear_arith)
            requires
                n >= 1,
                0 <= spec_sum_tenths(s) <= n * 0xffffffff,
        ;
    }
}

/// A rating keyed by one user, as a function value for `Seq::filter`.
pub open spec fn by_user_pred(u: u32) -> spec_fn(Rating) -> bool {
    |r: Rating| r.user_id == u
}

/// A rating keyed by one movie, as a function value for `Seq::filter`.
pub open spec fn for_movie_pred(m: u32) -> spec_fn(Rating) -> bool {
    |r: Rating| r.movie_id == m
}

/// The user store a record list yields: keyed by id, later records
/// replacing earlier ones.
pub open spec fn spec_user_map(us: Seq<User>) -> Map<u32, User>
    decreases us.len(),
{
    if us.len() == 0 {
        Map::empty()
    } else {
        spec_user_map(us.drop_last()).insert(us.last().id, us.last())
    }
}

/// The movie store a record list yields: keyed by id, later records
/// replacing earlier ones.
pub open spec fn spec_movie_map(ms: Seq<Movie>) -> Map<u32, Movie>
    decreases ms.len(),
{
    if ms.len() == 0 {
        Map::empty()
    } else {
        spec_movie_map(ms.drop_last()).insert(ms.last().id, ms.last())
    }
}

/// A parsed rating that may enter the index: it references a given user
/// and a given movie and its value lies between 1.0 and 5.0 stars.
pub open spec fn spec_rating_admissible(us: Seq<User>, ms: Seq<Movie>, r: Rating) -> bool {
    &&& spec_user_map(us).contains_key(r.user_id)
    &&& spec_movie_map(ms).contains_key(r.movie_id)
    &&& rating_value_in_range(r.rating)
}

/// A dataset whose every rating is admissible; exactly these datasets
/// build successfully.
pub open spec fn spec_dataset_valid(us: Seq<User>, ms: Seq<Movie>, rs: Seq<Rating>) -> bool {
    forall|i: int| 0 <= i < rs.len() ==> spec_rating_admissible(us, ms, #[trigger] rs[i])
}

/// The error dataset validation returns: it names an offending stored
/// rating, either as the dangling user or movie reference with its id, or
/// as the out-of-range rating value rendered in tenths.
pub open spec fn validate_error_ok(idx: DataIndex, e: DataLoadError) -> bool {
    match e {
        DataLoadError::MissingReference { entity, id } => {
            ||| (entity@ == "User"@ && exists|u: u32, j: int|
                0 <= j < idx.user_ratings_of(u).len() && !idx.user_map().contains_key(
                    (#[trigger] idx.user_ratings_of(u)[j]).user_id,
                ) && id == idx.user_ratings_of(u)[j].user_id)
            ||| (entity@ == "Movie"@ && exists|u: u32, j: int|
                0 <= j < idx.user_ratings_of(u).len() && idx.user_map().contains_key(
                    (#[trigger] idx.user_ratings_of(u)[j]).user_id,
                ) && !idx.movie_map().contains_key(idx.user_ratings_of(u)[j].movie_id) && id
                    == idx.user_ratings_of(u)[j].movie_id)
        },
        DataLoadError::InvalidValue { field, value } => field@ == "rating"@ && exists|
            u: u32,
            j: int,
        |
            0 <= j < idx.user_ratings_of(u).len() && idx.user_map().contains_key(
                (#[trigger] idx.user_ratings_of(u)[j]).user_id,
            ) && idx.movie_map().contains_key(idx.user_ratings_of(u)[j].movie_id)
                && !rating_value_in_range(idx.user_ratings_of(u)[j].rating) && value@
                == spec_decimal(idx.user_ratings_of(u)[j].rating as int),
        _ => false,
    }
}

/// The error dataset building returns: it names an offending input
/// rating, either as the dangling user or movie reference with its id, or
/// as the out-of-range rating value rendered in tenths.
pub open spec fn dataset_error_ok(
    us: Seq<User>,
    ms: Seq<Movie>,
    rs: Seq<Rating>,
    e: DataLoadError,
) -> bool {
    match e {
        DataLoadError::MissingReference { entity, id } => {
            ||| (entity@ == "User"@ && exists|i: int|
                0 <= i < rs.len() && !spec_user_map(us).contains_key((#[trigger] rs[i]).user_id)
                    && id == rs[i].user_id)
            ||| (entity@ == "Movie"@ && exists|i: int|
                0 <= i < rs.len() && spec_user_map(us).contains_key((#[trigger] rs[i]).user_id)
                    && !spec_movie_map(ms).contains_key(rs[i].movie_id) && id == rs[i].movie_id)
        },
        DataLoadError::InvalidValue { field, value } => field@ == "rating"@ && exists|i: int|
            0 <= i < rs.len() && spec_user_map(us).contains_key((#[trigger] rs[i]).user_id)
                && spec_movie_map(ms).contains_key(rs[i].movie_id) && !rating_value_in_range(
                rs[i].rating,
            ) && value@ == spec_decimal(rs[i].rating as int),
        _ => false,
    }
}

/// The user store holds an id exactly when some record carries it.
pub proof fn lemma_user_map_members(us: Seq<User>, k: u32)
    ensures
        spec_user_map(us).contains_key(k) <==> exists|i: int|
            0 <= i < us.len() && (#[trigger] us[i]).id == k,
    decreases us.len(),
{
    if us.len() > 0 {
        lemma_user_map_members(us.drop_last(), k);
        if us.last().id == k {
            assert(us[us.len() - 1].id == k);
        } else if spec_user_map(us).contains_key(k) {
            let i = choose|i: int| 0 <= i < us.drop_last().len() && (#[trigger] us.drop_last()[i]).id == k;
            assert(us[i].id == k);
        } else if exists|i: int| 0 <= i < us.len() && (#[trigger] us[i]).id == k {
            let i = choose|i: int| 0 <= i < us.len() && (#[trigger] us[i]).id == k;
            assert(us.drop_last()[i].id == k);
        }
    }
}

/// The movie store holds an id exactly when some record carries it.
pub proof fn lemma_movie_map_members(ms: Seq<Movie>, k: u32)
    ensures
        spec_movie_map(ms).contains_key(k) <==> exists|i: int|
            0 <= i < ms.len() && (#[trigger] ms[i]).id == k,
    decreases ms.len(),
{
    if ms.len() > 0 {
        lemma_movie_map_members(ms.drop_last(), k);
        if ms.last().id == k {
            assert(ms[ms.len() - 1].id == k);
        } else if spec_movie_map(ms).contains_key(k) {
            let i = choose|i: int| 0 <= i < ms.drop_last().len() && (#[trigger] ms.drop_last()[i]).id == k;
            assert(ms[i].id == k);
        } else if exists|i: int| 0 <= i < ms.len() && (#[trigger] ms[i]).id == k {
            let i = choose|i: int| 0 <= i < ms.len() && (#[trigger] ms[i]).id == k;
            assert(ms.drop_last()[i].id == k);
        }
    }
}

/// An error named over the stored rating lists names an input rating,
/// when the stores came from folding the inputs.
proof fn lemma_transfer_validate_error(
    idx: DataIndex,
    us: Seq<User>,
    ms: Seq<Movie>,
    rs: Seq<Rating>,
    e: DataLoadError,
)
    requires
        validate_error_ok(idx, e),
        idx.user_map() == spec_user_map(us),
        idx.movie_map() == spec_movie_map(ms),
        forall|u: u32| #[trigger] idx.user_ratings_of(u) == rs.filter(by_user_pred(u)),
    ensures
        dataset_error_ok(us, ms, rs, e),
{
    match e {
        DataLoadError::MissingReference { entity, id } => {
            if entity@ == "User"@ && (exists|u: u32, j: int|
                0 <= j < idx.user_ratings_of(u).len() && !idx.user_map().contains_key(
                    (#[trigger] idx.user_ratings_of(u)[j]).user_id,
                ) && id == idx.user_ratings_of(u)[j].user_id) {
                let (u, j) = choose|u: u32, j: int|
                    0 <= j < idx.user_ratings_of(u).len() && !idx.user_map().contains_key(
                        (#[trigger] idx.user_ratings_of(u)[j]).user_id,
                    ) && id == idx.user_ratings_of(u)[j].user_id;
                let entry = idx.user_ratings_of(u)[j];
                lemma_filter_sub(rs, by_user_pred(u));
                assert(rs.contains(entry));
                let i = choose|i: int| 0 <= i < rs.len() && #[trigger] rs[i] == entry;
                assert(!spec_user_map(us).contains_key(rs[i].user_id) && id == rs[i].user_id);
            } else {
                let (u, j) = choose|u: u32, j: int|
                    0 <= j < idx.user_ratings_of(u).len() && idx.user_map().contains_key(
                        (#[trigger] idx.user_ratings_of(u)[j]).user_id,
                    ) && !idx.movie_map().contains_key(idx.user_ratings_of(u)[j].movie_id) && id
                        == idx.user_ratings_of(u)[j].movie_id;
                let entry = idx.user_ratings_of(u)[j];
                lemma_filter_sub(rs, by_user_pred(u));
                assert(rs.contains(entry));
                let i = choose|i: int| 0 <= i < rs.len() && #[trigger] rs[i] == entry;
                assert(spec_user_map(us).contains_key(rs[i].user_id) && !spec_movie_map(
                    ms,
                ).contains_key(rs[i].movie_id) && id == rs[i].movie_id);
            }
        },
        DataLoadError::InvalidValue { field, value } => {
            let (u, j) = choose|u: u32, j: int|
                0 <= j < idx.user_ratings_of(u).len() && idx.user_map().contains_key(
                    (#[trigger] idx.user_ratings_of(u)[j]).user_id,
                ) && idx.movie_map().contains_key(idx.user_ratings_of(u)[j].movie_id)
                    && !rating_value_in_range(idx.user_ratings_of(u)[j].rating) && value@
                    == spec_decimal(idx.user_ratings_of(u)[j].rating as int);
            let entry = idx.user_ratings_of(u)[j];
            lemma_filter_sub(rs, by_user_pred(u));
            assert(rs.contains(entry));
            let i = choose|i: int| 0 <= i < rs.len() && #[trigger] rs[i] == entry;
            assert(spec_user_map(us).contains_key(rs[i].user_id) && spec_movie_map(
                ms,
            ).contains_key(rs[i].movie_id) && !rating_value_in_range(rs[i].rating) && value@
                == spec_decimal(rs[i].rating as int));
        },
        _ => {},
    }
}

/// Read-only store of all users, movies and ratings, plus derived indices
/// (ratings by user, ratings by movie, movies by genre, movies by year) and
/// precomputed per-movie statistics.
pub struct DataIndex {
    users: HashMap<u32, User>,
    movies: HashMap<u32, Movie>,
    movie_order: Vec<u32>,
    user_ratings: HashMap<u32, Vec<Rating>>,
    rater_order: Vec<u32>,
    movie_ratings: HashMap<u32, Vec<Rating>>,
    rated_order: Vec<u32>,
    genre_table: Vec<Vec<u32>>,
    year_table: HashMap<u16, Vec<u32>>,
    movie_stats: HashMap<u32, MovieStats>,
    no_ratings: Vec<Rating>,
    no_ids: Vec<u32>,
}

impl DataIndex {
    /// All users, as a map from id to record.
    pub closed spec fn user_map(&self) -> Map<u32, User> {
        self.users@
    }

    /// All movies, as a map from id to record.
    pub closed spec fn movie_map(&self) -> Map<u32, Movie> {
        self.movies@
    }

    /// The movie ids, in insertion order.
    pub closed spec fn movie_id_list(&self) -> Seq<u32> {
        self.movie_order@
    }

    /// The ratings one user has given, empty for a user with none.
    pub closed spec fn user_ratings_of(&self, u: u32) -> Seq<Rating> {
        if self.user_ratings@.contains_key(u) {
            self.user_ratings@[u]@
        } else {
            Seq::empty()
        }
    }

    /// The ratings one movie has received, empty for a movie with none.
    pub closed spec fn movie_ratings_of(&self, m: u32) -> Seq<Rating> {
        if self.movie_ratings@.contains_key(m) {
            self.movie_ratings@[m]@
        } else {
            Seq::empty()
        }
    }

    /// The users that have given at least one rating, in the order of their
    /// first rating.
    pub closed spec fn rater_list(&self) -> Seq<u32> {
        self.rater_order@
    }

    /// The movies that have received at least one rating, in the order of
    /// their first rating.
    pub closed spec fn rated_list(&self) -> Seq<u32> {
        self.rated_order@
    }

    /// The movie ids tagged with a genre, in insertion order.
    pub closed spec fn genre_movies_of(&self, g: Genre) -> Seq<u32> {
        self.genre_table@[spec_genre_index(g)]@
    }

    /// The movie ids released in a year, in insertion order.
    pub closed spec fn year_movies_of(&self, y: u16) -> Seq<u32> {
        if self.year_table@.contains_key(y) {
            self.year_table@[y]@
        } else {
            Seq::empty()
        }
    }

    /// The precomputed statistics, as a map from movie id to record.
    pub closed spec fn stats_map(&self) -> Map<u32, MovieStats> {
        self.movie_stats@
    }

    /// Structural well-formedness: every key list matches its map, rating
    /// lists are non-empty and keyed consistently, and the genre table has
    /// one slot per genre.
    pub closed spec fn wf(&self) -> bool {
        &&& order_matches(self.movie_order@, self.movies@)
        &&& order_matches(self.rater_order@, self.user_ratings@)
        &&& order_matches(self.rated_order@, self.movie_ratings@)
        &&& forall|u: u32|
            self.user_ratings@.contains_key(u) ==> ratings_all_by_user(
                #[trigger] self.user_ratings@[u]@,
                u,
            )
        &&& forall|m: u32|
            self.movie_ratings@.contains_key(m) ==> ratings_all_for_movie(
                #[trigger] self.movie_ratings@[m]@,
                m,
            )
        &&& self.genre_table@.len() == GENRE_COUNT
        &&& self.no_ratings@.len() == 0
        &&& self.no_ids@.len() == 0
    }

    /// Facts a caller may draw from well-formedness without seeing the
    /// fields: key lists are duplicate-free, list membership coincides with
    /// map membership, and every stored rating names its own key.
    pub proof fn lemma_wf_facts(&self)
        requires
            self.wf(),
        ensures
            forall|i: int, j: int|
                0 <= i < j < self.movie_id_list().len() ==> self.movie_id_list()[i]
                    != self.movie_id_list()[j],
            forall|i: int|
                0 <= i < self.movie_id_list().len() ==> self.movie_map().contains_key(
                    #[trigger] self.movie_id_list()[i],
                ),
            forall|k: u32|
                #[trigger] self.movie_map().contains_key(k) ==> self.movie_id_list().contains(k),
            forall|i: int, j: int|
                0 <= i < j < self.rater_list().len() ==> self.rater_list()[i]
                    != self.rater_list()[j],
            forall|i: int|
                0 <= i < self.rater_list().len() ==> self.user_ratings_of(
                    #[trigger] self.rater_list()[i],
                ).len() > 0,
            forall|u: u32, j: int|
                0 <= j < self.user_ratings_of(u).len() ==> (#[trigger] self.user_ratings_of(
                    u,
                )[j]).user_id == u,
            forall|m: u32, j: int|
                0 <= j < self.movie_ratings_of(m).len() ==> (#[trigger] self.movie_ratings_of(
                    m,
                )[j]).movie_id == m,
            forall|u: u32| self.user_ratings_of(u).len() > 0 ==> self.rater_list().contains(u),
            forall|m: u32| self.movie_ratings_of(m).len() > 0 ==> self.rated_list().contains(m),
            forall|i: int, j: int|
                0 <= i < j < self.rated_list().len() ==> self.rated_list()[i]
                    != self.rated_list()[j],
            forall|i: int|
                0 <= i < self.rated_list().len() ==> self.movie_ratings_of(
                    #[trigger] self.rated_list()[i],
                ).len() > 0,
    {
    }

    /// A fresh, empty index.
    pub fn new() -> (r: Self)
        ensures
            r.wf(),
            r.user_map() == Map::<u32, User>::empty(),
            r.movie_map() == Map::<u32, Movie>::empty(),
            r.movie_id_list() == Seq::<u32>::empty(),
            r.rater_list() == Seq::<u32>::empty(),
            r.rated_list() == Seq::<u32>::empty(),
            forall|u: u32| #[trigger] r.user_ratings_of(u) == Seq::<Rating>::empty(),
            forall|m: u32| #[trigger] r.movie_ratings_of(m) == Seq::<Rating>::empty(),
            forall|g: Genre| #[trigger] r.genre_movies_of(g) == Seq::<u32>::empty(),
            forall|y: u16| #[trigger] r.year_movies_of(y) == Seq::<u32>::empty(),
            r.stats_map() == Map::<u32, MovieStats>::empty(),
    {
        let mut genre_table: Vec<Vec<u32>> = Vec::new();
        let mut i: usize = 0;
        while i < GENRE_COUNT
            invariant
                i <= GENRE_COUNT,
                genre_table@.len() == i,
                forall|j: int| 0 <= j < i ==> (#[trigger] genre_table@[j])@.len() == 0,
            decreases GENRE_COUNT - i,
        {
            genre_table.push(Vec::new());
            i = i + 1;
        }
        let r = DataIndex {
            users: HashMap::new(),
            movies: HashMap::new(),
            movie_order: Vec::new(),
            user_ratings: HashMap::new(),
            rater_order: Vec::new(),
            movie_ratings: HashMap::new(),
            rated_order: Vec::new(),
            genre_table,
            year_table: HashMap::new(),
            movie_stats: HashMap::new(),
            no_ratings: Vec::new(),
            no_ids: Vec::new(),
        };
        proof {
            assert(forall|g: Genre| 0 <= #[trigger] spec_genre_index(g) < 18);
        }
        r
    }

    /// Look a user up by id.
    pub fn get_user(&self, id: UserId) -> (r: Option<&User>)
        ensures
            match r {
                Some(u) => self.user_map().contains_key(id) && *u == self.user_map()[id],
                None => !self.user_map().contains_key(id),
            },
    {
        self.users.get(&id)
    }

    /// Look a movie up by id.
    pub fn get_movie(&self, id: MovieId) -> (r: Option<&Movie>)
        ensures
            match r {
                Some(m) => self.movie_map().contains_key(id) && *m == self.movie_map()[id],
                None => !self.movie_map().contains_key(id),
            },
    {
        self.movies.get(&id)
    }

    /// All ratings a user has given; empty if they have given none.
    pub fn get_user_ratings(&self, user_id: UserId) -> (r: &[Rating])
        requires
            self.wf(),
        ensures
            r@ == self.user_ratings_of(user_id),
    {
        match self.user_ratings.get(&user_id) {
            Some(v) => v.as_slice(),
            None => self.no_ratings.as_slice(),
        }
    }

    /// All ratings a movie has received; empty if it has received none.
    pub fn get_movie_ratings(&self, movie_id: MovieId) -> (r: &[Rating])
        requires
            self.wf(),
        ensures
            r@ == self.movie_ratings_of(movie_id),
    {
        match self.movie_ratings.get(&movie_id) {
            Some(v) => v.as_slice(),
            None => self.no_ratings.as_slice(),
        }
    }

    /// All movies tagged with a genre.
    pub fn get_movies_by_genre(&self, genre: Genre) -> (r: &[u32])
        requires
            self.wf(),
        ensures
            r@ == self.genre_movies_of(genre),
    {
        let i = genre_index(genre);
        self.genre_table[i].as_slice()
    }

    /// All movies released in a year; empty for a year with none.
    pub fn get_movies_by_year(&self, year: u16) -> (r: &[u32])
        requires
            self.wf(),
        ensures
            r@ == self.year_movies_of(year),
    {
        match self.year_table.get(&year) {
            Some(v) => v.as_slice(),
            None => self.no_ids.as_slice(),
        }
    }

    /// The precomputed statistics of a movie.
    pub fn get_movie_stats(&self, movie_id: MovieId) -> (r: Option<&MovieStats>)
        ensures
            match r {
                Some(s) => self.stats_map().contains_key(movie_id) && *s == self.stats_map()[movie_id],
                None => !self.stats_map().contains_key(movie_id),
            },
    {
        self.movie_stats.get(&movie_id)
    }

    /// Every movie id, in insertion order.
    pub fn get_all_movie_ids(&self) -> (r: Vec<u32>)
        ensures
            r@ == self.movie_id_list(),
    {
        let mut out: Vec<u32> = Vec::new();
        let mut i: usize = 0;
        while i < self.movie_order.len()
            invariant
                i <= self.movie_order@.len(),
                out@ == self.movie_order@.take(i as int),
            decreases self.movie_order@.len() - i,
        {
            out.push(self.movie_order[i]);
            proof {
                assert(out@ == self.movie_order@.take(i + 1 as int));
            }
            i = i + 1;
        }
        proof {
            assert(self.movie_order@.take(self.movie_order@.len() as int) == self.movie_order@);
        }
        out
    }

    /// Insert a user, replacing any user with the same id.
    pub fn insert_user(&mut self, user: User)
        requires
            old(self).wf(),
        ensures
            final(self).wf(),
            final(self).user_map() == old(self).user_map().insert(user.id, user),
            final(self).movie_map() == old(self).movie_map(),
            final(self).movie_id_list() == old(self).movie_id_list(),
            final(self).rater_list() == old(self).rater_list(),
            final(self).rated_list() == old(self).rated_list(),
            final(self).stats_map() == old(self).stats_map(),
            forall|u: u32| #[trigger] final(self).user_ratings_of(u) == old(self).user_ratings_of(u),
            forall|m: u32| #[trigger] final(self).movie_ratings_of(m) == old(self).movie_ratings_of(m),
            forall|g: Genre| #[trigger] final(self).genre_movies_of(g) == old(self).genre_movies_of(g),
            forall|y: u16| #[trigger] final(self).year_movies_of(y) == old(self).year_movies_of(y),
    {
        let id = user.id;
        self.users.insert(id, user);
    }

    /// Insert a movie, replacing any movie with the same id. A new id is
    /// appended to the id list.
    pub fn insert_movie(&mut self, movie: Movie)
        requires
            old(self).wf(),
        ensures
            final(self).wf(),
            final(self).movie_map() == old(self).movie_map().insert(movie.id, movie),
            final(self).movie_id_list() == if old(self).movie_map().contains_key(movie.id) {
                old(self).movie_id_list()
            } else {
                old(self).movie_id_list().push(movie.id)
            },
            final(self).user_map() == old(self).user_map(),
            final(self).rater_list() == old(self).rater_list(),
            final(self).rated_list() == old(self).rated_list(),
            final(self).stats_map() == old(self).stats_map(),
            forall|u: u32| #[trigger] final(self).user_ratings_of(u) == old(self).user_ratings_of(u),
            forall|m: u32| #[trigger] final(self).movie_ratings_of(m) == old(self).movie_ratings_of(m),
            forall|g: Genre| #[trigger] final(self).genre_movies_of(g) == old(self).genre_movies_of(g),
            forall|y: u16| #[trigger] final(self).year_movies_of(y) == old(self).year_movies_of(y),
    {
        let id = movie.id;
        if !self.movies.contains_key(&id) {
            self.movie_order.push(id);
        }
        self.movies.insert(id, movie);
        proof {
            assert forall|k: u32| #[trigger] self.movies@.contains_key(k) implies self
                .movie_order@.contains(k) by {
                if k != id {
                    assert(old(self).movies@.contains_key(k));
                    let i = choose|i: int|
                        0 <= i < old(self).movie_order@.len() && old(self).movie_order@[i] == k;
                    assert(self.movie_order@[i] == k);
                } else {
                    if old(self).movies@.contains_key(id) {
                        let i = choose|i: int|
                            0 <= i < old(self).movie_order@.len() && old(self).movie_order@[i]
                                == id;
                        assert(self.movie_order@[i] == id);
                    } else {
                        assert(self.movie_order@[self.movie_order@.len() - 1] == id);
                    }
                }
            }
        }
    }

    /// Insert a rating, appending it to both the rating-by-user and the
    /// rating-by-movie lists.
    pub fn insert_rating(&mut self, rating: Rating)
        requires
            old(self).wf(),
        ensures
            final(self).wf(),
            final(self).user_ratings_of(rating.user_id) == old(self).user_ratings_of(
                rating.user_id,
            ).push(rating),
            final(self).movie_ratings_of(rating.movie_id) == old(self).movie_ratings_of(
                rating.movie_id,
            ).push(rating),
            forall|u: u32|
                u != rating.user_id ==> #[trigger] final(self).user_ratings_of(u) == old(
                    self,
                ).user_ratings_of(u),
            forall|m: u32|
                m != rating.movie_id ==> #[trigger] final(self).movie_ratings_of(m) == old(
                    self,
                ).movie_ratings_of(m),
            final(self).rater_list() == if old(self).user_ratings_of(rating.user_id).len() > 0 {
                old(self).rater_list()
            } else {
                old(self).rater_list().push(rating.user_id)
            },
            final(self).rated_list() == if old(self).movie_ratings_of(rating.movie_id).len() > 0 {
                old(self).rated_list()
            } else {
                old(self).rated_list().push(rating.movie_id)
            },
            final(self).user_map() == old(self).user_map(),
            final(self).movie_map() == old(self).movie_map(),
            final(self).movie_id_list() == old(self).movie_id_list(),
            final(self).stats_map() == old(self).stats_map(),
            forall|g: Genre| #[trigger] final(self).genre_movies_of(g) == old(self).genre_movies_of(g),
            forall|y: u16| #[trigger] final(self).year_movies_of(y) == old(self).year_movies_of(y),
    {
        let uid = rating.user_id;
        match self.user_ratings.remove(&uid) {
            Some(mut v) => {
                v.push(rating);
                self.user_ratings.insert(uid, v);
                proof {
                    assert(self.user_ratings@ =~= old(self).user_ratings@.insert(
                        uid,
                        self.user_ratings@[uid],
                    ));
                }
            },
            None => {
                let mut v: Vec<Rating> = Vec::new();
                v.push(rating);
                self.user_ratings.insert(uid, v);
                self.rater_order.push(uid);
            },
        }
        proof {
            assert forall|k: u32| #[trigger] self.user_ratings@.contains_key(k) implies self
                .rater_order@.contains(k) by {
                if k != uid {
                    assert(old(self).user_ratings@.contains_key(k));
                    let i = choose|i: int|
                        0 <= i < old(self).rater_order@.len() && old(self).rater_order@[i] == k;
                    assert(self.rater_order@[i] == k);
                } else {
                    if old(self).user_ratings@.contains_key(uid) {
                        let i = choose|i: int|
                            0 <= i < old(self).rater_order@.len() && old(self).rater_order@[i]
                                == uid;
                        assert(self.rater_order@[i] == uid);
                    } else {
                        assert(self.rater_order@[self.rater_order@.len() - 1] == uid);
                    }
                }
            }
        }
        let mid = rating.movie_id;
        match self.movie_ratings.remove(&mid) {
            Some(mut v) => {
                v.push(rating);
                self.movie_ratings.insert(mid, v);
                proof {
                    assert(self.movie_ratings@ =~= old(self).movie_ratings@.insert(
                        mid,
                        self.movie_ratings@[mid],
                    ));
                }
            },
            None => {
                let mut v: Vec<Rating> = Vec::new();
                v.push(rating);
                self.movie_ratings.insert(mid, v);
                self.rated_order.push(mid);
            },
        }
        proof {
            assert forall|k: u32| #[trigger] self.movie_ratings@.contains_key(k) implies self
                .rated_order@.contains(k) by {
                if k != mid {
                    assert(old(self).movie_ratings@.contains_key(k));
                    let i = choose|i: int|
                        0 <= i < old(self).rated_order@.len() && old(self).rated_order@[i] == k;
                    assert(self.rated_order@[i] == k);
                } else {
                    if old(self).movie_ratings@.contains_key(mid) {
                        let i = choose|i: int|
                            0 <= i < old(self).rated_order@.len() && old(self).rated_order@[i]
                                == mid;
                        assert(self.rated_order@[i] == mid);
                    } else {
                        assert(self.rated_order@[self.rated_order@.len() - 1] == mid);
                    }
                }
            }
        }
    }

    /// Rebuilds the by-genre and by-year lookup tables from the current
    /// movies: each table lists, in movie insertion order, exactly the
    /// movies tagged with that genre or released in that year.
    pub fn build_secondary_indices(&mut self)
        requires
            old(self).wf(),
        ensures
            final(self).wf(),
            forall|g: Genre|
                #[trigger] final(self).genre_movies_of(g) == old(self).movie_id_list().filter(
                    genre_pred(old(self).movie_map(), g),
                ),
            forall|y: u16|
                #[trigger] final(self).year_movies_of(y) == old(self).movie_id_list().filter(
                    year_pred(old(self).movie_map(), y),
                ),
            final(self).user_map() == old(self).user_map(),
            final(self).movie_map() == old(self).movie_map(),
            final(self).movie_id_list() == old(self).movie_id_list(),
            final(self).rater_list() == old(self).rater_list(),
            final(self).rated_list() == old(self).rated_list(),
            final(self).stats_map() == old(self).stats_map(),
            forall|u: u32| #[trigger] final(self).user_ratings_of(u) == old(self).user_ratings_of(u),
            forall|m: u32|
                #[trigger] final(self).movie_ratings_of(m) == old(self).movie_ratings_of(m),
    {
        let mut new_genre: Vec<Vec<u32>> = Vec::new();
        let mut gi: usize = 0;
        while gi < GENRE_COUNT
            invariant
                *self == *old(self),
                old(self).wf(),
                gi <= GENRE_COUNT,
                new_genre@.len() == gi,
                forall|g: Genre|
                    spec_genre_index(g) < gi ==> (#[trigger] new_genre@[spec_genre_index(g)])@
                        == old(self).movie_order@.filter(genre_pred(old(self).movies@, g)),
            decreases GENRE_COUNT - gi,
        {
            let g = genre_from_index(gi);
            let mut lst: Vec<u32> = Vec::new();
            let mut i: usize = 0;
            while i < self.movie_order.len()
                invariant
                    *self == *old(self),
                    old(self).wf(),
                    i <= self.movie_order@.len(),
                    lst@ == self.movie_order@.take(i as int).filter(genre_pred(self.movies@, g)),
                decreases self.movie_order@.len() - i,
            {
                let id = self.movie_order[i];
                let mut keep = false;
                match self.movies.get(&id) {
                    Some(mv) => {
                        if has_genre(&mv.genres, g) {
                            keep = true;
                        }
                    },
                    None => {},
                }
                if keep {
                    lst.push(id);
                }
                proof {
                    lemma_filter_push(
                        self.movie_order@.take(i as int),
                        genre_pred(self.movies@, g),
                        self.movie_order@[i as int],
                    );
                    assert(self.movie_order@.take(i + 1 as int) =~= self.movie_order@.take(
                        i as int,
                    ).push(self.movie_order@[i as int]));
                }
                i = i + 1;
            }
            proof {
                assert(self.movie_order@.take(self.movie_order@.len() as int) =~= self
                    .movie_order@);
            }
            new_genre.push(lst);
            proof {
                assert forall|g2: Genre| spec_genre_index(g2) < gi + 1 implies (
                #[trigger] new_genre@[spec_genre_index(g2)])@ == old(self).movie_order@.filter(
                    genre_pred(old(self).movies@, g2),
                ) by {
                    if spec_genre_index(g2) == gi {
                        lemma_genre_index_injective(g2, g);
                    }
                }
            }
            gi = gi + 1;
        }
        let mut new_year: HashMap<u16, Vec<u32>> = HashMap::new();
        let mut i: usize = 0;
        while i < self.movie_order.len()
            invariant
                *self == *old(self),
                old(self).wf(),
                i <= self.movie_order@.len(),
                forall|y: u16|
                    #[trigger] year_view(new_year@, y) == self.movie_order@.take(i as int).filter(
                        year_pred(self.movies@, y),
                    ),
            decreases self.movie_order@.len() - i,
        {
            let id = self.movie_order[i];
            let ghost prev = new_year@;
            let mut year_found: Option<u16> = None;
            match self.movies.get(&id) {
                Some(mv) => {
                    year_found = mv.year;
                },
                None => {},
            }
            match year_found {
                Some(y0) => {
                    match new_year.remove(&y0) {
                        Some(mut v) => {
                            v.push(id);
                            new_year.insert(y0, v);
                        },
                        None => {
                            let mut v: Vec<u32> = Vec::new();
                            v.push(id);
                            new_year.insert(y0, v);
                        },
                    }
                    proof {
                        assert forall|y: u16| #[trigger] year_view(new_year@, y) == self
                            .movie_order@.take(i + 1 as int).filter(
                            year_pred(self.movies@, y),
                        ) by {
                            lemma_filter_push(
                                self.movie_order@.take(i as int),
                                year_pred(self.movies@, y),
                                self.movie_order@[i as int],
                            );
                            assert(self.movie_order@.take(i + 1 as int) =~= self
                                .movie_order@.take(i as int).push(self.movie_order@[i as int]));
                            if y == y0 {
                                assert(year_view(new_year@, y) =~= year_view(prev, y).push(id));
                            } else {
                                assert(year_view(new_year@, y) =~= year_view(prev, y));
                            }
                        }
                    }
                },
                None => {
                    proof {
                        assert forall|y: u16| #[trigger] year_view(new_year@, y) == self
                            .movie_order@.take(i + 1 as int).filter(
                            year_pred(self.movies@, y),
                        ) by {
                            lemma_filter_push(
                                self.movie_order@.take(i as int),
                                year_pred(self.movies@, y),
                                self.movie_order@[i as int],
                            );
                            assert(self.movie_order@.take(i + 1 as int) =~= self
                                .movie_order@.take(i as int).push(self.movie_order@[i as int]));
                        }
                    }
                },
            }
            i = i + 1;
        }
        proof {
            assert(self.movie_order@.take(self.movie_order@.len() as int) =~= self.movie_order@);
            assert forall|y: u16| #[trigger] year_view(new_year@, y) == old(
                self,
            ).movie_order@.filter(year_pred(old(self).movies@, y)) by {}
        }
        let ghost ny = new_year@;
        self.genre_table = new_genre;
        self.year_table = new_year;
        proof {
            assert forall|y: u16| #[trigger] self.year_movies_of(y) == year_view(ny, y) by {}
        }
    }

    /// Concatenation of the by-year lists over an inclusive year range.
    pub open spec fn year_range_movies(&self, y: int, end: int) -> Seq<u32>
        decreases end + 1 - y,
    {
        if y > end {
            Seq::empty()
        } else {
            self.year_movies_of(y as u16) + self.year_range_movies(y + 1, end)
        }
    }

    /// Splitting the last year off an inclusive range.
    proof fn lemma_year_range_snoc(&self, s: int, e: int)
        requires
            s <= e,
        ensures
            self.year_range_movies(s, e) == self.year_range_movies(s, e - 1) + self.year_movies_of(
                e as u16,
            ),
        decreases e - s,
    {
        if s == e {
            assert(self.year_range_movies(s, e - 1) =~= Seq::<u32>::empty());
            assert(self.year_range_movies(e + 1, e) =~= Seq::<u32>::empty());
            assert(self.year_range_movies(s, e) =~= self.year_movies_of(e as u16));
            assert(self.year_range_movies(s, e - 1) + self.year_movies_of(e as u16)
                =~= self.year_movies_of(e as u16));
        } else {
            self.lemma_year_range_snoc(s + 1, e);
            assert(self.year_range_movies(s, e) =~= self.year_movies_of(s as u16)
                + self.year_range_movies(s + 1, e));
            assert(self.year_movies_of(s as u16) + (self.year_range_movies(s + 1, e - 1)
                + self.year_movies_of(e as u16)) =~= (self.year_movies_of(s as u16)
                + self.year_range_movies(s + 1, e - 1)) + self.year_movies_of(e as u16));
            assert(self.year_range_movies(s, e - 1) =~= self.year_movies_of(s as u16)
                + self.year_range_movies(s + 1, e - 1));
        }
    }

    /// All movies released in the inclusive year range, in by-year order.
    pub fn get_movies_in_year_range(&self, start_year: u16, end_year: u16) -> (r: Vec<u32>)
        requires
            self.wf(),
        ensures
            r@ == self.year_range_movies(start_year as int, end_year as int),
    {
        let mut out: Vec<u32> = Vec::new();
        let mut y: u32 = start_year as u32;
        while y <= end_year as u32
            invariant
                self.wf(),
                start_year as int <= y as int <= end_year as int + 1 || y == start_year as u32,
                out@ == self.year_range_movies(start_year as int, y as int - 1),
            decreases end_year as int + 1 - y as int,
        {
            let lst = self.get_movies_by_year(y as u16);
            let mut j: usize = 0;
            while j < lst.len()
                invariant
                    j <= lst@.len(),
                    out@ == self.year_range_movies(start_year as int, y as int - 1) + lst@.take(
                        j as int,
                    ),
                decreases lst@.len() - j,
            {
                out.push(lst[j]);
                proof {
                    assert(lst@.take(j + 1 as int) =~= lst@.take(j as int).push(lst@[j as int]));
                    assert(out@ =~= self.year_range_movies(start_year as int, y as int - 1)
                        + lst@.take(j + 1 as int));
                }
                j = j + 1;
            }
            proof {
                assert(lst@.take(lst@.len() as int) =~= lst@);
                self.lemma_year_range_snoc(start_year as int, y as int);
            }
            y = y + 1;
        }
        out
    }

    /// Recomputes the statistics table: one record per rated movie, none
    /// for a movie without ratings.
    pub fn compute_movie_stats(&mut self)
        requires
            old(self).wf(),
        ensures
            final(self).wf(),
            forall|m: u32|
                #[trigger] final(self).stats_map().contains_key(m) <==> old(
                    self,
                ).movie_ratings_of(m).len() > 0,
            forall|m: u32|
                old(self).movie_ratings_of(m).len() > 0 ==> #[trigger] final(self).stats_map()[m]
                    == spec_stats_for(old(self).movie_ratings_of(m)),
            final(self).user_map() == old(self).user_map(),
            final(self).movie_map() == old(self).movie_map(),
            final(self).movie_id_list() == old(self).movie_id_list(),
            final(self).rater_list() == old(self).rater_list(),
            final(self).rated_list() == old(self).rated_list(),
            forall|u: u32| #[trigger] final(self).user_ratings_of(u) == old(self).user_ratings_of(u),
            forall|m: u32|
                #[trigger] final(self).movie_ratings_of(m) == old(self).movie_ratings_of(m),
            forall|g: Genre| #[trigger] final(self).genre_movies_of(g) == old(self).genre_movies_of(g),
            forall|y: u16| #[trigger] final(self).year_movies_of(y) == old(self).year_movies_of(y),
    {
        let mut new_stats: HashMap<u32, MovieStats> = HashMap::new();
        let mut i: usize = 0;
        while i < self.rated_order.len()
            invariant
                *self == *old(self),
                old(self).wf(),
                i <= self.rated_order@.len(),
                forall|m: u32|
                    #[trigger] new_stats@.contains_key(m) <==> self.rated_order@.take(
                        i as int,
                    ).contains(m),
                forall|m: u32|
                    new_stats@.contains_key(m) ==> #[trigger] new_stats@[m] == spec_stats_for(
                        self.movie_ratings_of(m),
                    ),
            decreases self.rated_order@.len() - i,
        {
            let mid = self.rated_order[i];
            let stats = match self.movie_ratings.get(&mid) {
                Some(list) => {
                    let ghost ratings = list@;
                    let mut sum: u128 = 0;
                    let mut j: usize = 0;
                    while j < list.len()
                        invariant
                            list@ == ratings,
                            j <= ratings.len(),
                            sum == spec_sum_tenths(ratings.take(j as int)),
                            sum <= (j as int) * 0xffffffff,
                        decreases ratings.len() - j,
                    {
                        proof {
                            assert(ratings.take(j + 1 as int).drop_last() =~= ratings.take(
                                j as int,
                            ));
                            assert(ratings.take(j + 1 as int).last() == ratings[j as int]);
                        }
                        sum = sum + list[j].rating as u128;
                        j = j + 1;
                    }
                    proof {
                        assert(ratings.take(ratings.len() as int) =~= ratings);
                        lemma_avg_bound(ratings);
                        assert(ratings.len() > 0);
                    }
                    let count = list.len();
                    let avg: u64 = ((sum * 100) / (count as u128)) as u64;
                    let rc: u32 = if count >= 0xffffffffusize {
                        0xffffffffu32
                    } else {
                        count as u32
                    };
                    let pop: u64 = compute_popularity_score(avg, rc);
                    MovieStats { avg_rating: avg, rating_count: rc, popularity_score: pop }
                },
                None => {
                    proof {
                        assert(false);
                    }
                    MovieStats { avg_rating: 0, rating_count: 0, popularity_score: 0 }
                },
            };
            new_stats.insert(mid, stats);
            proof {
                assert forall|m: u32| #[trigger] new_stats@.contains_key(m) implies self
                    .rated_order@.take(i + 1 as int).contains(m) by {
                    if m == mid {
                        assert(self.rated_order@.take(i + 1 as int)[i as int] == mid);
                    } else {
                        let j = choose|j: int|
                            0 <= j < i && #[trigger] self.rated_order@.take(i as int)[j] == m;
                        assert(self.rated_order@.take(i + 1 as int)[j] == m);
                    }
                }
                assert forall|m: u32| self.rated_order@.take(i + 1 as int).contains(
                    m,
                ) implies #[trigger] new_stats@.contains_key(m) by {
                    let j = choose|j: int|
                        0 <= j < i + 1 && #[trigger] self.rated_order@.take(i + 1 as int)[j] == m;
                    if j < i {
                        assert(self.rated_order@.take(i as int)[j] == m);
                    }
                }
            }
            i = i + 1;
        }
        let ghost ns = new_stats@;
        self.movie_stats = new_stats;
        proof {
            assert(self.movie_stats@ == ns);
            assert forall|m: u32| #[trigger] self.stats_map().contains_key(m) <==> old(
                self,
            ).movie_ratings_of(m).len() > 0 by {
                assert(self.rated_order@.take(self.rated_order@.len() as int) =~= self
                    .rated_order@);
                if self.rated_order@.contains(m) {
                    assert(old(self).movie_ratings@.contains_key(m));
                }
                if old(self).movie_ratings_of(m).len() > 0 {
                    assert(old(self).movie_ratings@.contains_key(m));
                    assert(self.rated_order@.contains(m));
                }
            }
        }
    }

    /// The combined length of the per-user rating lists over the first `n`
    /// raters.
    pub closed spec fn sum_ratings_prefix(&self, n: int) -> int
        decreases n,
    {
        if n <= 0 {
            0
        } else {
            self.sum_ratings_prefix(n - 1) + self.user_ratings_of(self.rater_order@[n - 1]).len()
        }
    }

    /// The total number of ratings held, counted once per user list.
    pub open spec fn total_ratings(&self) -> int {
        self.sum_ratings_prefix(self.rater_list().len() as int)
    }

    /// The number of users, the number of movies, and the total number of
    /// ratings, the latter clamped into `usize`.
    pub fn counts(&self) -> (r: (usize, usize, usize))
        requires
            self.wf(),
        ensures
            r.0 == self.user_map().dom().len(),
            r.1 == self.movie_map().dom().len(),
            r.2 == if self.total_ratings() > usize::MAX as int {
                usize::MAX as int
            } else {
                self.total_ratings()
            },
    {
        let mut total: u128 = 0;
        let mut i: usize = 0;
        while i < self.rater_order.len()
            invariant
                self.wf(),
                i <= self.rater_order@.len(),
                total == self.sum_ratings_prefix(i as int),
                total <= (i as int) * 0xffffffffffffffffu128,
            decreases self.rater_order@.len() - i,
        {
            let uid = self.rater_order[i];
            match self.user_ratings.get(&uid) {
                Some(v) => {
                    total = total + v.len() as u128;
                },
                None => {
                    proof {
                        assert(false);
                    }
                },
            }
            i = i + 1;
        }
        let total_clamped: usize = if total > usize::MAX as u128 {
            usize::MAX
        } else {
            total as usize
        };
        (self.users.len(), self.movies.len(), total_clamped)
    }

    /// One stored rating referencing an existing user, an existing movie,
    /// and a value inside the accepted range.
    pub open spec fn rating_ok(&self, r: Rating) -> bool {
        &&& self.user_map().contains_key(r.user_id)
        &&& self.movie_map().contains_key(r.movie_id)
        &&& rating_value_in_range(r.rating)
    }

    /// Every rating stored under any user is admissible.
    pub open spec fn all_ratings_valid(&self) -> bool {
        forall|u: u32, j: int|
            0 <= j < self.user_ratings_of(u).len() ==> self.rating_ok(
                #[trigger] self.user_ratings_of(u)[j],
            )
    }

    /// Checks referential integrity and value ranges of every stored
    /// rating. Succeeds exactly when every rating references an existing
    /// user and movie and has a value between 1.0 and 5.0 stars; the error
    /// names the first offending rating's missing reference or value.
    pub fn validate(&self) -> (r: Result<(), DataLoadError>)
        requires
            self.wf(),
        ensures
            r is Ok <==> self.all_ratings_valid(),
            r matches Err(e) ==> validate_error_ok(*self, e),
    {
        let mut i: usize = 0;
        while i < self.rater_order.len()
            invariant
                self.wf(),
                i <= self.rater_order@.len(),
                forall|ii: int, j: int|
                    0 <= ii < i && 0 <= j < self.user_ratings_of(self.rater_order@[ii]).len()
                        ==> self.rating_ok(
                        #[trigger] self.user_ratings_of(self.rater_order@[ii])[j],
                    ),
            decreases self.rater_order@.len() - i,
        {
            let uid = self.rater_order[i];
            let list = match self.user_ratings.get(&uid) {
                Some(v) => v,
                None => {
                    proof {
                        assert(false);
                    }
                    &self.no_ratings
                },
            };
            let mut j: usize = 0;
            while j < list.len()
                invariant
                    self.wf(),
                    j <= list@.len(),
                    list@ == self.user_ratings_of(uid),
                    forall|jj: int|
                        0 <= jj < j ==> self.rating_ok(#[trigger] self.user_ratings_of(uid)[jj]),
                decreases list@.len() - j,
            {
                let r = list[j];
                if !self.users.contains_key(&r.user_id) {
                    let e = DataLoadError::MissingReference {
                        entity: "User".to_owned(),
                        id: r.user_id,
                    };
                    proof {
                        assert(self.user_ratings_of(uid)[j as int] == r);
                        assert(validate_error_ok(*self, e));
                    }
                    return Err(e);
                }
                if !self.movies.contains_key(&r.movie_id) {
                    let e = DataLoadError::MissingReference {
                        entity: "Movie".to_owned(),
                        id: r.movie_id,
                    };
                    proof {
                        assert(self.user_ratings_of(uid)[j as int] == r);
                        assert(validate_error_ok(*self, e));
                    }
                    return Err(e);
                }
                if r.rating < MIN_RATING_TENTHS || r.rating > MAX_RATING_TENTHS {
                    let e = DataLoadError::InvalidValue {
                        field: "rating".to_owned(),
                        value: u64_to_string(r.rating as u64),
                    };
                    proof {
                        assert(self.user_ratings_of(uid)[j as int] == r);
                        assert(validate_error_ok(*self, e));
                    }
                    return Err(e);
                }
                j = j + 1;
            }
            i = i + 1;
        }
        proof {
            assert forall|u: u32, j: int|
                0 <= j < self.user_ratings_of(u).len() implies self.rating_ok(
                #[trigger] self.user_ratings_of(u)[j],
            ) by {
                assert(self.user_ratings@.contains_key(u));
                let ii = choose|ii: int|
                    0 <= ii < self.rater_order@.len() && self.rater_order@[ii] == u;
                assert(self.user_ratings_of(self.rater_order@[ii])[j] == self.user_ratings_of(
                    u,
                )[j]);
            }
        }
        Ok(())
    }

    /// Builds a frozen index from parsed records: primary stores, the
    /// derived by-genre and by-year tables, and per-movie statistics, then
    /// validates every rating. Succeeds exactly when every rating
    /// references a given user and movie and has a value between 1.0 and
    /// 5.0 stars. Later records win when two share an id.
    pub fn build(users: Vec<User>, movies: Vec<Movie>, ratings: Vec<Rating>) -> (r: Result<
        DataIndex,
        DataLoadError,
    >)
        ensures
            r is Ok <==> spec_dataset_valid(users@, movies@, ratings@),
            r matches Err(e) ==> dataset_error_ok(users@, movies@, ratings@, e),
            r matches Ok(idx) ==> {
                &&& idx.wf()
                &&& idx.user_map() == spec_user_map(users@)
                &&& idx.movie_map() == spec_movie_map(movies@)
                &&& forall|u: u32|
                    #[trigger] idx.user_ratings_of(u) == ratings@.filter(by_user_pred(u))
                &&& forall|m: u32|
                    #[trigger] idx.movie_ratings_of(m) == ratings@.filter(for_movie_pred(m))
                &&& forall|g: Genre|
                    #[trigger] idx.genre_movies_of(g) == idx.movie_id_list().filter(
                        genre_pred(spec_movie_map(movies@), g),
                    )
                &&& forall|y: u16|
                    #[trigger] idx.year_movies_of(y) == idx.movie_id_list().filter(
                        year_pred(spec_movie_map(movies@), y),
                    )
                &&& forall|m: u32|
                    #[trigger] idx.stats_map().contains_key(m) <==> ratings@.filter(
                        for_movie_pred(m),
                    ).len() > 0
                &&& forall|m: u32|
                    ratings@.filter(for_movie_pred(m)).len() > 0 ==> #[trigger] idx.stats_map()[m]
                        == spec_stats_for(ratings@.filter(for_movie_pred(m)))
            },
    {
        let ghost us = users@;
        let ghost ms = movies@;
        let ghost rs = ratings@;
        let mut idx = DataIndex::new();
        let mut rest_users = reverse_vec(users);
        proof {
            assert(us.skip(0).reverse() =~= rest_users@);
            assert(us.take(0) =~= Seq::<User>::empty());
        }
        while rest_users.len() > 0
            invariant
                idx.wf(),
                rest_users@.len() <= us.len(),
                rest_users@ == us.skip(us.len() - rest_users@.len()).reverse(),
                idx.user_map() == spec_user_map(us.take(us.len() - rest_users@.len())),
                idx.movie_map() == Map::<u32, Movie>::empty(),
                idx.rater_list() == Seq::<u32>::empty(),
                idx.rated_list() == Seq::<u32>::empty(),
                forall|u: u32| #[trigger] idx.user_ratings_of(u) == Seq::<Rating>::empty(),
                forall|m: u32| #[trigger] idx.movie_ratings_of(m) == Seq::<Rating>::empty(),
            decreases rest_users@.len(),
        {
            let ghost n = us.len() - rest_users@.len();
            let u = rest_users.pop().unwrap();
            proof {
                assert(u == us.skip(n).reverse().last());
                assert(u == us[n]);
                assert(rest_users@ =~= us.skip(n + 1).reverse());
                assert(us.take(n + 1).drop_last() =~= us.take(n as int));
                assert(us.take(n + 1).last() == us[n]);
            }
            idx.insert_user(u);
        }
        proof {
            assert(us.take(us.len() as int) =~= us);
        }
        let mut rest_movies = reverse_vec(movies);
        proof {
            assert(ms.skip(0).reverse() =~= rest_movies@);
            assert(ms.take(0) =~= Seq::<Movie>::empty());
        }
        while rest_movies.len() > 0
            invariant
                idx.wf(),
                rest_movies@.len() <= ms.len(),
                rest_movies@ == ms.skip(ms.len() - rest_movies@.len()).reverse(),
                idx.movie_map() == spec_movie_map(ms.take(ms.len() - rest_movies@.len())),
                idx.user_map() == spec_user_map(us),
                idx.rater_list() == Seq::<u32>::empty(),
                idx.rated_list() == Seq::<u32>::empty(),
                forall|u: u32| #[trigger] idx.user_ratings_of(u) == Seq::<Rating>::empty(),
                forall|m: u32| #[trigger] idx.movie_ratings_of(m) == Seq::<Rating>::empty(),
            decreases rest_movies@.len(),
        {
            let ghost n = ms.len() - rest_movies@.len();
            let m = rest_movies.pop().unwrap();
            proof {
                assert(m == ms.skip(n).reverse().last());
                assert(m == ms[n]);
                assert(rest_movies@ =~= ms.skip(n + 1).reverse());
                assert(ms.take(n + 1).drop_last() =~= ms.take(n as int));
                assert(ms.take(n + 1).last() == ms[n]);
            }
            idx.insert_movie(m);
        }
        proof {
            assert(ms.take(ms.len() as int) =~= ms);
        }
        let mut i: usize = 0;
        proof {
            assert(rs.take(0) =~= Seq::<Rating>::empty());
        }
        while i < ratings.len()
            invariant
                idx.wf(),
                i <= rs.len(),
                ratings@ == rs,
                idx.user_map() == spec_user_map(us),
                idx.movie_map() == spec_movie_map(ms),
                forall|u: u32|
                    #[trigger] idx.user_ratings_of(u) == rs.take(i as int).filter(by_user_pred(u)),
                forall|m: u32|
                    #[trigger] idx.movie_ratings_of(m) == rs.take(i as int).filter(
                        for_movie_pred(m),
                    ),
            decreases rs.len() - i,
        {
            let ghost prev = idx;
            let rating = ratings[i];
            idx.insert_rating(rating);
            proof {
                assert(rs.take(i + 1 as int) =~= rs.take(i as int).push(rating));
                assert forall|u: u32| #[trigger] idx.user_ratings_of(u) == rs.take(
                    i + 1 as int,
                ).filter(by_user_pred(u)) by {
                    lemma_filter_push(rs.take(i as int), by_user_pred(u), rating);
                }
                assert forall|m: u32| #[trigger] idx.movie_ratings_of(m) == rs.take(
                    i + 1 as int,
                ).filter(for_movie_pred(m)) by {
                    lemma_filter_push(rs.take(i as int), for_movie_pred(m), rating);
                }
            }
            i = i + 1;
        }
        proof {
            assert(rs.take(rs.len() as int) =~= rs);
        }
        idx.build_secondary_indices();
        idx.compute_movie_stats();
        proof {
            assert forall|i2: int| 0 <= i2 < rs.len() implies idx.user_ratings_of(
                #[trigger] rs[i2].user_id,
            ).contains(rs[i2]) by {
                rs.filter_lemma(by_user_pred(rs[i2].user_id));
            }
            if idx.all_ratings_valid() {
                assert forall|i2: int| 0 <= i2 < rs.len() implies spec_rating_admissible(
                    us,
                    ms,
                    #[trigger] rs[i2],
                ) by {
                    let e = rs[i2];
                    let lst = idx.user_ratings_of(e.user_id);
                    let j = choose|j: int| 0 <= j < lst.len() && lst[j] == e;
                    assert(idx.rating_ok(lst[j]));
                }
                assert(spec_dataset_valid(us, ms, rs));
            }
            if spec_dataset_valid(us, ms, rs) {
                assert forall|u: u32, j: int|
                    0 <= j < idx.user_ratings_of(u).len() implies idx.rating_ok(
                    #[trigger] idx.user_ratings_of(u)[j],
                ) by {
                    lemma_filter_sub(rs, by_user_pred(u));
                    let e = idx.user_ratings_of(u)[j];
                    assert(rs.contains(e));
                    let i2 = choose|i2: int| 0 <= i2 < rs.len() && rs[i2] == e;
                    assert(spec_rating_admissible(us, ms, rs[i2]));
                }
                assert(idx.all_ratings_valid());
            }
        }
        match idx.validate() {
            Ok(()) => Ok(idx),
            Err(e) => {
                proof {
                    lemma_transfer_validate_error(idx, us, ms, rs, e);
                }
                Err(e)
            },
        }
    }
}

/// The empty index.
impl Default for DataIndex {
    fn default() -> (r: Self)
        ensures
            r.wf(),
            r.user_map() == Map::<u32, User>::empty(),
            r.movie_map() == Map::<u32, Movie>::empty(),
    {
        DataIndex::new()
    }
}

} // verus!
