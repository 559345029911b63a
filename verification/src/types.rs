//! Core domain types: users, movies, ratings, and per-movie statistics.
//!
//! Rating values are fixed-point tenths (a rating of 4.5 stars is stored as
//! 45); averages and popularity scores are fixed-point thousandths.

use vstd::prelude::*;

verus! {

/// Unique identifier for a user.
pub type UserId = u32;

/// Unique identifier for a movie.
pub type MovieId = u32;

/// A rating value in tenths of a star: 45 stands for 4.5 stars.
pub type RatingTenths = u32;

/// A quantity in thousandths: 4166 stands for 4.166.
pub type Milli = u64;

/// Lowest rating value accepted by dataset validation (1.0 stars).
pub const MIN_RATING_TENTHS: u32 = 10;

/// Highest rating value accepted by dataset validation (5.0 stars).
pub const MAX_RATING_TENTHS: u32 = 50;

#[derive(Clone, Copy, PartialEq, Eq, Structural, Hash, Debug)]
pub enum Gender {
    Male,
    Female,
}

/// Age brackets used by the dataset.
#[derive(Clone, Copy, PartialEq, Eq, Structural, Hash, Debug)]
pub enum AgeGroup {
    Under18,
    Age18To24,
    Age25To34,
    Age35To44,
    Age45To49,
    Age50To55,
    Age56Plus,
}

/// Occupation categories used by the dataset.
#[derive(Clone, Copy, PartialEq, Eq, Structural, Hash, Debug)]
pub enum Occupation {
    Other,
    Academic,
    Artist,
    Clerical,
    CollegeStudent,
    CustomerService,
    Doctor,
    Executive,
    Farmer,
    Homemaker,
    K12Student,
    Lawyer,
    Programmer,
    Retired,
    Sales,
    Scientist,
    SelfEmployed,
    Technician,
    Tradesman,
    Unemployed,
    Writer,
}

/// The eighteen genre tags used by the dataset.
#[derive(Clone, Copy, PartialEq, Eq, Structural, Hash, Debug)]
pub enum Genre {
    Action,
    Adventure,
    Animation,
    Children,
    Comedy,
    Crime,
    Documentary,
    Drama,
    Fantasy,
    FilmNoir,
    Horror,
    Musical,
    Mystery,
    Romance,
    SciFi,
    Thriller,
    War,
    Western,
}

/// Number of distinct genre tags.
pub const GENRE_COUNT: usize = 18;

/// A dense index for each genre, used to key per-genre tables by a plain
/// integer.
pub open spec fn spec_genre_index(g: Genre) -> int {
    match g {
        Genre::Action => 0,
        Genre::Adventure => 1,
        Genre::Animation => 2,
        Genre::Children => 3,
        Genre::Comedy => 4,
        Genre::Crime => 5,
        Genre::Documentary => 6,
        Genre::Drama => 7,
        Genre::Fantasy => 8,
        Genre::FilmNoir => 9,
        Genre::Horror => 10,
        Genre::Musical => 11,
        Genre::Mystery => 12,
        Genre::Romance => 13,
        Genre::SciFi => 14,
        Genre::Thriller => 15,
        Genre::War => 16,
        Genre::Western => 17,
    }
}

/// Dense index of a genre, always below `GENRE_COUNT`.
pub fn genre_index(g: Genre) -> (i: usize)
    ensures
        i == spec_genre_index(g),
        i < GENRE_COUNT,
{
    match g {
        Genre::Action => 0,
        Genre::Adventure => 1,
        Genre::Animation => 2,
        Genre::Children => 3,
        Genre::Comedy => 4,
        Genre::Crime => 5,
        Genre::Documentary => 6,
        Genre::Drama => 7,
        Genre::Fantasy => 8,
        Genre::FilmNoir => 9,
        Genre::Horror => 10,
        Genre::Musical => 11,
        Genre::Mystery => 12,
        Genre::Romance => 13,
        Genre::SciFi => 14,
        Genre::Thriller => 15,
        Genre::War => 16,
        Genre::Western => 17,
    }
}

/// The genre at a dense index.
pub open spec fn spec_genre_at(i: int) -> Genre {
    if i == 0 {
        Genre::Action
    } else if i == 1 {
        Genre::Adventure
    } else if i == 2 {
        Genre::Animation
    } else if i == 3 {
        Genre::Children
    } else if i == 4 {
        Genre::Comedy
    } else if i == 5 {
        Genre::Crime
    } else if i == 6 {
        Genre::Documentary
    } else if i == 7 {
        Genre::Drama
    } else if i == 8 {
        Genre::Fantasy
    } else if i == 9 {
        Genre::FilmNoir
    } else if i == 10 {
        Genre::Horror
    } else if i == 11 {
        Genre::Musical
    } else if i == 12 {
        Genre::Mystery
    } else if i == 13 {
        Genre::Romance
    } else if i == 14 {
        Genre::SciFi
    } else if i == 15 {
        Genre::Thriller
    } else if i == 16 {
        Genre::War
    } else {
        Genre::Western
    }
}

/// The genre whose dense index is `i`.
pub fn genre_from_index(i: usize) -> (g: Genre)
    requires
        i < GENRE_COUNT,
    ensures
        spec_genre_index(g) == i,
        g == spec_genre_at(i as int),
{
    match i {
        0 => Genre::Action,
        1 => Genre::Adventure,
        2 => Genre::Animation,
        3 => Genre::Children,
        4 => Genre::Comedy,
        5 => Genre::Crime,
        6 => Genre::Documentary,
        7 => Genre::Drama,
        8 => Genre::Fantasy,
        9 => Genre::FilmNoir,
        10 => Genre::Horror,
        11 => Genre::Musical,
        12 => Genre::Mystery,
        13 => Genre::Romance,
        14 => Genre::SciFi,
        15 => Genre::Thriller,
        16 => Genre::War,
        _ => Genre::Western,
    }
}

/// Two genres with one dense index are the same genre.
pub proof fn lemma_genre_index_injective(a: Genre, b: Genre)
    requires
        spec_genre_index(a) == spec_genre_index(b),
    ensures
        a == b,
{
}

/// Whether a genre list holds a genre.
pub fn has_genre(genres: &Vec<Genre>, g: Genre) -> (r: bool)
    ensures
        r == genres@.contains(g),
{
    let mut i: usize = 0;
    while i < genres.len()
        invariant
            i <= genres@.len(),
            forall|j: int| 0 <= j < i ==> genres@[j] != g,
        decreases genres@.len() - i,
    {
        if genres[i] == g {
            return true;
        }
        i = i + 1;
    }
    false
}

/// A user record.
#[derive(Clone, Debug)]
pub struct User {
    pub id: UserId,
    pub gender: Gender,
    pub age: AgeGroup,
    pub occupation: Occupation,
    pub zipcode: String,
}

/// A movie record. The year is taken from the title when present.
#[derive(Clone, Debug)]
pub struct Movie {
    pub id: MovieId,
    pub title: String,
    pub year: Option<u16>,
    pub genres: Vec<Genre>,
}

/// One rating of one movie by one user. The value is in tenths of a star.
#[derive(Clone, Copy, PartialEq, Eq, Structural, Debug)]
pub struct Rating {
    pub user_id: UserId,
    pub movie_id: MovieId,
    pub rating: RatingTenths,
    pub timestamp: i64,
}

/// Whether a rating value lies in the accepted range of 1.0 to 5.0 stars.
pub open spec fn rating_value_in_range(r: RatingTenths) -> bool {
    MIN_RATING_TENTHS <= r <= MAX_RATING_TENTHS
}

/// Statistics derived for one movie, frozen once computed. The average and
/// the popularity score are in thousandths.
#[derive(Clone, Copy, PartialEq, Eq, Structural, Debug)]
pub struct MovieStats {
    pub avg_rating: Milli,
    pub rating_count: u32,
    pub popularity_score: Milli,
}

} // verus!
