use reel_recs::errors::DataLoadError;
use reel_recs::index::DataIndex;
use reel_recs::stats::compute_popularity_score;
use reel_recs::types::{AgeGroup, Gender, Genre, Movie, Occupation, Rating, User};

fn user(id: u32) -> User {
    User {
        id,
        gender: Gender::Male,
        age: AgeGroup::Age25To34,
        occupation: Occupation::Programmer,
        zipcode: "12345".to_string(),
    }
}

#[test]
fn test_data_index_creation() {
    let index = DataIndex::new();
    let (users, movies, ratings) = index.counts();

    assert_eq!(users, 0);
    assert_eq!(movies, 0);
    assert_eq!(ratings, 0);
}

#[test]
fn test_insert_user() {
    let mut index = DataIndex::new();

    index.insert_user(user(1));

    let retrieved = index.get_user(1).unwrap();
    assert_eq!(retrieved.id, 1);
    assert_eq!(retrieved.zipcode, "12345");
}

#[test]
fn test_insert_movie() {
    let mut index = DataIndex::new();

    let movie = Movie {
        id: 1,
        title: "Toy Story (1995)".to_string(),
        year: Some(1995),
        genres: vec![Genre::Animation, Genre::Children, Genre::Comedy],
    };

    index.insert_movie(movie.clone());

    let retrieved = index.get_movie(1).unwrap();
    assert_eq!(retrieved.id, 1);
    assert_eq!(retrieved.year, Some(1995));
    assert_eq!(retrieved.genres.len(), 3);
}

#[test]
fn test_insert_rating() {
    let mut index = DataIndex::new();

    let rating = Rating { user_id: 1, movie_id: 1193, rating: 50, timestamp: 978300760 };

    index.insert_rating(rating);

    let user_ratings = index.get_user_ratings(1);
    assert_eq!(user_ratings.len(), 1);
    assert_eq!(user_ratings[0].rating, 50);

    let movie_ratings = index.get_movie_ratings(1193);
    assert_eq!(movie_ratings.len(), 1);
}

#[test]
fn test_empty_queries() {
    let index = DataIndex::new();

    assert!(index.get_user(999).is_none());
    assert!(index.get_movie(999).is_none());
    assert!(index.get_user_ratings(999).is_empty());
    assert!(index.get_movie_ratings(999).is_empty());
    assert!(index.get_movies_by_genre(Genre::Action).is_empty());
}

#[test]
fn test_popularity_score() {
    let score1 = compute_popularity_score(4500, 10);
    let score2 = compute_popularity_score(3500, 1000);

    assert!(score1 > 0);
    assert!(score2 > 0);
}

#[test]
fn test_build_validates_dataset() {
    let users = vec![user(1)];
    let movies = vec![Movie {
        id: 7,
        title: "Solid Film (1990)".to_string(),
        year: Some(1990),
        genres: vec![Genre::Drama],
    }];
    let good = vec![Rating { user_id: 1, movie_id: 7, rating: 40, timestamp: 1 }];
    let index = DataIndex::build(users.clone(), movies.clone(), good).unwrap();
    assert!(index.get_user(1).is_some());
    assert!(index.get_movie(7).is_some());
    let stats = index.get_movie_stats(7).unwrap();
    assert_eq!(stats.avg_rating, 4000);
    assert_eq!(stats.rating_count, 1);

    let unknown_user = vec![Rating { user_id: 2, movie_id: 7, rating: 40, timestamp: 1 }];
    match DataIndex::build(users.clone(), movies.clone(), unknown_user) {
        Err(DataLoadError::MissingReference { entity, id }) => {
            assert_eq!(entity, "User");
            assert_eq!(id, 2);
        }
        _ => panic!("a dangling user reference must name the user"),
    }

    let unknown_movie = vec![Rating { user_id: 1, movie_id: 8, rating: 40, timestamp: 1 }];
    match DataIndex::build(users.clone(), movies.clone(), unknown_movie) {
        Err(DataLoadError::MissingReference { entity, id }) => {
            assert_eq!(entity, "Movie");
            assert_eq!(id, 8);
        }
        _ => panic!("a dangling movie reference must name the movie"),
    }

    let out_of_range = vec![Rating { user_id: 1, movie_id: 7, rating: 55, timestamp: 1 }];
    match DataIndex::build(users, movies, out_of_range) {
        Err(DataLoadError::InvalidValue { field, value }) => {
            assert_eq!(field, "rating");
            assert_eq!(value, "55");
        }
        _ => panic!("an out-of-range rating must name the value"),
    }
}

#[test]
fn test_build_secondary_indices_lookup() {
    let users = vec![user(1)];
    let movies = vec![
        Movie {
            id: 1,
            title: "Action One (2000)".to_string(),
            year: Some(2000),
            genres: vec![Genre::Action],
        },
        Movie {
            id: 2,
            title: "Action Two (2001)".to_string(),
            year: Some(2001),
            genres: vec![Genre::Action, Genre::Comedy],
        },
    ];
    let index = DataIndex::build(users, movies, vec![]).unwrap();
    assert_eq!(index.get_movies_by_genre(Genre::Action), &[1, 2]);
    assert_eq!(index.get_movies_by_genre(Genre::Comedy), &[2]);
    assert_eq!(index.get_movies_by_year(2000), &[1]);
    assert_eq!(index.get_movies_in_year_range(2000, 2001), vec![1, 2]);
    assert_eq!(index.get_all_movie_ids(), vec![1, 2]);
}
