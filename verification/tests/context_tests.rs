use reel_recs::index::DataIndex;
use reel_recs::types::{AgeGroup, Gender, Genre, Movie, Occupation, Rating, User};
use reel_recs::user_context::build_user_context;

fn create_test_index() -> DataIndex {
    let mut index = DataIndex::new();

    index.insert_user(User {
        id: 1,
        gender: Gender::Male,
        age: AgeGroup::Age25To34,
        occupation: Occupation::Programmer,
        zipcode: "12345".to_string(),
    });

    index.insert_movie(Movie {
        id: 1,
        title: "Action Movie (2000)".to_string(),
        year: Some(2000),
        genres: vec![Genre::Action, Genre::Adventure],
    });

    index.insert_movie(Movie {
        id: 2,
        title: "Drama Movie (1995)".to_string(),
        year: Some(1995),
        genres: vec![Genre::Drama],
    });

    index.insert_movie(Movie {
        id: 3,
        title: "Action Movie 2 (2005)".to_string(),
        year: Some(2005),
        genres: vec![Genre::Action, Genre::SciFi],
    });

    index.insert_rating(Rating { user_id: 1, movie_id: 1, rating: 50, timestamp: 1000000 });
    index.insert_rating(Rating { user_id: 1, movie_id: 2, rating: 30, timestamp: 1000001 });
    index.insert_rating(Rating { user_id: 1, movie_id: 3, rating: 45, timestamp: 1000002 });

    index
}

#[test]
fn test_build_user_context_basic() {
    let index = create_test_index();
    let context = build_user_context(&index, 1).unwrap();

    assert_eq!(context.user_id, 1);
    assert_eq!(context.watched_movies.len(), 3);
    assert!(context.watched_movies.contains(&1));
    assert!(context.watched_movies.contains(&2));
    assert!(context.watched_movies.contains(&3));
}

#[test]
fn test_build_user_context_highly_rated() {
    let index = create_test_index();
    let context = build_user_context(&index, 1).unwrap();

    assert_eq!(context.highly_rated_movies.len(), 2);
    assert!(context.highly_rated_movies.contains(&1));
    assert!(context.highly_rated_movies.contains(&3));
}

#[test]
fn test_build_user_context_avg_rating() {
    let index = create_test_index();
    let context = build_user_context(&index, 1).unwrap();

    assert_eq!(context.avg_rating, 4166);
}

#[test]
fn test_genre_preferences() {
    let index = create_test_index();
    let context = build_user_context(&index, 1).unwrap();

    assert!(context.genre_preference(Genre::Action).is_some());
    let action_score = context.genre_preference(Genre::Action).unwrap();
    assert_eq!(action_score, 4750);
    assert_eq!(context.genre_preference(Genre::Adventure).unwrap(), 5000);
    assert_eq!(context.genre_preference(Genre::Drama).unwrap(), 3000);
    assert_eq!(context.genre_preference(Genre::SciFi).unwrap(), 4500);
    assert!(context.genre_preference(Genre::Horror).is_none());
}

#[test]
fn test_preferred_era() {
    let index = create_test_index();
    let context = build_user_context(&index, 1).unwrap();

    assert!(context.preferred_era.is_some());
    let era = context.preferred_era.unwrap();
    assert!(era == 2000 || era == 2005);
}

#[test]
fn test_user_not_found() {
    let index = DataIndex::new();
    let result = build_user_context(&index, 999);
    assert!(result.is_err());
}

#[test]
fn test_user_with_no_ratings() {
    let mut index = DataIndex::new();
    index.insert_user(User {
        id: 1,
        gender: Gender::Male,
        age: AgeGroup::Age25To34,
        occupation: Occupation::Programmer,
        zipcode: "12345".to_string(),
    });

    let context = build_user_context(&index, 1).unwrap();
    assert_eq!(context.watched_movies.len(), 0);
    assert_eq!(context.highly_rated_movies.len(), 0);
    assert_eq!(context.avg_rating, 0);
}

#[test]
fn test_top_genres_order() {
    let index = create_test_index();
    let context = build_user_context(&index, 1).unwrap();

    let top = context.top_genres(3);
    assert_eq!(top.len(), 3);
    assert_eq!(top[0], Genre::Adventure);
    assert_eq!(top[1], Genre::Action);
    assert_eq!(top[2], Genre::SciFi);
    assert_eq!(context.top_genres(0).len(), 0);
}
