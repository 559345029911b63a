use std::sync::Arc;

use reel_recs::candidate::{Candidate, CandidateSource};
use reel_recs::index::DataIndex;
use reel_recs::phoenix::PhoenixSource;
use reel_recs::thunder::ThunderSource;
use reel_recs::types::{AgeGroup, Gender, Genre, Movie, Occupation, Rating, User};
use reel_recs::user_context::build_user_context;

fn user(id: u32, occupation: Occupation) -> User {
    User {
        id,
        gender: Gender::Male,
        age: AgeGroup::Age25To34,
        occupation,
        zipcode: "12345".to_string(),
    }
}

fn create_thunder_index() -> DataIndex {
    let mut index = DataIndex::new();

    index.insert_user(user(1, Occupation::Programmer));
    index.insert_user(user(2, Occupation::Academic));
    index.insert_user(user(3, Occupation::Technician));

    for i in 1..=10 {
        index.insert_movie(Movie {
            id: i,
            title: format!("Movie {}", i),
            year: Some(2000),
            genres: vec![Genre::Action],
        });
    }

    for movie_id in 1..=3 {
        index.insert_rating(Rating { user_id: 1, movie_id, rating: 50, timestamp: 1000000 });
    }
    for movie_id in 1..=5 {
        index.insert_rating(Rating { user_id: 2, movie_id, rating: 50, timestamp: 1000000 });
    }
    index.insert_rating(Rating { user_id: 3, movie_id: 1, rating: 50, timestamp: 1000000 });

    index
}

#[test]
fn test_candidate_creation() {
    let candidate = Candidate::new(1, CandidateSource::Thunder, 850);
    assert_eq!(candidate.movie_id, 1);
    assert_eq!(candidate.source, CandidateSource::Thunder);
    assert_eq!(candidate.base_score, 850);
}

#[test]
fn test_thunder_source_creation() {
    let index = create_thunder_index();
    let _thunder = ThunderSource::new(Arc::new(index));
    assert!(true);
}

#[test]
fn test_phoenix_source_creation() {
    let index = create_thunder_index();
    let _phoenix = PhoenixSource::new(Arc::new(index));
    assert!(true);
}

#[test]
fn test_find_similar_users() {
    let index = Arc::new(create_thunder_index());
    let thunder = ThunderSource::new(Arc::clone(&index));
    let context = build_user_context(&index, 1).unwrap();

    let similar = thunder.find_similar_users(&context);

    assert!(similar.contains(&2));
    assert!(!similar.contains(&3));
    assert_eq!(similar.len(), 1);
}

#[test]
fn test_get_candidate_scores() {
    let index = Arc::new(create_thunder_index());
    let thunder = ThunderSource::new(Arc::clone(&index));
    let context = build_user_context(&index, 1).unwrap();

    let similar_users: Vec<u32> = vec![2];
    let scores = thunder.get_candidate_scores(&similar_users, &context);

    assert!(scores.iter().any(|&(m, _)| m == 4));
    assert!(scores.iter().any(|&(m, _)| m == 5));
    assert_eq!(scores.iter().find(|&&(m, _)| m == 4).unwrap().1, 1);
    assert_eq!(scores.iter().find(|&&(m, _)| m == 5).unwrap().1, 1);

    assert!(!scores.iter().any(|&(m, _)| m == 1));
    assert!(!scores.iter().any(|&(m, _)| m == 2));
    assert!(!scores.iter().any(|&(m, _)| m == 3));
}

#[test]
fn thunder_test_get_candidates() {
    let index = Arc::new(create_thunder_index());
    let thunder = ThunderSource::new(Arc::clone(&index));
    let context = build_user_context(&index, 1).unwrap();

    let candidates = thunder.get_candidates(&context, 10);

    assert!(candidates.len() >= 2);

    let movie_ids: Vec<u32> = candidates.iter().map(|c| c.movie_id).collect();
    assert!(movie_ids.contains(&4));
    assert!(movie_ids.contains(&5));

    for candidate in &candidates {
        assert_eq!(candidate.source, CandidateSource::Thunder);
    }
}

#[test]
fn test_thunder_no_highly_rated_movies() {
    let mut index = DataIndex::new();
    index.insert_user(user(1, Occupation::Programmer));
    index.insert_movie(Movie {
        id: 1,
        title: "Meh (2000)".to_string(),
        year: Some(2000),
        genres: vec![Genre::Drama],
    });
    index.insert_rating(Rating { user_id: 1, movie_id: 1, rating: 20, timestamp: 1 });
    let index = Arc::new(index);
    let thunder = ThunderSource::new(Arc::clone(&index));
    let context = build_user_context(&index, 1).unwrap();
    assert_eq!(context.highly_rated_movies.len(), 0);
    let candidates = thunder.get_candidates(&context, 10);
    assert_eq!(candidates.len(), 0);
}

fn create_phoenix_index() -> DataIndex {
    let mut index = DataIndex::new();

    index.insert_user(user(1, Occupation::Programmer));

    index.insert_movie(Movie {
        id: 1,
        title: "Action Movie (2000)".to_string(),
        year: Some(2000),
        genres: vec![Genre::Action],
    });
    index.insert_movie(Movie {
        id: 2,
        title: "Drama Movie (2000)".to_string(),
        year: Some(2000),
        genres: vec![Genre::Drama],
    });
    index.insert_movie(Movie {
        id: 3,
        title: "Action Movie 2 (2005)".to_string(),
        year: Some(2005),
        genres: vec![Genre::Action],
    });
    index.insert_movie(Movie {
        id: 4,
        title: "Unseen Action (2002)".to_string(),
        year: Some(2002),
        genres: vec![Genre::Action],
    });
    index.insert_movie(Movie {
        id: 5,
        title: "Old Drama (1980)".to_string(),
        year: Some(1980),
        genres: vec![Genre::Drama],
    });

    index.insert_rating(Rating { user_id: 1, movie_id: 1, rating: 50, timestamp: 1000000 });
    index.insert_rating(Rating { user_id: 1, movie_id: 3, rating: 45, timestamp: 1000001 });

    for movie_id in 2..=5 {
        for user_id in 10..20 {
            index.insert_user(user(user_id, Occupation::Other));
            index.insert_rating(Rating { user_id, movie_id, rating: 40, timestamp: 1000000 });
        }
    }

    index.build_secondary_indices();
    index.compute_movie_stats();

    index
}

#[test]
fn test_genre_based_discovery() {
    let index = Arc::new(create_phoenix_index());
    let phoenix = PhoenixSource::new(Arc::clone(&index));
    let context = build_user_context(&index, 1).unwrap();

    let candidates = phoenix.get_genre_based(&context, 10);

    let movie_ids: Vec<u32> = candidates.iter().map(|c| c.movie_id).collect();
    assert!(movie_ids.contains(&4));

    assert!(!movie_ids.contains(&1));
    assert!(!movie_ids.contains(&3));
}

#[test]
fn phoenix_test_get_candidates() {
    let index = Arc::new(create_phoenix_index());
    let phoenix = PhoenixSource::new(Arc::clone(&index));
    let context = build_user_context(&index, 1).unwrap();

    let candidates = phoenix.get_candidates(&context, 10);

    assert!(!candidates.is_empty());

    for candidate in &candidates {
        assert_eq!(candidate.source, CandidateSource::Phoenix);
    }

    for candidate in &candidates {
        assert!(!context.watched_movies.contains(&candidate.movie_id));
    }
}
