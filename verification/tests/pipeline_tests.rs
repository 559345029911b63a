use std::sync::Arc;

use reel_recs::candidate::{Candidate, CandidateSource};
use reel_recs::features::FeatureEngineer;
use reel_recs::filters::Filter;
use reel_recs::filters::{
    AlreadyWatchedFilter, FilterPipeline, FilterStage, GenrePreferenceFilter, MinimumRatingFilter,
    RecencyFilter,
};
use reel_recs::index::DataIndex;
use reel_recs::types::{AgeGroup, Gender, Genre, Movie, Occupation, Rating, User};
use reel_recs::user_context::{build_user_context, UserContext};

fn user(id: u32) -> User {
    User {
        id,
        gender: Gender::Male,
        age: AgeGroup::Age25To34,
        occupation: Occupation::Executive,
        zipcode: "12345".to_string(),
    }
}

#[test]
fn test_empty_pipeline() {
    let pipeline = FilterPipeline::new();
    let context = UserContext::new(1);

    let candidates = vec![
        Candidate::new(1, CandidateSource::Thunder, 900),
        Candidate::new(2, CandidateSource::Phoenix, 800),
    ];

    let filtered = pipeline.apply(candidates.clone(), &context).unwrap();
    assert_eq!(filtered.len(), 2);
}

#[test]
fn test_single_filter() {
    let mut context = UserContext::new(1);
    context.watched_movies.insert(1);

    let pipeline = FilterPipeline::new().add_filter(FilterStage::AlreadyWatched(
        AlreadyWatchedFilter,
    ));

    let candidates = vec![
        Candidate::new(1, CandidateSource::Thunder, 900),
        Candidate::new(2, CandidateSource::Phoenix, 800),
    ];

    let filtered = pipeline.apply(candidates, &context).unwrap();
    assert_eq!(filtered.len(), 1);
    assert_eq!(filtered[0].movie_id, 2);
}

#[test]
fn test_already_watched_filter() {
    let mut context = UserContext::new(1);
    context.watched_movies.insert(100);
    context.watched_movies.insert(200);

    let candidates = vec![
        Candidate::new(100, CandidateSource::Thunder, 900),
        Candidate::new(101, CandidateSource::Thunder, 800),
        Candidate::new(200, CandidateSource::Phoenix, 700),
        Candidate::new(300, CandidateSource::Phoenix, 600),
    ];

    let filter = AlreadyWatchedFilter;
    let filtered = filter.apply(candidates, &context).unwrap();

    assert_eq!(filtered.len(), 2);
    assert_eq!(filtered[0].movie_id, 101);
    assert_eq!(filtered[1].movie_id, 300);
}

#[test]
fn test_genre_preference_filter() {
    let mut index = DataIndex::new();
    index.insert_movie(Movie {
        id: 1,
        title: "Action Movie".to_string(),
        year: Some(2000),
        genres: vec![Genre::Action, Genre::Adventure],
    });
    index.insert_movie(Movie {
        id: 2,
        title: "Drama Movie".to_string(),
        year: Some(1995),
        genres: vec![Genre::Drama],
    });
    index.insert_movie(Movie {
        id: 3,
        title: "Sci-Fi Movie".to_string(),
        year: Some(2005),
        genres: vec![Genre::SciFi],
    });
    let index = Arc::new(index);

    let mut context = UserContext::new(1);
    context.set_genre_preference(Genre::Action, 4500);
    context.set_genre_preference(Genre::Drama, 3000);
    context.set_genre_preference(Genre::Adventure, 4000);

    let candidates = vec![
        Candidate::new(1, CandidateSource::Thunder, 900),
        Candidate::new(2, CandidateSource::Phoenix, 800),
        Candidate::new(3, CandidateSource::Phoenix, 700),
    ];

    let filter = GenrePreferenceFilter::new(index, 3);
    let filtered = filter.apply(candidates, &context).unwrap();

    assert_eq!(filtered.len(), 2);
    assert!(filtered.iter().any(|c| c.movie_id == 1));
    assert!(filtered.iter().any(|c| c.movie_id == 2));
}

#[test]
fn test_minimum_rating_filter() {
    let mut index = DataIndex::new();
    for id in 1..=3 {
        index.insert_movie(Movie {
            id,
            title: format!("Movie {}", id),
            year: Some(2000),
            genres: vec![],
        });
    }

    for i in 0..20 {
        index.insert_rating(Rating { user_id: i, movie_id: 1, rating: 45, timestamp: 1000000 });
    }
    for i in 0..20 {
        index.insert_rating(Rating {
            user_id: i + 100,
            movie_id: 2,
            rating: 20,
            timestamp: 1000000,
        });
    }
    for i in 0..5 {
        index.insert_rating(Rating {
            user_id: i + 200,
            movie_id: 3,
            rating: 45,
            timestamp: 1000000,
        });
    }
    index.compute_movie_stats();

    let index = Arc::new(index);

    let candidates = vec![
        Candidate::new(1, CandidateSource::Thunder, 900),
        Candidate::new(2, CandidateSource::Phoenix, 800),
        Candidate::new(3, CandidateSource::Phoenix, 700),
    ];

    let filter = MinimumRatingFilter::new(index, 3500, 10);
    let filtered = filter.apply(candidates, &UserContext::new(1)).unwrap();

    assert_eq!(filtered.len(), 1);
    assert_eq!(filtered[0].movie_id, 1);
}

fn recency_index() -> Arc<DataIndex> {
    let mut index = DataIndex::new();
    index.insert_movie(Movie {
        id: 1,
        title: "Old Movie (1980)".to_string(),
        year: Some(1980),
        genres: vec![],
    });
    index.insert_movie(Movie {
        id: 2,
        title: "Era Movie (2000)".to_string(),
        year: Some(2000),
        genres: vec![],
    });
    index.insert_movie(Movie {
        id: 3,
        title: "Recent Movie (2020)".to_string(),
        year: Some(2020),
        genres: vec![],
    });
    Arc::new(index)
}

#[test]
fn test_recency_filter() {
    let index = recency_index();
    let mut context = UserContext::new(1);
    context.preferred_era = Some(2000);

    let candidates = vec![
        Candidate::new(1, CandidateSource::Thunder, 900),
        Candidate::new(2, CandidateSource::Phoenix, 800),
        Candidate::new(3, CandidateSource::Phoenix, 700),
    ];

    let filter = RecencyFilter::new(index, 10);
    let filtered = filter.apply(candidates, &context).unwrap();

    assert_eq!(filtered.len(), 1);
    assert_eq!(filtered[0].movie_id, 2);
}

#[test]
fn test_recency_filter_no_preferred_era() {
    let index = recency_index();
    let context = UserContext::new(1);

    let candidates = vec![
        Candidate::new(1, CandidateSource::Thunder, 900),
        Candidate::new(2, CandidateSource::Phoenix, 800),
        Candidate::new(3, CandidateSource::Phoenix, 700),
    ];

    let filter = RecencyFilter::new(index, 10);
    let filtered = filter.apply(candidates, &context).unwrap();

    assert_eq!(filtered.len(), 3);
}

fn create_test_setup() -> (Arc<DataIndex>, Vec<Candidate>) {
    let mut index = DataIndex::new();

    index.insert_user(user(1));
    index.insert_movie(Movie {
        id: 1,
        title: "High Rated Action (2000)".to_string(),
        year: Some(2000),
        genres: vec![Genre::Action, Genre::Adventure],
    });
    index.insert_movie(Movie {
        id: 2,
        title: "Low Rated Drama (1995)".to_string(),
        year: Some(1995),
        genres: vec![Genre::Drama],
    });
    index.insert_movie(Movie {
        id: 3,
        title: "Good SciFi (2005)".to_string(),
        year: Some(2005),
        genres: vec![Genre::SciFi, Genre::Action],
    });
    index.insert_movie(Movie {
        id: 4,
        title: "Unwatched Action (2000)".to_string(),
        year: Some(2000),
        genres: vec![Genre::Action],
    });

    for i in 0..30 {
        index.insert_rating(Rating { user_id: i, movie_id: 1, rating: 45, timestamp: 1000000 });
    }
    for i in 0..20 {
        index.insert_rating(Rating {
            user_id: i + 100,
            movie_id: 2,
            rating: 25,
            timestamp: 1000000,
        });
    }
    for i in 0..25 {
        index.insert_rating(Rating {
            user_id: i + 200,
            movie_id: 3,
            rating: 42,
            timestamp: 1000000,
        });
    }
    for i in 0..20 {
        index.insert_rating(Rating {
            user_id: i + 300,
            movie_id: 4,
            rating: 43,
            timestamp: 1000000,
        });
    }

    index.insert_rating(Rating { user_id: 1, movie_id: 1, rating: 50, timestamp: 1000000 });
    index.insert_rating(Rating { user_id: 1, movie_id: 2, rating: 30, timestamp: 1000000 });
    index.compute_movie_stats();

    let index = Arc::new(index);

    let candidates = vec![
        Candidate::new(1, CandidateSource::Thunder, 950),
        Candidate::new(2, CandidateSource::Phoenix, 800),
        Candidate::new(3, CandidateSource::Phoenix, 850),
        Candidate::new(4, CandidateSource::Thunder, 900),
    ];

    (index, candidates)
}

#[test]
fn test_full_pipeline_filters_correctly() {
    let (index, candidates) = create_test_setup();

    let context = build_user_context(&index, 1).unwrap();

    let pipeline = FilterPipeline::new()
        .add_filter(FilterStage::AlreadyWatched(AlreadyWatchedFilter))
        .add_filter(FilterStage::MinimumRating(MinimumRatingFilter::new(
            Arc::clone(&index),
            3500,
            10,
        )))
        .add_filter(FilterStage::GenrePreference(GenrePreferenceFilter::new(
            Arc::clone(&index),
            3,
        )));

    let filtered = pipeline.apply(candidates, &context).unwrap();

    assert!(filtered.len() <= 2, "Pipeline should filter out most candidates");
}

#[test]
fn test_feature_engineering_after_filtering() {
    let (index, candidates) = create_test_setup();

    let context = build_user_context(&index, 1).unwrap();

    let pipeline = FilterPipeline::new().add_filter(FilterStage::AlreadyWatched(
        AlreadyWatchedFilter,
    ));

    let filtered = pipeline.apply(candidates, &context).unwrap();

    let engineer = FeatureEngineer::new(Arc::clone(&index));
    let features = engineer.compute_features(&filtered, &context);

    assert_eq!(features.len(), filtered.len(), "Should have features for each filtered candidate");

    for feature in &features {
        assert!(
            !context.watched_movies.contains(&feature.movie_id),
            "No features should be for watched movies"
        );
    }
}

#[test]
fn test_complete_pipeline_realistic() {
    let (index, candidates) = create_test_setup();

    let context = build_user_context(&index, 1).unwrap();

    let pipeline = FilterPipeline::new()
        .add_filter(FilterStage::AlreadyWatched(AlreadyWatchedFilter))
        .add_filter(FilterStage::MinimumRating(MinimumRatingFilter::new(
            Arc::clone(&index),
            3500,
            10,
        )))
        .add_filter(FilterStage::GenrePreference(GenrePreferenceFilter::new(
            Arc::clone(&index),
            3,
        )));

    let filtered = pipeline.apply(candidates, &context).unwrap();

    assert!(!filtered.is_empty(), "Should have at least some candidates after filtering");

    let engineer = FeatureEngineer::new(Arc::clone(&index));
    let features = engineer.compute_features(&filtered, &context);

    for feature in &features {
        assert!(feature.genre_overlap_score <= 1000, "Genre overlap should be in [0, 1]");
        assert!(feature.avg_rating <= 5000);
        assert!(feature.rating_count > 0);
    }
}

#[test]
fn test_feature_computation() {
    let mut index = DataIndex::new();

    index.insert_movie(Movie {
        id: 1,
        title: "Action Movie (2000)".to_string(),
        year: Some(2000),
        genres: vec![Genre::Action, Genre::Adventure],
    });
    index.insert_movie(Movie {
        id: 2,
        title: "Drama Movie (1995)".to_string(),
        year: Some(1995),
        genres: vec![Genre::Drama],
    });

    for i in 0..20 {
        index.insert_rating(Rating { user_id: i, movie_id: 1, rating: 45, timestamp: 1000000 });
    }
    for i in 0..10 {
        index.insert_rating(Rating {
            user_id: i + 100,
            movie_id: 2,
            rating: 40,
            timestamp: 1000000,
        });
    }
    index.compute_movie_stats();

    let engineer = FeatureEngineer::new(Arc::new(index));

    let mut context = UserContext::new(1);
    context.set_genre_preference(Genre::Action, 4500);
    context.set_genre_preference(Genre::Adventure, 4000);
    context.preferred_era = Some(2000);

    let candidates = vec![Candidate::new(1, CandidateSource::Thunder, 900)];

    let features = engineer.compute_features(&candidates, &context);

    assert_eq!(features.len(), 1);
    assert_eq!(features[0].movie_id, 1);
}

#[test]
fn test_genre_overlap_values() {
    let mut index = DataIndex::new();
    index.insert_movie(Movie {
        id: 1,
        title: "Blend (2000)".to_string(),
        year: Some(2000),
        genres: vec![Genre::Action, Genre::SciFi],
    });
    index.insert_movie(Movie {
        id: 2,
        title: "Bare (2000)".to_string(),
        year: Some(2000),
        genres: vec![],
    });
    let engineer = FeatureEngineer::new(Arc::new(index));

    let mut context = UserContext::new(1);
    context.set_genre_preference(Genre::Action, 4500);
    context.set_genre_preference(Genre::Adventure, 4000);

    // Movie genres {Action, SciFi}, top genres {Action, Adventure}:
    // one genre shared out of three distinct.
    assert_eq!(engineer.compute_genre_overlap(1, &context), 333);
    // A movie without genres overlaps nothing.
    assert_eq!(engineer.compute_genre_overlap(2, &context), 0);
    // A user without preferences overlaps nothing.
    let empty_context = UserContext::new(2);
    assert_eq!(engineer.compute_genre_overlap(1, &empty_context), 0);
}
