use std::sync::Arc;

use reel_recs::candidate::{Candidate, CandidateSource};
use reel_recs::errors::RecommendError;
use reel_recs::features::CandidateFeatures;
use reel_recs::index::DataIndex;
use reel_recs::orchestrator::{validate_score_response, RecommendationOrchestrator};
use reel_recs::types::{AgeGroup, Gender, Genre, Movie, Occupation, Rating, User};

fn build_test_data_index() -> Arc<DataIndex> {
    let mut data_index = DataIndex::new();

    data_index.insert_movie(Movie {
        id: 1,
        title: "The Matrix (1999)".to_string(),
        year: Some(1999),
        genres: vec![Genre::Action, Genre::SciFi],
    });
    data_index.insert_movie(Movie {
        id: 2,
        title: "Toy Story (1995)".to_string(),
        year: Some(1995),
        genres: vec![Genre::Animation, Genre::Comedy, Genre::Children],
    });
    data_index.insert_movie(Movie {
        id: 3,
        title: "Pulp Fiction (1994)".to_string(),
        year: Some(1994),
        genres: vec![Genre::Crime, Genre::Drama],
    });
    data_index.insert_movie(Movie {
        id: 4,
        title: "Forrest Gump (1994)".to_string(),
        year: Some(1994),
        genres: vec![Genre::Drama, Genre::Romance],
    });
    data_index.insert_movie(Movie {
        id: 5,
        title: "The Shawshank Redemption (1994)".to_string(),
        year: Some(1994),
        genres: vec![Genre::Drama],
    });

    data_index.insert_user(User {
        id: 1,
        gender: Gender::Male,
        age: AgeGroup::Age25To34,
        occupation: Occupation::Technician,
        zipcode: "94043".to_string(),
    });
    data_index.insert_user(User {
        id: 2,
        gender: Gender::Female,
        age: AgeGroup::Age18To24,
        occupation: Occupation::CollegeStudent,
        zipcode: "02139".to_string(),
    });

    data_index.insert_rating(Rating { user_id: 1, movie_id: 1, rating: 50, timestamp: 978300760 });
    data_index.insert_rating(Rating { user_id: 1, movie_id: 2, rating: 40, timestamp: 978300761 });
    data_index.insert_rating(Rating { user_id: 1, movie_id: 3, rating: 50, timestamp: 978300762 });

    data_index.build_secondary_indices();
    data_index.compute_movie_stats();

    Arc::new(data_index)
}

fn build_test_orchestrator() -> RecommendationOrchestrator {
    RecommendationOrchestrator::new(build_test_data_index())
}

#[test]
fn test_merge_candidates_deduplicates_by_movie_id() {
    let orchestrator = build_test_orchestrator();

    let thunder = vec![
        Candidate::new(1, CandidateSource::Thunder, 800),
        Candidate::new(2, CandidateSource::Thunder, 700),
        Candidate::new(3, CandidateSource::Thunder, 600),
    ];
    let phoenix = vec![
        Candidate::new(1, CandidateSource::Phoenix, 500),
        Candidate::new(4, CandidateSource::Phoenix, 900),
        Candidate::new(5, CandidateSource::Phoenix, 400),
    ];

    let merged = orchestrator.merge_candidates(thunder, phoenix);

    assert_eq!(merged.len(), 5, "Should have 5 unique movies after merge");

    let movie_1 = merged.iter().find(|c| c.movie_id == 1).expect("Movie 1 should exist");
    assert_eq!(movie_1.base_score, 800, "Should keep higher score from Thunder");
    assert_eq!(movie_1.source, CandidateSource::Thunder, "Should keep Thunder source");
}

#[test]
fn test_merge_candidates_keeps_highest_score_on_duplicate() {
    let orchestrator = build_test_orchestrator();

    let thunder = vec![Candidate::new(1, CandidateSource::Thunder, 300)];
    let phoenix = vec![Candidate::new(1, CandidateSource::Phoenix, 900)];

    let merged = orchestrator.merge_candidates(thunder, phoenix);

    assert_eq!(merged.len(), 1, "Should have 1 movie");
    let movie = &merged[0];
    assert_eq!(movie.base_score, 900, "Should keep higher Phoenix score");
    assert_eq!(movie.source, CandidateSource::Phoenix, "Should keep Phoenix source");
}

#[test]
fn test_merge_candidates_handles_empty_inputs() {
    let orchestrator = build_test_orchestrator();

    let merged = orchestrator.merge_candidates(vec![], vec![]);
    assert_eq!(merged.len(), 0, "Empty inputs should return empty result");

    let thunder = vec![Candidate::new(1, CandidateSource::Thunder, 500)];
    let merged = orchestrator.merge_candidates(thunder, vec![]);
    assert_eq!(merged.len(), 1, "Should handle phoenix empty");

    let phoenix = vec![Candidate::new(2, CandidateSource::Phoenix, 700)];
    let merged = orchestrator.merge_candidates(vec![], phoenix);
    assert_eq!(merged.len(), 1, "Should handle thunder empty");
}

#[test]
fn test_merge_candidates_preserves_all_unique_movies() {
    let orchestrator = build_test_orchestrator();

    let thunder = vec![
        Candidate::new(1, CandidateSource::Thunder, 500),
        Candidate::new(2, CandidateSource::Thunder, 600),
    ];
    let phoenix = vec![
        Candidate::new(3, CandidateSource::Phoenix, 700),
        Candidate::new(4, CandidateSource::Phoenix, 800),
    ];

    let merged = orchestrator.merge_candidates(thunder, phoenix);

    assert_eq!(merged.len(), 4, "Should have all 4 unique movies");

    let movie_ids: Vec<_> = merged.iter().map(|c| c.movie_id).collect();
    assert!(movie_ids.contains(&1));
    assert!(movie_ids.contains(&2));
    assert!(movie_ids.contains(&3));
    assert!(movie_ids.contains(&4));
}

#[test]
fn test_rank_and_select_sorts_by_score_descending() {
    let orchestrator = build_test_orchestrator();

    let candidates = vec![
        Candidate::new(1, CandidateSource::Thunder, 100),
        Candidate::new(2, CandidateSource::Phoenix, 500),
        Candidate::new(3, CandidateSource::Thunder, 300),
    ];
    let scores = vec![200, 900, 500];

    let recommendations = orchestrator
        .rank_and_select(candidates, vec![], scores, 10)
        .expect("rank_and_select failed");

    assert_eq!(recommendations.len(), 3);
    assert_eq!(recommendations[0].movie_id, 2, "Highest score should be first");
    assert_eq!(recommendations[0].score, 900);
    assert_eq!(recommendations[1].movie_id, 3, "Second highest score");
    assert_eq!(recommendations[1].score, 500);
    assert_eq!(recommendations[2].movie_id, 1, "Lowest score should be last");
    assert_eq!(recommendations[2].score, 200);
}

#[test]
fn test_rank_and_select_truncates_to_limit() {
    let orchestrator = build_test_orchestrator();

    let candidates = vec![
        Candidate::new(1, CandidateSource::Thunder, 100),
        Candidate::new(2, CandidateSource::Phoenix, 200),
        Candidate::new(3, CandidateSource::Thunder, 300),
        Candidate::new(4, CandidateSource::Phoenix, 400),
        Candidate::new(5, CandidateSource::Thunder, 500),
    ];
    let scores = vec![100, 200, 300, 400, 500];

    let recommendations = orchestrator
        .rank_and_select(candidates, vec![], scores, 3)
        .expect("rank_and_select failed");

    assert_eq!(recommendations.len(), 3, "Should truncate to limit of 3");
    assert_eq!(recommendations[0].movie_id, 5);
    assert_eq!(recommendations[1].movie_id, 4);
    assert_eq!(recommendations[2].movie_id, 3);
}

#[test]
fn test_rank_and_select_enriches_with_movie_metadata() {
    let orchestrator = build_test_orchestrator();

    let candidates = vec![Candidate::new(1, CandidateSource::Thunder, 500)];
    let scores = vec![800];

    let recommendations = orchestrator
        .rank_and_select(candidates, vec![], scores, 10)
        .expect("rank_and_select failed");

    assert_eq!(recommendations.len(), 1);
    let rec = &recommendations[0];

    assert_eq!(rec.movie_id, 1);
    assert_eq!(rec.title, "The Matrix (1999)");
    assert_eq!(rec.year, Some(1999));
    assert!(
        rec.genres.contains(&"Action".to_string())
            || rec.genres.iter().any(|g| g.contains("Action"))
    );
    assert_eq!(rec.score, 800);
    assert_eq!(rec.source, CandidateSource::Thunder);
    assert!(rec.explanation.contains("Score"));
    assert_eq!(rec.explanation, "Score: 0.80, Source: Thunder");
}

#[test]
fn test_rank_and_select_filters_missing_movies() {
    let orchestrator = build_test_orchestrator();

    let candidates = vec![
        Candidate::new(1, CandidateSource::Thunder, 500),
        Candidate::new(999, CandidateSource::Phoenix, 900),
        Candidate::new(2, CandidateSource::Thunder, 300),
    ];
    let scores = vec![500, 900, 300];

    let recommendations = orchestrator
        .rank_and_select(candidates, vec![], scores, 10)
        .expect("rank_and_select failed");

    assert_eq!(recommendations.len(), 2, "Should filter out missing movie 999");
    assert_eq!(recommendations[0].movie_id, 1);
    assert_eq!(recommendations[1].movie_id, 2);
}

#[test]
fn test_rank_and_select_handles_empty_input() {
    let orchestrator = build_test_orchestrator();

    let recommendations = orchestrator
        .rank_and_select(vec![], vec![], vec![], 10)
        .expect("rank_and_select failed");

    assert_eq!(recommendations.len(), 0, "Empty input should return empty result");
}

#[test]
fn test_orchestrator_construction() {
    let orchestrator = build_test_orchestrator();
    assert!(
        orchestrator.build_user_context(1).is_ok(),
        "Orchestrator construction should succeed"
    );
}

#[test]
fn test_build_user_context_for_valid_user() {
    let orchestrator = build_test_orchestrator();

    let result = orchestrator.build_user_context(1);
    assert!(result.is_ok(), "Should build context for valid user");

    let context = result.unwrap();
    assert_eq!(context.user_id, 1);
}

#[test]
fn test_build_user_context_for_missing_user() {
    let orchestrator = build_test_orchestrator();

    let result = orchestrator.build_user_context(9999);
    assert!(result.is_err(), "Should fail for missing user");
}

#[test]
fn test_short_scoring_response_is_remote_error() {
    let orchestrator = build_test_orchestrator();
    let candidates = vec![
        Candidate::new(1, CandidateSource::Thunder, 500),
        Candidate::new(2, CandidateSource::Phoenix, 400),
    ];
    let features = vec![CandidateFeatures::new(1), CandidateFeatures::new(2)];
    let short_scores: Vec<i64> = vec![500];

    let result = orchestrator.complete_request(candidates, features, short_scores, 10);
    assert!(
        matches!(result, Err(RecommendError::RemoteScoring(_))),
        "a short response must raise the remote-scoring error"
    );
}

#[test]
fn test_prepare_request_known_user() {
    let orchestrator = build_test_orchestrator();
    let (context, candidates, features) = orchestrator.prepare_request(1).unwrap();
    assert_eq!(context.user_id, 1);
    assert_eq!(features.len(), candidates.len());
}

#[test]
fn test_validate_score_response_exact_length() {
    let ok = validate_score_response(2, vec![100, 200]);
    assert_eq!(ok.unwrap(), vec![100, 200]);
    assert!(validate_score_response(3, vec![100, 200]).is_err());
    assert!(validate_score_response(1, vec![100, 200]).is_err());
}

#[test]
fn test_prepare_request_unknown_user() {
    let orchestrator = build_test_orchestrator();
    assert!(matches!(
        orchestrator.prepare_request(424242),
        Err(RecommendError::NotFound { .. })
    ));
}

#[test]
fn test_complete_request_length_mismatch_is_internal() {
    let orchestrator = build_test_orchestrator();
    let candidates = vec![Candidate::new(1, CandidateSource::Thunder, 500)];
    let result = orchestrator.complete_request(candidates, vec![], vec![500], 10);
    assert!(matches!(result, Err(RecommendError::InternalMismatch { .. })));
}
