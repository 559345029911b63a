use reel_recs::parser::{
    extract_year_from_title, parse_age_group, parse_gender, parse_genre, parse_genres,
    parse_movies, parse_occupation, parse_ratings, parse_users, decode_latin1_lines,
};
use reel_recs::errors::DataLoadError;
use reel_recs::types::{AgeGroup, Gender, Genre, Occupation};

#[test]
fn test_extract_year() {
    assert_eq!(extract_year_from_title("Toy Story (1995)"), Some(1995));
    assert_eq!(extract_year_from_title("Movie Title"), None);
}

#[test]
fn test_parse_genre() {
    let genre = parse_genre("Action").unwrap();
    assert!(matches!(genre, Genre::Action));
}

#[test]
fn test_parse_genre_aliases() {
    assert!(matches!(parse_genre("Children's").unwrap(), Genre::Children));
    assert!(matches!(parse_genre("Sci-Fi").unwrap(), Genre::SciFi));
    assert!(matches!(parse_genre("Film-Noir").unwrap(), Genre::FilmNoir));
    assert!(parse_genre("Cooking").is_err());
}

#[test]
fn test_parse_genres_list() {
    let gs = parse_genres("Action|Adventure|Sci-Fi").unwrap();
    assert_eq!(gs, vec![Genre::Action, Genre::Adventure, Genre::SciFi]);
    assert!(parse_genres("Action|Nonsense").is_err());
}

#[test]
fn test_parse_gender_codes() {
    assert_eq!(parse_gender("M").unwrap(), Gender::Male);
    assert_eq!(parse_gender("F").unwrap(), Gender::Female);
    assert!(parse_gender("X").is_err());
}

#[test]
fn test_parse_age_group_codes() {
    assert_eq!(parse_age_group("1").unwrap(), AgeGroup::Under18);
    assert_eq!(parse_age_group("25").unwrap(), AgeGroup::Age25To34);
    assert_eq!(parse_age_group("56").unwrap(), AgeGroup::Age56Plus);
    assert!(parse_age_group("26").is_err());
    assert!(parse_age_group("01").is_err());
}

#[test]
fn test_parse_occupation_codes() {
    assert_eq!(parse_occupation("0").unwrap(), Occupation::Other);
    assert_eq!(parse_occupation("12").unwrap(), Occupation::Programmer);
    assert_eq!(parse_occupation("20").unwrap(), Occupation::Writer);
    assert!(parse_occupation("21").is_err());
}

#[test]
fn test_parse_users_lines() {
    let lines = vec![
        "1::F::1::10::48067".to_string(),
        "".to_string(),
        "2::M::56::16::70072".to_string(),
    ];
    let users = parse_users(&lines).unwrap();
    assert_eq!(users.len(), 2);
    assert_eq!(users[0].id, 1);
    assert_eq!(users[0].gender, Gender::Female);
    assert_eq!(users[0].age, AgeGroup::Under18);
    assert_eq!(users[0].occupation, Occupation::K12Student);
    assert_eq!(users[0].zipcode, "48067");
    assert_eq!(users[1].id, 2);
    assert_eq!(users[1].gender, Gender::Male);
}

#[test]
fn test_parse_users_rejects_bad_line() {
    let lines = vec!["1::F::1::10::48067".to_string(), "2::Q::1::10::48067".to_string()];
    match parse_users(&lines) {
        Err(DataLoadError::InvalidValue { field, value }) => {
            assert_eq!(field, "gender");
            assert_eq!(value, "Q");
        }
        _ => panic!("a bad gender code must name the field and its text"),
    }
}

#[test]
fn test_parse_movies_lines() {
    let lines = vec![
        "1::Toy Story (1995)::Animation|Children's|Comedy".to_string(),
        "2::Jumanji (1995)::Adventure|Children's|Fantasy".to_string(),
    ];
    let movies = parse_movies(&lines).unwrap();
    assert_eq!(movies.len(), 2);
    assert_eq!(movies[0].id, 1);
    assert_eq!(movies[0].title, "Toy Story (1995)");
    assert_eq!(movies[0].year, Some(1995));
    assert_eq!(
        movies[0].genres,
        vec![Genre::Animation, Genre::Children, Genre::Comedy]
    );
}

#[test]
fn test_parse_ratings_lines() {
    let lines = vec![
        "1::1193::5::978300760".to_string(),
        "1::661::3.5::978302109".to_string(),
    ];
    let ratings = parse_ratings(&lines).unwrap();
    assert_eq!(ratings.len(), 2);
    assert_eq!(ratings[0].user_id, 1);
    assert_eq!(ratings[0].movie_id, 1193);
    assert_eq!(ratings[0].rating, 50);
    assert_eq!(ratings[0].timestamp, 978300760);
    assert_eq!(ratings[1].rating, 35);
}

#[test]
fn test_parse_ratings_rejects_bad_value() {
    let lines = vec!["1::1193::five::978300760".to_string()];
    assert!(parse_ratings(&lines).is_err());
}

#[test]
fn test_decode_latin1_lines() {
    let bytes: Vec<u8> = b"abc\ndef\n".to_vec();
    let lines = decode_latin1_lines(&bytes);
    assert_eq!(lines, vec!["abc".to_string(), "def".to_string(), "".to_string()]);
    let accented: Vec<u8> = vec![0x4c, 0xe9, 0x6f];
    let lines2 = decode_latin1_lines(&accented);
    assert_eq!(lines2, vec!["L\u{e9}o".to_string()]);
}
