use reel_recs::strutil::{milli_to_string_2dp, string_from_chars, u64_to_string};

#[test]
fn test_u64_to_string_values() {
    assert_eq!(u64_to_string(0), "0");
    assert_eq!(u64_to_string(7), "7");
    assert_eq!(u64_to_string(1234), "1234");
    assert_eq!(u64_to_string(1000209), "1000209");
}

#[test]
fn test_milli_to_string_two_places() {
    assert_eq!(milli_to_string_2dp(0), "0.00");
    assert_eq!(milli_to_string_2dp(800), "0.80");
    assert_eq!(milli_to_string_2dp(1500), "1.50");
    assert_eq!(milli_to_string_2dp(4166), "4.16");
}

#[test]
fn test_string_from_chars_round_trip() {
    let chars: Vec<char> = vec!['T', 'o', 'y', ' ', 'S', 't', 'o', 'r', 'y'];
    assert_eq!(string_from_chars(&chars), "Toy Story");
}
