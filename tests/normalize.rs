use three_good_sources::matcher::normalize::normalize_text;
use three_good_sources::matcher::MatchError;

#[test]
fn test_basic_normalization() {
    let result = normalize_text("Learn Rust Programming").unwrap();
    assert_eq!(result, "learn rust programming");
}

#[test]
fn test_punctuation_removal() {
    let result = normalize_text("don't panic! it's fine.").unwrap();
    assert_eq!(result, "dont panic fine");
}

#[test]
fn test_stop_word_removal() {
    let result = normalize_text("how do I run a bitcoin node").unwrap();
    assert_eq!(result, "run bitcoin node");
}

#[test]
fn test_whitespace_normalization() {
    let result = normalize_text("  too   many    spaces  ").unwrap();
    assert_eq!(result, "many spaces");
}

#[test]
fn test_empty_query() {
    let result = normalize_text("");
    assert!(matches!(result, Err(MatchError::EmptyQuery)));
}

#[test]
fn test_whitespace_only_query() {
    let result = normalize_text("   ");
    assert!(matches!(result, Err(MatchError::EmptyQuery)));
}

#[test]
fn test_all_stop_words() {
    let result = normalize_text("the a an");
    assert!(matches!(result, Err(MatchError::QueryAllStopWords)));
}

#[test]
fn test_mixed_case_and_punctuation() {
    let result = normalize_text("What's the BEST way?").unwrap();
    assert_eq!(result, "whats best way");
}

#[test]
fn test_preserves_content_words() {
    let result = normalize_text("bitcoin node setup guide").unwrap();
    assert_eq!(result, "bitcoin node setup guide");
}

#[test]
fn test_query_with_numbers() {
    let result = normalize_text("How to setup Bitcoin 2.0 node").unwrap();
    assert_eq!(result, "setup bitcoin 20 node");
}

#[test]
fn test_stop_words_only_after_normalization() {
    let result = normalize_text("how to do it");
    assert!(matches!(result, Err(MatchError::QueryAllStopWords)));
}

#[test]
fn normalizing_a_normalized_text_keeps_it() {
    for text in ["learn rust programming", "dont panic fine", "setup bitcoin 20 node"] {
        let once = normalize_text(text).unwrap();
        assert_eq!(once, text);
        assert_eq!(normalize_text(&once).unwrap(), once);
    }
}

#[test]
fn normalizing_twice_is_normalizing_once() {
    let once = normalize_text("  How do I SET UP a Bitcoin-Node?? ").unwrap();
    let twice = normalize_text(&once).unwrap();
    assert_eq!(once, twice);
}

#[test]
fn punctuation_only_query_has_no_words() {
    let result = normalize_text("?!...");
    assert!(matches!(result, Err(MatchError::QueryAllStopWords)));
}

#[test]
fn tabs_and_newlines_are_white_space() {
    assert!(matches!(normalize_text("\t\n \r"), Err(MatchError::EmptyQuery)));
    assert_eq!(normalize_text("rust\tbook\nguide").unwrap(), "rust book guide");
}

#[test]
fn hyphen_joins_words_after_stripping() {
    assert_eq!(normalize_text("self-hosted email").unwrap(), "selfhosted email");
}

#[test]
fn non_ascii_letters_are_kept_and_lowercased() {
    assert_eq!(normalize_text("Ünïcode Tëxt").unwrap(), "ünïcode tëxt");
}
