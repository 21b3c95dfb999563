use quas_wex_exort::mcp::common::{closest_tool, levenshtein};

#[test]
fn levenshtein_basics() {
    assert_eq!(levenshtein("", ""), 0);
    assert_eq!(levenshtein("abc", "abc"), 0);
    assert_eq!(levenshtein("abc", "abd"), 1);
    assert_eq!(levenshtein("kitten", "sitting"), 3);
    assert_eq!(levenshtein("test_ecko", "test_echo"), 1); // single k→h swap
    assert_eq!(levenshtein("test_ec", "test_echo"), 2); // two trailing inserts
}

#[test]
fn closest_picks_nearest_and_handles_empty() {
    let names = vec![
        "test_echo".to_string(),
        "test_add".to_string(),
        "quas-wex-exort_multi_call".to_string(),
    ];
    assert_eq!(closest_tool("test_ecko", &names), Some("test_echo"));
    assert_eq!(closest_tool("test_ad", &names), Some("test_add"));
    assert_eq!(closest_tool("anything", &[]), None);
}

#[test]
fn levenshtein_counts_characters_not_bytes() {
    assert_eq!(levenshtein("é", "e"), 1);
    assert_eq!(levenshtein("日本", "日本語"), 1);
}

#[test]
fn levenshtein_empty_side_is_other_length() {
    assert_eq!(levenshtein("", "abc"), 3);
    assert_eq!(levenshtein("abcd", ""), 4);
}

#[test]
fn levenshtein_is_case_sensitive() {
    assert_eq!(levenshtein("ABC", "abc"), 3);
}

#[test]
fn closest_is_case_insensitive() {
    let names = vec!["Test_Echo".to_string(), "test_add".to_string()];
    assert_eq!(closest_tool("TEST_ECHO", &names), Some("Test_Echo"));
}

#[test]
fn closest_ties_resolve_to_first() {
    let names = vec!["ab".to_string(), "ba".to_string(), "aa".to_string()];
    // "ab" and "aa" are both at distance 1 from "ax"; "ab" comes first.
    assert_eq!(closest_tool("ax", &names), Some("ab"));
}
