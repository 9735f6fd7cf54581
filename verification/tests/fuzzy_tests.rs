use syntaqlite::fuzzy::{best_suggestion, levenshtein_distance};

#[test]
fn levenshtein_same_string_is_zero() {
    assert_eq!(levenshtein_distance("abc", "abc"), 0);
}

#[test]
fn levenshtein_one_edit() {
    assert_eq!(levenshtein_distance("abc", "axc"), 1);
    assert_eq!(levenshtein_distance("abc", "abcd"), 1);
    assert_eq!(levenshtein_distance("abcd", "abc"), 1);
}

#[test]
fn best_suggestion_finds_closest() {
    let candidates = vec!["users".to_string(), "orders".to_string(), "products".to_string()];
    let s = best_suggestion("usres", &candidates, 2);
    assert_eq!(s.as_deref(), Some("users"));
}

#[test]
fn best_suggestion_none_when_too_far() {
    let candidates = vec!["users".to_string()];
    let s = best_suggestion("xyzzy", &candidates, 2);
    assert!(s.is_none());
}

#[test]
fn identical_strings() {
    assert_eq!(levenshtein_distance("hello", "hello"), 0);
}

#[test]
fn case_insensitive() {
    assert_eq!(levenshtein_distance("Hello", "hello"), 0);
    assert_eq!(levenshtein_distance("ABC", "abc"), 0);
}

#[test]
fn single_edit() {
    assert_eq!(levenshtein_distance("cat", "bat"), 1);
    assert_eq!(levenshtein_distance("cat", "cats"), 1);
    assert_eq!(levenshtein_distance("cat", "at"), 1);
}

#[test]
fn multiple_edits() {
    assert_eq!(levenshtein_distance("kitten", "sitting"), 3);
}

#[test]
fn empty_strings() {
    assert_eq!(levenshtein_distance("", ""), 0);
    assert_eq!(levenshtein_distance("abc", ""), 3);
    assert_eq!(levenshtein_distance("", "abc"), 3);
}

#[test]
fn best_suggestion_within_threshold() {
    let candidates = vec!["users".to_string(), "orders".to_string(), "products".to_string()];
    assert_eq!(best_suggestion("usres", &candidates, 2), Some("users".to_string()));
}

#[test]
fn best_suggestion_none_beyond_threshold() {
    let candidates = vec!["users".to_string(), "orders".to_string()];
    assert_eq!(best_suggestion("xyz", &candidates, 2), None);
}

#[test]
fn best_suggestion_case_insensitive() {
    let candidates = vec!["Users".to_string(), "Orders".to_string()];
    assert_eq!(best_suggestion("users", &candidates, 0), Some("Users".to_string()));
}

#[test]
fn levenshtein_is_symmetric_on_examples() {
    assert_eq!(levenshtein_distance("kitten", "sitting"), levenshtein_distance("sitting", "kitten"));
    assert_eq!(levenshtein_distance("Flaw", "lawn"), 2);
    assert_eq!(levenshtein_distance("lawn", "FLAW"), 2);
}

#[test]
fn levenshtein_counts_multibyte_characters_as_bytes() {
    // "é" is two bytes in UTF-8; replacing it by "e" takes two edits.
    assert_eq!(levenshtein_distance("caf\u{e9}", "cafe"), 2);
}

#[test]
fn best_suggestion_prefers_first_of_equally_close() {
    let candidates = vec!["bat".to_string(), "cot".to_string(), "cab".to_string()];
    assert_eq!(best_suggestion("cat", &candidates, 1), Some("bat".to_string()));
}

#[test]
fn best_suggestion_prefers_strictly_closer_later_candidate() {
    let candidates = vec!["usrs".to_string(), "users".to_string()];
    assert_eq!(best_suggestion("users", &candidates, 2), Some("users".to_string()));
}

#[test]
fn best_suggestion_empty_candidates() {
    let candidates: Vec<String> = Vec::new();
    assert_eq!(best_suggestion("users", &candidates, 5), None);
}
