//! Completion decisions on token streams.

use syntaqlite::completion::{
    completion_boundary, detect_qualifier, merge_expected_tokens, statement_token_start, StoredToken,
};

const KEYWORD: u32 = 1;
const IDENT: u32 = 2;
const DOT: u32 = 3;
const SEMI: u32 = 4;
const EOF: u32 = 5;

fn tok(offset: usize, length: usize, token_type: u32) -> StoredToken {
    StoredToken { offset, length, token_type, identifier: token_type == IDENT }
}

/// `SELECT a FROM t WHERE x`
fn select_tokens() -> Vec<StoredToken> {
    vec![
        tok(0, 6, KEYWORD),
        tok(7, 1, IDENT),
        tok(9, 4, KEYWORD),
        tok(14, 1, IDENT),
        tok(16, 5, KEYWORD),
        tok(22, 1, IDENT),
    ]
}

#[test]
fn boundary_backtracks_over_the_word_being_typed() {
    let src = "SELECT a FROM t WHERE x";
    assert_eq!(completion_boundary(src, &select_tokens(), 23), (5, true));
}

#[test]
fn boundary_after_whitespace_keeps_every_token() {
    let src = "SELECT a FROM t WHERE x";
    assert_eq!(completion_boundary(src, &select_tokens(), 22), (5, false));
}

#[test]
fn boundary_inside_a_token_stops_before_it() {
    let src = "SELECT a FROM t WHERE x";
    assert_eq!(completion_boundary(src, &select_tokens(), 18), (4, false));
}

#[test]
fn boundary_skips_empty_tokens_at_the_cursor() {
    let src = "SELECT a FROM t WHERE ";
    let mut toks = select_tokens();
    toks.pop();
    toks.push(tok(22, 0, EOF));
    assert_eq!(completion_boundary(src, &toks, 22), (5, false));
}

#[test]
fn boundary_does_not_backtrack_over_punctuation() {
    let src = "SELECT t.";
    let toks = vec![tok(0, 6, KEYWORD), tok(7, 1, IDENT), tok(8, 1, DOT)];
    assert_eq!(completion_boundary(src, &toks, 9), (3, false));
}

#[test]
fn boundary_at_start_of_source() {
    let src = "SELECT";
    let toks = vec![tok(0, 6, KEYWORD)];
    assert_eq!(completion_boundary(src, &toks, 0), (0, false));
}

#[test]
fn statement_starts_after_last_semicolon() {
    let toks = vec![tok(0, 6, KEYWORD), tok(7, 1, IDENT), tok(8, 1, SEMI), tok(10, 6, KEYWORD), tok(17, 1, IDENT)];
    assert_eq!(statement_token_start(&toks, 5, SEMI), 3);
    assert_eq!(statement_token_start(&toks, 3, SEMI), 3);
    assert_eq!(statement_token_start(&toks, 2, SEMI), 0);
    assert_eq!(statement_token_start(&toks, 0, SEMI), 0);
}

#[test]
fn qualifier_before_trailing_dot() {
    let src = "SELECT users.";
    let toks = vec![tok(0, 6, KEYWORD), tok(7, 5, IDENT), tok(12, 1, DOT)];
    assert_eq!(detect_qualifier(src, &toks), Some("users".to_string()));
}

#[test]
fn no_qualifier_without_identifier() {
    let src = "SELECT 1.";
    let toks = vec![tok(0, 6, KEYWORD), tok(7, 1, KEYWORD), tok(8, 1, DOT)];
    assert_eq!(detect_qualifier(src, &toks), None);
}

#[test]
fn no_qualifier_when_last_token_is_not_a_dot() {
    let src = "SELECT users,";
    let toks = vec![tok(0, 6, KEYWORD), tok(7, 5, IDENT), tok(12, 1, DOT)];
    assert_eq!(detect_qualifier(src, &toks), None);
    let src2 = "SELECT users";
    let toks2 = vec![tok(0, 6, KEYWORD), tok(7, 5, IDENT)];
    assert_eq!(detect_qualifier(src2, &toks2), None);
    assert_eq!(detect_qualifier(src2, &toks2[..1]), None);
}

#[test]
fn merge_appends_new_tokens_once() {
    let mut into = vec![1, 2];
    merge_expected_tokens(&mut into, vec![2, 3, 3, 4, 1]);
    assert_eq!(into, vec![1, 2, 3, 4]);
}

#[test]
fn merge_into_empty_dedupes() {
    let mut into = Vec::new();
    merge_expected_tokens(&mut into, vec![7, 7, 8]);
    assert_eq!(into, vec![7, 8]);
}
