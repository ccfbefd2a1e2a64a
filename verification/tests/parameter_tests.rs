use lex_core::extraction::parameter::parse_parameter;
use lex_core::extraction::utilities::{compute_bounding_box, extract_text};
use lex_core::token::Token;
use std::ops::Range;

/// Tokens of `severity=high, category="a \" b"` with their byte ranges.
fn sample() -> (String, Vec<(Token, Range<usize>)>) {
    let source = r#"severity=high, category="a \" b""#.to_string();
    let tokens = vec![
        (Token::Text("severity".to_string()), 0..8),
        (Token::Equals, 8..9),
        (Token::Text("high".to_string()), 9..13),
        (Token::Comma, 13..14),
        (Token::Whitespace(1), 14..15),
        (Token::Text("category".to_string()), 15..23),
        (Token::Equals, 23..24),
        (Token::Quote, 24..25),
        (Token::Text("a".to_string()), 25..26),
        (Token::Whitespace(1), 26..27),
        (Token::Text("\\".to_string()), 27..28),
        (Token::Quote, 28..29),
        (Token::Whitespace(1), 29..30),
        (Token::Text("b".to_string()), 30..31),
        (Token::Quote, 31..32),
    ];
    (source, tokens)
}

#[test]
fn parses_unquoted_then_quoted_parameter() {
    let (source, tokens) = sample();
    let (p, next) = parse_parameter(&tokens, 0, &source).unwrap();
    assert_eq!(p.key_text, "severity");
    assert_eq!(p.value_text.as_deref(), Some("high"));
    assert_eq!(p.key_byte_range, 0..8);
    assert_eq!(p.value_byte_range, Some(9..13));
    assert_eq!(p.overall_byte_range, 0..13);
    assert_eq!(next, 3);

    let (q, next) = parse_parameter(&tokens, next, &source).unwrap();
    assert_eq!(q.key_text, "category");
    // the escaped quote is content; the value keeps its quotes
    assert_eq!(q.value_text.as_deref(), Some(r#""a \" b""#));
    assert_eq!(q.value_byte_range, Some(24..32));
    assert_eq!(q.overall_byte_range, 15..32);
    assert_eq!(next, tokens.len());
    assert!(parse_parameter(&tokens, next, &source).is_none());
}

#[test]
fn key_without_value() {
    let source = "flag ::".to_string();
    let tokens = vec![
        (Token::Text("flag".to_string()), 0..4),
        (Token::Whitespace(1), 4..5),
        (Token::LexMarker, 5..7),
    ];
    let (p, next) = parse_parameter(&tokens, 0, &source).unwrap();
    assert_eq!(p.key_text, "flag");
    assert!(p.value_text.is_none());
    assert!(p.value_byte_range.is_none());
    assert_eq!(p.overall_byte_range, 0..4);
    assert_eq!(next, 2);
}

#[test]
fn unquoted_value_stops_before_whitespace_then_marker() {
    let source = "k=v w ::".to_string();
    let tokens = vec![
        (Token::Text("k".to_string()), 0..1),
        (Token::Equals, 1..2),
        (Token::Text("v".to_string()), 2..3),
        (Token::Whitespace(1), 3..4),
        (Token::Text("w".to_string()), 4..5),
        (Token::Whitespace(1), 5..6),
        (Token::LexMarker, 6..8),
    ];
    let (p, next) = parse_parameter(&tokens, 0, &source).unwrap();
    assert_eq!(p.value_text.as_deref(), Some("v w"));
    assert_eq!(p.value_byte_range, Some(2..5));
    assert_eq!(next, 5);
}

#[test]
fn no_key_gives_none() {
    let source = ", =x".to_string();
    let tokens = vec![
        (Token::Comma, 0..1),
        (Token::Whitespace(1), 1..2),
        (Token::Equals, 2..3),
        (Token::Text("x".to_string()), 3..4),
    ];
    assert!(parse_parameter(&tokens, 0, &source).is_none());
    assert!(parse_parameter(&tokens, 9, &source).is_none());
}

#[test]
fn equals_with_nothing_after_has_no_value() {
    let source = "k=".to_string();
    let tokens = vec![(Token::Text("k".to_string()), 0..1), (Token::Equals, 1..2)];
    let (p, next) = parse_parameter(&tokens, 0, &source).unwrap();
    assert!(p.value_text.is_none());
    assert_eq!(p.overall_byte_range, 0..1);
    assert_eq!(next, 2);
}

#[test]
fn bounding_box_spans_min_start_to_max_end() {
    let tokens = vec![
        (Token::Text("b".to_string()), 5..9),
        (Token::Text("a".to_string()), 2..4),
        (Token::Text("c".to_string()), 7..12),
    ];
    assert_eq!(compute_bounding_box(&tokens), 2..12);
    assert_eq!(compute_bounding_box(&[]), 0..0);
}

#[test]
fn extract_text_slices_by_bytes() {
    let source = "añb";
    assert_eq!(extract_text(1..3, source), "ñ");
    assert_eq!(extract_text(0..4, source), "añb");
    assert_eq!(extract_text(3..3, source), "");
}
