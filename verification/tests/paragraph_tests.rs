use lex_core::extraction::paragraph::extract_paragraph_data;
use lex_core::token::Token;

#[test]
fn test_extract_paragraph_data() {
    let source = "hello world";
    let token_lines = vec![vec![(Token::Text("hello".to_string()), 0..5)]];

    let data = extract_paragraph_data(token_lines, source);

    assert_eq!(data.text_lines.len(), 1);
    assert_eq!(data.text_lines[0].0, "hello");
    assert_eq!(data.text_lines[0].1, 0..5);
    assert_eq!(data.overall_byte_range, 0..5);
}

#[test]
fn paragraph_spanning_lines_takes_outer_bounds() {
    let source = "one two\nthree\n";
    let token_lines = vec![
        vec![
            (Token::Text("one".to_string()), 0..3),
            (Token::Whitespace(1), 3..4),
            (Token::Text("two".to_string()), 4..7),
        ],
        vec![(Token::Text("three".to_string()), 8..13)],
    ];
    let data = extract_paragraph_data(token_lines, source);
    assert_eq!(data.text_lines.len(), 2);
    assert_eq!(data.text_lines[0], ("one two".to_string(), 0..7));
    assert_eq!(data.text_lines[1], ("three".to_string(), 8..13));
    assert_eq!(data.overall_byte_range, 0..13);
}

#[test]
fn empty_paragraph_has_empty_range() {
    let data = extract_paragraph_data(Vec::new(), "abc");
    assert!(data.text_lines.is_empty());
    assert_eq!(data.overall_byte_range, 0..0);
    let data = extract_paragraph_data(vec![Vec::new()], "abc");
    assert_eq!(data.text_lines, vec![(String::new(), 0..0)]);
    assert_eq!(data.overall_byte_range, 0..0);
}
