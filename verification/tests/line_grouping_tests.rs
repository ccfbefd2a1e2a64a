use lex_core::lexing::common::LexError;
use lex_core::lexing::line_grouping::group_into_lines;
use lex_core::token::{LineType, Token};

#[test]
fn test_group_single_line() {
    let tokens = vec![
        (Token::Text("Hello".to_string()), 0..5),
        (Token::BlankLine(Some("\n".to_string())), 5..6),
    ];

    let line_tokens = group_into_lines(tokens);

    assert_eq!(line_tokens.len(), 1);
    assert_eq!(line_tokens[0].line_type, LineType::ParagraphLine);
    assert_eq!(line_tokens[0].source_tokens.len(), 2);
    assert_eq!(line_tokens[0].token_spans.len(), 2);
}

#[test]
fn test_group_multiple_lines() {
    let tokens = vec![
        (Token::Text("Line1".to_string()), 0..5),
        (Token::BlankLine(Some("\n".to_string())), 5..6),
        (Token::Text("Line2".to_string()), 6..11),
        (Token::BlankLine(Some("\n".to_string())), 11..12),
    ];

    let line_tokens = group_into_lines(tokens);

    assert_eq!(line_tokens.len(), 2);
    assert_eq!(line_tokens[0].line_type, LineType::ParagraphLine);
    assert_eq!(line_tokens[1].line_type, LineType::ParagraphLine);
}

#[test]
fn test_group_with_indent_dedent() {
    let tokens = vec![
        (Token::Text("Title".to_string()), 0..5),
        (Token::Colon, 5..6),
        (Token::BlankLine(Some("\n".to_string())), 6..7),
        (Token::Indent(vec![(Token::Indentation, 7..11)]), 0..0),
        (Token::Text("Content".to_string()), 11..18),
        (Token::BlankLine(Some("\n".to_string())), 18..19),
        (Token::Dedent(vec![]), 0..0),
    ];

    let line_tokens = group_into_lines(tokens);

    assert_eq!(line_tokens.len(), 4);
    assert_eq!(line_tokens[0].line_type, LineType::SubjectLine);
    assert_eq!(line_tokens[1].line_type, LineType::Indent);
    assert_eq!(line_tokens[2].line_type, LineType::ParagraphLine);
    assert_eq!(line_tokens[3].line_type, LineType::Dedent);
}

#[test]
fn test_group_with_blank_line_token() {
    let tokens = vec![
        (Token::Text("Line1".to_string()), 0..5),
        (Token::BlankLine(Some("\n".to_string())), 5..6),
        (Token::BlankLine(Some(" \n".to_string())), 6..8),
        (Token::Text("Line2".to_string()), 8..13),
        (Token::BlankLine(Some("\n".to_string())), 13..14),
    ];

    let line_tokens = group_into_lines(tokens);

    assert_eq!(line_tokens.len(), 3);
    assert_eq!(line_tokens[0].line_type, LineType::ParagraphLine);
    assert_eq!(line_tokens[1].line_type, LineType::BlankLine);
    assert_eq!(line_tokens[2].line_type, LineType::ParagraphLine);
}

#[test]
fn test_dialog_detection() {
    let tokens = vec![
        (Token::Dash, 0..1),
        (Token::Whitespace(1), 1..2),
        (Token::Text("Hello".to_string()), 2..7),
        (Token::Period, 7..8),
        (Token::Period, 8..9),
        (Token::BlankLine(Some("\n".to_string())), 9..10),
        (Token::Dash, 10..11),
        (Token::Whitespace(1), 11..12),
        (Token::Text("World".to_string()), 12..17),
        (Token::BlankLine(Some("\n".to_string())), 17..18),
    ];

    let line_tokens = group_into_lines(tokens);

    assert_eq!(line_tokens.len(), 2);
    assert_eq!(line_tokens[0].line_type, LineType::DialogLine);
    assert_eq!(line_tokens[1].line_type, LineType::DialogLine);
}

#[test]
fn test_preserves_ranges() {
    let tokens = vec![
        (Token::Text("Hello".to_string()), 0..5),
        (Token::Whitespace(1), 5..6),
        (Token::Text("world".to_string()), 6..11),
        (Token::BlankLine(Some("\n".to_string())), 11..12),
    ];

    let line_tokens = group_into_lines(tokens);

    assert_eq!(line_tokens[0].token_spans[0], 0..5);
    assert_eq!(line_tokens[0].token_spans[1], 5..6);
    assert_eq!(line_tokens[0].token_spans[2], 6..11);
    assert_eq!(line_tokens[0].token_spans[3], 11..12);
}

#[test]
fn lex_error_messages() {
    assert_eq!(LexError::Error("bad".into()).message(), "Lexing error: bad");
    assert_eq!(
        LexError::Transformation("x".into()).message(),
        "Transformation error: x"
    );
}
