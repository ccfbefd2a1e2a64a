use lex_core::lexing::line_classification::{
    classify_line_tokens, has_seq_marker, parse_seq_marker, DecorationStyle, Form, Separator,
};
use lex_core::token::{LineType, Token};


#[test]
fn test_classify_paragraph_line() {
    let tokens = vec![
        Token::Text("Hello".to_string()),
        Token::Whitespace(1),
        Token::Text("world".to_string()),
        Token::BlankLine(Some("\n".to_string())),
    ];
    assert_eq!(classify_line_tokens(&tokens), LineType::ParagraphLine);
}

#[test]
fn test_classify_subject_line() {
    let tokens = vec![
        Token::Text("Title".to_string()),
        Token::Colon,
        Token::BlankLine(Some("\n".to_string())),
    ];
    assert_eq!(classify_line_tokens(&tokens), LineType::SubjectLine);
}

#[test]
fn test_classify_list_line() {
    let tokens = vec![
        Token::Dash,
        Token::Whitespace(1),
        Token::Text("Item".to_string()),
        Token::BlankLine(Some("\n".to_string())),
    ];
    assert_eq!(classify_line_tokens(&tokens), LineType::ListLine);
}

#[test]
fn test_classify_blank_line() {
    let tokens = vec![
        Token::Whitespace(1),
        Token::BlankLine(Some("\n".to_string())),
    ];
    assert_eq!(classify_line_tokens(&tokens), LineType::BlankLine);
}

#[test]
fn test_classify_annotation_start_line() {
    let tokens = vec![
        Token::LexMarker,
        Token::Whitespace(1),
        Token::Text("label".to_string()),
        Token::Whitespace(1),
        Token::LexMarker,
        Token::BlankLine(Some("\n".to_string())),
    ];
    assert_eq!(classify_line_tokens(&tokens), LineType::DataMarkerLine);
}

#[test]
fn test_open_form_data_marker_is_paragraph() {
    // `:: label` with no closing `::` is not a recognized element (there is
    // no "open form"). It falls through to a paragraph so its content is
    // preserved rather than dropped (lex#700).
    let tokens = vec![
        Token::LexMarker,
        Token::Whitespace(1),
        Token::Text("label".to_string()),
        Token::BlankLine(Some("\n".to_string())),
    ];
    assert_eq!(classify_line_tokens(&tokens), LineType::ParagraphLine);
}

#[test]
fn test_annotation_line_without_label_falls_back_to_paragraph() {
    let tokens = vec![
        Token::LexMarker,
        Token::Whitespace(1),
        Token::Text("version".to_string()),
        Token::Equals,
        Token::Number("3.11".to_string()),
        Token::Whitespace(1),
        Token::LexMarker,
        Token::BlankLine(Some("\n".to_string())),
    ];

    assert_eq!(classify_line_tokens(&tokens), LineType::ParagraphLine);
}

#[test]
fn test_classify_subject_or_list_item_line() {
    let tokens = vec![
        Token::Dash,
        Token::Whitespace(1),
        Token::Text("Item".to_string()),
        Token::Colon,
        Token::BlankLine(Some("\n".to_string())),
    ];
    assert_eq!(
        classify_line_tokens(&tokens),
        LineType::SubjectOrListItemLine
    );
}

#[test]
fn test_ordered_seq_markers() {
    // Number-based
    let tokens = vec![
        Token::Number("1".to_string()),
        Token::Period,
        Token::Whitespace(1),
        Token::Text("Item".to_string()),
    ];
    assert!(has_seq_marker(&tokens));

    // Letter-based
    let tokens = vec![
        Token::Text("a".to_string()),
        Token::Period,
        Token::Whitespace(1),
        Token::Text("Item".to_string()),
    ];
    assert!(has_seq_marker(&tokens));

    // Roman numeral
    let tokens = vec![
        Token::Text("I".to_string()),
        Token::Period,
        Token::Whitespace(1),
        Token::Text("Item".to_string()),
    ];
    assert!(has_seq_marker(&tokens));

    // With close paren
    let tokens = vec![
        Token::Number("1".to_string()),
        Token::CloseParen,
        Token::Whitespace(1),
        Token::Text("Item".to_string()),
    ];
    assert!(has_seq_marker(&tokens));
}

#[test]
fn test_extended_ordered_seq_marker() {
    let tokens = vec![
        Token::Number("4".to_string()),
        Token::Period,
        Token::Number("3".to_string()),
        Token::Period,
        Token::Number("2".to_string()),
        Token::Whitespace(1),
        Token::Text("Item".to_string()),
    ];

    let parsed = parse_seq_marker(&tokens).expect("expected list marker");
    assert_eq!(parsed.marker_start, 0);
    assert_eq!(parsed.marker_end, 5);
    assert_eq!(parsed.body_start, 6);

    assert_eq!(classify_line_tokens(&tokens), LineType::ListLine);
}

#[test]
fn test_extended_marker_with_lowercase_roman() {
    // 1.a.ii. Item  — extended form with mixed styles including lowercase roman
    let tokens = vec![
        Token::Number("1".to_string()),
        Token::Period,
        Token::Text("a".to_string()),
        Token::Period,
        Token::Text("ii".to_string()),
        Token::Period,
        Token::Whitespace(1),
        Token::Text("Item".to_string()),
    ];

    let parsed = parse_seq_marker(&tokens).expect("expected extended marker");
    assert_eq!(parsed.form, Form::Extended);
    assert_eq!(parsed.style, DecorationStyle::Numerical);
    assert_eq!(parsed.separator, Separator::Period);
    assert_eq!(classify_line_tokens(&tokens), LineType::ListLine);
}

#[test]
fn test_lowercase_roman_short_marker() {
    // ii. Item
    let tokens = vec![
        Token::Text("ii".to_string()),
        Token::Period,
        Token::Whitespace(1),
        Token::Text("Item".to_string()),
    ];

    let parsed = parse_seq_marker(&tokens).expect("expected short roman marker");
    assert_eq!(parsed.form, Form::Short);
    assert_eq!(parsed.style, DecorationStyle::Roman);
    assert_eq!(classify_line_tokens(&tokens), LineType::ListLine);
}

#[test]
fn test_lex_marker_inside_quoted_value_is_annotation_start() {
    // :: test.note foo=":: jane" ::
    let tokens = vec![
        Token::LexMarker,
        Token::Whitespace(1),
        Token::Text("note".to_string()),
        Token::Whitespace(1),
        Token::Text("foo".to_string()),
        Token::Equals,
        Token::Quote,
        Token::LexMarker, // :: inside quotes
        Token::Whitespace(1),
        Token::Text("jane".to_string()),
        Token::Quote,
        Token::Whitespace(1),
        Token::LexMarker, // closing ::
        Token::BlankLine(Some("\n".to_string())),
    ];
    assert_eq!(classify_line_tokens(&tokens), LineType::DataMarkerLine);
}

#[test]
fn test_lex_marker_inside_quoted_value_not_a_closing_marker() {
    // :: test.note foo=":: value"  (no real closing :: — the inner one is
    // inside a quoted value). It is not a closed-form data marker, and with
    // the open form gone it falls through to a paragraph (lex#700). The
    // point of this regression is that the quoted `::` is NOT mistaken for a
    // structural closing marker (which would make it a DataMarkerLine).
    let tokens = vec![
        Token::LexMarker,
        Token::Whitespace(1),
        Token::Text("note".to_string()),
        Token::Whitespace(1),
        Token::Text("foo".to_string()),
        Token::Equals,
        Token::Quote,
        Token::LexMarker, // :: inside quotes
        Token::Whitespace(1),
        Token::Text("value".to_string()),
        Token::Quote,
        Token::BlankLine(Some("\n".to_string())),
    ];
    assert_eq!(classify_line_tokens(&tokens), LineType::ParagraphLine);
}
