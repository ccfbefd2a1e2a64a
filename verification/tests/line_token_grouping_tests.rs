use lex_core::lexing::transformations::line_token_grouping::{GroupType, LineTokenGroupingMapper};
use lex_core::token::{LineType, Token};

#[test]
fn test_mapper_integration() {
    let tokens = vec![
        (Token::Text("Title".to_string()), 0..5),
        (Token::Colon, 5..6),
        (Token::BlankLine(Some("\n".to_string())), 6..7),
    ];

    let mut mapper = LineTokenGroupingMapper::new();
    let groups = mapper.map(tokens);

    assert_eq!(groups.len(), 1);
    assert_eq!(groups[0].source_tokens.len(), 3);
    match groups[0].group_type {
        GroupType::Line(LineType::SubjectLine) => {}
        _ => panic!("Expected SubjectLine"),
    }
}
