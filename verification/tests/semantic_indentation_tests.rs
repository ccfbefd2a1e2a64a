use lex_core::lexing::transformations::semantic_indentation::{
    count_line_indent_steps, find_line_start, SemanticIndentationMapper,
};
use lex_core::token::Token;
use std::ops::Range;

type Tokens = Vec<(Token, Range<usize>)>;

fn mk_token(token: Token, start: usize, end: usize) -> (Token, Range<usize>) {
    (token, start..end)
}


fn with_loc(tokens: Vec<Token>) -> Tokens {
    tokens
        .into_iter()
        .enumerate()
        .map(|(idx, token)| mk_token(token, idx, idx + 1))
        .collect()
}

fn strip_loc(pairs: Tokens) -> Vec<Token> {
    pairs
        .into_iter()
        .map(|(t, _)| {
            // Normalize source_tokens to empty for test comparison
            match t {
                Token::Indent(_) => Token::Indent(vec![]),
                Token::Dedent(_) => Token::Dedent(vec![]),
                Token::BlankLine(_) => Token::BlankLine(Some("\n".to_string())),
                other => other,
            }
        })
        .collect()
}

#[test]
fn test_simple_indentation() {
    let input = vec![
        Token::Text("a".to_string()),
        Token::BlankLine(Some("\n".to_string())),
        Token::Indentation,
        Token::Dash,
        Token::BlankLine(Some("\n".to_string())),
    ];

    let mut mapper = SemanticIndentationMapper::new();
    let tokens = mapper.map(with_loc(input)).unwrap();
    let stripped = strip_loc(tokens);
    assert_eq!(
        stripped,
        vec![
            Token::Text("a".to_string()),
            Token::BlankLine(Some("\n".to_string())),
            Token::Indent(vec![]),
            Token::Dash,
            Token::BlankLine(Some("\n".to_string())),
            Token::Dedent(vec![]),
        ]
    );
}

#[test]
fn test_multiple_indent_levels() {
    let input = vec![
        Token::Text("a".to_string()),
        Token::BlankLine(Some("\n".to_string())),
        Token::Indentation,
        Token::Indentation,
        Token::Dash,
        Token::BlankLine(Some("\n".to_string())),
        Token::Indentation,
        Token::Text("b".to_string()),
        Token::BlankLine(Some("\n".to_string())),
    ];

    let mut mapper = SemanticIndentationMapper::new();
    let tokens = mapper.map(with_loc(input)).unwrap();
    let stripped = strip_loc(tokens);
    assert_eq!(
        stripped,
        vec![
            Token::Text("a".to_string()),
            Token::BlankLine(Some("\n".to_string())),
            Token::Indent(vec![]),
            Token::Indent(vec![]),
            Token::Dash,
            Token::BlankLine(Some("\n".to_string())),
            Token::Dedent(vec![]),
            Token::Text("b".to_string()),
            Token::BlankLine(Some("\n".to_string())),
            Token::Dedent(vec![]),
        ]
    );
}

#[test]
fn test_no_indentation() {
    let input = vec![
        Token::Text("a".to_string()),
        Token::BlankLine(Some("\n".to_string())),
        Token::Text("b".to_string()),
        Token::BlankLine(Some("\n".to_string())),
    ];

    let mut mapper = SemanticIndentationMapper::new();
    let tokens = mapper.map(with_loc(input.clone())).unwrap();
    let stripped = strip_loc(tokens);
    assert_eq!(stripped, input);
}

#[test]
fn semantic_indentation_test_empty_input() {
    let input = vec![];
    let mut mapper = SemanticIndentationMapper::new();
    let tokens = mapper.map(with_loc(input)).unwrap();
    let stripped = strip_loc(tokens);
    assert_eq!(stripped, vec![]);
}

#[test]
fn test_single_line() {
    let input = vec![Token::Text("a".to_string())];
    let mut mapper = SemanticIndentationMapper::new();
    let tokens = mapper.map(with_loc(input)).unwrap();
    let stripped = strip_loc(tokens);
    assert_eq!(stripped, vec![Token::Text("a".to_string())]);
}

#[test]
fn test_blank_lines() {
    let input = vec![
        Token::Text("a".to_string()),
        Token::BlankLine(Some("\n".to_string())),
        Token::Indentation,
        Token::Dash,
        Token::BlankLine(Some("\n".to_string())),
        Token::BlankLine(Some("\n".to_string())), // blank line
        Token::Dash,
        Token::BlankLine(Some("\n".to_string())),
    ];

    let mut mapper = SemanticIndentationMapper::new();
    let tokens = mapper.map(with_loc(input)).unwrap();
    let stripped = strip_loc(tokens);
    assert_eq!(
        stripped,
        vec![
            Token::Text("a".to_string()),
            Token::BlankLine(Some("\n".to_string())),
            Token::Indent(vec![]),
            Token::Dash,
            Token::BlankLine(Some("\n".to_string())),
            Token::BlankLine(Some("\n".to_string())),
            Token::Dedent(vec![]),
            Token::Dash,
            Token::BlankLine(Some("\n".to_string())),
        ]
    );
}

#[test]
fn test_blank_lines_with_indentation() {
    let input = vec![
        Token::Text("a".to_string()),
        Token::BlankLine(Some("\n".to_string())),
        Token::Indentation,
        Token::Dash,
        Token::BlankLine(Some("\n".to_string())),
        Token::Indentation,
        Token::BlankLine(Some("\n".to_string())), // blank line with indentation
        Token::Dash,
        Token::BlankLine(Some("\n".to_string())),
    ];

    let mut mapper = SemanticIndentationMapper::new();
    let tokens = mapper.map(with_loc(input)).unwrap();
    let stripped = strip_loc(tokens);
    assert_eq!(
        stripped,
        vec![
            Token::Text("a".to_string()),
            Token::BlankLine(Some("\n".to_string())),
            Token::Indent(vec![]),
            Token::Dash,
            Token::BlankLine(Some("\n".to_string())),
            Token::BlankLine(Some("\n".to_string())),
            Token::Dedent(vec![]),
            Token::Dash,
            Token::BlankLine(Some("\n".to_string())),
        ]
    );
}

#[test]
fn test_file_ending_while_indented() {
    let input = vec![
        Token::Text("a".to_string()),
        Token::BlankLine(Some("\n".to_string())),
        Token::Indentation,
        Token::Dash,
        Token::BlankLine(Some("\n".to_string())),
        Token::Indentation,
        Token::Indentation,
        Token::Text("b".to_string()),
    ];

    let mut mapper = SemanticIndentationMapper::new();
    let tokens = mapper.map(with_loc(input)).unwrap();
    let stripped = strip_loc(tokens);
    assert_eq!(
        stripped,
        vec![
            Token::Text("a".to_string()),
            Token::BlankLine(Some("\n".to_string())),
            Token::Indent(vec![]),
            Token::Dash,
            Token::BlankLine(Some("\n".to_string())),
            Token::Indent(vec![]),
            Token::Text("b".to_string()),
            Token::Dedent(vec![]),
            Token::Dedent(vec![]),
        ]
    );
}

#[test]
fn test_sharp_drop_in_indentation() {
    let input = vec![
        Token::Text("a".to_string()),
        Token::BlankLine(Some("\n".to_string())),
        Token::Indentation,
        Token::Indentation,
        Token::Indentation,
        Token::Dash,
        Token::BlankLine(Some("\n".to_string())),
        Token::Text("b".to_string()),
        Token::BlankLine(Some("\n".to_string())),
    ];

    let mut mapper = SemanticIndentationMapper::new();
    let tokens = mapper.map(with_loc(input)).unwrap();
    let stripped = strip_loc(tokens);
    assert_eq!(
        stripped,
        vec![
            Token::Text("a".to_string()),
            Token::BlankLine(Some("\n".to_string())),
            Token::Indent(vec![]),
            Token::Indent(vec![]),
            Token::Indent(vec![]),
            Token::Dash,
            Token::BlankLine(Some("\n".to_string())),
            Token::Dedent(vec![]),
            Token::Dedent(vec![]),
            Token::Dedent(vec![]),
            Token::Text("b".to_string()),
            Token::BlankLine(Some("\n".to_string())),
        ]
    );
}

#[test]
fn test_count_line_indent_steps() {
    let tokens = vec![
        Token::Indentation,
        Token::Indentation,
        Token::Dash,
        Token::Text("a".to_string()),
    ];

    assert_eq!(count_line_indent_steps(&tokens, 0), 2);
    assert_eq!(count_line_indent_steps(&tokens, 2), 0);
}

#[test]
fn test_find_line_start() {
    let tokens = vec![
        Token::Text("a".to_string()),
        Token::BlankLine(Some("\n".to_string())),
        Token::Indentation,
        Token::Dash,
    ];

    assert_eq!(find_line_start(&tokens, 0), 0);
    assert_eq!(find_line_start(&tokens, 2), 2);
    assert_eq!(find_line_start(&tokens, 3), 2);
}

#[test]
fn test_source_tokens_captured_in_indent() {
    // Verify that Indent tokens capture their source Indentation tokens (Immutable Log principle)
    let input: Tokens = vec![
        mk_token(Token::Text("a".to_string()), 0, 1),
        mk_token(Token::BlankLine(Some("\n".to_string())), 1, 2),
        mk_token(Token::Indentation, 2, 6), // 4 spaces
        mk_token(Token::Text("b".to_string()), 6, 7),
    ];

    let mut mapper = SemanticIndentationMapper::new();
    let tokens = mapper.map(input).unwrap();
    // Find the Indent token
    let indent_pos = tokens
        .iter()
        .position(|(t, _)| matches!(t, Token::Indent(_)))
        .expect("Should have Indent token");

    // Verify source_tokens are captured correctly
    if let Token::Indent(source_tokens) = &tokens[indent_pos].0 {
        assert_eq!(
            source_tokens.len(),
            1,
            "Indent should capture 1 source Indentation token"
        );
        assert_eq!(source_tokens[0].0, Token::Indentation);
        assert_eq!(
            source_tokens[0].1,
            2..6,
            "Source token should have correct range"
        );
    } else {
        panic!("Expected Indent token");
    }

    // Verify placeholder span is used
    assert_eq!(tokens[indent_pos].1, 0..0, "Indent uses placeholder span");
}

#[test]
fn test_source_tokens_captured_in_multiple_indents() {
    // Verify that multiple Indent tokens each capture their respective source tokens
    let input: Tokens = vec![
        mk_token(Token::Text("a".to_string()), 0, 1),
        mk_token(Token::BlankLine(Some("\n".to_string())), 1, 2),
        mk_token(Token::Indentation, 2, 6), // First indent level
        mk_token(Token::Indentation, 6, 10), // Second indent level
        mk_token(Token::Text("b".to_string()), 10, 11),
    ];

    let mut mapper = SemanticIndentationMapper::new();
    let tokens = mapper.map(input).unwrap();
    // Find Indent tokens
    let indent_positions: Vec<_> = tokens
        .iter()
        .enumerate()
        .filter_map(|(i, (t, _))| {
            if matches!(t, Token::Indent(_)) {
                Some(i)
            } else {
                None
            }
        })
        .collect();

    assert_eq!(indent_positions.len(), 2, "Should have 2 Indent tokens");

    // Verify first Indent captures first Indentation token
    if let Token::Indent(source_tokens) = &tokens[indent_positions[0]].0 {
        assert_eq!(source_tokens.len(), 1);
        assert_eq!(source_tokens[0].1, 2..6, "First Indent source range");
    }

    // Verify second Indent captures second Indentation token
    if let Token::Indent(source_tokens) = &tokens[indent_positions[1]].0 {
        assert_eq!(source_tokens.len(), 1);
        assert_eq!(source_tokens[0].1, 6..10, "Second Indent source range");
    }
}

// Additional comprehensive tests for edge cases
#[test]
fn test_blank_line_with_spaces_does_not_dedent() {
    let input = vec![
        Token::Indentation,
        Token::Indentation,
        Token::Text("Foo".to_string()),
        Token::BlankLine(Some("\n".to_string())),
        Token::Indentation,
        Token::Indentation,
        Token::Text("Foo2".to_string()),
        Token::BlankLine(Some("\n".to_string())),
        Token::Indentation,
        Token::BlankLine(Some("\n".to_string())),
        Token::Indentation,
        Token::Indentation,
        Token::Text("Bar".to_string()),
        Token::BlankLine(Some("\n".to_string())),
    ];

    let mut mapper = SemanticIndentationMapper::new();
    let tokens = mapper.map(with_loc(input)).unwrap();
    let stripped = strip_loc(tokens);
    assert_eq!(
        stripped,
        vec![
            Token::Indent(vec![]),
            Token::Indent(vec![]),
            Token::Text("Foo".to_string()),
            Token::BlankLine(Some("\n".to_string())),
            Token::Text("Foo2".to_string()),
            Token::BlankLine(Some("\n".to_string())),
            Token::BlankLine(Some("\n".to_string())), // blank line preserved
            Token::Text("Bar".to_string()),
            Token::BlankLine(Some("\n".to_string())),
            Token::Dedent(vec![]),
            Token::Dedent(vec![]),
        ],
        "Blank lines with only spaces should NOT produce dedent/indent tokens"
    );
}

#[test]
fn indents_nest_and_content_is_kept() {
    let input = vec![
        Token::Text("a".to_string()),
        Token::BlankLine(Some("\n".to_string())),
        Token::Indentation,
        Token::Indentation,
        Token::Text("b".to_string()),
        Token::BlankLine(Some("\n".to_string())),
        Token::Text("c".to_string()),
    ];
    let mut mapper = SemanticIndentationMapper::new();
    let out: Vec<Token> = mapper.map(with_loc(input)).unwrap().into_iter().map(|(t, _)| t).collect();
    let mut depth: i64 = 0;
    for t in &out {
        match t {
            Token::Indent(inner) => {
                depth += 1;
                assert_eq!(inner.len(), 1);
                assert!(matches!(inner[0].0, Token::Indentation));
            }
            Token::Dedent(_) => depth -= 1,
            _ => {}
        }
        assert!(depth >= 0);
    }
    assert_eq!(depth, 0);
    let content: Vec<Token> = out
        .into_iter()
        .filter(|t| !matches!(t, Token::Indent(_) | Token::Dedent(_)))
        .collect();
    assert_eq!(
        content,
        vec![
            Token::Text("a".to_string()),
            Token::BlankLine(Some("\n".to_string())),
            Token::Text("b".to_string()),
            Token::BlankLine(Some("\n".to_string())),
            Token::Text("c".to_string()),
        ]
    );
}
