use lex_core::lexing::transformations::document_start::DocumentStartMarker;
use lex_core::token::{LineToken, LineType};
use lex_core::token::Token;

#[allow(clippy::single_range_in_vec_init)]
fn make_line(line_type: LineType) -> LineToken {
    LineToken {
        source_tokens: vec![Token::Text("test".to_string())],
        token_spans: vec![0..4],
        line_type,
    }
}

#[allow(clippy::single_range_in_vec_init)]
fn make_blank() -> LineToken {
    LineToken {
        source_tokens: vec![Token::BlankLine(Some("\n".to_string()))],
        token_spans: vec![0..1],
        line_type: LineType::BlankLine,
    }
}

fn make_indent() -> LineToken {
    LineToken {
        source_tokens: vec![],
        token_spans: vec![],
        line_type: LineType::Indent,
    }
}

fn make_dedent() -> LineToken {
    LineToken {
        source_tokens: vec![],
        token_spans: vec![],
        line_type: LineType::Dedent,
    }
}

#[test]
fn test_empty_document() {
    let tokens: Vec<LineToken> = vec![];
    let result = DocumentStartMarker::mark(tokens);

    assert_eq!(result.len(), 1);
    assert_eq!(result[0].line_type, LineType::DocumentStart);
}

#[test]
fn test_no_annotations() {
    // Document: ParagraphLine, BlankLine, ParagraphLine
    let tokens = vec![
        make_line(LineType::ParagraphLine),
        make_blank(),
        make_line(LineType::ParagraphLine),
    ];

    let result = DocumentStartMarker::mark(tokens);

    // DocumentStart should be at position 0
    assert_eq!(result.len(), 4);
    assert_eq!(result[0].line_type, LineType::DocumentStart);
    assert_eq!(result[1].line_type, LineType::ParagraphLine);
    assert_eq!(result[2].line_type, LineType::BlankLine);
    assert_eq!(result[3].line_type, LineType::ParagraphLine);
}

#[test]
fn test_single_annotation_then_content() {
    // Document: AnnotationStartLine, Indent, ParagraphLine, Dedent, ParagraphLine
    let tokens = vec![
        make_line(LineType::AnnotationStartLine),
        make_indent(),
        make_line(LineType::ParagraphLine),
        make_dedent(),
        make_line(LineType::ParagraphLine),
    ];

    let result = DocumentStartMarker::mark(tokens);

    // DocumentStart should be after the annotation block (position 4)
    assert_eq!(result.len(), 6);
    assert_eq!(result[0].line_type, LineType::AnnotationStartLine);
    assert_eq!(result[1].line_type, LineType::Indent);
    assert_eq!(result[2].line_type, LineType::ParagraphLine);
    assert_eq!(result[3].line_type, LineType::Dedent);
    assert_eq!(result[4].line_type, LineType::DocumentStart);
    assert_eq!(result[5].line_type, LineType::ParagraphLine);
}

#[test]
fn test_annotation_with_end_marker() {
    // Document: AnnotationStartLine, Indent, content, Dedent, AnnotationEndLine, content
    let tokens = vec![
        make_line(LineType::AnnotationStartLine),
        make_indent(),
        make_line(LineType::ParagraphLine),
        make_dedent(),
        make_line(LineType::AnnotationEndLine),
        make_line(LineType::ParagraphLine),
    ];

    let result = DocumentStartMarker::mark(tokens);

    // DocumentStart should be after AnnotationEndLine
    assert_eq!(result.len(), 7);
    assert_eq!(result[4].line_type, LineType::AnnotationEndLine);
    assert_eq!(result[5].line_type, LineType::DocumentStart);
    assert_eq!(result[6].line_type, LineType::ParagraphLine);
}

#[test]
fn test_multiple_annotations() {
    // Document: Annotation1, BlankLine, Annotation2, content
    let tokens = vec![
        make_line(LineType::AnnotationStartLine),
        make_indent(),
        make_line(LineType::ParagraphLine),
        make_dedent(),
        make_blank(),
        make_line(LineType::AnnotationStartLine),
        make_indent(),
        make_line(LineType::ParagraphLine),
        make_dedent(),
        make_line(LineType::ParagraphLine),
    ];

    let result = DocumentStartMarker::mark(tokens);

    // DocumentStart should be after both annotations
    assert_eq!(result.len(), 11);
    assert_eq!(result[9].line_type, LineType::DocumentStart);
    assert_eq!(result[10].line_type, LineType::ParagraphLine);
}

#[test]
fn test_blank_lines_before_content() {
    // Document: AnnotationStartLine, content, BlankLine, ParagraphLine
    let tokens = vec![
        make_line(LineType::AnnotationStartLine),
        make_indent(),
        make_line(LineType::ParagraphLine),
        make_dedent(),
        make_blank(),
        make_line(LineType::ParagraphLine),
    ];

    let result = DocumentStartMarker::mark(tokens);

    // DocumentStart should be at position 4 (before blank line)
    // because blank line is part of content, not metadata
    assert_eq!(result.len(), 7);
    assert_eq!(result[4].line_type, LineType::DocumentStart);
    assert_eq!(result[5].line_type, LineType::BlankLine);
    assert_eq!(result[6].line_type, LineType::ParagraphLine);
}

#[test]
fn test_only_annotations() {
    // Document: only annotations, no content
    let tokens = vec![
        make_line(LineType::AnnotationStartLine),
        make_indent(),
        make_line(LineType::ParagraphLine),
        make_dedent(),
    ];

    let result = DocumentStartMarker::mark(tokens);

    // DocumentStart should be at the end
    assert_eq!(result.len(), 5);
    assert_eq!(result[4].line_type, LineType::DocumentStart);
}

#[test]
fn test_synthetic_token_has_no_source() {
    let tokens = vec![make_line(LineType::ParagraphLine)];
    let result = DocumentStartMarker::mark(tokens);

    // The DocumentStart token should have no source tokens
    assert_eq!(result[0].line_type, LineType::DocumentStart);
    assert!(result[0].source_tokens.is_empty());
    assert!(result[0].token_spans.is_empty());
}
