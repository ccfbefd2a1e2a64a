use lex_core::extraction::table_block::extract_table_data;
use lex_core::extraction::verbatim::VerbatimBlockMode;
use lex_core::token::{LineToken, LineType, Token};
use std::ops::Range as ByteRange;

struct SourceBuilder {
    text: String,
}

impl SourceBuilder {
    fn new() -> Self {
        Self {
            text: String::new(),
        }
    }

    fn push(&mut self, fragment: &str) -> ByteRange<usize> {
        let start = self.text.len();
        self.text.push_str(fragment);
        start..self.text.len()
    }
}

fn line_token(line_type: LineType, parts: Vec<(Token, ByteRange<usize>)>) -> LineToken {
    let (tokens, spans): (Vec<_>, Vec<_>) = parts.into_iter().unzip();
    LineToken {
        source_tokens: tokens,
        token_spans: spans,
        line_type,
    }
}

fn subject_line(builder: &mut SourceBuilder, label: &str) -> LineToken {
    let mut parts = Vec::new();
    let range = builder.push(label);
    parts.push((Token::Text(label.to_string()), range));
    let range = builder.push(":");
    parts.push((Token::Colon, range));
    let range = builder.push("\n");
    parts.push((Token::BlankLine(Some("\n".to_string())), range));
    line_token(LineType::SubjectLine, parts)
}

fn content_line(builder: &mut SourceBuilder, indent_spaces: usize, text: &str) -> LineToken {
    let mut parts = Vec::new();
    for _ in 0..indent_spaces {
        let range = builder.push(" ");
        parts.push((Token::Whitespace(1), range));
    }
    if !text.is_empty() {
        let range = builder.push(text);
        parts.push((Token::Text(text.to_string()), range));
    }
    let range = builder.push("\n");
    parts.push((Token::BlankLine(Some("\n".to_string())), range));
    line_token(LineType::ParagraphLine, parts)
}

#[test]
fn compact_table_splits_header_body_and_footnotes() {
    let mut b = SourceBuilder::new();
    let subject = subject_line(&mut b, "Scores");
    let l1 = content_line(&mut b, 4, "| Name | Score |");
    let l2 = content_line(&mut b, 4, "| Alice | 10 |");
    let l3 = content_line(&mut b, 4, "| Bob | 7 |");
    let l4 = content_line(&mut b, 4, "1. Scores are final");
    let data = extract_table_data(&subject, &[l1, l2, l3, l4], &b.text);

    assert_eq!(data.mode, VerbatimBlockMode::Inflow);
    assert_eq!(data.subject_text, "Scores");
    assert_eq!(data.header_rows.len(), 1);
    let header: Vec<&str> = data.header_rows[0].cells.iter().map(|c| c.text.as_str()).collect();
    assert_eq!(header, vec!["Name", "Score"]);
    assert!(data.header_rows[0].cells.iter().all(|c| c.is_header));

    assert_eq!(data.body_rows.len(), 2);
    let first: Vec<&str> = data.body_rows[0].cells.iter().map(|c| c.text.as_str()).collect();
    assert_eq!(first, vec!["Alice", "10"]);
    let second: Vec<&str> = data.body_rows[1].cells.iter().map(|c| c.text.as_str()).collect();
    assert_eq!(second, vec!["Bob", "7"]);
    assert!(data.body_rows.iter().all(|r| r.cells.iter().all(|c| !c.is_header)));

    assert_eq!(data.footnotes.len(), 1);
    assert_eq!(data.footnotes[0].marker, "1.");
    assert_eq!(data.footnotes[0].text, "Scores are final");
}

#[test]
fn table_with_single_row_has_no_body() {
    let mut b = SourceBuilder::new();
    let subject = subject_line(&mut b, "Only");
    let l1 = content_line(&mut b, 4, "| a | b | c |");
    let data = extract_table_data(&subject, &[l1], &b.text);
    assert_eq!(data.header_rows.len(), 1);
    assert_eq!(data.header_rows[0].cells.len(), 3);
    assert!(data.body_rows.is_empty());
    assert!(data.footnotes.is_empty());
}

#[test]
fn table_merge_marker_widens_previous_cell() {
    let mut b = SourceBuilder::new();
    let subject = subject_line(&mut b, "Merged");
    let l1 = content_line(&mut b, 4, "| H1 | H2 |");
    let l2 = content_line(&mut b, 4, "| wide | >> |");
    let data = extract_table_data(&subject, &[l1, l2], &b.text);
    assert_eq!(data.body_rows.len(), 1);
    assert_eq!(data.body_rows[0].cells.len(), 1);
    assert_eq!(data.body_rows[0].cells[0].text, "wide");
    assert_eq!(data.body_rows[0].cells[0].colspan, 2);
}
