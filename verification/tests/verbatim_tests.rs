use lex_core::extraction::verbatim::{
    extract_verbatim_block_data, VerbatimBlockMode, FULLWIDTH_INDENT_COLUMN,
    INFLOW_INDENT_STEP_COLUMNS,
};
use lex_core::token::{LineToken, LineType};
use std::ops::Range as ByteRange;

use lex_core::token::Token;

struct SourceBuilder {
    text: String,
}

impl SourceBuilder {
    fn new() -> Self {
        Self {
            text: String::new(),
        }
    }

    fn push(&mut self, fragment: &str) -> ByteRange<usize> {
        let start = self.text.len();
        self.text.push_str(fragment);
        start..self.text.len()
    }
}

fn line_token(line_type: LineType, parts: Vec<(Token, ByteRange<usize>)>) -> LineToken {
    let (tokens, spans): (Vec<_>, Vec<_>) = parts.into_iter().unzip();
    LineToken {
        source_tokens: tokens,
        token_spans: spans,
        line_type,
    }
}

fn subject_line(builder: &mut SourceBuilder, indent_levels: usize, label: &str) -> LineToken {
    let mut parts = Vec::new();
    for _ in 0..indent_levels {
        let range = builder.push("    ");
        parts.push((Token::Indentation, range));
    }
    let range = builder.push(label);
    parts.push((Token::Text(label.to_string()), range));
    let range = builder.push(":");
    parts.push((Token::Colon, range));
    let range = builder.push("\n");
    parts.push((Token::BlankLine(Some("\n".to_string())), range));
    line_token(LineType::SubjectLine, parts)
}

fn content_line(builder: &mut SourceBuilder, indent_spaces: usize, text: &str) -> LineToken {
    let mut parts = Vec::new();
    for _ in 0..indent_spaces {
        let range = builder.push(" ");
        parts.push((Token::Whitespace(1), range));
    }
    if !text.is_empty() {
        let range = builder.push(text);
        parts.push((Token::Text(text.to_string()), range));
    }
    let range = builder.push("\n");
    parts.push((Token::BlankLine(Some("\n".to_string())), range));
    line_token(LineType::ParagraphLine, parts)
}

#[test]
fn detects_fullwidth_mode_and_trims_wall() {
    let mut builder = SourceBuilder::new();
    let subject = subject_line(&mut builder, 0, "Fullwidth Example");
    // Content at FULLWIDTH_INDENT_COLUMN triggers fullwidth mode
    let content = content_line(
        &mut builder,
        FULLWIDTH_INDENT_COLUMN,
        "Header | Value | Notes",
    );

    let data = extract_verbatim_block_data(&subject, &[content], &builder.text);

    assert_eq!(data.mode, VerbatimBlockMode::Fullwidth);
    assert_eq!(data.groups.len(), 1);
    assert_eq!(data.groups[0].content_lines.len(), 1);
    assert_eq!(data.groups[0].content_lines[0].0, "Header | Value | Notes");
    assert!(data.groups[0].content_lines[0].1.start < data.groups[0].content_lines[0].1.end);
}

#[test]
fn splits_groups_and_strips_inflow_wall() {
    let mut builder = SourceBuilder::new();
    let subject_indent_level = 1;
    let subject = subject_line(&mut builder, subject_indent_level, "Snippet");
    // Inflow mode: content indented relative to subject (subject_column + INFLOW_INDENT_STEP_COLUMNS)
    // Subject at indent level 1 = column 4 (1 * 4 spaces)
    // Content wall = 4 + 4 = column 8
    let inflow_content_column = (subject_indent_level * 4) + INFLOW_INDENT_STEP_COLUMNS;
    let line1 = content_line(&mut builder, inflow_content_column, "line one");
    let line2 = content_line(&mut builder, inflow_content_column, "line two");
    let second_subject = subject_line(&mut builder, subject_indent_level, "Another block");
    let line3 = content_line(&mut builder, inflow_content_column, "inner body");

    let content = vec![line1, line2, second_subject.clone(), line3];
    let data = extract_verbatim_block_data(&subject, &content, &builder.text);

    assert_eq!(data.mode, VerbatimBlockMode::Inflow);
    assert_eq!(data.groups.len(), 2);
    assert_eq!(data.groups[0].subject_text, "Snippet");
    assert_eq!(data.groups[0].content_lines[0].0, "line one");
    assert_eq!(data.groups[1].subject_text, "Another block");
    assert_eq!(data.groups[1].content_lines[0].0, "inner body");
}

#[test]
fn detects_fullwidth_at_exact_boundary() {
    // Test that content at exactly column index 1 (FULLWIDTH_INDENT_COLUMN) triggers fullwidth
    let mut builder = SourceBuilder::new();
    let subject = subject_line(&mut builder, 0, "Boundary Test");
    let content = content_line(&mut builder, FULLWIDTH_INDENT_COLUMN, "At exact boundary");

    let data = extract_verbatim_block_data(&subject, &[content], &builder.text);

    assert_eq!(data.mode, VerbatimBlockMode::Fullwidth);
    assert_eq!(data.groups[0].content_lines[0].0, "At exact boundary");
}

#[test]
fn detects_inflow_at_column_2() {
    // Test that content at column 2 or beyond triggers inflow mode
    let mut builder = SourceBuilder::new();
    let subject = subject_line(&mut builder, 0, "Inflow Test");
    // Column 2 (index 2, which is > FULLWIDTH_INDENT_COLUMN)
    let content = content_line(&mut builder, 2, "Beyond fullwidth boundary");

    let data = extract_verbatim_block_data(&subject, &[content], &builder.text);

    assert_eq!(data.mode, VerbatimBlockMode::Inflow);
}

#[test]
fn detects_inflow_at_standard_indent() {
    // Test inflow mode with standard 4-space indent after root-level subject
    let mut builder = SourceBuilder::new();
    let subject = subject_line(&mut builder, 0, "Standard Test");
    // Subject at column 0, so inflow content should be at column 4
    let content = content_line(&mut builder, INFLOW_INDENT_STEP_COLUMNS, "Standard indent");

    let data = extract_verbatim_block_data(&subject, &[content], &builder.text);

    assert_eq!(data.mode, VerbatimBlockMode::Inflow);
    assert_eq!(data.groups[0].content_lines[0].0, "Standard indent");
}

#[test]
fn detects_mode_skips_blank_lines() {
    // Test that mode detection skips blank lines to find first content
    let mut builder = SourceBuilder::new();
    let subject = subject_line(&mut builder, 0, "With Blanks");
    let blank1 = content_line(&mut builder, 0, "");
    let blank2 = content_line(&mut builder, 0, "");
    let content = content_line(&mut builder, FULLWIDTH_INDENT_COLUMN, "First real content");

    let data = extract_verbatim_block_data(&subject, &[blank1, blank2, content], &builder.text);

    assert_eq!(data.mode, VerbatimBlockMode::Fullwidth);
    // Blank lines should be included but empty
    assert_eq!(data.groups[0].content_lines.len(), 3);
    assert_eq!(data.groups[0].content_lines[2].0, "First real content");
}

#[test]
fn handles_tabs_in_fullwidth_content() {
    // Test that tabs are properly counted as 4 columns (INFLOW_INDENT_STEP_COLUMNS)
    let mut builder = SourceBuilder::new();
    let subject = subject_line(&mut builder, 0, "Tab Test");

    // Create content with a tab character - tab should count as 4 columns
    // For fullwidth to trigger, content must start at column 1
    // A single space (column 1) followed by text should trigger fullwidth
    let mut parts = Vec::new();
    let range = builder.push(" "); // Single space at column 1
    parts.push((Token::Whitespace(1), range));
    let range = builder.push("Content\twith\ttabs");
    parts.push((Token::Text("Content\twith\ttabs".to_string()), range));
    let range = builder.push("\n");
    parts.push((Token::BlankLine(Some("\n".to_string())), range));
    let content = line_token(LineType::ParagraphLine, parts);

    let data = extract_verbatim_block_data(&subject, &[content], &builder.text);

    assert_eq!(data.mode, VerbatimBlockMode::Fullwidth);
    assert_eq!(data.groups[0].content_lines[0].0, "Content\twith\ttabs");
}

#[test]
fn handles_empty_fullwidth_block() {
    // Test fullwidth block with no content (only blank lines before annotation)
    let mut builder = SourceBuilder::new();
    let subject = subject_line(&mut builder, 0, "Empty Fullwidth");

    // No content lines - the annotation would follow immediately
    let data = extract_verbatim_block_data(&subject, &[], &builder.text);

    // With no content, defaults to Inflow mode (since no line to detect from)
    assert_eq!(data.mode, VerbatimBlockMode::Inflow);
    assert_eq!(data.groups.len(), 1);
    assert_eq!(data.groups[0].content_lines.len(), 0);
}

#[test]
fn handles_fullwidth_with_only_blank_lines() {
    // Test fullwidth block where all content lines are blank
    let mut builder = SourceBuilder::new();
    let subject = subject_line(&mut builder, 0, "All Blanks");
    let blank1 = content_line(&mut builder, 0, "");
    let blank2 = content_line(&mut builder, 0, "");
    let blank3 = content_line(&mut builder, 0, "");

    let data = extract_verbatim_block_data(&subject, &[blank1, blank2, blank3], &builder.text);

    // All blank lines means no real content to detect mode from, defaults to Inflow
    assert_eq!(data.mode, VerbatimBlockMode::Inflow);
    assert_eq!(data.groups[0].content_lines.len(), 3);
}

#[test]
fn handles_tab_indentation_in_inflow_mode() {
    // Test that tabs work correctly in inflow mode
    // A tab should count as 4 columns (INFLOW_INDENT_STEP_COLUMNS)
    let mut builder = SourceBuilder::new();
    let subject = subject_line(&mut builder, 0, "Tab Inflow");

    // Create content with tabs that add up to inflow indent (4 columns)
    let mut parts = Vec::new();
    let range = builder.push("\t"); // Tab = 4 columns
    parts.push((Token::Indentation, range));
    let range = builder.push("Tabbed content");
    parts.push((Token::Text("Tabbed content".to_string()), range));
    let range = builder.push("\n");
    parts.push((Token::BlankLine(Some("\n".to_string())), range));
    let content = line_token(LineType::ParagraphLine, parts);

    let data = extract_verbatim_block_data(&subject, &[content], &builder.text);

    assert_eq!(data.mode, VerbatimBlockMode::Inflow);
    assert_eq!(data.groups[0].content_lines[0].0, "Tabbed content");
}
