//! Token-stream transformations of the lexer.
pub mod semantic_indentation;
pub mod document_start;
pub mod line_token_grouping;
