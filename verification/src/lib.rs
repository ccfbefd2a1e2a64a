//! Verified core of the Lex plain-text document format: escaping rules,
//! line classification, indentation structure and table extraction.
pub mod builtins;
pub mod escape;
pub mod extraction;
pub mod includes;
pub mod inlines;
pub mod lexing;
pub mod location;
pub mod migrate;
pub mod mojibake;
pub mod text;
pub mod token;
