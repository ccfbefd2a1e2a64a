//! Lexing: line classification, line grouping and token-stream transformations.
//!
//! The pipeline: base tokenization (each line break is a `BlankLine` token,
//! each indentation step an `Indentation` token), then semantic indentation
//! (indentation becomes `Indent`/`Dedent` events), then line grouping.
pub mod common;
pub mod line_classification;
pub mod line_grouping;
pub mod transformations;

use vstd::prelude::*;
use std::ops::Range;
use crate::text::{chars_of, push_char, string_from_chars};
use crate::token::{pairs_view, Token};
use crate::lexing::common::LexError;
use crate::lexing::transformations::semantic_indentation::{
    semantic_indentation_spec, SemanticIndentationMapper,
};

verus! {

/// `s` with a line break appended unless it is empty or already ends with one.
pub open spec fn with_final_newline(s: Seq<char>) -> Seq<char> {
    if s.len() > 0 && s[s.len() - 1] != '\n' {
        s.push('\n')
    } else {
        s
    }
}

/// Make sure non-empty source text ends with a line break (needed to close
/// a paragraph at the end of the file).
pub fn ensure_source_ends_with_newline(source: &str) -> (r: String)
    ensures
        r@ == with_final_newline(source@),
{
    let cs = chars_of(source);
    let mut r = string_from_chars(cs.as_slice());
    if cs.len() > 0 && cs[cs.len() - 1] != '\n' {
        push_char(&mut r, '\n');
    }
    r
}

/// Run the lexing transformations (semantic indentation) over a flat token stream.
pub fn lex(tokens: Vec<(Token, Range<usize>)>) -> (r: Result<Vec<(Token, Range<usize>)>, LexError>)
    ensures
        r matches Ok(v) && pairs_view(v@) == semantic_indentation_spec(pairs_view(tokens@)),
{
    let mut mapper = SemanticIndentationMapper::new();
    match mapper.map(tokens) {
        Ok(v) => Ok(v),
        Err(_) => Err(LexError::Transformation(String::new())),
    }
}

/// Ensuring a final line break is idempotent: a second pass changes nothing.
pub proof fn lemma_final_newline_idempotent(s: Seq<char>)
    ensures
        with_final_newline(with_final_newline(s)) == with_final_newline(s),
{
}

} // verus!
