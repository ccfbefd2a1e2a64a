//! Shared lexer interfaces.
use vstd::prelude::*;
use std::ops::Range;
use crate::token::Token;

verus! {

/// Output of a lexer.
#[derive(Debug)]
pub enum LexerOutput {
    /// Flat sequence of tokens with their byte ranges.
    Flat(Vec<(Token, Range<usize>)>),
}

/// Errors that can occur during lexing.
#[derive(Debug, Clone, PartialEq)]
pub enum LexError {
    /// Generic error message.
    Error(String),
    /// Error during a transformation.
    Transformation(String),
}

/// The message that describes a lexing error.
pub open spec fn lex_error_text(e: LexError) -> Seq<char> {
    match e {
        LexError::Error(m) => "Lexing error: "@ + m@,
        LexError::Transformation(m) => "Transformation error: "@ + m@,
    }
}

impl LexError {
    /// The human-readable description of this error.
    pub fn message(&self) -> (s: String)
        ensures
            s@ == lex_error_text(*self),
    {
        let mut s = String::new();
        match self {
            LexError::Error(m) => {
                s.append("Lexing error: ");
                s.append(m.as_str());
            },
            LexError::Transformation(m) => {
                s.append("Transformation error: ");
                s.append(m.as_str());
            },
        }
        s
    }
}

/// A lexer implementation.
pub trait Lexer {
    /// Lex the source text.
    fn lex(&self, source: &str) -> Result<LexerOutput, LexError>;
}

} // verus!
