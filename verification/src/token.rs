//! Tokens and line tokens of the Lex lexer.
//!
//! A flat token stream pairs each `Token` with the byte range of its source
//! text. `Indent` tokens carry the `Indentation` tokens they replace; `Dedent`
//! tokens are synthetic. A `LineToken` groups the tokens of one source line
//! together with the line's classification.
use vstd::prelude::*;
use std::ops::Range;

verus! {

/// A lexical token.
#[derive(Debug, PartialEq)]
pub enum Token {
    /// A run of ordinary text.
    Text(String),
    /// A run of spaces that is not a full indentation step.
    Whitespace(usize),
    /// One indentation step (four spaces or a tab).
    Indentation,
    /// A line break, with the text it covers.
    BlankLine(Option<String>),
    /// `-`
    Dash,
    /// `::`
    LexMarker,
    /// `"`
    Quote,
    /// `=`
    Equals,
    /// A run of digits.
    Number(String),
    /// `.`
    Period,
    /// `:`
    Colon,
    /// `,`
    Comma,
    /// `(`
    OpenParen,
    /// `)`
    CloseParen,
    /// Semantic indentation increase, holding the source tokens it replaces.
    Indent(Vec<(Token, Range<usize>)>),
    /// Semantic indentation decrease (synthetic).
    Dedent(Vec<(Token, Range<usize>)>),
}

/// The mathematical model of a token: strings become character sequences.
pub enum TokenView {
    Text(Seq<char>),
    Whitespace(usize),
    Indentation,
    BlankLine(Option<Seq<char>>),
    Dash,
    LexMarker,
    Quote,
    Equals,
    Number(Seq<char>),
    Period,
    Colon,
    Comma,
    OpenParen,
    CloseParen,
    Indent(Seq<(TokenView, Range<usize>)>),
    Dedent(Seq<(TokenView, Range<usize>)>),
}

/// The model of a token.
pub open spec fn token_view(t: Token) -> TokenView
    decreases t,
{
    match t {
        Token::Text(s) => TokenView::Text(s@),
        Token::Whitespace(n) => TokenView::Whitespace(n),
        Token::Indentation => TokenView::Indentation,
        Token::BlankLine(o) => TokenView::BlankLine(
            match o {
                Some(s) => Some(s@),
                None => None,
            },
        ),
        Token::Dash => TokenView::Dash,
        Token::LexMarker => TokenView::LexMarker,
        Token::Quote => TokenView::Quote,
        Token::Equals => TokenView::Equals,
        Token::Number(s) => TokenView::Number(s@),
        Token::Period => TokenView::Period,
        Token::Colon => TokenView::Colon,
        Token::Comma => TokenView::Comma,
        Token::OpenParen => TokenView::OpenParen,
        Token::CloseParen => TokenView::CloseParen,
        Token::Indent(v) => TokenView::Indent(pairs_view(v@)),
        Token::Dedent(v) => TokenView::Dedent(pairs_view(v@)),
    }
}

/// The model of a sequence of (token, byte range) pairs.
pub open spec fn pairs_view(s: Seq<(Token, Range<usize>)>) -> Seq<(TokenView, Range<usize>)>
    decreases s,
{
    if s.len() == 0 {
        Seq::empty()
    } else {
        seq![(token_view(s[0].0), s[0].1)] + pairs_view(s.drop_first())
    }
}

/// Indexing into the model of a pair sequence.
pub proof fn lemma_pairs_view_index(s: Seq<(Token, Range<usize>)>)
    ensures
        pairs_view(s).len() == s.len(),
        forall|k: int|
            0 <= k < s.len() ==> #[trigger] pairs_view(s)[k] == (token_view(s[k].0), s[k].1),
    decreases s.len(),
{
    if s.len() > 0 {
        lemma_pairs_view_index(s.drop_first());
        assert forall|k: int| 0 <= k < s.len() implies #[trigger] pairs_view(s)[k] == (
            token_view(s[k].0),
            s[k].1,
        ) by {
            if k > 0 {
                assert(s.drop_first()[k - 1] == s[k]);
            }
        }
    }
}

impl View for Token {
    type V = TokenView;

    open spec fn view(&self) -> TokenView {
        token_view(*self)
    }
}

/// A copy of a byte range.
pub fn copy_range(r: &Range<usize>) -> (c: Range<usize>)
    ensures
        c == *r,
{
    Range { start: r.start, end: r.end }
}

/// A copy of an optional string.
fn copy_opt_string(o: &Option<String>) -> (c: Option<String>)
    ensures
        match (o, c) {
            (Some(a), Some(b)) => a@ == b@,
            (None, None) => true,
            _ => false,
        },
{
    match o {
        Some(s) => Some(s.clone()),
        None => None,
    }
}

/// A copy of a sequence of (token, byte range) pairs.
pub fn copy_pairs(v: &Vec<(Token, Range<usize>)>) -> (c: Vec<(Token, Range<usize>)>)
    ensures
        pairs_view(c@) == pairs_view(v@),
    decreases v@,
{
    let mut out: Vec<(Token, Range<usize>)> = Vec::new();
    let mut i: usize = 0;
    while i < v.len()
        invariant
            i <= v@.len(),
            pairs_view(out@) == pairs_view(v@.take(i as int)),
        decreases v@.len() - i,
    {
        proof {
            assert(decreases_to!(v@ => v@[i as int]));
        }
        let t = v[i].0.clone();
        let r = copy_range(&v[i].1);
        let ghost before = out@;
        out.push((t, r));
        proof {
            lemma_pairs_view_push(before, (t, r));
            lemma_pairs_view_push(v@.take(i as int), v@[i as int]);
            assert(v@.take(i + 1) =~= v@.take(i as int).push(v@[i as int]));
        }
        i += 1;
    }
    assert(v@.take(v@.len() as int) =~= v@);
    out
}

/// The model of a sequence grows by the model of a pushed pair.
pub proof fn lemma_pairs_view_push(s: Seq<(Token, Range<usize>)>, p: (Token, Range<usize>))
    ensures
        pairs_view(s.push(p)) == pairs_view(s).push((token_view(p.0), p.1)),
    decreases s.len(),
{
    if s.len() == 0 {
        assert(s.push(p).drop_first() =~= Seq::<(Token, Range<usize>)>::empty());
        assert(pairs_view(Seq::<(Token, Range<usize>)>::empty()) =~= Seq::empty());
        assert(pairs_view(s) =~= Seq::empty());
        assert(seq![(token_view(p.0), p.1)] + Seq::<(TokenView, Range<usize>)>::empty() =~= Seq::<
            (TokenView, Range<usize>),
        >::empty().push((token_view(p.0), p.1)));
    } else {
        assert(s.push(p).drop_first() =~= s.drop_first().push(p));
        lemma_pairs_view_push(s.drop_first(), p);
        assert(seq![(token_view(s[0].0), s[0].1)] + pairs_view(s.drop_first()).push(
            (token_view(p.0), p.1),
        ) =~= (seq![(token_view(s[0].0), s[0].1)] + pairs_view(s.drop_first())).push(
            (token_view(p.0), p.1),
        ));
    }
}

impl Clone for Token {
    fn clone(&self) -> (c: Self)
        ensures
            c@ == self@,
        decreases self,
    {
        match self {
            Token::Text(s) => Token::Text(s.clone()),
            Token::Whitespace(n) => Token::Whitespace(*n),
            Token::Indentation => Token::Indentation,
            Token::BlankLine(o) => Token::BlankLine(copy_opt_string(o)),
            Token::Dash => Token::Dash,
            Token::LexMarker => Token::LexMarker,
            Token::Quote => Token::Quote,
            Token::Equals => Token::Equals,
            Token::Number(s) => Token::Number(s.clone()),
            Token::Period => Token::Period,
            Token::Colon => Token::Colon,
            Token::Comma => Token::Comma,
            Token::OpenParen => Token::OpenParen,
            Token::CloseParen => Token::CloseParen,
            Token::Indent(v) => Token::Indent(copy_pairs(v)),
            Token::Dedent(v) => Token::Dedent(copy_pairs(v)),
        }
    }
}

/// The classification of a line.
#[derive(Debug, Clone, Copy, PartialEq, Eq, Structural)]
pub enum LineType {
    /// Only whitespace before the line break.
    BlankLine,
    /// Ordinary text.
    ParagraphLine,
    /// Text ending in a colon.
    SubjectLine,
    /// Starts with a list marker.
    ListLine,
    /// Starts with a list marker and ends in a colon.
    SubjectOrListItemLine,
    /// `:: label params ::` in closed form.
    DataMarkerLine,
    /// Opening line of an annotation.
    AnnotationStartLine,
    /// Closing line of an annotation.
    AnnotationEndLine,
    /// A list line that reads as dialog.
    DialogLine,
    /// Synthetic boundary between document metadata and content.
    DocumentStart,
    /// Indentation increase.
    Indent,
    /// Indentation decrease.
    Dedent,
}

/// The tokens of one line, their byte ranges, and the line's classification.
#[derive(Debug, PartialEq)]
pub struct LineToken {
    pub source_tokens: Vec<Token>,
    pub token_spans: Vec<Range<usize>>,
    pub line_type: LineType,
}

/// The model of a sequence of tokens.
pub open spec fn tokens_view(s: Seq<Token>) -> Seq<TokenView> {
    s.map_values(|t: Token| t@)
}

/// The model of a line token.
pub struct LineTokenView {
    pub tokens: Seq<TokenView>,
    pub spans: Seq<Range<usize>>,
    pub line_type: LineType,
}

impl View for LineToken {
    type V = LineTokenView;

    open spec fn view(&self) -> LineTokenView {
        LineTokenView {
            tokens: tokens_view(self.source_tokens@),
            spans: self.token_spans@,
            line_type: self.line_type,
        }
    }
}

/// Whitespace tokens: spaces, indentation steps and line breaks.
pub open spec fn is_whitespace_token(t: Token) -> bool {
    t is Whitespace || t is Indentation || t is BlankLine
}

/// Tokens that end a sentence.
pub open spec fn is_end_punctuation_token(t: Token) -> bool {
    t is Period
}

impl Token {
    /// Whether this is a whitespace token (spaces, indentation or line break).
    pub fn is_whitespace(&self) -> (b: bool)
        ensures
            b == is_whitespace_token(*self),
    {
        matches!(self, Token::Whitespace(_) | Token::Indentation | Token::BlankLine(_))
    }

    /// Whether this token ends a sentence.
    pub fn is_end_punctuation(&self) -> (b: bool)
        ensures
            b == is_end_punctuation_token(*self),
    {
        matches!(self, Token::Period)
    }
}

/// A copy of a token vector.
pub fn copy_tokens(v: &Vec<Token>) -> (c: Vec<Token>)
    ensures
        tokens_view(c@) == tokens_view(v@),
{
    let mut out: Vec<Token> = Vec::new();
    let mut i: usize = 0;
    while i < v.len()
        invariant
            i <= v@.len(),
            out@.len() == i,
            forall|k: int| 0 <= k < i ==> (#[trigger] out@[k])@ == v@[k]@,
        decreases v@.len() - i,
    {
        out.push(v[i].clone());
        i += 1;
    }
    assert(tokens_view(out@) =~= tokens_view(v@));
    out
}

/// A copy of a vector of byte ranges.
pub fn copy_ranges(v: &Vec<Range<usize>>) -> (c: Vec<Range<usize>>)
    ensures
        c@ == v@,
{
    let mut out: Vec<Range<usize>> = Vec::new();
    let mut i: usize = 0;
    while i < v.len()
        invariant
            i <= v@.len(),
            out@ == v@.take(i as int),
        decreases v@.len() - i,
    {
        out.push(copy_range(&v[i]));
        assert(v@.take(i + 1) =~= v@.take(i as int).push(v@[i as int]));
        i += 1;
    }
    assert(v@.take(v@.len() as int) =~= v@);
    out
}

impl Clone for LineToken {
    fn clone(&self) -> (c: Self)
        ensures
            c@ == self@,
    {
        LineToken {
            source_tokens: copy_tokens(&self.source_tokens),
            token_spans: copy_ranges(&self.token_spans),
            line_type: self.line_type,
        }
    }
}

impl LineToken {
    /// The tokens of the line paired with their byte ranges. When the two
    /// vectors differ in length the extra entries of the longer are dropped.
    pub fn source_token_pairs(&self) -> (r: Vec<(Token, Range<usize>)>)
        ensures
            r@.len() == if self.source_tokens@.len() <= self.token_spans@.len() {
                self.source_tokens@.len()
            } else {
                self.token_spans@.len()
            },
            forall|k: int|
                0 <= k < r@.len() ==> (#[trigger] r@[k]).0@ == self.source_tokens@[k]@ && r@[k].1
                    == self.token_spans@[k],
    {
        let n = if self.source_tokens.len() <= self.token_spans.len() {
            self.source_tokens.len()
        } else {
            self.token_spans.len()
        };
        let mut out: Vec<(Token, Range<usize>)> = Vec::new();
        let mut i: usize = 0;
        while i < n
            invariant
                n <= self.source_tokens@.len(),
                n <= self.token_spans@.len(),
                i <= n,
                out@.len() == i,
                forall|k: int|
                    0 <= k < i ==> (#[trigger] out@[k]).0@ == self.source_tokens@[k]@ && out@[k].1
                        == self.token_spans@[k],
            decreases n - i,
        {
            out.push((self.source_tokens[i].clone(), copy_range(&self.token_spans[i])));
            i += 1;
        }
        out
    }
}

} // verus!
