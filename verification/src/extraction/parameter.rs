//! Annotation parameters: `key=value` pairs (values unquoted, or quoted with
//! escaped quotes inside) read from the tokens of an annotation header.
use vstd::prelude::*;
use vstd::utf8::encode_utf8;
use std::ops::Range;
use crate::escape::structural::is_quote_escaped;
use crate::extraction::utilities::{bbox, bbox_between, byte_slice, extract_text, valid_slice};
use crate::text::{run_before, trim, trim_spec};
use crate::token::Token;

verus! {

/// The text and byte ranges of one parameter.
#[derive(Debug)]
pub struct ParameterData {
    /// The parameter key.
    pub key_text: String,
    /// The parameter value, if there is one.
    pub value_text: Option<String>,
    /// Byte range of the key.
    pub key_byte_range: Range<usize>,
    /// Byte range of the value, if there is one.
    pub value_byte_range: Option<Range<usize>>,
    /// Byte range spanning the whole parameter.
    pub overall_byte_range: Range<usize>,
}

/// Whitespace or a comma: skipped before a parameter.
pub open spec fn is_ws_or_comma(tok: Token) -> bool {
    tok is Whitespace || tok is Comma
}

/// Tokens that make up a key.
pub open spec fn is_key_token(tok: Token) -> bool {
    tok is Text || tok is Dash || tok is Number || tok is Period
}

/// Tokens that end an unquoted value.
pub open spec fn is_value_stop(tok: Token) -> bool {
    tok is Comma || tok is LexMarker || tok is BlankLine
}

/// First index from `i` on whose token is neither whitespace nor a comma.
pub open spec fn skip_ws_comma(t: Seq<(Token, Range<usize>)>, i: int) -> int
    decreases t.len() - i,
{
    if 0 <= i < t.len() && is_ws_or_comma(t[i].0) {
        skip_ws_comma(t, i + 1)
    } else {
        i
    }
}

/// First index from `i` on whose token is not whitespace.
pub open spec fn skip_ws(t: Seq<(Token, Range<usize>)>, i: int) -> int
    decreases t.len() - i,
{
    if 0 <= i < t.len() && t[i].0 is Whitespace {
        skip_ws(t, i + 1)
    } else {
        i
    }
}

/// End of the run of key tokens starting at `i`.
pub open spec fn key_end(t: Seq<(Token, Range<usize>)>, i: int) -> int
    decreases t.len() - i,
{
    if 0 <= i < t.len() && is_key_token(t[i].0) {
        key_end(t, i + 1)
    } else {
        i
    }
}

/// End of an unquoted value starting at `i`: the first stop token, or the
/// first whitespace after which (past more whitespace) a stop token follows.
pub open spec fn unquoted_end(t: Seq<(Token, Range<usize>)>, i: int) -> int
    decreases t.len() - i,
{
    if i < 0 || i >= t.len() {
        i
    } else if is_value_stop(t[i].0) {
        i
    } else if t[i].0 is Whitespace && skip_ws(t, i + 1) < t.len() && is_value_stop(t[skip_ws(t, i + 1)].0) {
        i
    } else {
        unquoted_end(t, i + 1)
    }
}

/// The quote at byte `pos` of `src` is escaped by an odd run of backslashes.
pub open spec fn quote_escaped_at(src: Seq<u8>, pos: int) -> bool {
    run_before(src, pos, 92u8) % 2 == 1
}

/// Index of the first unescaped quote token from `i` on (or the end).
pub open spec fn closing_quote(t: Seq<(Token, Range<usize>)>, i: int, src: Seq<u8>) -> int
    decreases t.len() - i,
{
    if i < 0 || i >= t.len() {
        i
    } else if t[i].0 is Quote && !quote_escaped_at(src, t[i].1.start as int) {
        i
    } else {
        closing_quote(t, i + 1, src)
    }
}

/// Where the parameter starting the scan at `start` begins.
pub open spec fn param_begin(t: Seq<(Token, Range<usize>)>, start: int) -> int {
    skip_ws_comma(t, start)
}

/// Where the key of that parameter ends.
pub open spec fn param_key_end(t: Seq<(Token, Range<usize>)>, start: int) -> int {
    key_end(t, param_begin(t, start))
}

/// Index of the first value token when the key is followed by `=`.
pub open spec fn value_start(t: Seq<(Token, Range<usize>)>, start: int) -> Option<int> {
    let i1 = skip_ws(t, param_key_end(t, start));
    if 0 <= i1 < t.len() && t[i1].0 is Equals {
        Some(skip_ws(t, i1 + 1))
    } else {
        None
    }
}

/// The value starting at `v` is quoted.
pub open spec fn value_quoted(t: Seq<(Token, Range<usize>)>, v: int) -> bool {
    0 <= v < t.len() && t[v].0 is Quote
}

/// End of the value starting at `v`: past the closing quote of a quoted
/// value, or where an unquoted value stops.
pub open spec fn value_end(t: Seq<(Token, Range<usize>)>, v: int, src: Seq<u8>) -> int {
    if value_quoted(t, v) {
        let c = closing_quote(t, v + 1, src);
        if c < t.len() { c + 1 } else { c }
    } else {
        unquoted_end(t, v)
    }
}

/// Every quote token between `a` and `b` lies within `src`.
pub open spec fn quotes_within(t: Seq<(Token, Range<usize>)>, a: int, b: int, src: Seq<u8>) -> bool {
    forall|j: int| a <= j <= b && 0 <= j < t.len() && (#[trigger] t[j].0) is Quote ==> t[j].1.start <= src.len()
}

/// The parameter can be read: the key and value ranges are slices of the
/// source on character boundaries, and every quote inspected for an escape
/// lies within the source.
pub open spec fn parameter_ok(t: Seq<(Token, Range<usize>)>, start: int, src: Seq<char>) -> bool {
    let i0 = param_begin(t, start);
    let ke = param_key_end(t, start);
    let bytes = encode_utf8(src);
    0 <= i0 < t.len() && ke > i0 ==> {
        &&& valid_slice(src, bbox(t, i0, ke).start as int, bbox(t, i0, ke).end as int)
        &&& value_start(t, start) matches Some(v) ==> {
            &&& value_quoted(t, v) ==> quotes_within(t, v + 1, closing_quote(t, v + 1, bytes), bytes)
            &&& value_end(t, v, bytes) > v ==> valid_slice(
                src,
                bbox(t, v, value_end(t, v, bytes)).start as int,
                bbox(t, v, value_end(t, v, bytes)).end as int,
            )
        }
    }
}

/// `p` and `next` are the parameter read from `t` at `start` in `src`.
pub open spec fn parameter_of(p: ParameterData, next: int, t: Seq<(Token, Range<usize>)>, start: int, src: Seq<char>) -> bool {
    let i0 = param_begin(t, start);
    let ke = param_key_end(t, start);
    let kr = bbox(t, i0, ke);
    let bytes = encode_utf8(src);
    &&& p.key_byte_range == kr
    &&& p.key_text@ == trim_spec(byte_slice(src, kr.start as int, kr.end as int))
    &&& match value_start(t, start) {
        None => {
            &&& p.value_text is None
            &&& p.value_byte_range is None
            &&& next == skip_ws(t, ke)
            &&& p.overall_byte_range == (Range { start: t[i0].1.start, end: t[ke - 1].1.end })
        },
        Some(v) => {
            let e = value_end(t, v, bytes);
            let vr = bbox(t, v, e);
            &&& next == e
            &&& if e > v {
                &&& p.value_byte_range == Some(vr)
                &&& p.value_text matches Some(x) && x@ == (if value_quoted(t, v) {
                    byte_slice(src, vr.start as int, vr.end as int)
                } else {
                    trim_spec(byte_slice(src, vr.start as int, vr.end as int))
                })
                &&& p.overall_byte_range == (Range { start: t[i0].1.start, end: vr.end })
            } else {
                &&& p.value_text is None
                &&& p.value_byte_range is None
                &&& p.overall_byte_range == (Range { start: t[i0].1.start, end: t[ke - 1].1.end })
            }
        },
    }
}

} // verus!

verus! {

fn tok_ws_or_comma(t: &Token) -> (b: bool)
    ensures
        b == is_ws_or_comma(*t),
{
    match t {
        Token::Whitespace(_) | Token::Comma => true,
        _ => false,
    }
}

fn tok_key(t: &Token) -> (b: bool)
    ensures
        b == is_key_token(*t),
{
    match t {
        Token::Text(_) | Token::Dash | Token::Number(_) | Token::Period => true,
        _ => false,
    }
}

fn tok_ws(t: &Token) -> (b: bool)
    ensures
        b == (*t is Whitespace),
{
    match t {
        Token::Whitespace(_) => true,
        _ => false,
    }
}

fn tok_stop(t: &Token) -> (b: bool)
    ensures
        b == is_value_stop(*t),
{
    match t {
        Token::Comma | Token::LexMarker | Token::BlankLine(_) => true,
        _ => false,
    }
}

fn tok_quote(t: &Token) -> (b: bool)
    ensures
        b == (*t is Quote),
{
    match t {
        Token::Quote => true,
        _ => false,
    }
}

fn tok_equals(t: &Token) -> (b: bool)
    ensures
        b == (*t is Equals),
{
    match t {
        Token::Equals => true,
        _ => false,
    }
}

/// First index from `i` on whose token is not whitespace.
fn skip_whitespace(tokens: &[(Token, Range<usize>)], i: usize) -> (r: usize)
    ensures
        r == skip_ws(tokens@, i as int),
        i <= r,
        r <= tokens@.len() || r == i,
    decreases tokens@.len() - i,
{
    if i < tokens.len() && tok_ws(&tokens[i].0) {
        skip_whitespace(tokens, i + 1)
    } else {
        i
    }
}

/// End of an unquoted value starting at `v`.
fn scan_unquoted(tokens: &[(Token, Range<usize>)], v: usize) -> (e: usize)
    requires
        v <= tokens@.len(),
    ensures
        e == unquoted_end(tokens@, v as int),
        v <= e <= tokens@.len(),
{
    let n = tokens.len();
    let mut i = v;
    while i < n
        invariant
            n == tokens@.len(),
            v <= i <= n,
            unquoted_end(tokens@, i as int) == unquoted_end(tokens@, v as int),
        ensures
            v <= i <= n,
            unquoted_end(tokens@, v as int) == i,
        decreases n - i,
    {
        let t = &tokens[i].0;
        if tok_stop(t) {
            break;
        }
        if tok_ws(t) {
            let peek = skip_whitespace(tokens, i + 1);
            if peek < n && tok_stop(&tokens[peek].0) {
                break;
            }
        }
        i += 1;
    }
    i
}

/// The closing quote lies at or after the scan start, and at most at the end.
proof fn lemma_closing_quote_after(t: Seq<(Token, Range<usize>)>, i: int, src: Seq<u8>)
    requires
        0 <= i <= t.len(),
    ensures
        i <= closing_quote(t, i, src) <= t.len(),
    decreases t.len() - i,
{
    if i < t.len() {
        lemma_closing_quote_after(t, i + 1, src);
    }
}

/// Skipping whitespace and commas never moves backwards.
proof fn lemma_skip_ws_comma_after(t: Seq<(Token, Range<usize>)>, i: int)
    ensures
        i <= skip_ws_comma(t, i),
    decreases t.len() - i,
{
    if 0 <= i < t.len() && is_ws_or_comma(t[i].0) {
        lemma_skip_ws_comma_after(t, i + 1);
    }
}

/// Skipping whitespace never moves backwards.
proof fn lemma_skip_ws_after(t: Seq<(Token, Range<usize>)>, i: int)
    ensures
        i <= skip_ws(t, i),
    decreases t.len() - i,
{
    if 0 <= i < t.len() && t[i].0 is Whitespace {
        lemma_skip_ws_after(t, i + 1);
    }
}

/// An unquoted value never ends before it starts.
proof fn lemma_unquoted_end_after(t: Seq<(Token, Range<usize>)>, i: int)
    ensures
        i <= unquoted_end(t, i),
    decreases t.len() - i,
{
    if 0 <= i < t.len() && !is_value_stop(t[i].0)
        && !(t[i].0 is Whitespace && skip_ws(t, i + 1) < t.len() && is_value_stop(t[skip_ws(t, i + 1)].0)) {
        lemma_unquoted_end_after(t, i + 1);
    }
}

/// Within a run of text, dash, number and period tokens that ends at `k`,
/// the key run from any index of it ends at `k`.
proof fn lemma_key_end_at_run_end(t: Seq<(Token, Range<usize>)>, i: int, k: int)
    requires
        0 <= i <= k <= t.len(),
        forall|j: int| i <= j < k ==> (#[trigger] t[j]).0 is Text || t[j].0 is Dash || t[j].0 is Number || t[j].0 is Period,
        k == t.len() || !(t[k].0 is Text || t[k].0 is Dash || t[k].0 is Number || t[k].0 is Period),
    ensures
        key_end(t, i) == k,
    decreases k - i,
{
    if i < k {
        lemma_key_end_at_run_end(t, i + 1, k);
    }
}

/// A parameter key is the whole run of text, dash, number and period tokens
/// where the parameter begins: when that run ends at `k`, the key's byte
/// range spans the run, dashes between key words included, and when the
/// first token after the run (past whitespace) is `=`, reading goes on past
/// it; a value that then starts with text or a number is read.
pub proof fn lemma_key_is_full_token_run(
    p: ParameterData,
    next: int,
    t: Seq<(Token, Range<usize>)>,
    start: int,
    src: Seq<char>,
    k: int,
)
    requires
        0 <= start,
        parameter_of(p, next, t, start, src),
        param_begin(t, start) <= k <= t.len(),
        forall|j: int| param_begin(t, start) <= j < k
            ==> (#[trigger] t[j]).0 is Text || t[j].0 is Dash || t[j].0 is Number || t[j].0 is Period,
        k == t.len() || !(t[k].0 is Text || t[k].0 is Dash || t[k].0 is Number || t[k].0 is Period),
    ensures
        p.key_byte_range == bbox(t, param_begin(t, start), k),
        ({
            let e = skip_ws(t, k);
            0 <= e < t.len() && t[e].0 is Equals ==> next > e
        }),
        ({
            let e = skip_ws(t, k);
            let w = skip_ws(t, e + 1);
            0 <= e < t.len() && t[e].0 is Equals && w < t.len() && (t[w].0 is Text || t[w].0 is Number)
                ==> p.value_text is Some && p.value_byte_range is Some
        }),
{
    let i0 = param_begin(t, start);
    lemma_skip_ws_comma_after(t, start);
    lemma_key_end_at_run_end(t, i0, k);
    assert(param_key_end(t, start) == k);
    let e = skip_ws(t, k);
    lemma_skip_ws_after(t, k);
    if 0 <= e < t.len() && t[e].0 is Equals {
        let v = skip_ws(t, e + 1);
        lemma_skip_ws_after(t, e + 1);
        assert(value_start(t, start) == Some(v));
        let bytes = encode_utf8(src);
        if value_quoted(t, v) {
            lemma_closing_quote_after(t, v + 1, bytes);
        } else {
            lemma_unquoted_end_after(t, v);
            if v < t.len() && (t[v].0 is Text || t[v].0 is Number) {
                lemma_unquoted_end_after(t, v + 1);
                assert(unquoted_end(t, v) == unquoted_end(t, v + 1));
            }
        }
    }
}

/// Index of the closing (unescaped) quote from `i` on, or the end.
fn scan_quoted(tokens: &[(Token, Range<usize>)], i: usize, bytes: &[u8]) -> (c: usize)
    requires
        i <= tokens@.len(),
        quotes_within(tokens@, i as int, closing_quote(tokens@, i as int, bytes@), bytes@),
    ensures
        c == closing_quote(tokens@, i as int, bytes@),
        i <= c <= tokens@.len(),
{
    let n = tokens.len();
    let ghost target = closing_quote(tokens@, i as int, bytes@);
    let mut j = i;
    proof {
        lemma_closing_quote_after(tokens@, i as int, bytes@);
    }
    while j < n
        invariant
            n == tokens@.len(),
            i <= j <= n,
            closing_quote(tokens@, j as int, bytes@) == target,
            quotes_within(tokens@, i as int, target, bytes@),
            j <= target,
        ensures
            i <= j <= n,
            j == target,
        decreases n - j,
    {
        if tok_quote(&tokens[j].0) {
            proof {
                assert(tokens@[j as int].1.start <= bytes@.len());
            }
            if !is_quote_escaped(bytes, tokens[j].1.start) {
                break;
            }
        }
        proof {
            lemma_closing_quote_after(tokens@, j + 1, bytes@);
        }
        j += 1;
    }
    j
}

/// Read one parameter (`key=value` or just `key`) starting the scan at
/// `start_idx`: leading whitespace and commas are skipped, the key is a run of
/// text, dash, number and period tokens, and a value follows `=` (quoted up to
/// the first unescaped closing quote, or unquoted up to a comma, `::` or line
/// end, trailing whitespace excluded). Gives the parameter and the index
/// after it; `None` when no key is found.
pub fn parse_parameter(tokens: &[(Token, Range<usize>)], start_idx: usize, source: &str) -> (r: Option<(ParameterData, usize)>)
    requires
        parameter_ok(tokens@, start_idx as int, source@),
    ensures
        ({
            let i0 = param_begin(tokens@, start_idx as int);
            let ke = param_key_end(tokens@, start_idx as int);
            (i0 >= tokens@.len() || ke == i0) <==> r is None
        }),
        r matches Some((p, next)) ==> parameter_of(p, next as int, tokens@, start_idx as int, source@),
{
    let n = tokens.len();
    let mut i = start_idx;
    while i < n && tok_ws_or_comma(&tokens[i].0)
        invariant
            n == tokens@.len(),
            start_idx <= i,
            i <= n || i == start_idx,
            skip_ws_comma(tokens@, i as int) == skip_ws_comma(tokens@, start_idx as int),
        decreases n - i,
    {
        i += 1;
    }
    if i >= n {
        return None;
    }
    let i0 = i;
    while i < n && tok_key(&tokens[i].0)
        invariant
            n == tokens@.len(),
            i0 <= i <= n,
            key_end(tokens@, i as int) == key_end(tokens@, i0 as int),
        decreases n - i,
    {
        i += 1;
    }
    let ke = i;
    if ke == i0 {
        return None;
    }
    let bytes = source.as_bytes();
    let ghost b = bytes@;
    assert(b == encode_utf8(source@));
    i = skip_whitespace(tokens, ke);
    let mut value_text: Option<String> = None;
    let mut value_range: Option<Range<usize>> = None;
    if i < n && tok_equals(&tokens[i].0) {
        let v = skip_whitespace(tokens, i + 1);
        let quoted = v < n && tok_quote(&tokens[v].0);
        let e = if quoted {
            let c = scan_quoted(tokens, v + 1, bytes);
            if c < n { c + 1 } else { c }
        } else {
            scan_unquoted(tokens, v)
        };
        if e > v {
            let vr = bbox_between(tokens, v, e);
            let raw = extract_text(Range { start: vr.start, end: vr.end }, source);
            let text = if quoted { raw } else { trim(raw.as_str()).to_string() };
            value_text = Some(text);
            value_range = Some(vr);
        }
        i = e;
    }
    let key_range = bbox_between(tokens, i0, ke);
    let key_raw = extract_text(Range { start: key_range.start, end: key_range.end }, source);
    let key_text = trim(key_raw.as_str()).to_string();
    let overall_start = tokens[i0].1.start;
    let overall_end = match &value_range {
        Some(vr) => vr.end,
        None => tokens[ke - 1].1.end,
    };
    Some((
        ParameterData {
            key_text,
            value_text,
            key_byte_range: key_range,
            value_byte_range: value_range,
            overall_byte_range: Range { start: overall_start, end: overall_end },
        },
        i,
    ))
}

} // verus!
