//! Source-text utilities for extraction: bounding boxes of token ranges and
//! the source text between two byte offsets.
use vstd::prelude::*;
use std::ops::Range;
use crate::token::Token;
use crate::text::{chars_in_bytes, chars_of, char_byte_offsets, is_boundary, lemma_widths_increase, string_from_chars, utf8_len};

verus! {

/// The text of `s` between byte offsets `a` and `b`.
pub open spec fn byte_slice(s: Seq<char>, a: int, b: int) -> Seq<char> {
    s.subrange(chars_in_bytes(s, a), chars_in_bytes(s, b))
}

/// `a..b` is a range of `s` whose ends are character boundaries.
pub open spec fn valid_slice(s: Seq<char>, a: int, b: int) -> bool {
    a <= b && is_boundary(s, a) && is_boundary(s, b)
}

/// The smallest start among the ranges of `t[a..b]` (`b > a`).
pub open spec fn min_start(t: Seq<(Token, Range<usize>)>, a: int, b: int) -> usize
    decreases b - a,
{
    if b <= a + 1 {
        t[a].1.start
    } else {
        let m = min_start(t, a, b - 1);
        if t[b - 1].1.start < m { t[b - 1].1.start } else { m }
    }
}

/// The largest end among the ranges of `t[a..b]` (`b > a`).
pub open spec fn max_end(t: Seq<(Token, Range<usize>)>, a: int, b: int) -> usize
    decreases b - a,
{
    if b <= a + 1 {
        t[a].1.end
    } else {
        let m = max_end(t, a, b - 1);
        if t[b - 1].1.end > m { t[b - 1].1.end } else { m }
    }
}

/// The bounding box of the ranges of `t[a..b]`: from the smallest start to
/// the largest end; `0..0` when there are none.
pub open spec fn bbox(t: Seq<(Token, Range<usize>)>, a: int, b: int) -> Range<usize> {
    if b <= a {
        Range { start: 0, end: 0 }
    } else {
        Range { start: min_start(t, a, b), end: max_end(t, a, b) }
    }
}

/// The bounding box of the ranges of `tokens[a..b]`.
pub fn bbox_between(tokens: &[(Token, Range<usize>)], a: usize, b: usize) -> (r: Range<usize>)
    requires
        a <= b <= tokens@.len(),
    ensures
        r == bbox(tokens@, a as int, b as int),
{
    if b <= a {
        return Range { start: 0, end: 0 };
    }
    let mut lo = tokens[a].1.start;
    let mut hi = tokens[a].1.end;
    let mut i = a + 1;
    while i < b
        invariant
            a < i <= b <= tokens@.len(),
            lo == min_start(tokens@, a as int, i as int),
            hi == max_end(tokens@, a as int, i as int),
        decreases b - i,
    {
        if tokens[i].1.start < lo {
            lo = tokens[i].1.start;
        }
        if tokens[i].1.end > hi {
            hi = tokens[i].1.end;
        }
        i += 1;
    }
    Range { start: lo, end: hi }
}

/// The bounding box of all token ranges (`0..0` for no tokens).
pub fn compute_bounding_box(tokens: &[(Token, Range<usize>)]) -> (r: Range<usize>)
    ensures
        r == bbox(tokens@, 0, tokens@.len() as int),
{
    bbox_between(tokens, 0, tokens.len())
}

/// Character index of byte offset `b`, which is a character boundary.
pub fn char_index_of(offs: &Vec<usize>, b: usize, Ghost(s): Ghost<Seq<char>>) -> (q: usize)
    requires
        offs@.len() == s.len() + 1,
        forall|k: int| 0 <= k <= s.len() ==> #[trigger] offs@[k] == utf8_len(s.take(k)),
        is_boundary(s, b as int),
    ensures
        q == chars_in_bytes(s, b as int),
        q <= s.len(),
{
    let n = offs.len() - 1;
    let mut q: usize = 0;
    while q < n && offs[q] < b
        invariant
            n == s.len(),
            q <= s.len(),
            offs@.len() == s.len() + 1,
            forall|k: int| 0 <= k <= s.len() ==> #[trigger] offs@[k] == utf8_len(s.take(k)),
            forall|k: int| 0 <= k < q ==> utf8_len(s.take(k)) < b,
        decreases n - q,
    {
        q += 1;
    }
    proof {
        let w = choose|w: int| 0 <= w <= s.len() && utf8_len(s.take(w)) == b;
        if w > q {
            if q < s.len() {
                lemma_widths_increase(s, q as int, w);
            }
        }
        assert(w == q);
    }
    q
}

/// The source text between the ends of `range`.
pub fn extract_text(range: Range<usize>, source: &str) -> (r: String)
    requires
        valid_slice(source@, range.start as int, range.end as int),
    ensures
        r@ == byte_slice(source@, range.start as int, range.end as int),
{
    let c = chars_of(source);
    let offs = char_byte_offsets(source, &c);
    let a = char_index_of(&offs, range.start, Ghost(c@));
    let b = char_index_of(&offs, range.end, Ghost(c@));
    proof {
        if a > b {
            lemma_widths_increase(c@, b as int, a as int);
        }
    }
    let mut out: Vec<char> = Vec::new();
    let mut i = a;
    while i < b
        invariant
            a <= i <= b <= c@.len(),
            out@ == c@.subrange(a as int, i as int),
        decreases b - i,
    {
        out.push(c[i]);
        assert(c@.subrange(a as int, i + 1) =~= c@.subrange(a as int, i as int).push(c@[i as int]));
        i += 1;
    }
    string_from_chars(out.as_slice())
}

} // verus!
