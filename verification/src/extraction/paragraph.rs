//! Paragraph data: the text and byte range of each line of a paragraph,
//! and the byte range of the whole.
use vstd::prelude::*;
use std::ops::Range;
use crate::token::Token;
use super::utilities::{bbox, byte_slice, compute_bounding_box, extract_text, max_end, min_start, valid_slice};

verus! {

/// Extracted data for building a paragraph: each line's text and byte
/// range, and the byte range spanning all lines.
#[derive(Debug)]
pub struct ParagraphData {
    pub text_lines: Vec<(String, Range<usize>)>,
    pub overall_byte_range: Range<usize>,
}

/// The tokens of all lines, in order.
pub open spec fn flat_lines(ls: Seq<Vec<(Token, Range<usize>)>>) -> Seq<(Token, Range<usize>)>
    decreases ls.len(),
{
    if ls.len() == 0 {
        Seq::empty()
    } else {
        flat_lines(ls.drop_last()) + ls.last()@
    }
}

/// Every line's bounding box is a valid slice of the source.
pub open spec fn lines_fit(ls: Seq<Vec<(Token, Range<usize>)>>, s: Seq<char>) -> bool {
    forall|i: int| 0 <= i < ls.len() ==> {
        let b = bbox((#[trigger] ls[i])@, 0, ls[i]@.len() as int);
        valid_slice(s, b.start as int, b.end as int)
    }
}

/// The bounding box reads only the ranges.
proof fn lemma_bbox_ranges(t1: Seq<(Token, Range<usize>)>, t2: Seq<(Token, Range<usize>)>, a: int, b: int)
    requires
        t1.len() == t2.len(),
        0 <= a <= b <= t1.len(),
        forall|i: int| 0 <= i < t1.len() ==> (#[trigger] t1[i]).1 == t2[i].1,
    ensures
        bbox(t1, a, b) == bbox(t2, a, b),
{
    if b > a {
        lemma_min_max_ranges(t1, t2, a, b);
    }
}

proof fn lemma_min_max_ranges(t1: Seq<(Token, Range<usize>)>, t2: Seq<(Token, Range<usize>)>, a: int, b: int)
    requires
        t1.len() == t2.len(),
        0 <= a < b <= t1.len(),
        forall|i: int| 0 <= i < t1.len() ==> (#[trigger] t1[i]).1 == t2[i].1,
    ensures
        min_start(t1, a, b) == min_start(t2, a, b),
        max_end(t1, a, b) == max_end(t2, a, b),
    decreases b - a,
{
    assert(t1[a].1 == t2[a].1);
    assert(t1[b - 1].1 == t2[b - 1].1);
    if b > a + 1 {
        lemma_min_max_ranges(t1, t2, a, b - 1);
    }
}

/// Extract paragraph data from token lines (one vector per line): each
/// line's text is the source slice of its bounding box; the overall range
/// is the bounding box of all tokens (`0..0` when there are none).
pub fn extract_paragraph_data(token_lines: Vec<Vec<(Token, Range<usize>)>>, source: &str) -> (d: ParagraphData)
    requires
        lines_fit(token_lines@, source@),
    ensures
        d.text_lines@.len() == token_lines@.len(),
        forall|i: int| 0 <= i < token_lines@.len() ==> {
            let b = bbox((#[trigger] token_lines@[i])@, 0, token_lines@[i]@.len() as int);
            &&& d.text_lines@[i].1 == b
            &&& d.text_lines@[i].0@ == byte_slice(source@, b.start as int, b.end as int)
        },
        d.overall_byte_range == bbox(flat_lines(token_lines@), 0, flat_lines(token_lines@).len() as int),
{
    let mut text_lines: Vec<(String, Range<usize>)> = Vec::new();
    let mut all: Vec<(Token, Range<usize>)> = Vec::new();
    let mut i: usize = 0;
    while i < token_lines.len()
        invariant
            i <= token_lines@.len(),
            lines_fit(token_lines@, source@),
            text_lines@.len() == i,
            forall|k: int| 0 <= k < i ==> {
                let b = bbox((#[trigger] token_lines@[k])@, 0, token_lines@[k]@.len() as int);
                &&& text_lines@[k].1 == b
                &&& text_lines@[k].0@ == byte_slice(source@, b.start as int, b.end as int)
            },
            all@.len() == flat_lines(token_lines@.take(i as int)).len(),
            forall|k: int| 0 <= k < all@.len() ==> (#[trigger] all@[k]).1 == flat_lines(token_lines@.take(i as int))[k].1,
        decreases token_lines@.len() - i,
    {
        let line = &token_lines[i];
        let b = compute_bounding_box(line.as_slice());
        let text = extract_text(crate::token::copy_range(&b), source);
        text_lines.push((text, b));
        let ghost before = all@;
        assert(token_lines@.take(i + 1).drop_last() =~= token_lines@.take(i as int));
        let mut j: usize = 0;
        while j < line.len()
            invariant
                j <= line@.len(),
                all@.len() == before.len() + j,
                forall|k: int| 0 <= k < before.len() ==> (#[trigger] all@[k]).1 == before[k].1,
                forall|k: int| 0 <= k < j ==> (#[trigger] all@[before.len() + k]).1 == line@[k].1,
            decreases line@.len() - j,
        {
            let t = line[j].0.clone();
            let r = crate::token::copy_range(&line[j].1);
            all.push((t, r));
            j += 1;
        }
        proof {
            let f = flat_lines(token_lines@.take(i + 1));
            assert(f == flat_lines(token_lines@.take(i as int)) + line@);
            assert forall|k: int| 0 <= k < all@.len() implies (#[trigger] all@[k]).1 == f[k].1 by {
                if k >= before.len() {
                    assert(all@[before.len() + (k - before.len())] == all@[k]);
                }
            }
        }
        i += 1;
    }
    assert(token_lines@.take(token_lines@.len() as int) =~= token_lines@);
    let overall = compute_bounding_box(all.as_slice());
    proof {
        let f = flat_lines(token_lines@);
        lemma_bbox_ranges(all@, f, 0, f.len() as int);
    }
    ParagraphData { text_lines, overall_byte_range: overall }
}

} // verus!
