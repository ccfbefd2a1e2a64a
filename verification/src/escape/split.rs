//! Escape-aware structural splitting and finding.
use vstd::prelude::*;
use vstd::string::StrSliceExecFns;
use std::borrow::Cow;
use std::ops::Range;
use crate::text::{
    backslashes_before, char_byte_offsets, chars_of, copy_chars, lit_state, run_before,
    string_from_chars, utf8_len,
};

verus! {

/// Index `i` of `c` is a structural separator: it holds `sep`, is not escaped
/// by an odd run of backslashes, is outside any literal region, and is not
/// itself an (unescaped) literal delimiter.
pub open spec fn is_split_point(c: Seq<char>, i: int, sep: char, delim: Option<char>) -> bool {
    &&& 0 <= i < c.len()
    &&& c[i] == sep
    &&& run_before(c, i, '\\') % 2 == 0
    &&& !lit_state(c, i, '\\', delim)
    &&& delim != Some(c[i])
}

/// The structural separator positions of `c` below `n`, in increasing order.
pub open spec fn split_points_below(c: Seq<char>, sep: char, delim: Option<char>, n: int) -> Seq<int>
    decreases n,
{
    if n <= 0 {
        Seq::empty()
    } else {
        let p = split_points_below(c, sep, delim, n - 1);
        if is_split_point(c, n - 1, sep, delim) {
            p.push(n - 1)
        } else {
            p
        }
    }
}

/// All structural separator positions of `c`, in increasing order.
pub open spec fn split_points(c: Seq<char>, sep: char, delim: Option<char>) -> Seq<int> {
    split_points_below(c, sep, delim, c.len() as int)
}

/// Start of segment `k` given the separator positions `pts`.
pub open spec fn seg_start(pts: Seq<int>, k: int) -> int {
    if k <= 0 {
        0
    } else {
        pts[k - 1] + 1
    }
}

/// End (exclusive) of segment `k` given the separator positions `pts`.
pub open spec fn seg_end(pts: Seq<int>, len: int, k: int) -> int {
    if k >= pts.len() {
        len
    } else {
        pts[k]
    }
}

/// Escape stripping of a segment from index `i` on, with the literal-region
/// state `in_lit`: `\<sep>` outside literal regions becomes `<sep>`, and
/// everything else is copied.
pub open spec fn strip_from(seg: Seq<char>, i: int, in_lit: bool, sep: char, delim: Option<char>) -> Seq<char>
    decreases seg.len() - i,
{
    if i < 0 || i >= seg.len() {
        Seq::empty()
    } else if delim == Some(seg[i]) && run_before(seg, i, '\\') % 2 == 0 {
        seq![seg[i]] + strip_from(seg, i + 1, !in_lit, sep, delim)
    } else if !in_lit && seg[i] == '\\' && i + 1 < seg.len() && seg[i + 1] == sep {
        seq![sep] + strip_from(seg, i + 2, in_lit, sep, delim)
    } else {
        seq![seg[i]] + strip_from(seg, i + 1, in_lit, sep, delim)
    }
}

/// The text of a segment once its escaped separators are resolved.
pub open spec fn strip_segment(seg: Seq<char>, sep: char, delim: Option<char>) -> Seq<char> {
    strip_from(seg, 0, false, sep, delim)
}

/// The raw (unstripped) segment `k` of `c`.
pub open spec fn raw_segment(c: Seq<char>, sep: char, delim: Option<char>, k: int) -> Seq<char> {
    let pts = split_points(c, sep, delim);
    c.subrange(seg_start(pts, k), seg_end(pts, c.len() as int, k))
}

/// The segments of `c`: the text between consecutive structural separators,
/// with escaped separators resolved.
pub open spec fn split_segments(c: Seq<char>, sep: char, delim: Option<char>) -> Seq<Seq<char>> {
    Seq::new(
        (split_points(c, sep, delim).len() + 1) as nat,
        |k: int| strip_segment(raw_segment(c, sep, delim, k), sep, delim),
    )
}

/// The result `r` is the split of `c`: one entry per segment, each with the
/// segment's text, borrowed exactly when stripping changed nothing.
pub open spec fn is_split_of(c: Seq<char>, sep: char, delim: Option<char>, r: Seq<Cow<'_, str>>) -> bool {
    &&& r.len() == split_segments(c, sep, delim).len()
    &&& forall|k: int| 0 <= k < r.len() ==> (#[trigger] r[k])@ == split_segments(c, sep, delim)[k]
    &&& forall|k: int|
        0 <= k < r.len() ==> ((#[trigger] r[k] is Borrowed) <==> split_segments(c, sep, delim)[k]
            == raw_segment(c, sep, delim, k))
}

/// Facts about the separator positions below `n`.
pub proof fn lemma_split_points_below(c: Seq<char>, sep: char, delim: Option<char>, n: int)
    requires
        0 <= n <= c.len(),
    ensures
        forall|k: int|
            0 <= k < split_points_below(c, sep, delim, n).len() ==> 0 <= #[trigger] split_points_below(
                c,
                sep,
                delim,
                n,
            )[k] < n && is_split_point(c, split_points_below(c, sep, delim, n)[k], sep, delim),
        forall|k: int, l: int|
            0 <= k < l < split_points_below(c, sep, delim, n).len() ==> split_points_below(
                c,
                sep,
                delim,
                n,
            )[k] < split_points_below(c, sep, delim, n)[l],
        forall|i: int|
            0 <= i < n && is_split_point(c, i, sep, delim) ==> split_points_below(
                c,
                sep,
                delim,
                n,
            ).contains(i),
    decreases n,
{
    if n > 0 {
        lemma_split_points_below(c, sep, delim, n - 1);
        let p = split_points_below(c, sep, delim, n - 1);
        if is_split_point(c, n - 1, sep, delim) {
            let q = p.push(n - 1);
            assert(q[q.len() - 1] == n - 1);
            assert forall|i: int| 0 <= i < n && is_split_point(c, i, sep, delim) implies q.contains(i) by {
                if i < n - 1 {
                    let k = choose|k: int| 0 <= k < p.len() && p[k] == i;
                    assert(q[k] == i);
                }
            }
        }
    }
}

/// Stripping never lengthens a segment, and keeps its length only when it
/// leaves it unchanged.
pub proof fn lemma_strip_len(seg: Seq<char>, i: int, in_lit: bool, sep: char, delim: Option<char>)
    requires
        0 <= i <= seg.len(),
    ensures
        strip_from(seg, i, in_lit, sep, delim).len() <= seg.len() - i,
        strip_from(seg, i, in_lit, sep, delim).len() == seg.len() - i ==> strip_from(
            seg,
            i,
            in_lit,
            sep,
            delim,
        ) == seg.subrange(i, seg.len() as int),
        strip_from(seg, i, in_lit, sep, delim) == seg.subrange(i, seg.len() as int) ==> strip_from(
            seg,
            i,
            in_lit,
            sep,
            delim,
        ).len() == seg.len() - i,
    decreases seg.len() - i,
{
    if i < seg.len() {
        if delim == Some(seg[i]) && run_before(seg, i, '\\') % 2 == 0 {
            lemma_strip_len(seg, i + 1, !in_lit, sep, delim);
            assert(seq![seg[i]] + seg.subrange(i + 1, seg.len() as int) =~= seg.subrange(
                i,
                seg.len() as int,
            ));
        } else if !in_lit && seg[i] == '\\' && i + 1 < seg.len() && seg[i + 1] == sep {
            lemma_strip_len(seg, i + 2, in_lit, sep, delim);
        } else {
            lemma_strip_len(seg, i + 1, in_lit, sep, delim);
            assert(seq![seg[i]] + seg.subrange(i + 1, seg.len() as int) =~= seg.subrange(
                i,
                seg.len() as int,
            ));
        }
    } else {
        assert(seg.subrange(i, seg.len() as int) =~= Seq::<char>::empty());
    }
}

/// Whether `delim` is `Some(ch)`.
fn is_delim(delim: Option<char>, ch: char) -> (b: bool)
    ensures
        b == (delim == Some(ch)),
{
    match delim {
        Some(d) => d == ch,
        None => false,
    }
}

/// Character bounds of every segment of `c`.
pub(crate) fn split_bounds(c: &Vec<char>, sep: char, delim: Option<char>) -> (r: Vec<(usize, usize)>)
    ensures
        r@.len() == split_points(c@, sep, delim).len() + 1,
        forall|k: int|
            0 <= k < r@.len() ==> (#[trigger] r@[k]).0 == seg_start(split_points(c@, sep, delim), k)
                && r@[k].1 == seg_end(split_points(c@, sep, delim), c@.len() as int, k),
{
    let n = c.len();
    let mut r: Vec<(usize, usize)> = Vec::new();
    let mut start: usize = 0;
    let mut in_lit = false;
    let mut i: usize = 0;
    while i < n
        invariant
            n == c@.len(),
            i <= n,
            in_lit == lit_state(c@, i as int, '\\', delim),
            r@.len() == split_points_below(c@, sep, delim, i as int).len(),
            start == seg_start(split_points_below(c@, sep, delim, i as int), r@.len() as int),
            start <= i,
            forall|k: int|
                0 <= k < r@.len() ==> (#[trigger] r@[k]).0 == seg_start(
                    split_points_below(c@, sep, delim, i as int),
                    k,
                ) && r@[k].1 == split_points_below(c@, sep, delim, i as int)[k],
        decreases n - i,
    {
        let ghost pts = split_points_below(c@, sep, delim, i as int);
        let ch = c[i];
        let esc = backslashes_before(c, i) % 2 == 1;
        if is_delim(delim, ch) && !esc {
            in_lit = !in_lit;
        } else if !in_lit && ch == sep && !esc {
            r.push((start, i));
            proof {
                let q = pts.push(i as int);
                assert(split_points_below(c@, sep, delim, i + 1) == q);
                assert forall|k: int| 0 <= k < r@.len() implies (#[trigger] r@[k]).0 == seg_start(q, k)
                    && r@[k].1 == q[k] by {
                    if k < pts.len() {
                        assert(q[k] == pts[k]);
                        if k > 0 {
                            assert(q[k - 1] == pts[k - 1]);
                        }
                    }
                }
            }
            start = i + 1;
        }
        i += 1;
    }
    let ghost pts = split_points(c@, sep, delim);
    r.push((start, n));
    proof {
        lemma_split_points_below(c@, sep, delim, n as int);
    }
    r
}

/// Strip escaped separators (outside literal regions) from a segment.
fn strip_escapes(seg: &Vec<char>, sep: char, delim: Option<char>) -> (out: Vec<char>)
    ensures
        out@ == strip_segment(seg@, sep, delim),
{
    let n = seg.len();
    let mut out: Vec<char> = Vec::new();
    let mut in_lit = false;
    let mut i: usize = 0;
    assert(Seq::<char>::empty() + strip_segment(seg@, sep, delim) =~= strip_segment(seg@, sep, delim));
    while i < n
        invariant
            n == seg@.len(),
            i <= n,
            out@ + strip_from(seg@, i as int, in_lit, sep, delim) == strip_segment(seg@, sep, delim),
        decreases n - i,
    {
        let ghost before = out@;
        let ch = seg[i];
        if is_delim(delim, ch) && backslashes_before(seg, i) % 2 == 0 {
            out.push(ch);
            assert(before.push(ch) + strip_from(seg@, i + 1, !in_lit, sep, delim) =~= before + (seq![ch]
                + strip_from(seg@, i + 1, !in_lit, sep, delim)));
            in_lit = !in_lit;
            i += 1;
        } else if !in_lit && ch == '\\' && i + 1 < n && seg[i + 1] == sep {
            out.push(sep);
            assert(before.push(sep) + strip_from(seg@, i + 2, in_lit, sep, delim) =~= before + (seq![sep]
                + strip_from(seg@, i + 2, in_lit, sep, delim)));
            i += 2;
        } else {
            out.push(ch);
            assert(before.push(ch) + strip_from(seg@, i + 1, in_lit, sep, delim) =~= before + (seq![ch]
                + strip_from(seg@, i + 1, in_lit, sep, delim)));
            i += 1;
        }
    }
    assert(out@ + Seq::<char>::empty() =~= out@);
    out
}

/// Segment `k` as a `Cow`: borrowed from `s` when nothing was stripped.
pub(crate) fn segment_cow<'a>(
    s: &'a str,
    c: &Vec<char>,
    a: usize,
    b: usize,
    sep: char,
    delim: Option<char>,
) -> (r: Cow<'a, str>)
    requires
        c@ == s@,
        a <= b <= c@.len(),
    ensures
        r@ == strip_segment(c@.subrange(a as int, b as int), sep, delim),
        (r is Borrowed) <==> strip_segment(c@.subrange(a as int, b as int), sep, delim)
            == c@.subrange(a as int, b as int),
{
    let seg = copy_chars(c, a, b);
    let stripped = strip_escapes(&seg, sep, delim);
    proof {
        lemma_strip_len(seg@, 0, false, sep, delim);
        assert(seg@.subrange(0, seg@.len() as int) =~= seg@);
    }
    if stripped.len() == b - a {
        Cow::Borrowed(s.substring_char(a, b))
    } else {
        Cow::Owned(string_from_chars(stripped.as_slice()))
    }
}

fn split_inner<'a>(s: &'a str, sep: char, literal_delim: Option<char>) -> (r: Vec<Cow<'a, str>>)
    ensures
        is_split_of(s@, sep, literal_delim, r@),
{
    let c = chars_of(s);
    let bounds = split_bounds(&c, sep, literal_delim);
    let ghost pts = split_points(c@, sep, literal_delim);
    proof {
        lemma_split_points_below(c@, sep, literal_delim, c@.len() as int);
    }
    let mut out: Vec<Cow<'a, str>> = Vec::new();
    let mut k: usize = 0;
    while k < bounds.len()
        invariant
            c@ == s@,
            pts == split_points(c@, sep, literal_delim),
            bounds@.len() == pts.len() + 1,
            forall|j: int|
                0 <= j < bounds@.len() ==> (#[trigger] bounds@[j]).0 == seg_start(pts, j)
                    && bounds@[j].1 == seg_end(pts, c@.len() as int, j),
            forall|j: int| 0 <= j < pts.len() ==> 0 <= #[trigger] pts[j] < c@.len(),
            forall|j: int, l: int| 0 <= j < l < pts.len() ==> pts[j] < pts[l],
            k <= bounds@.len(),
            out@.len() == k,
            forall|j: int|
                0 <= j < k ==> (#[trigger] out@[j])@ == split_segments(c@, sep, literal_delim)[j],
            forall|j: int|
                0 <= j < k ==> ((#[trigger] out@[j] is Borrowed) <==> split_segments(
                    c@,
                    sep,
                    literal_delim,
                )[j] == raw_segment(c@, sep, literal_delim, j)),
        decreases bounds@.len() - k,
    {
        let (a, b) = bounds[k];
        proof {
            if k > 0 {
                assert(pts[k - 1] < c@.len());
            }
            if k < pts.len() {
                assert(0 <= pts[k as int]);
                if k > 0 {
                    assert(pts[k - 1] < pts[k as int]);
                }
            }
        }
        let seg = segment_cow(s, &c, a, b, sep, literal_delim);
        out.push(seg);
        k += 1;
    }
    out
}

/// Split `s` on `sep`, treating `\<sep>` as a literal separator character whose
/// backslash is stripped from the segment text. `\\<sep>` splits.
pub fn split_respecting_escape(s: &str, sep: char) -> (r: Vec<Cow<'_, str>>)
    ensures
        is_split_of(s@, sep, None, r@),
{
    split_inner(s, sep, None)
}

/// Like [`split_respecting_escape`], and content inside balanced pairs of
/// `literal_delim` is never split and passes through verbatim.
pub fn split_respecting_escape_and_literals(s: &str, sep: char, literal_delim: char) -> (r: Vec<
    Cow<'_, str>,
>)
    ensures
        is_split_of(s@, sep, Some(literal_delim), r@),
{
    split_inner(s, sep, Some(literal_delim))
}

/// Like [`split_respecting_escape_and_literals`] (with an optional literal
/// delimiter), also returning the byte range of each raw segment within `s`.
pub fn split_respecting_escape_with_ranges<'a>(s: &'a str, sep: char, literal_delim: Option<char>) -> (r:
    Vec<(Cow<'a, str>, Range<usize>)>)
    ensures
        is_split_of(s@, sep, literal_delim, r@.map_values(|p: (Cow<'a, str>, Range<usize>)| p.0)),
        forall|k: int|
            0 <= k < r@.len() ==> (#[trigger] r@[k]).1.start == utf8_len(
                s@.take(seg_start(split_points(s@, sep, literal_delim), k)),
            ) && r@[k].1.end == utf8_len(
                s@.take(seg_end(split_points(s@, sep, literal_delim), s@.len() as int, k)),
            ),
{
    let c = chars_of(s);
    let offs = char_byte_offsets(s, &c);
    let bounds = split_bounds(&c, sep, literal_delim);
    let ghost pts = split_points(c@, sep, literal_delim);
    proof {
        lemma_split_points_below(c@, sep, literal_delim, c@.len() as int);
    }
    let mut out: Vec<(Cow<'a, str>, Range<usize>)> = Vec::new();
    let mut k: usize = 0;
    while k < bounds.len()
        invariant
            c@ == s@,
            offs@.len() == c@.len() + 1,
            forall|j: int| 0 <= j <= c@.len() ==> #[trigger] offs@[j] == utf8_len(c@.take(j)),
            pts == split_points(c@, sep, literal_delim),
            bounds@.len() == pts.len() + 1,
            forall|j: int|
                0 <= j < bounds@.len() ==> (#[trigger] bounds@[j]).0 == seg_start(pts, j)
                    && bounds@[j].1 == seg_end(pts, c@.len() as int, j),
            forall|j: int| 0 <= j < pts.len() ==> 0 <= #[trigger] pts[j] < c@.len(),
            forall|j: int, l: int| 0 <= j < l < pts.len() ==> pts[j] < pts[l],
            k <= bounds@.len(),
            out@.len() == k,
            forall|j: int|
                0 <= j < k ==> (#[trigger] out@[j]).0@ == split_segments(c@, sep, literal_delim)[j],
            forall|j: int|
                0 <= j < k ==> ((#[trigger] out@[j]).0 is Borrowed <==> split_segments(
                    c@,
                    sep,
                    literal_delim,
                )[j] == raw_segment(c@, sep, literal_delim, j)),
            forall|j: int|
                0 <= j < k ==> (#[trigger] out@[j]).1.start == utf8_len(c@.take(seg_start(pts, j)))
                    && out@[j].1.end == utf8_len(c@.take(seg_end(pts, c@.len() as int, j))),
        decreases bounds@.len() - k,
    {
        let (a, b) = bounds[k];
        proof {
            if k > 0 {
                assert(pts[k - 1] < c@.len());
            }
            if k < pts.len() {
                assert(0 <= pts[k as int]);
                if k > 0 {
                    assert(pts[k - 1] < pts[k as int]);
                }
            }
        }
        let seg = segment_cow(s, &c, a, b, sep, literal_delim);
        let range = Range { start: offs[a], end: offs[b] };
        out.push((seg, range));
        k += 1;
    }
    let ghost firsts = out@.map_values(|p: (Cow<'a, str>, Range<usize>)| p.0);
    assert forall|j: int| 0 <= j < firsts.len() implies (#[trigger] firsts[j])@ == split_segments(
        c@,
        sep,
        literal_delim,
    )[j] && (firsts[j] is Borrowed <==> split_segments(c@, sep, literal_delim)[j] == raw_segment(
        c@,
        sep,
        literal_delim,
        j,
    )) by {
        assert(firsts[j] == out@[j].0);
    }
    out
}

/// Byte offset of the first structural separator position, if any.
pub open spec fn first_structural(c: Seq<char>, sep: char, delim: Option<char>) -> Option<usize> {
    if split_points(c, sep, delim).len() > 0 {
        Some(utf8_len(c.take(split_points(c, sep, delim)[0])) as usize)
    } else {
        None
    }
}

fn find_inner(s: &str, needle: char, literal_delim: Option<char>) -> (r: Option<usize>)
    ensures
        r == first_structural(s@, needle, literal_delim),
{
    let c = chars_of(s);
    let offs = char_byte_offsets(s, &c);
    let bounds = split_bounds(&c, needle, literal_delim);
    proof {
        lemma_split_points_below(c@, needle, literal_delim, c@.len() as int);
    }
    if bounds.len() > 1 {
        let (_, b) = bounds[0];
        Some(offs[b])
    } else {
        None
    }
}

/// Byte offset of the first structural occurrence of `needle` in `s`: not
/// escaped by an odd run of backslashes.
pub fn find_respecting_escape(s: &str, needle: char) -> (r: Option<usize>)
    ensures
        r == first_structural(s@, needle, None),
{
    find_inner(s, needle, None)
}

/// Like [`find_respecting_escape`], also skipping balanced `literal_delim` regions.
pub fn find_respecting_escape_and_literals(s: &str, needle: char, literal_delim: char) -> (r: Option<
    usize,
>)
    ensures
        r == first_structural(s@, needle, Some(literal_delim)),
{
    find_inner(s, needle, Some(literal_delim))
}

/// Finding and splitting agree: there is no structural occurrence exactly
/// when the split yields a single segment, and a found occurrence sits at
/// the byte where the first segment ends.
pub proof fn lemma_find_agrees_with_split(c: Seq<char>, sep: char, delim: Option<char>)
    requires
        utf8_len(c) <= usize::MAX,
    ensures
        (first_structural(c, sep, delim) is None) <==> split_segments(c, sep, delim).len() == 1,
        first_structural(c, sep, delim) matches Some(b) ==> b == utf8_len(
            c.take(seg_end(split_points(c, sep, delim), c.len() as int, 0)),
        ),
{
    let pts = split_points(c, sep, delim);
    lemma_split_points_below(c, sep, delim, c.len() as int);
    if pts.len() > 0 {
        crate::text::lemma_utf8_len_take_mono(c, pts[0], c.len() as int);
        assert(c.take(c.len() as int) =~= c);
    }
}

/// The segments tile the text: the first starts at the beginning, the last
/// ends at the end, and between consecutive segments lies exactly one
/// separator character. (The byte ranges of
/// [`split_respecting_escape_with_ranges`] are the UTF-8 widths of these
/// character positions, so its first range starts at byte 0, its last ends at
/// the text's byte length, and the bytes between neighbours encode `sep`.)
pub proof fn lemma_split_ranges_tile(c: Seq<char>, sep: char, delim: Option<char>)
    ensures
        ({
            let pts = split_points(c, sep, delim);
            &&& seg_start(pts, 0) == 0
            &&& utf8_len(c.take(seg_start(pts, 0))) == 0
            &&& seg_end(pts, c.len() as int, pts.len() as int) == c.len()
            &&& utf8_len(c.take(seg_end(pts, c.len() as int, pts.len() as int))) == utf8_len(c)
            &&& forall|k: int| 0 <= k < pts.len() ==> seg_start(pts, k + 1) == #[trigger] seg_end(pts, c.len() as int, k) + 1
                && c.subrange(seg_end(pts, c.len() as int, k), seg_start(pts, k + 1)) == seq![sep]
        }),
{
    let pts = split_points(c, sep, delim);
    lemma_split_points_below(c, sep, delim, c.len() as int);
    assert(c.take(0) =~= Seq::<char>::empty());
    assert(vstd::utf8::encode_utf8(Seq::<char>::empty()) =~= Seq::<u8>::empty());
    assert(c.take(c.len() as int) =~= c);
    assert forall|k: int| 0 <= k < pts.len() implies seg_start(pts, k + 1) == #[trigger] seg_end(pts, c.len() as int, k) + 1
        && c.subrange(seg_end(pts, c.len() as int, k), seg_start(pts, k + 1)) == seq![sep] by {
        assert(is_split_point(c, pts[k], sep, delim));
        assert(c.subrange(pts[k], pts[k] + 1) =~= seq![sep]);
    }
}

} // verus!
