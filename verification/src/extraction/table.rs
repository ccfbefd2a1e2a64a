//! Table extraction: content lines become pipe rows (compact, or multi-line
//! when blank lines separate row groups), merge markers become column and
//! row spans, and trailing numbered lines become footnotes.
use vstd::prelude::*;
use std::borrow::Cow;
use std::ops::Range;
use crate::escape::split::{
    raw_segment, seg_end, seg_start, segment_cow, split_bounds, split_points, split_segments,
};
use crate::text::{
    byte_len, chars_of, char_is_whitespace, lead_ws, lemma_utf8_len_concat,
    lemma_utf8_len_subrange, lemma_ws_bounds, trail_ws, trim, trim_end, trim_end_spec, trim_spec,
    trim_start, trim_start_spec, utf8_len,
};

verus! {

/// Extracted data for a single table cell.
#[derive(Debug)]
pub struct TableCellData {
    pub text: String,
    /// Raw text preserving indentation (multi-line rows only).
    pub raw_text: Option<String>,
    pub byte_range: Range<usize>,
    pub colspan: usize,
    pub rowspan: usize,
    pub is_header: bool,
}

/// Extracted data for a single table row.
#[derive(Debug)]
pub struct TableRowData {
    pub cells: Vec<TableCellData>,
    pub byte_range: Range<usize>,
}

/// Extracted data for a footnote line.
#[derive(Debug)]
pub struct FootnoteLineData {
    pub marker: String,
    pub text: String,
    pub byte_range: Range<usize>,
}

/// Two optional strings hold the same text.
pub open spec fn same_opt_text(a: Option<String>, b: Option<String>) -> bool {
    match (a, b) {
        (Some(x), Some(y)) => x@ == y@,
        (None, None) => true,
        _ => false,
    }
}

/// Two cells hold the same data.
pub open spec fn same_cell(a: TableCellData, b: TableCellData) -> bool {
    &&& a.text@ == b.text@
    &&& same_opt_text(a.raw_text, b.raw_text)
    &&& a.byte_range == b.byte_range
    &&& a.colspan == b.colspan
    &&& a.rowspan == b.rowspan
    &&& a.is_header == b.is_header
}

/// Two rows hold the same data.
pub open spec fn same_row(a: TableRowData, b: TableRowData) -> bool {
    &&& a.byte_range == b.byte_range
    &&& a.cells@.len() == b.cells@.len()
    &&& forall|j: int| 0 <= j < a.cells@.len() ==> same_cell(#[trigger] a.cells@[j], b.cells@[j])
}

impl Clone for TableCellData {
    fn clone(&self) -> (c: Self)
        ensures
            same_cell(c, *self),
    {
        let raw_text = match &self.raw_text {
            Some(r) => Some(r.clone()),
            None => None,
        };
        TableCellData {
            text: self.text.clone(),
            raw_text,
            byte_range: Range { start: self.byte_range.start, end: self.byte_range.end },
            colspan: self.colspan,
            rowspan: self.rowspan,
            is_header: self.is_header,
        }
    }
}

impl Clone for TableRowData {
    fn clone(&self) -> (c: Self)
        ensures
            same_row(c, *self),
    {
        let mut cells: Vec<TableCellData> = Vec::new();
        let mut j: usize = 0;
        while j < self.cells.len()
            invariant
                j <= self.cells@.len(),
                cells@.len() == j,
                forall|k: int| 0 <= k < j ==> same_cell(#[trigger] cells@[k], self.cells@[k]),
            decreases self.cells@.len() - j,
        {
            cells.push(self.cells[j].clone());
            j += 1;
        }
        TableRowData { cells, byte_range: Range { start: self.byte_range.start, end: self.byte_range.end } }
    }
}

impl Clone for FootnoteLineData {
    fn clone(&self) -> (c: Self)
        ensures
            c.marker@ == self.marker@,
            c.text@ == self.text@,
            c.byte_range == self.byte_range,
    {
        FootnoteLineData {
            marker: self.marker.clone(),
            text: self.text.clone(),
            byte_range: Range { start: self.byte_range.start, end: self.byte_range.end },
        }
    }
}

/// A classified content line.
#[derive(Debug)]
pub enum LineKind<'a> {
    /// A pipe row: trimmed cell texts, cell texts trimmed at the end only,
    /// the source byte range of each trimmed cell, and the line's range.
    PipeRow {
        cells: Vec<Cow<'a, str>>,
        raw_cells: Vec<Cow<'a, str>>,
        cell_ranges: Vec<Range<usize>>,
        line_range: &'a Range<usize>,
    },
    /// A blank line (row-group separator in multi-line mode).
    Blank,
    /// Any other line (a footnote candidate), trimmed.
    Other { text: &'a str, line_range: &'a Range<usize> },
}

/// Characters that may make up a cosmetic separator line.
pub open spec fn is_separator_char(c: char) -> bool {
    c == '|' || c == '-' || c == ':' || c == '+' || c == ' ' || c == '='
}

/// A separator line holds only separator characters.
pub open spec fn is_separator_spec(s: Seq<char>) -> bool {
    forall|i: int| 0 <= i < s.len() ==> is_separator_char(#[trigger] s[i])
}

/// Whether a line is a cosmetic separator (`|---|---|`, `|:---:|`, `+---+`).
pub fn is_separator_line(line: &str) -> (r: bool)
    ensures
        r == is_separator_spec(line@),
{
    let c = chars_of(line);
    let mut i: usize = 0;
    while i < c.len()
        invariant
            c@ == line@,
            i <= c@.len(),
            forall|j: int| 0 <= j < i ==> is_separator_char(#[trigger] c@[j]),
        decreases c@.len() - i,
    {
        let ch = c[i];
        if !(ch == '|' || ch == '-' || ch == ':' || ch == '+' || ch == ' ' || ch == '=') {
            return false;
        }
        i += 1;
    }
    true
}

/// Both trimmed forms of a segment: fully trimmed, and trimmed at the end.
/// A borrowed segment yields two borrowed slices; an owned one yields owned
/// strings.
pub fn trim_cell_pair<'a>(cow: Cow<'a, str>) -> (r: (Cow<'a, str>, Cow<'a, str>))
    ensures
        r.0@ == trim_spec(cow@),
        r.1@ == trim_end_spec(cow@),
        (cow is Borrowed) ==> (r.0 is Borrowed && r.1 is Borrowed),
        (cow is Owned) ==> (r.0 is Owned && r.1 is Owned),
{
    match cow {
        Cow::Borrowed(s) => (Cow::Borrowed(trim(s)), Cow::Borrowed(trim_end(s))),
        Cow::Owned(s) => {
            let full_noop = byte_len(trim(s.as_str())) == byte_len(s.as_str());
            let end_noop = byte_len(trim_end(s.as_str())) == byte_len(s.as_str());
            proof {
                lemma_trim_width(s@);
            }
            if full_noop && end_noop {
                let c = s.clone();
                (Cow::Owned(s), Cow::Owned(c))
            } else if full_noop {
                let te = trim_end(s.as_str()).to_string();
                (Cow::Owned(s), Cow::Owned(te))
            } else if end_noop {
                let t = trim(s.as_str()).to_string();
                (Cow::Owned(t), Cow::Owned(s))
            } else {
                let t = trim(s.as_str()).to_string();
                let te = trim_end(s.as_str()).to_string();
                (Cow::Owned(t), Cow::Owned(te))
            }
        },
    }
}

/// A trim that keeps the byte width keeps the text.
#[verifier::spinoff_prover]
#[verifier::rlimit(30)]
proof fn lemma_trim_width(s: Seq<char>)
    ensures
        utf8_len(trim_spec(s)) == utf8_len(s) ==> trim_spec(s) == s,
        utf8_len(trim_end_spec(s)) == utf8_len(s) ==> trim_end_spec(s) == s,
        utf8_len(trim_start_spec(s)) <= utf8_len(s),
{
    lemma_ws_bounds(s);
    let a = trim_start_spec(s);
    lemma_ws_bounds(a);
    let l = lead_ws(s) as int;
    assert(s =~= s.take(l) + a);
    lemma_utf8_len_concat(s.take(l), a);
    let t = trim_spec(s);
    let ta = trail_ws(a) as int;
    assert(a =~= t + a.skip(a.len() - ta));
    lemma_utf8_len_concat(t, a.skip(a.len() - ta));
    let e = trim_end_spec(s);
    let ts = trail_ws(s) as int;
    assert(s =~= e + s.skip(s.len() - ts));
    lemma_utf8_len_concat(e, s.skip(s.len() - ts));
    crate::text::lemma_utf8_len_bounds(s.take(l));
    crate::text::lemma_utf8_len_bounds(a.skip(a.len() - ta));
    crate::text::lemma_utf8_len_bounds(s.skip(s.len() - ts));
    if utf8_len(t) == utf8_len(s) {
        assert(s.take(l).len() == 0);
        assert(a.skip(a.len() - ta).len() == 0);
        assert(t =~= s);
    }
    if utf8_len(e) == utf8_len(s) {
        assert(s.skip(s.len() - ts).len() == 0);
        assert(e =~= s);
    }
}

} // verus!

verus! {

/// The text of a `Cow` string as a slice.
pub fn cow_str<'b, 'a>(c: &'b Cow<'a, str>) -> (r: &'b str)
    ensures
        r@ == c@,
{
    match c {
        Cow::Borrowed(s) => *s,
        Cow::Owned(o) => o.as_str(),
    }
}

/// The pipe-split segments of a trimmed line (escapes resolved, backtick
/// regions kept whole).
pub open spec fn row_segments(tc: Seq<char>) -> Seq<Seq<char>> {
    split_segments(tc, '|', Some('`'))
}

/// Index of the first segment that is a cell: the leading segment is dropped
/// when it is blank (it lies before the opening pipe).
pub open spec fn first_cell(tc: Seq<char>) -> int {
    if trim_spec(row_segments(tc)[0]).len() == 0 {
        1
    } else {
        0
    }
}

/// Index after the last segment that is a cell: the trailing segment is
/// dropped when it is blank (it lies after the closing pipe).
pub open spec fn end_cell(tc: Seq<char>) -> int {
    let s = row_segments(tc);
    if trim_spec(s.last()).len() == 0 {
        s.len() - 1
    } else {
        s.len() as int
    }
}

/// Number of cells of a pipe row.
pub open spec fn cell_count(tc: Seq<char>) -> int {
    if end_cell(tc) > first_cell(tc) {
        end_cell(tc) - first_cell(tc)
    } else {
        0
    }
}

/// Byte offset of the trimmed line within the full line.
pub open spec fn trim_offset(t: Seq<char>) -> int {
    utf8_len(t) - utf8_len(trim_start_spec(t))
}

/// Source byte range of the trimmed text of segment `k` of line `t`, whose
/// first byte sits at `base`.
pub open spec fn cell_range_spec(t: Seq<char>, base: int, k: int) -> (int, int) {
    let tc = trim_spec(t);
    let pts = split_points(tc, '|', Some('`'));
    let raw = raw_segment(tc, '|', Some('`'), k);
    let off = base + trim_offset(t);
    (
        off + utf8_len(tc.take(seg_start(pts, k))) + (utf8_len(raw) - utf8_len(trim_start_spec(raw))),
        off + utf8_len(tc.take(seg_end(pts, tc.len() as int, k))) - (utf8_len(raw) - utf8_len(
            trim_end_spec(raw),
        )),
    )
}

/// A trimmed line is a pipe row: it starts with `|` and is not a separator.
pub open spec fn is_pipe_line(tc: Seq<char>) -> bool {
    tc.len() > 0 && tc[0] == '|' && !is_separator_spec(tc)
}

/// `k` is the classification of the line with text `t` and range `range`.
pub open spec fn classified(k: LineKind, t: Seq<char>, range: Range<usize>) -> bool {
    let tc = trim_spec(t);
    if tc.len() == 0 {
        k is Blank
    } else if is_pipe_line(tc) {
        k matches LineKind::PipeRow { cells, raw_cells, cell_ranges, line_range } && {
            let f = first_cell(tc);
            &&& *line_range == range
            &&& cells@.len() == cell_count(tc)
            &&& raw_cells@.len() == cell_count(tc)
            &&& cell_ranges@.len() == cell_count(tc)
            &&& forall|j: int|
                0 <= j < cell_count(tc) ==> (#[trigger] cells@[j])@ == trim_spec(row_segments(tc)[f + j])
                    && raw_cells@[j]@ == trim_end_spec(row_segments(tc)[f + j])
                    && cell_ranges@[j].start == cell_range_spec(t, range.start as int, f + j).0
                    && cell_ranges@[j].end == cell_range_spec(t, range.start as int, f + j).1
        }
    } else {
        k matches LineKind::Other { text, line_range } && text@ == tc && *line_range == range
    }
}

/// Classify one content line.
#[verifier::spinoff_prover]
#[verifier::rlimit(60)]
fn classify_line<'a>(text: &'a str, range: &'a Range<usize>) -> (k: LineKind<'a>)
    requires
        range.start + utf8_len(text@) <= usize::MAX,
    ensures
        classified(k, text@, *range),
{
    let trimmed = trim(text);
    let tc = chars_of(trimmed);
    if tc.len() == 0 {
        return LineKind::Blank;
    }
    if !(tc[0] == '|') || is_separator_line(trimmed) {
        return LineKind::Other { text: trimmed, line_range: range };
    }
    proof {
        lemma_trim_width(text@);
        lemma_trim_width(trim_start_spec(text@));
        lemma_ws_bounds(text@);
        lemma_ws_bounds(trim_start_spec(text@));
    }
    let ghost t = text@;
    let full = byte_len(text);
    let toff = full - byte_len(trim_start(text));
    let offs = crate::text::char_byte_offsets(trimmed, &tc);
    let bounds = split_bounds(&tc, '|', Some('`'));
    let ghost pts = split_points(tc@, '|', Some('`'));
    proof {
        crate::escape::split::lemma_split_points_below(tc@, '|', Some('`'), tc@.len() as int);
        assert(trimmed@ == trim_end_spec(trim_start_spec(t)));
        // the trimmed line sits inside the full line
        assert(trim_start_spec(t) =~= trimmed@ + trim_start_spec(t).skip(trimmed@.len() as int));
        lemma_utf8_len_concat(trimmed@, trim_start_spec(t).skip(trimmed@.len() as int));
    }
    let nseg = bounds.len();
    let (a0, b0) = bounds[0];
    let first_cow = segment_cow(trimmed, &tc, a0, b0, '|', Some('`'));
    let start: usize = if byte_len(trim(cow_str(&first_cow))) == 0 { 1 } else { 0 };
    let (al, bl) = bounds[nseg - 1];
    let last_cow = segment_cow(trimmed, &tc, al, bl, '|', Some('`'));
    let end: usize = if byte_len(trim(cow_str(&last_cow))) == 0 { nseg - 1 } else { nseg };
    proof {
        lemma_zero_width(trim_spec(first_cow@));
        lemma_zero_width(trim_spec(last_cow@));
        assert(first_cow@ == row_segments(tc@)[0]);
        assert(last_cow@ == row_segments(tc@).last());
    }
    let (cells, raw_cells, cell_ranges) = pipe_row_cells(trimmed, &tc, &offs, &bounds, start, end, range.start + toff);
    proof {
        let tcs = trim_spec(t);
        assert(tc@ == tcs);
        assert(toff == trim_offset(t));
        assert(is_pipe_line(tcs));
        assert(row_segments(tcs).len() == bounds@.len());
        assert(start as int == first_cell(tcs));
        assert(end as int == end_cell(tcs));
        assert forall|j: int| 0 <= j < cell_count(tcs) implies (#[trigger] cell_ranges@[j]).start
            == cell_range_spec(t, range.start as int, first_cell(tcs) + j).0 && cell_ranges@[j].end
            == cell_range_spec(t, range.start as int, first_cell(tcs) + j).1 by {
            assert(cells@[j]@ == trim_spec(row_segments(tcs)[first_cell(tcs) + j]));
        }
    }
    LineKind::PipeRow { cells, raw_cells, cell_ranges, line_range: range }
}

/// The cells of a pipe row: segments `start..end` of the trimmed line,
/// trimmed, end-trimmed, and located in the source when the trimmed line
/// starts at byte `base`.
#[verifier::spinoff_prover]
#[verifier::rlimit(30)]
fn pipe_row_cells<'a>(
    trimmed: &'a str,
    tc: &Vec<char>,
    offs: &Vec<usize>,
    bounds: &Vec<(usize, usize)>,
    start: usize,
    end: usize,
    base: usize,
) -> (r: (Vec<Cow<'a, str>>, Vec<Cow<'a, str>>, Vec<Range<usize>>))
    requires
        tc@ == trimmed@,
        base + utf8_len(trimmed@) <= usize::MAX,
        offs@.len() == tc@.len() + 1,
        forall|j: int| 0 <= j <= tc@.len() ==> #[trigger] offs@[j] == utf8_len(tc@.take(j)),
        bounds@.len() == split_points(tc@, '|', Some('`')).len() + 1,
        forall|j: int|
            0 <= j < bounds@.len() ==> (#[trigger] bounds@[j]).0 == seg_start(split_points(tc@, '|', Some('`')), j)
                && bounds@[j].1 == seg_end(split_points(tc@, '|', Some('`')), tc@.len() as int, j),
        start <= 1,
        end <= bounds@.len(),
    ensures
        ({
            let n = if end > start { end - start } else { 0 };
            let pts = split_points(tc@, '|', Some('`'));
            &&& r.0@.len() == n
            &&& r.1@.len() == n
            &&& r.2@.len() == n
            &&& forall|j: int|
                0 <= j < n ==> (#[trigger] r.0@[j])@ == trim_spec(row_segments(tc@)[start + j])
                    && r.1@[j]@ == trim_end_spec(row_segments(tc@)[start + j])
                    && r.2@[j].start == base + utf8_len(tc@.take(seg_start(pts, start + j))) + (utf8_len(
                    raw_segment(tc@, '|', Some('`'), start + j),
                ) - utf8_len(trim_start_spec(raw_segment(tc@, '|', Some('`'), start + j))))
                    && r.2@[j].end == base + utf8_len(tc@.take(seg_end(pts, tc@.len() as int, start + j))) - (
                utf8_len(raw_segment(tc@, '|', Some('`'), start + j)) - utf8_len(
                    trim_end_spec(raw_segment(tc@, '|', Some('`'), start + j)),
                ))
        }),
{
    let ghost pts = split_points(tc@, '|', Some('`'));
    proof {
        crate::escape::split::lemma_split_points_below(tc@, '|', Some('`'), tc@.len() as int);
    }
    let mut cells: Vec<Cow<'a, str>> = Vec::new();
    let mut raw_cells: Vec<Cow<'a, str>> = Vec::new();
    let mut cell_ranges: Vec<Range<usize>> = Vec::new();
    let mut k: usize = start;
    while k < end
        invariant
            tc@ == trimmed@,
            base + utf8_len(trimmed@) <= usize::MAX,
            pts == split_points(tc@, '|', Some('`')),
            offs@.len() == tc@.len() + 1,
            forall|j: int| 0 <= j <= tc@.len() ==> #[trigger] offs@[j] == utf8_len(tc@.take(j)),
            bounds@.len() == pts.len() + 1,
            forall|j: int|
                0 <= j < bounds@.len() ==> (#[trigger] bounds@[j]).0 == seg_start(pts, j)
                    && bounds@[j].1 == seg_end(pts, tc@.len() as int, j),
            forall|j: int| 0 <= j < pts.len() ==> 0 <= #[trigger] pts[j] < tc@.len(),
            forall|j: int, l: int| 0 <= j < l < pts.len() ==> pts[j] < pts[l],
            start <= 1,
            end <= bounds@.len(),
            start <= k,
            k <= end || k == start,
            cells@.len() == k - start,
            raw_cells@.len() == k - start,
            cell_ranges@.len() == k - start,
            forall|j: int|
                0 <= j < k - start ==> (#[trigger] cells@[j])@ == trim_spec(row_segments(tc@)[start + j])
                    && raw_cells@[j]@ == trim_end_spec(row_segments(tc@)[start + j])
                    && cell_ranges@[j].start == base + utf8_len(tc@.take(seg_start(pts, start + j))) + (utf8_len(
                    raw_segment(tc@, '|', Some('`'), start + j),
                ) - utf8_len(trim_start_spec(raw_segment(tc@, '|', Some('`'), start + j))))
                    && cell_ranges@[j].end == base + utf8_len(tc@.take(seg_end(pts, tc@.len() as int, start + j))) - (
                utf8_len(raw_segment(tc@, '|', Some('`'), start + j)) - utf8_len(
                    trim_end_spec(raw_segment(tc@, '|', Some('`'), start + j)),
                )),
        decreases end - k,
    {
        let (a, b) = bounds[k];
        proof {
            if k > 0 {
                assert(pts[k - 1] < tc@.len());
            }
            if k < pts.len() {
                assert(0 <= pts[k as int]);
                if k > 0 {
                    assert(pts[k - 1] < pts[k as int]);
                }
            }
        }
        let (cell, raw, cr) = pipe_cell(trimmed, tc, offs, a, b, base);
        cell_ranges.push(cr);
        cells.push(cell);
        raw_cells.push(raw);
        k += 1;
    }
    (cells, raw_cells, cell_ranges)
}

/// One cell of a pipe row: the segment of `trimmed` between characters `a`
/// and `b`, fully trimmed and end-trimmed, with the byte range of its
/// trimmed text when `trimmed` starts at byte `base`.
fn pipe_cell<'a>(trimmed: &'a str, tc: &Vec<char>, offs: &Vec<usize>, a: usize, b: usize, base: usize) -> (r: (
    Cow<'a, str>,
    Cow<'a, str>,
    Range<usize>,
))
    requires
        tc@ == trimmed@,
        a <= b <= tc@.len(),
        offs@.len() == tc@.len() + 1,
        forall|j: int| 0 <= j <= tc@.len() ==> #[trigger] offs@[j] == utf8_len(tc@.take(j)),
        base + utf8_len(trimmed@) <= usize::MAX,
    ensures
        ({
            let raw = tc@.subrange(a as int, b as int);
            &&& r.0@ == trim_spec(crate::escape::split::strip_segment(raw, '|', Some('`')))
            &&& r.1@ == trim_end_spec(crate::escape::split::strip_segment(raw, '|', Some('`')))
            &&& r.2.start == base + utf8_len(tc@.take(a as int)) + (utf8_len(raw) - utf8_len(trim_start_spec(raw)))
            &&& r.2.end == base + utf8_len(tc@.take(b as int)) - (utf8_len(raw) - utf8_len(trim_end_spec(raw)))
        }),
{
    let src_seg = trimmed.substring_char(a, b);
    proof {
        lemma_trim_width(src_seg@);
        lemma_trim_end_width(src_seg@);
        lemma_utf8_len_subrange(tc@, a as int, b as int);
        crate::text::lemma_utf8_len_take_mono(tc@, b as int, tc@.len() as int);
        assert(tc@.take(tc@.len() as int) =~= tc@);
    }
    let cow = segment_cow(trimmed, tc, a, b, '|', Some('`'));
    let seg_bytes = byte_len(src_seg);
    let lead = seg_bytes - byte_len(trim_start(src_seg));
    let trail = seg_bytes - byte_len(trim_end(src_seg));
    let cell_start = base + offs[a] + lead;
    let cell_end = base + offs[b] - trail;
    let (cell, raw) = trim_cell_pair(cow);
    (cell, raw, Range { start: cell_start, end: cell_end })
}

/// A sequence of zero UTF-8 width is empty.
proof fn lemma_zero_width(s: Seq<char>)
    ensures
        utf8_len(s) == 0 <==> s.len() == 0,
{
    crate::text::lemma_utf8_len_bounds(s);
}

/// Trimming the end never widens.
proof fn lemma_trim_end_width(s: Seq<char>)
    ensures
        utf8_len(trim_end_spec(s)) <= utf8_len(s),
{
    lemma_ws_bounds(s);
    let e = trim_end_spec(s);
    assert(s =~= e + s.skip(e.len() as int));
    lemma_utf8_len_concat(e, s.skip(e.len() as int));
}

/// Classify every content line as a pipe row, a blank line or another line.
/// Pipe rows honor the structural escapes: `\|` inside a cell is a literal
/// pipe (its backslash stripped), and pipes inside balanced backticks do not
/// split. Cell byte ranges point at the trimmed cell text in the source.
pub fn classify_lines<'a>(content_lines: &'a [(String, Range<usize>)]) -> (r: Vec<LineKind<'a>>)
    requires
        forall|i: int|
            0 <= i < content_lines@.len() ==> (#[trigger] content_lines@[i]).1.start + utf8_len(
                content_lines@[i].0@,
            ) <= usize::MAX,
    ensures
        r@.len() == content_lines@.len(),
        forall|i: int|
            0 <= i < r@.len() ==> classified(#[trigger] r@[i], content_lines@[i].0@, content_lines@[i].1),
{
    let mut out: Vec<LineKind<'a>> = Vec::new();
    let mut i: usize = 0;
    while i < content_lines.len()
        invariant
            i <= content_lines@.len(),
            out@.len() == i,
            forall|j: int|
                0 <= j < content_lines@.len() ==> (#[trigger] content_lines@[j]).1.start + utf8_len(
                    content_lines@[j].0@,
                ) <= usize::MAX,
            forall|j: int| 0 <= j < i ==> classified(#[trigger] out@[j], content_lines@[j].0@, content_lines@[j].1),
        decreases content_lines@.len() - i,
    {
        let pair: &'a (String, Range<usize>) = &content_lines[i];
        let kind = classify_line(pair.0.as_str(), &pair.1);
        out.push(kind);
        i += 1;
    }
    out
}

} // verus!

verus! {

/// Some blank line lies between two pipe rows.
pub open spec fn has_blank_between_pipes(lines: Seq<LineKind>) -> bool {
    exists|i: int, j: int, k: int|
        0 <= i < j < k < lines.len() && (#[trigger] lines[i]) is PipeRow && (#[trigger] lines[j]) is Blank
            && (#[trigger] lines[k]) is PipeRow
}

/// Multi-line mode: some blank line appears between two pipe rows.
pub fn detect_multiline(lines: &[LineKind]) -> (r: bool)
    ensures
        r == has_blank_between_pipes(lines@),
{
    let mut seen_pipe = false;
    let mut seen_blank_after_pipe = false;
    let mut n: usize = 0;
    while n < lines.len()
        invariant
            n <= lines@.len(),
            seen_pipe <==> exists|i: int| 0 <= i < n && (#[trigger] lines@[i]) is PipeRow,
            seen_blank_after_pipe <==> exists|i: int, j: int|
                0 <= i < j < n && (#[trigger] lines@[i]) is PipeRow && (#[trigger] lines@[j]) is Blank,
            !exists|i: int, j: int, k: int|
                0 <= i < j < k < n && (#[trigger] lines@[i]) is PipeRow && (#[trigger] lines@[j]) is Blank
                    && (#[trigger] lines@[k]) is PipeRow,
        decreases lines@.len() - n,
    {
        match &lines[n] {
            LineKind::PipeRow { .. } => {
                if seen_blank_after_pipe {
                    proof {
                        let (i, j) = choose|i: int, j: int|
                            0 <= i < j < n && (#[trigger] lines@[i]) is PipeRow && (#[trigger] lines@[j]) is Blank;
                        assert(lines@[n as int] is PipeRow);
                    }
                    return true;
                }
                seen_pipe = true;
            },
            LineKind::Blank => {
                if seen_pipe {
                    seen_blank_after_pipe = true;
                    proof {
                        let i = choose|i: int| 0 <= i < n && (#[trigger] lines@[i]) is PipeRow;
                        assert(lines@[n as int] is Blank);
                    }
                }
            },
            LineKind::Other { .. } => {},
        }
        n += 1;
    }
    false
}

/// Indices of the pipe rows among the first `n` lines, in order.
pub open spec fn pipe_indices(lines: Seq<LineKind>, n: int) -> Seq<int>
    decreases n,
{
    if n <= 0 {
        Seq::empty()
    } else if lines[n - 1] is PipeRow {
        pipe_indices(lines, n - 1).push(n - 1)
    } else {
        pipe_indices(lines, n - 1)
    }
}

/// `row` is the compact-mode row of pipe line `line`: one cell per cell
/// text and range, with no raw text, unit spans and no header mark.
pub open spec fn compact_row_of(row: TableRowData, line: LineKind) -> bool {
    line matches LineKind::PipeRow { cells, cell_ranges, line_range, .. } && {
        let n = if cells@.len() < cell_ranges@.len() { cells@.len() } else { cell_ranges@.len() };
        &&& row.byte_range == *line_range
        &&& row.cells@.len() == n
        &&& forall|j: int|
            0 <= j < n ==> (#[trigger] row.cells@[j]).text@ == cells@[j]@ && row.cells@[j].raw_text is None
                && row.cells@[j].byte_range == cell_ranges@[j] && row.cells@[j].colspan == 1
                && row.cells@[j].rowspan == 1 && !row.cells@[j].is_header
    }
}

/// The cells of a compact row.
fn compact_cells(cells: &Vec<Cow<'_, str>>, cell_ranges: &Vec<Range<usize>>) -> (r: Vec<TableCellData>)
    ensures
        ({
            let n = if cells@.len() < cell_ranges@.len() { cells@.len() } else { cell_ranges@.len() };
            &&& r@.len() == n
            &&& forall|j: int|
                0 <= j < n ==> (#[trigger] r@[j]).text@ == cells@[j]@ && r@[j].raw_text is None
                    && r@[j].byte_range == cell_ranges@[j] && r@[j].colspan == 1 && r@[j].rowspan == 1
                    && !r@[j].is_header
        }),
{
    let n = if cells.len() < cell_ranges.len() { cells.len() } else { cell_ranges.len() };
    let mut out: Vec<TableCellData> = Vec::new();
    let mut j: usize = 0;
    while j < n
        invariant
            n == (if cells@.len() < cell_ranges@.len() { cells@.len() } else { cell_ranges@.len() }),
            j <= n,
            out@.len() == j,
            forall|k: int|
                0 <= k < j ==> (#[trigger] out@[k]).text@ == cells@[k]@ && out@[k].raw_text is None
                    && out@[k].byte_range == cell_ranges@[k] && out@[k].colspan == 1 && out@[k].rowspan == 1
                    && !out@[k].is_header,
        decreases n - j,
    {
        let text = cow_str(&cells[j]).to_string();
        let cr = &cell_ranges[j];
        out.push(TableCellData {
            text,
            raw_text: None,
            byte_range: Range { start: cr.start, end: cr.end },
            colspan: 1,
            rowspan: 1,
            is_header: false,
        });
        j += 1;
    }
    out
}

/// Compact mode: each pipe line is an independent row.
pub fn parse_compact_rows(lines: &[LineKind]) -> (r: Vec<TableRowData>)
    ensures
        r@.len() == pipe_indices(lines@, lines@.len() as int).len(),
        forall|k: int|
            0 <= k < r@.len() ==> compact_row_of(#[trigger] r@[k], lines@[pipe_indices(lines@, lines@.len() as int)[k]]),
{
    let mut out: Vec<TableRowData> = Vec::new();
    let mut n: usize = 0;
    while n < lines.len()
        invariant
            n <= lines@.len(),
            out@.len() == pipe_indices(lines@, n as int).len(),
            forall|k: int|
                0 <= k < out@.len() ==> compact_row_of(#[trigger] out@[k], lines@[pipe_indices(lines@, n as int)[k]]),
        decreases lines@.len() - n,
    {
        if let LineKind::PipeRow { cells, cell_ranges, line_range, .. } = &lines[n] {
            let row = TableRowData {
                cells: compact_cells(cells, cell_ranges),
                byte_range: Range { start: line_range.start, end: line_range.end },
            };
            out.push(row);
            proof {
                let p = pipe_indices(lines@, n as int);
                assert(pipe_indices(lines@, n + 1) == p.push(n as int));
                assert forall|k: int| 0 <= k < out@.len() implies compact_row_of(
                    #[trigger] out@[k],
                    lines@[pipe_indices(lines@, n + 1)[k]],
                ) by {
                    if k < p.len() {
                        assert(pipe_indices(lines@, n + 1)[k] == p[k]);
                    }
                }
            }
        }
        n += 1;
    }
    out
}

/// Number of ASCII digits at the start of `s`.
pub open spec fn digit_run(s: Seq<char>) -> nat
    decreases s.len(),
{
    if s.len() > 0 && '0' <= s[0] && s[0] <= '9' {
        1 + digit_run(s.drop_first())
    } else {
        0
    }
}

/// The footnote read from a line: digits followed by `. ` or `) `, then the
/// note. Gives the marker (digits and separator) and the note text.
pub open spec fn footnote_spec(line: Seq<char>) -> Option<(Seq<char>, Seq<char>)> {
    let t = trim_spec(line);
    let d = digit_run(t) as int;
    if d == 0 || d == t.len() {
        None
    } else if d + 1 < t.len() && (t[d] == '.' || t[d] == ')') && t[d + 1] == ' ' {
        Some((t.take(d + 1), t.skip(d + 2)))
    } else {
        None
    }
}

/// Parse a line as a footnote item (`1. Some text`, `2) Other`).
pub fn parse_footnote_line(text: &str, range: &Range<usize>) -> (r: Option<FootnoteLineData>)
    ensures
        match footnote_spec(text@) {
            Some((m, t)) => r matches Some(f) && f.marker@ == m && f.text@ == t && f.byte_range == *range,
            None => r is None,
        },
{
    let t = trim(text);
    let c = chars_of(t);
    let mut d: usize = 0;
    assert(c@.skip(0) =~= c@);
    while d < c.len() && '0' <= c[d] && c[d] <= '9'
        invariant
            c@ == t@,
            d <= c@.len(),
            digit_run(c@) == d + digit_run(c@.skip(d as int)),
        decreases c@.len() - d,
    {
        assert(c@.skip(d as int).drop_first() =~= c@.skip(d + 1));
        d += 1;
    }
    assert(digit_run(c@.skip(d as int)) == 0);
    if d == 0 || d == c.len() {
        return None;
    }
    if d + 1 < c.len() && (c[d] == '.' || c[d] == ')') && c[d + 1] == ' ' {
        let marker = t.substring_char(0, d + 1).to_string();
        let body = t.substring_char(d + 2, c.len()).to_string();
        proof {
            assert(c@.subrange(0, d + 1) =~= c@.take(d + 1));
            assert(c@.subrange(d + 2, c@.len() as int) =~= c@.skip(d + 2));
        }
        Some(FootnoteLineData { marker, text: body, byte_range: Range { start: range.start, end: range.end } })
    } else {
        None
    }
}

/// Index of the last pipe row, if any.
pub open spec fn last_pipe(lines: Seq<LineKind>) -> Option<int> {
    let p = pipe_indices(lines, lines.len() as int);
    if p.len() == 0 {
        None
    } else {
        Some(p.last())
    }
}

/// Indices, from `from` up to `n`, of the `Other` lines that read as footnotes.
pub open spec fn footnote_indices(lines: Seq<LineKind>, from: int, n: int) -> Seq<int>
    decreases n - from,
{
    if n <= from {
        Seq::empty()
    } else if lines[n - 1] matches LineKind::Other { text, .. } && footnote_spec(text@) is Some {
        footnote_indices(lines, from, n - 1).push(n - 1)
    } else {
        footnote_indices(lines, from, n - 1)
    }
}

/// `f` is the footnote read from line `line`.
pub open spec fn footnote_of(f: FootnoteLineData, line: LineKind) -> bool {
    line matches LineKind::Other { text, line_range } && footnote_spec(text@) matches Some((m, t))
        && f.marker@ == m && f.text@ == t && f.byte_range == *line_range
}

/// The pipe-row indices are the pipe rows, in increasing order, below `n`.
pub proof fn lemma_pipe_indices(lines: Seq<LineKind>, n: int)
    requires
        0 <= n <= lines.len(),
    ensures
        forall|k: int| 0 <= k < pipe_indices(lines, n).len() ==> 0 <= #[trigger] pipe_indices(lines, n)[k] < n
            && lines[pipe_indices(lines, n)[k]] is PipeRow,
        forall|i: int| 0 <= i < n && (#[trigger] lines[i]) is PipeRow ==> pipe_indices(lines, n).len() > 0
            && i <= pipe_indices(lines, n).last(),
    decreases n,
{
    if n > 0 {
        lemma_pipe_indices(lines, n - 1);
    }
}

/// Footnotes: the `Other` lines after the last pipe row that read as
/// numbered items. None when there is no pipe row.
pub fn extract_footnote_lines(lines: &[LineKind]) -> (r: Vec<FootnoteLineData>)
    ensures
        match last_pipe(lines@) {
            None => r@.len() == 0,
            Some(p) => {
                let idx = footnote_indices(lines@, p + 1, lines@.len() as int);
                &&& r@.len() == idx.len()
                &&& forall|k: int| 0 <= k < r@.len() ==> footnote_of(#[trigger] r@[k], lines@[idx[k]])
            },
        },
{
    let mut last: Option<usize> = None;
    let mut n: usize = 0;
    while n < lines.len()
        invariant
            n <= lines@.len(),
            match last {
                None => pipe_indices(lines@, n as int).len() == 0,
                Some(p) => pipe_indices(lines@, n as int).len() > 0 && p == pipe_indices(lines@, n as int).last(),
            },
        decreases lines@.len() - n,
    {
        if let LineKind::PipeRow { .. } = &lines[n] {
            last = Some(n);
        }
        n += 1;
    }
    let p = match last {
        None => {
            return Vec::new();
        },
        Some(p) => p,
    };
    proof {
        lemma_pipe_indices(lines@, lines@.len() as int);
    }
    let mut out: Vec<FootnoteLineData> = Vec::new();
    let mut i: usize = p + 1;
    while i < lines.len()
        invariant
            p < lines@.len(),
            p + 1 <= i <= lines@.len(),
            out@.len() == footnote_indices(lines@, p + 1, i as int).len(),
            forall|k: int|
                0 <= k < out@.len() ==> footnote_of(#[trigger] out@[k], lines@[footnote_indices(lines@, p + 1, i as int)[k]]),
        decreases lines@.len() - i,
    {
        let ghost idx = footnote_indices(lines@, p + 1, i as int);
        if let LineKind::Other { text, line_range } = &lines[i] {
            if let Some(f) = parse_footnote_line(text, line_range) {
                out.push(f);
                proof {
                    assert(footnote_indices(lines@, p + 1, i + 1) == idx.push(i as int));
                    assert forall|k: int| 0 <= k < out@.len() implies footnote_of(
                        #[trigger] out@[k],
                        lines@[footnote_indices(lines@, p + 1, i + 1)[k]],
                    ) by {
                        if k < idx.len() {
                            assert(footnote_indices(lines@, p + 1, i + 1)[k] == idx[k]);
                        }
                    }
                }
            }
        }
        i += 1;
    }
    out
}

} // verus!

verus! {

/// `c` spanning one more column.
pub open spec fn widen(c: TableCellData) -> TableCellData {
    TableCellData { colspan: (c.colspan + 1) as usize, ..c }
}

/// `c` spanning one more row.
pub open spec fn deepen(c: TableCellData) -> TableCellData {
    TableCellData { rowspan: (c.rowspan + 1) as usize, ..c }
}

/// The colspan pass over the first `n` cells of a row: a `>>` cell that is
/// not the first kept cell is absorbed by the kept cell to its left, whose
/// column span grows by one.
pub open spec fn merge_cols(cs: Seq<TableCellData>, n: int) -> Seq<TableCellData>
    decreases n,
{
    if n <= 0 {
        Seq::empty()
    } else {
        let prev = merge_cols(cs, n - 1);
        if prev.len() > 0 && cs[n - 1].text@ == ">>"@ {
            prev.update(prev.len() - 1, widen(prev.last()))
        } else {
            prev.push(cs[n - 1])
        }
    }
}

/// The rowspan pass of one row against the row above, over the first `n`
/// cells: a `^^` cell is dropped, and the cell above at the same (current)
/// column, if any, spans one more row. Gives the updated row above and the
/// kept cells.
pub open spec fn absorb(above: Seq<TableCellData>, cs: Seq<TableCellData>, n: int) -> (Seq<TableCellData>, Seq<TableCellData>)
    decreases n,
{
    if n <= 0 {
        (above, Seq::empty())
    } else {
        let (p, kept) = absorb(above, cs, n - 1);
        if cs[n - 1].text@ == "^^"@ {
            (if kept.len() < p.len() { p.update(kept.len() as int, deepen(p[kept.len() as int])) } else { p }, kept)
        } else {
            (p, kept.push(cs[n - 1]))
        }
    }
}

/// A row as cells and byte range.
pub open spec fn row_view(r: TableRowData) -> (Seq<TableCellData>, Range<usize>) {
    (r.cells@, r.byte_range)
}

/// The rowspan pass over the first `n` rows (cells already column-merged).
/// The first row is kept as is; each later row absorbs into the one above.
pub open spec fn merge_rows(rows: Seq<(Seq<TableCellData>, Range<usize>)>, n: int) -> Seq<(Seq<TableCellData>, Range<usize>)>
    decreases n,
{
    if n <= 0 {
        Seq::empty()
    } else if n == 1 {
        seq![rows[0]]
    } else {
        let prev = merge_rows(rows, n - 1);
        let cur = rows[n - 1];
        let (p, kept) = absorb(prev.last().0, cur.0, cur.0.len() as int);
        prev.update(prev.len() - 1, (p, prev.last().1)).push((kept, cur.1))
    }
}

/// Both merge passes over whole rows.
pub open spec fn merges_spec(rows: Seq<TableRowData>) -> Seq<(Seq<TableCellData>, Range<usize>)> {
    let cols = Seq::new(rows.len(), |i: int| (merge_cols(rows[i].cells@, rows[i].cells@.len() as int), rows[i].byte_range));
    merge_rows(cols, rows.len() as int)
}

/// Spans leave room for every merge: a column span can grow by the width
/// of its row, a row span by the width of the next row.
pub open spec fn spans_fit(rows: Seq<TableRowData>) -> bool {
    forall|i: int, j: int|
        0 <= i < rows.len() && 0 <= j < rows[i].cells@.len() ==> (#[trigger] rows[i].cells@[j]).colspan
            + rows[i].cells@.len() <= usize::MAX && (i + 1 < rows.len() ==> rows[i].cells@[j].rowspan
            + rows[i + 1].cells@.len() <= usize::MAX)
}

/// The colspan pass over one row.
fn merge_colspans(cells: Vec<TableCellData>, next_width: usize) -> (r: Vec<TableCellData>)
    requires
        forall|j: int|
            0 <= j < cells@.len() ==> (#[trigger] cells@[j]).colspan + cells@.len() <= usize::MAX
                && cells@[j].rowspan + next_width <= usize::MAX,
    ensures
        r@ == merge_cols(cells@, cells@.len() as int),
        r@.len() <= cells@.len(),
        forall|j: int| 0 <= j < r@.len() ==> (#[trigger] r@[j]).rowspan + next_width <= usize::MAX,
{
    let ghost cs = cells@;
    let ghost bound: int = usize::MAX - cs.len();
    let mut out: Vec<TableCellData> = Vec::new();
    for c in it: cells
        invariant
            it.seq() == cs,
            out@ == merge_cols(cs, it.index() as int),
            out@.len() <= it.index(),
            forall|j: int| 0 <= j < cs.len() ==> (#[trigger] cs[j]).colspan <= bound && cs[j].rowspan + next_width <= usize::MAX,
            bound + cs.len() == usize::MAX,
            forall|j: int| 0 <= j < out@.len() ==> (#[trigger] out@[j]).colspan <= bound + it.index() && out@[j].rowspan + next_width <= usize::MAX,
    {
        let ghost k = it.index();
        if out.len() > 0 && crate::text::str_eq(c.text.as_str(), ">>") {
            let last = out.pop().unwrap();
            out.push(TableCellData { colspan: last.colspan + 1, ..last });
        } else {
            out.push(c);
        }
        proof {
            assert(cs[k] == c);
        }
    }
    out
}

/// The rowspan pass of one row against the row above.
fn absorb_row(above: &mut Vec<TableCellData>, cells: Vec<TableCellData>) -> (kept: Vec<TableCellData>)
    requires
        forall|j: int| 0 <= j < old(above)@.len() ==> (#[trigger] old(above)@[j]).rowspan + cells@.len() <= usize::MAX,
    ensures
        (final(above)@, kept@) == absorb(old(above)@, cells@, cells@.len() as int),
{
    let ghost cs = cells@;
    let ghost a0 = above@;
    let mut kept: Vec<TableCellData> = Vec::new();
    for c in it: cells
        invariant
            it.seq() == cs,
            (above@, kept@) == absorb(a0, cs, it.index() as int),
            above@.len() == a0.len(),
            forall|j: int| 0 <= j < a0.len() ==> (#[trigger] a0[j]).rowspan + cs.len() <= usize::MAX,
            forall|j: int| 0 <= j < above@.len() ==> (#[trigger] above@[j]).rowspan <= a0[j].rowspan + it.index(),
    {
        let ghost k = it.index();
        proof {
            assert(cs[k] == c);
        }
        if crate::text::str_eq(c.text.as_str(), "^^") {
            let col = kept.len();
            if col < above.len() {
                let cell = above.remove(col);
                above.insert(col, TableCellData { rowspan: cell.rowspan + 1, ..cell });
            }
        } else {
            kept.push(c);
        }
    }
    kept
}

/// Cells kept by the rowspan pass come from the row itself, so bounds on
/// the row's spans carry over; the row above keeps its width.
proof fn lemma_absorb_kept(above: Seq<TableCellData>, cs: Seq<TableCellData>, n: int, w: int)
    requires
        0 <= n <= cs.len(),
        forall|j: int| 0 <= j < n ==> (#[trigger] cs[j]).rowspan + w <= usize::MAX,
    ensures
        absorb(above, cs, n).0.len() == above.len(),
        absorb(above, cs, n).1.len() <= n,
        forall|k: int| 0 <= k < absorb(above, cs, n).1.len() ==> (#[trigger] absorb(above, cs, n).1[k]).rowspan + w <= usize::MAX,
    decreases n,
{
    if n > 0 {
        lemma_absorb_kept(above, cs, n - 1, w);
    }
}

/// The colspan pass keeps at most the row's cells.
proof fn lemma_merge_cols_len(cs: Seq<TableCellData>, n: int)
    requires
        0 <= n,
    ensures
        merge_cols(cs, n).len() <= n,
    decreases n,
{
    if n > 0 {
        lemma_merge_cols_len(cs, n - 1);
    }
}

/// The rowspan pass keeps one entry per row.
proof fn lemma_merge_rows_len(rows: Seq<(Seq<TableCellData>, Range<usize>)>, n: int)
    requires
        0 <= n,
    ensures
        merge_rows(rows, n).len() == n,
    decreases n,
{
    if n > 1 {
        lemma_merge_rows_len(rows, n - 1);
    }
}

/// The width of each row.
fn row_widths(rows: &Vec<TableRowData>) -> (w: Vec<usize>)
    ensures
        w@.len() == rows@.len(),
        forall|i: int| 0 <= i < w@.len() ==> #[trigger] w@[i] == rows@[i].cells@.len(),
{
    let mut w: Vec<usize> = Vec::new();
    let mut i: usize = 0;
    while i < rows.len()
        invariant
            i <= rows@.len(),
            w@.len() == i,
            forall|k: int| 0 <= k < i ==> #[trigger] w@[k] == rows@[k].cells@.len(),
        decreases rows@.len() - i,
    {
        w.push(rows[i].cells.len());
        i += 1;
    }
    w
}

/// Resolve merge markers: `>>` is absorbed by the cell to its left (whose
/// column span grows), then `^^` by the cell above in the same column (whose
/// row span grows). Absorbed cells are removed.
pub fn resolve_merges(rows: Vec<TableRowData>) -> (r: Vec<TableRowData>)
    requires
        spans_fit(rows@),
    ensures
        r@.len() == rows@.len(),
        merges_spec(rows@).len() == rows@.len(),
        forall|i: int| 0 <= i < r@.len() ==> row_view(#[trigger] r@[i]) == merges_spec(rows@)[i],
{
    let ghost rs = rows@;
    proof {
        let cols = Seq::new(rs.len(), |i: int| (merge_cols(rs[i].cells@, rs[i].cells@.len() as int), rs[i].byte_range));
        lemma_merge_rows_len(cols, rs.len() as int);
    }
    let ghost cols_spec = Seq::new(rs.len(), |i: int| (merge_cols(rs[i].cells@, rs[i].cells@.len() as int), rs[i].byte_range));
    let widths = row_widths(&rows);
    let n = rows.len();
    let mut cols: Vec<TableRowData> = Vec::new();
    for row in it: rows
        invariant
            it.seq() == rs,
            n == rs.len(),
            spans_fit(rs),
            widths@.len() == rs.len(),
            forall|i: int| 0 <= i < widths@.len() ==> #[trigger] widths@[i] == rs[i].cells@.len(),
            cols_spec == Seq::new(rs.len(), |i: int| (merge_cols(rs[i].cells@, rs[i].cells@.len() as int), rs[i].byte_range)),
            cols@.len() == it.index(),
            forall|i: int| 0 <= i < cols@.len() ==> row_view(#[trigger] cols@[i]) == cols_spec[i],
            forall|i: int, j: int|
                0 <= i < cols@.len() && i + 1 < rs.len() && 0 <= j < cols@[i].cells@.len() ==> (#[trigger] cols@[i].cells@[j]).rowspan
                    + rs[i + 1].cells@.len() <= usize::MAX,
    {
        let ghost i = it.index();
        proof {
            assert(rs[i] == row);
        }
        let next_width: usize = if it_index_plus_one_lt(cols.len(), n) { widths[cols.len() + 1] } else { 0 };
        proof {
            assert forall|j: int| 0 <= j < row.cells@.len() implies (#[trigger] row.cells@[j]).colspan + row.cells@.len() <= usize::MAX
                && row.cells@[j].rowspan + next_width <= usize::MAX by {
                assert(rs[i].cells@[j] == row.cells@[j]);
            }
        }
        let merged = merge_colspans(row.cells, next_width);
        cols.push(TableRowData { cells: merged, byte_range: row.byte_range });
    }
    let ghost cs = cols@;
    proof {
        assert forall|i: int| 0 <= i < rs.len() implies cols_spec[i].0.len() <= #[trigger] rs[i].cells@.len() by {
            lemma_merge_cols_len(rs[i].cells@, rs[i].cells@.len() as int);
        }
    }
    let mut out: Vec<TableRowData> = Vec::new();
    for row in it: cols
        invariant
            it.seq() == cs,
            cs.len() == rs.len(),
            forall|i: int| 0 <= i < cs.len() ==> row_view(#[trigger] cs[i]) == cols_spec[i],
            forall|i: int, j: int|
                0 <= i < cs.len() && i + 1 < rs.len() && 0 <= j < cs[i].cells@.len() ==> (#[trigger] cs[i].cells@[j]).rowspan
                    + rs[i + 1].cells@.len() <= usize::MAX,
            forall|i: int| 0 <= i < rs.len() ==> cols_spec[i].0.len() <= #[trigger] rs[i].cells@.len(),
            out@.len() == it.index(),
            forall|i: int| 0 <= i < out@.len() ==> row_view(#[trigger] out@[i]) == merge_rows(cols_spec, it.index() as int)[i],
            it.index() > 0 ==> forall|j: int| 0 <= j < out@.last().cells@.len() ==> (#[trigger] out@.last().cells@[j]).rowspan
                + (if it.index() < rs.len() { rs[it.index() as int].cells@.len() } else { 0 }) <= usize::MAX,
    {
        let ghost i = it.index();
        proof {
            assert(cs[i] == row);
        }
        let ghost w: int = if i + 1 < rs.len() { rs[i + 1].cells@.len() as int } else { 0 };
        proof {
            lemma_merge_rows_len(cols_spec, i);
            lemma_merge_rows_len(cols_spec, i + 1);
            assert(row_view(row) == cols_spec[i]);
            assert forall|j: int| 0 <= j < row.cells@.len() implies (#[trigger] row.cells@[j]).rowspan + w <= usize::MAX by {
                assert(cs[i].cells@[j] == row.cells@[j]);
            }
        }
        if out.len() == 0 {
            out.push(row);
            proof {
                assert(merge_rows(cols_spec, 1) == seq![cols_spec[0]]);
            }
        } else {
            let ghost before = out@;
            let mut prev = out.pop().unwrap();
            proof {
                assert(prev == before.last());
                assert(row_view(prev) == merge_rows(cols_spec, i).last());
                assert(row.cells@.len() <= rs[i].cells@.len());
            }
            let ghost above = prev.cells@;
            let kept = absorb_row(&mut prev.cells, row.cells);
            proof {
                lemma_absorb_kept(above, row.cells@, row.cells@.len() as int, w);
            }
            out.push(prev);
            out.push(TableRowData { cells: kept, byte_range: row.byte_range });
            proof {
                let m = merge_rows(cols_spec, i + 1);
                assert forall|k: int| 0 <= k < out@.len() implies row_view(#[trigger] out@[k]) == m[k] by {
                    if k < i - 1 {
                        assert(out@[k] == before[k]);
                    }
                }
            }
        }
    }
    out
}

/// `i + 1 < n`, for an index below `n`.
fn it_index_plus_one_lt(i: usize, n: usize) -> (b: bool)
    requires
        i < n,
    ensures
        b == (i + 1 < n),
{
    i + 1 < n
}

/// `c` marked as a header cell.
pub open spec fn as_header(c: TableCellData) -> TableCellData {
    TableCellData { is_header: true, ..c }
}

/// `h` is row `r` with every cell marked as a header cell.
pub open spec fn header_row_of(h: TableRowData, r: TableRowData) -> bool {
    &&& h.byte_range == r.byte_range
    &&& h.cells@.len() == r.cells@.len()
    &&& forall|j: int| 0 <= j < h.cells@.len() ==> #[trigger] h.cells@[j] == as_header(r.cells@[j])
}

/// Mark every cell of a row as a header cell.
fn mark_header(row: TableRowData) -> (h: TableRowData)
    ensures
        header_row_of(h, row),
{
    let ghost cs = row.cells@;
    let mut cells: Vec<TableCellData> = Vec::new();
    for c in it: row.cells
        invariant
            it.seq() == cs,
            cells@.len() == it.index(),
            forall|j: int| 0 <= j < cells@.len() ==> #[trigger] cells@[j] == as_header(cs[j]),
    {
        proof {
            assert(cs[it.index() as int] == c);
        }
        cells.push(TableCellData { is_header: true, ..c });
    }
    TableRowData { cells, byte_range: row.byte_range }
}

/// Split rows into header rows (the first `header_count`, or all when fewer,
/// with their cells marked as header cells) and body rows. `rows` is left
/// empty.
pub fn split_header_body(rows: &mut Vec<TableRowData>, header_count: usize) -> (r: (Vec<TableRowData>, Vec<TableRowData>))
    ensures
        ({
            let k = if header_count < old(rows)@.len() { header_count as int } else { old(rows)@.len() as int };
            &&& r.0@.len() == k
            &&& forall|i: int| 0 <= i < k ==> header_row_of(#[trigger] r.0@[i], old(rows)@[i])
            &&& r.1@ == old(rows)@.skip(k)
            &&& final(rows)@.len() == 0
        }),
{
    let split_at = if header_count < rows.len() { header_count } else { rows.len() };
    let body_rows = rows.split_off(split_at);
    let mut taken: Vec<TableRowData> = Vec::new();
    std::mem::swap(&mut taken, rows);
    let ghost hs = taken@;
    let mut header_rows: Vec<TableRowData> = Vec::new();
    for row in it: taken
        invariant
            it.seq() == hs,
            header_rows@.len() == it.index(),
            forall|i: int| 0 <= i < header_rows@.len() ==> header_row_of(#[trigger] header_rows@[i], hs[i]),
    {
        proof {
            assert(hs[it.index() as int] == row);
        }
        header_rows.push(mark_header(row));
    }
    (header_rows, body_rows)
}

} // verus!

verus! {

/// The texts of a sequence of `Cow` strings.
pub open spec fn cow_views(v: Seq<Cow<'_, str>>) -> Seq<Seq<char>> {
    Seq::new(v.len(), |i: int| v[i]@)
}

/// The texts of a sequence of strings.
pub open spec fn string_views(v: Seq<String>) -> Seq<Seq<char>> {
    Seq::new(v.len(), |i: int| v[i]@)
}

/// Trimmed cell texts of a pipe row (empty for other lines).
pub open spec fn cells_view(k: LineKind) -> Seq<Seq<char>> {
    match k {
        LineKind::PipeRow { cells, .. } => cow_views(cells@),
        _ => Seq::empty(),
    }
}

/// End-trimmed cell texts of a pipe row (empty for other lines).
pub open spec fn raws_view(k: LineKind) -> Seq<Seq<char>> {
    match k {
        LineKind::PipeRow { raw_cells, .. } => cow_views(raw_cells@),
        _ => Seq::empty(),
    }
}

/// A pipe row whose cell texts, raw texts and ranges line up.
pub open spec fn wf_pipe(k: LineKind) -> bool {
    k matches LineKind::PipeRow { cells, raw_cells, cell_ranges, .. } && cells@.len() == raw_cells@.len()
        && cells@.len() == cell_ranges@.len()
}

/// Column `col` of a continuation line merged into the accumulated texts
/// `t` and raw texts `r`. A non-empty cell is appended to the text (after a
/// line feed when the text is non-empty); an empty cell under a non-empty
/// text adds a line feed to the raw text. Then a non-blank raw cell is
/// appended to the raw text after a line feed, and a blank one adds a line
/// feed to a non-empty raw text.
pub open spec fn merge_cell(acc: (Seq<Seq<char>>, Seq<Seq<char>>), cc: Seq<Seq<char>>, cr: Seq<Seq<char>>, col: int) -> (Seq<Seq<char>>, Seq<Seq<char>>) {
    let t = acc.0;
    let r = acc.1;
    let cell = cc[col];
    let t1 = if col < t.len() && cell.len() > 0 {
        t.update(col, if t[col].len() > 0 { t[col].push('\n') + cell } else { t[col] + cell })
    } else {
        t
    };
    let r1 = if col < t.len() && cell.len() == 0 && t[col].len() > 0 {
        r.update(col, r[col].push('\n'))
    } else {
        r
    };
    if col < r1.len() {
        let raw = if col < cr.len() { cr[col] } else { Seq::<char>::empty() };
        if trim_spec(raw).len() > 0 {
            (t1, r1.update(col, r1[col].push('\n') + raw))
        } else if r1[col].len() > 0 {
            (t1, r1.update(col, r1[col].push('\n')))
        } else {
            (t1, r1)
        }
    } else {
        (t1, r1)
    }
}

/// The first `n` columns of a continuation line merged in.
pub open spec fn merge_cells_upto(acc: (Seq<Seq<char>>, Seq<Seq<char>>), cc: Seq<Seq<char>>, cr: Seq<Seq<char>>, n: int) -> (Seq<Seq<char>>, Seq<Seq<char>>)
    decreases n,
{
    if n <= 0 {
        acc
    } else {
        merge_cell(merge_cells_upto(acc, cc, cr, n - 1), cc, cr, n - 1)
    }
}

/// Texts and raw texts after merging the first `k` lines of a group: the
/// first line gives the base, every later pipe row is merged in column by
/// column, and other lines are skipped.
pub open spec fn merged_upto(group: Seq<LineKind>, k: int) -> (Seq<Seq<char>>, Seq<Seq<char>>)
    decreases k,
{
    if k <= 1 {
        (cells_view(group[0]), raws_view(group[0]))
    } else {
        let acc = merged_upto(group, k - 1);
        let l = group[k - 1];
        if l is PipeRow {
            merge_cells_upto(acc, cells_view(l), raws_view(l), cells_view(l).len() as int)
        } else {
            acc
        }
    }
}

/// End of the row's byte range after the first `k` lines: the end of the
/// last pipe row among them.
pub open spec fn row_end_upto(group: Seq<LineKind>, k: int) -> usize
    decreases k,
{
    if k <= 1 {
        match group[0] {
            LineKind::PipeRow { line_range, .. } => line_range.end,
            _ => 0,
        }
    } else {
        match group[k - 1] {
            LineKind::PipeRow { line_range, .. } => line_range.end,
            _ => row_end_upto(group, k - 1),
        }
    }
}

/// Every merged raw text of a group can be dedented.
pub open spec fn group_dedent_ok(group: Seq<LineKind>) -> bool {
    forall|j: int|
        0 <= j < merged_upto(group, group.len() as int).1.len() ==> crate::extraction::dedent::dedent_ok(
            #[trigger] merged_upto(group, group.len() as int).1[j],
        )
}

/// `row` is the row merged from `group` (whose first line is a pipe row).
pub open spec fn merged_row_of(row: TableRowData, group: Seq<LineKind>) -> bool {
    group[0] matches LineKind::PipeRow { cell_ranges: fcr, line_range: fr, .. } && {
        let m = merged_upto(group, group.len() as int);
        let n = if m.0.len() < m.1.len() { m.0.len() } else { m.1.len() };
        let rr = Range { start: fr.start, end: row_end_upto(group, group.len() as int) };
        &&& row.byte_range == rr
        &&& row.cells@.len() == n
        &&& forall|j: int|
            0 <= j < n ==> (#[trigger] row.cells@[j]).text@ == m.0[j] && (if group.len() > 1 {
                row.cells@[j].raw_text matches Some(x) && x@ == crate::extraction::dedent::dedent_spec(m.1[j])
            } else {
                row.cells@[j].raw_text is None
            }) && row.cells@[j].byte_range == (if j < fcr@.len() { fcr@[j] } else { rr })
                && row.cells@[j].colspan == 1 && row.cells@[j].rowspan == 1 && !row.cells@[j].is_header
    }
}

/// Append `extra` to entry `col` of `v`.
fn push_at(v: &mut Vec<String>, col: usize, extra: &str)
    requires
        col < old(v)@.len(),
    ensures
        final(v)@.len() == old(v)@.len(),
        string_views(final(v)@) == string_views(old(v)@).update(col as int, string_views(old(v)@)[col as int] + extra@),
{
    let mut s = v[col].clone();
    s.append(extra);
    v.set(col, s);
    proof {
        assert(string_views(final(v)@) =~= string_views(old(v)@).update(col as int, string_views(old(v)@)[col as int] + extra@));
    }
}

/// Owned copies of a row's texts.
fn owned_texts(v: &Vec<Cow<'_, str>>) -> (r: Vec<String>)
    ensures
        string_views(r@) == cow_views(v@),
{
    let mut r: Vec<String> = Vec::new();
    let mut i: usize = 0;
    while i < v.len()
        invariant
            i <= v@.len(),
            r@.len() == i,
            forall|k: int| 0 <= k < i ==> (#[trigger] r@[k])@ == v@[k]@,
        decreases v@.len() - i,
    {
        r.push(cow_str(&v[i]).to_string());
        i += 1;
    }
    assert(string_views(r@) =~= cow_views(v@));
    r
}

/// Merge one column of a continuation line into the texts and raw texts.
fn merge_column(
    texts: &mut Vec<String>,
    raws: &mut Vec<String>,
    cc: &Vec<Cow<'_, str>>,
    cr: &Vec<Cow<'_, str>>,
    col: usize,
)
    requires
        col < cc@.len(),
        old(texts)@.len() == old(raws)@.len(),
    ensures
        (string_views(final(texts)@), string_views(final(raws)@)) == merge_cell(
            (string_views(old(texts)@), string_views(old(raws)@)),
            cow_views(cc@),
            cow_views(cr@),
            col as int,
        ),
        final(texts)@.len() == old(texts)@.len(),
        final(raws)@.len() == old(raws)@.len(),
{
    let ghost t0 = string_views(texts@);
    let ghost r0 = string_views(raws@);
    if col < texts.len() {
        let cell = cow_str(&cc[col]);
        if !cell.is_empty() {
            if !texts[col].as_str().is_empty() {
                push_at(texts, col, "\n");
                proof {
                    reveal_strlit("\n");
                }
            }
            push_at(texts, col, cell);
            proof {
                assert(string_views(texts@)[col as int] =~= (if t0[col as int].len() > 0 { t0[col as int].push('\n') + cell@ } else { t0[col as int] + cell@ }));
                assert(string_views(texts@) =~= t0.update(col as int, string_views(texts@)[col as int]));
            }
        } else if !texts[col].as_str().is_empty() {
            push_at(raws, col, "\n");
            proof {
                reveal_strlit("\n");
                assert(r0[col as int] + "\n"@ =~= r0[col as int].push('\n'));
                assert(string_views(raws@) =~= r0.update(col as int, r0[col as int].push('\n')));
            }
        }
    }
    let ghost t1 = string_views(texts@);
    let ghost r1 = string_views(raws@);
    if col < raws.len() {
        let raw: &str = if col < cr.len() { cow_str(&cr[col]) } else { "" };
        proof {
            reveal_strlit("");
            reveal_strlit("\n");
        }
        if !trim(raw).is_empty() {
            push_at(raws, col, "\n");
            push_at(raws, col, raw);
            proof {
                assert(r1[col as int] + "\n"@ =~= r1[col as int].push('\n'));
                assert(string_views(raws@) =~= r1.update(col as int, r1[col as int].push('\n') + raw@));
            }
        } else if !raws[col].as_str().is_empty() {
            push_at(raws, col, "\n");
            proof {
                assert(r1[col as int] + "\n"@ =~= r1[col as int].push('\n'));
                assert(string_views(raws@) =~= r1.update(col as int, r1[col as int].push('\n')));
            }
        }
    }
}

/// The lines a group refers to.
pub open spec fn group_lines<'a>(g: Seq<&LineKind<'a>>) -> Seq<LineKind<'a>> {
    Seq::new(g.len(), |i: int| *g[i])
}

/// Merge a group of pipe lines into a single row. The first line gives the
/// cells; every continuation pipe line is merged in column by column (see
/// [`merge_cell`]). Raw texts are dedented; they are kept only when the
/// group has more than one line. The row spans from the first line to the
/// last pipe line.
pub fn merge_group(group: &[&LineKind]) -> (r: Option<TableRowData>)
    requires
        group@.len() > 0 && group@[0] is PipeRow ==> wf_pipe(*group@[0]) && group_dedent_ok(group_lines(group@)),
    ensures
        (group@.len() == 0 || !(group@[0] is PipeRow)) ==> r is None,
        group@.len() > 0 && group@[0] is PipeRow ==> (r matches Some(row) && merged_row_of(row, group_lines(group@))),
{
    if group.len() == 0 {
        return None;
    }
    let ghost g = group_lines(group@);
    match group[0] {
        LineKind::PipeRow { cells, raw_cells, cell_ranges, line_range } => {
            let mut texts = owned_texts(cells);
            let mut raws = owned_texts(raw_cells);
            let row_start = line_range.start;
            let mut row_end = line_range.end;
            proof {
                assert(g[0] == *group@[0]);
                assert(wf_pipe(g[0]));
                assert(string_views(texts@).len() == texts@.len());
                assert(string_views(raws@).len() == raws@.len());
                assert(cow_views(cells@).len() == cells@.len());
                assert(cow_views(raw_cells@).len() == raw_cells@.len());
            }
            let mut li: usize = 1;
            while li < group.len()
                invariant
                    g == group_lines(group@),
                    1 <= li <= group@.len(),
                    texts@.len() == raws@.len(),
                    (string_views(texts@), string_views(raws@)) == merged_upto(g, li as int),
                    row_end == row_end_upto(g, li as int),
                decreases group@.len() - li,
            {
                proof {
                    assert(g[li as int] == *group@[li as int]);
                }
                if let LineKind::PipeRow { cells: cc, raw_cells: cr, line_range: lr, .. } = group[li] {
                    row_end = lr.end;
                    let ghost acc = merged_upto(g, li as int);
                    let mut col: usize = 0;
                    while col < cc.len()
                        invariant
                            col <= cc@.len(),
                            texts@.len() == raws@.len(),
                            (string_views(texts@), string_views(raws@)) == merge_cells_upto(acc, cow_views(cc@), cow_views(cr@), col as int),
                        decreases cc@.len() - col,
                    {
                        merge_column(&mut texts, &mut raws, cc, cr, col);
                        col += 1;
                    }
                    proof {
                        assert(cells_view(g[li as int]) == cow_views(cc@));
                        assert(raws_view(g[li as int]) == cow_views(cr@));
                    }
                }
                li += 1;
            }
            let ghost m = merged_upto(g, g.len() as int);
            let rr = Range { start: row_start, end: row_end };
            let n = texts.len();
            let mut out: Vec<TableCellData> = Vec::new();
            let mut i: usize = 0;
            while i < n
                invariant
                    n == texts@.len(),
                    texts@.len() == raws@.len(),
                    m == merged_upto(g, g.len() as int),
                    g.len() == group@.len(),
                    (string_views(texts@), string_views(raws@)) == m,
                    group_dedent_ok(g),
                    rr == (Range { start: row_start, end: row_end }),
                    i <= n,
                    out@.len() == i,
                    forall|j: int|
                        0 <= j < i ==> (#[trigger] out@[j]).text@ == m.0[j] && (if g.len() > 1 {
                            out@[j].raw_text matches Some(x) && x@ == crate::extraction::dedent::dedent_spec(m.1[j])
                        } else {
                            out@[j].raw_text is None
                        }) && out@[j].byte_range == (if j < cell_ranges@.len() { cell_ranges@[j] } else { rr })
                            && out@[j].colspan == 1 && out@[j].rowspan == 1 && !out@[j].is_header,
                decreases n - i,
            {
                let text = texts[i].clone();
                let mut raw = raws[i].clone();
                proof {
                    assert(m.1[i as int] == raws@[i as int]@);
                }
                crate::extraction::dedent::dedent_cell_text(&mut raw);
                let raw_text = if group.len() > 1 { Some(raw) } else { None };
                let byte_range = if i < cell_ranges.len() {
                    Range { start: cell_ranges[i].start, end: cell_ranges[i].end }
                } else {
                    Range { start: rr.start, end: rr.end }
                };
                out.push(TableCellData { text, raw_text, byte_range, colspan: 1, rowspan: 1, is_header: false });
                i += 1;
            }
            Some(TableRowData { cells: out, byte_range: rr })
        },
        _ => None,
    }
}

/// Row grouping of multi-line mode over the first `n` lines: the finished
/// groups and the group in progress (indices of pipe rows). A blank line
/// closes a non-empty group; other lines are skipped.
pub open spec fn ml_state(lines: Seq<LineKind>, n: int) -> (Seq<Seq<int>>, Seq<int>)
    decreases n,
{
    if n <= 0 {
        (Seq::empty(), Seq::empty())
    } else {
        let (d, c) = ml_state(lines, n - 1);
        match lines[n - 1] {
            LineKind::Blank => if c.len() > 0 {
                (d.push(c), Seq::empty())
            } else {
                (d, c)
            },
            LineKind::PipeRow { .. } => (d, c.push(n - 1)),
            LineKind::Other { .. } => (d, c),
        }
    }
}

/// The row groups of multi-line mode: blank-separated runs of pipe rows.
pub open spec fn ml_groups(lines: Seq<LineKind>) -> Seq<Seq<int>> {
    let (d, c) = ml_state(lines, lines.len() as int);
    if c.len() > 0 {
        d.push(c)
    } else {
        d
    }
}

/// The lines at the given indices.
pub open spec fn group_at<'a>(lines: Seq<LineKind<'a>>, g: Seq<int>) -> Seq<LineKind<'a>> {
    Seq::new(g.len(), |i: int| lines[g[i]])
}

/// Multi-line parsing can be done: pipe rows are well formed and every
/// group's merged raw texts can be dedented.
pub open spec fn multiline_ok(lines: Seq<LineKind>) -> bool {
    &&& forall|i: int| 0 <= i < lines.len() && (#[trigger] lines[i]) is PipeRow ==> wf_pipe(lines[i])
    &&& forall|k: int| 0 <= k < ml_groups(lines).len() ==> group_dedent_ok(#[trigger] group_at(lines, ml_groups(lines)[k]))
}

/// The finished groups only grow.
proof fn lemma_ml_mono(lines: Seq<LineKind>, n: int, m: int)
    requires
        0 <= n <= m <= lines.len(),
    ensures
        ml_state(lines, n).0.len() <= ml_state(lines, m).0.len(),
        ml_state(lines, m).0.take(ml_state(lines, n).0.len() as int) == ml_state(lines, n).0,
    decreases m - n,
{
    if n < m {
        lemma_ml_mono(lines, n, m - 1);
        let d = ml_state(lines, n).0;
        let dm1 = ml_state(lines, m - 1).0;
        let dm = ml_state(lines, m).0;
        assert(dm.take(dm1.len() as int) =~= dm1);
        assert(dm.take(d.len() as int) =~= dm1.take(d.len() as int));
    } else {
        assert(ml_state(lines, m).0.take(ml_state(lines, m).0.len() as int) =~= ml_state(lines, m).0);
    }
}

/// The finished groups of every prefix start the final grouping.
proof fn lemma_ml_prefix(lines: Seq<LineKind>, n: int)
    requires
        0 <= n <= lines.len(),
    ensures
        ml_groups(lines).len() >= ml_state(lines, n).0.len(),
        ml_groups(lines).take(ml_state(lines, n).0.len() as int) == ml_state(lines, n).0,
{
    lemma_ml_mono(lines, n, lines.len() as int);
    let d = ml_state(lines, lines.len() as int).0;
    let dn = ml_state(lines, n).0;
    assert(ml_groups(lines).take(dn.len() as int) =~= d.take(dn.len() as int));
}

/// Every finished or current group holds pipe-row indices below `n`, and
/// finished groups are non-empty.
proof fn lemma_ml_state_groups(lines: Seq<LineKind>, n: int)
    requires
        0 <= n <= lines.len(),
    ensures
        forall|k: int| 0 <= k < ml_state(lines, n).0.len() ==> (#[trigger] ml_state(lines, n).0[k]).len() > 0
            && forall|j: int| 0 <= j < ml_state(lines, n).0[k].len() ==> 0 <= #[trigger] ml_state(lines, n).0[k][j] < n
                && lines[ml_state(lines, n).0[k][j]] is PipeRow,
        forall|j: int| 0 <= j < ml_state(lines, n).1.len() ==> 0 <= #[trigger] ml_state(lines, n).1[j] < n
            && lines[ml_state(lines, n).1[j]] is PipeRow,
    decreases n,
{
    if n > 0 {
        lemma_ml_state_groups(lines, n - 1);
    }
}

/// The groups of multi-line mode are non-empty runs of pipe-row indices.
pub proof fn lemma_ml_groups(lines: Seq<LineKind>)
    ensures
        forall|k: int| 0 <= k < ml_groups(lines).len() ==> (#[trigger] ml_groups(lines)[k]).len() > 0
            && forall|j: int| 0 <= j < ml_groups(lines)[k].len() ==> 0 <= #[trigger] ml_groups(lines)[k][j] < lines.len()
                && lines[ml_groups(lines)[k][j]] is PipeRow,
{
    lemma_ml_state_groups(lines, lines.len() as int);
}

/// Indices in the group in progress are pipe rows below `n`.
proof fn lemma_ml_current(lines: Seq<LineKind>, n: int)
    requires
        0 <= n <= lines.len(),
    ensures
        forall|i: int| 0 <= i < ml_state(lines, n).1.len() ==> 0 <= #[trigger] ml_state(lines, n).1[i] < n
            && lines[ml_state(lines, n).1[i]] is PipeRow,
    decreases n,
{
    if n > 0 {
        lemma_ml_current(lines, n - 1);
    }
}

/// Multi-line mode: blank lines delimit row groups, and the pipe lines of
/// each group merge into one row.
pub fn parse_multiline_rows(lines: &[LineKind]) -> (r: Vec<TableRowData>)
    requires
        multiline_ok(lines@),
    ensures
        r@.len() == ml_groups(lines@).len(),
        forall|k: int| 0 <= k < r@.len() ==> merged_row_of(#[trigger] r@[k], group_at(lines@, ml_groups(lines@)[k])),
{
    let mut rows: Vec<TableRowData> = Vec::new();
    let mut current: Vec<&LineKind> = Vec::new();
    let mut n: usize = 0;
    while n < lines.len()
        invariant
            n <= lines@.len(),
            multiline_ok(lines@),
            rows@.len() == ml_state(lines@, n as int).0.len(),
            forall|k: int| 0 <= k < rows@.len() ==> merged_row_of(#[trigger] rows@[k], group_at(lines@, ml_state(lines@, n as int).0[k])),
            group_lines(current@) == group_at(lines@, ml_state(lines@, n as int).1),
        decreases lines@.len() - n,
    {
        let ghost st = ml_state(lines@, n as int);
        proof {
            lemma_ml_current(lines@, n as int);
            assert(group_lines(current@).len() == current@.len());
            assert(group_at(lines@, st.1).len() == st.1.len());
            assert(st.1.len() == current@.len());
        }
        let ghost before = current@;
        match &lines[n] {
            LineKind::Blank => {
                if current.len() > 0 {
                    proof {
                        lemma_ml_prefix(lines@, n + 1);
                        let k = st.0.len() as int;
                        assert(lines@[n as int] is Blank);
                        assert(ml_state(lines@, n + 1).0 == st.0.push(st.1));
                        assert(ml_groups(lines@).take(k + 1)[k] == ml_groups(lines@)[k]);
                        assert(ml_groups(lines@)[k] == st.1);
                        assert(group_dedent_ok(group_at(lines@, ml_groups(lines@)[k])));
                        assert(group_lines(current@)[0] == lines@[st.1[0]]);
                    }
                    let row = merge_group(current.as_slice());
                    match row {
                        Some(row) => {
                            rows.push(row);
                        },
                        None => {},
                    }
                    current.clear();
                    proof {
                        assert(group_lines(current@) =~= group_at(lines@, Seq::<int>::empty()));
                    }
                }
            },
            LineKind::PipeRow { .. } => {
                current.push(&lines[n]);
                proof {
                    let gl = group_lines(current@);
                    let ga = group_at(lines@, st.1.push(n as int));
                    assert forall|i: int| 0 <= i < gl.len() implies gl[i] == ga[i] by {
                        if i < before.len() {
                            assert(gl[i] == group_lines(before)[i]);
                            assert(group_lines(before)[i] == group_at(lines@, st.1)[i]);
                        }
                    }
                    assert(gl =~= ga);
                }
            },
            LineKind::Other { .. } => {},
        }
        n += 1;
    }
    let ghost st = ml_state(lines@, lines@.len() as int);
    if current.len() > 0 {
        proof {
            lemma_ml_current(lines@, lines@.len() as int);
            assert(group_lines(current@).len() == current@.len());
            assert(group_at(lines@, st.1).len() == st.1.len());
            assert(st.1.len() == current@.len());
            let k = st.0.len() as int;
            assert(ml_groups(lines@)[k] == st.1);
            assert(group_dedent_ok(group_at(lines@, ml_groups(lines@)[k])));
            assert(group_lines(current@)[0] == lines@[st.1[0]]);
        }
        let row = merge_group(current.as_slice());
        match row {
            Some(row) => {
                rows.push(row);
            },
            None => {},
        }
    }
    rows
}

/// `kinds` is the classification of every content line.
pub open spec fn classifies(kinds: Seq<LineKind>, content: Seq<(Seq<char>, Range<usize>)>) -> bool {
    &&& kinds.len() == content.len()
    &&& forall|i: int| 0 <= i < kinds.len() ==> classified(#[trigger] kinds[i], content[i].0, content[i].1)
}

/// The texts and ranges of content lines.
pub open spec fn content_view(content: Seq<(String, Range<usize>)>) -> Seq<(Seq<char>, Range<usize>)> {
    Seq::new(content.len(), |i: int| (content[i].0@, content[i].1))
}

/// Every content line's byte range leaves room for the line's bytes.
pub open spec fn ranges_fit(content: Seq<(Seq<char>, Range<usize>)>) -> bool {
    forall|i: int| 0 <= i < content.len() ==> (#[trigger] content[i]).1.start + utf8_len(content[i].0) <= usize::MAX
}

/// Pipe rows can be parsed: in multi-line mode every merged raw cell text
/// can be dedented.
pub open spec fn pipe_rows_ok(content: Seq<(Seq<char>, Range<usize>)>) -> bool {
    forall|kinds: Seq<LineKind>|
        #![trigger multiline_ok(kinds)]
        classifies(kinds, content) && has_blank_between_pipes(kinds) ==> multiline_ok(kinds)
}

/// Parse content lines into raw table rows: compact rows, or merged row
/// groups when a blank line separates pipe rows.
pub fn parse_pipe_rows(content_lines: &[(String, Range<usize>)]) -> (r: Vec<TableRowData>)
    requires
        ranges_fit(content_view(content_lines@)),
        pipe_rows_ok(content_view(content_lines@)),
    ensures
        exists|kinds: Seq<LineKind>| classifies(kinds, content_view(content_lines@)) && (if has_blank_between_pipes(kinds) {
            &&& r@.len() == ml_groups(kinds).len()
            &&& forall|k: int| 0 <= k < r@.len() ==> merged_row_of(#[trigger] r@[k], group_at(kinds, ml_groups(kinds)[k]))
        } else {
            &&& r@.len() == pipe_indices(kinds, kinds.len() as int).len()
            &&& forall|k: int| 0 <= k < r@.len() ==> compact_row_of(#[trigger] r@[k], kinds[pipe_indices(kinds, kinds.len() as int)[k]])
        }),
{
    proof {
        assert forall|i: int| 0 <= i < content_lines@.len() implies (#[trigger] content_lines@[i]).1.start + utf8_len(
            content_lines@[i].0@,
        ) <= usize::MAX by {
            assert(content_view(content_lines@)[i] == (content_lines@[i].0@, content_lines@[i].1));
        }
    }
    let classified_lines = classify_lines(content_lines);
    proof {
        assert(classifies(classified_lines@, content_view(content_lines@)));
    }
    let is_multiline = detect_multiline(classified_lines.as_slice());
    if is_multiline {
        proof {
            assert(multiline_ok(classified_lines@));
        }
        parse_multiline_rows(classified_lines.as_slice())
    } else {
        parse_compact_rows(classified_lines.as_slice())
    }
}

} // verus!
