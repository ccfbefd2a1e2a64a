//! Verbatim block extraction: mode detection (inflow or fullwidth), splitting
//! into subject/content groups, and stripping of the indentation wall from
//! every content line.
use vstd::prelude::*;
use std::ops::Range;
use crate::extraction::utilities::{byte_slice, char_index_of, extract_text, valid_slice};
use crate::text::{chars_in_bytes, char_is_whitespace, is_boundary, trim_spec, utf8_len};
use crate::token::{LineToken, LineTokenView, LineType, Token, TokenView};

verus! {

/// Column (zero-based) at which fullwidth verbatim content starts.
pub const FULLWIDTH_INDENT_COLUMN: usize = 1;

/// Columns of one indentation step (the inflow wall is one step past the subject).
pub const INFLOW_INDENT_STEP_COLUMNS: usize = 4;

/// How a verbatim block's content is placed.
#[derive(Debug, Clone, Copy, PartialEq, Eq, Structural)]
pub enum VerbatimBlockMode {
    /// Indented one step past the subject line.
    Inflow,
    /// Starting at the fixed fullwidth column.
    Fullwidth,
}

/// Subject and content lines of one verbatim group.
#[derive(Debug)]
pub struct VerbatimGroupData {
    pub subject_text: String,
    pub subject_byte_range: Range<usize>,
    pub content_lines: Vec<(String, Range<usize>)>,
}

/// The groups of a verbatim block and its mode.
#[derive(Debug)]
pub struct VerbatimBlockData {
    pub groups: Vec<VerbatimGroupData>,
    pub mode: VerbatimBlockMode,
}

/// Whitespace token models: spaces, indentation steps and line breaks.
pub open spec fn tv_ws(t: TokenView) -> bool {
    t is Whitespace || t is Indentation || t is BlankLine
}

/// Number of (token, span) pairs of a line.
pub open spec fn npairs(l: LineTokenView) -> int {
    if l.tokens.len() <= l.spans.len() { l.tokens.len() as int } else { l.spans.len() as int }
}

/// Index of the first non-whitespace pair of a line, from `k` on.
pub open spec fn first_nonws_from(l: LineTokenView, k: int) -> Option<int>
    decreases npairs(l) - k,
{
    if k < 0 || k >= npairs(l) {
        None
    } else if !tv_ws(l.tokens[k]) {
        Some(k)
    } else {
        first_nonws_from(l, k + 1)
    }
}

/// Index of the first non-whitespace pair of a line.
pub open spec fn first_nonws(l: LineTokenView) -> Option<int> {
    first_nonws_from(l, 0)
}

/// Smallest start among `r[0..n]` (`n > 0`).
pub open spec fn spans_min_start(r: Seq<Range<usize>>, n: int) -> usize
    decreases n,
{
    if n <= 1 {
        r[0].start
    } else {
        let m = spans_min_start(r, n - 1);
        if r[n - 1].start < m { r[n - 1].start } else { m }
    }
}

/// Largest end among `r[0..n]` (`n > 0`).
pub open spec fn spans_max_end(r: Seq<Range<usize>>, n: int) -> usize
    decreases n,
{
    if n <= 1 {
        r[0].end
    } else {
        let m = spans_max_end(r, n - 1);
        if r[n - 1].end > m { r[n - 1].end } else { m }
    }
}

/// Bounding box of `r[0..n]`; `0..0` when `n` is 0.
pub open spec fn spans_box(r: Seq<Range<usize>>, n: int) -> Range<usize> {
    if n <= 0 {
        Range { start: 0, end: 0 }
    } else {
        Range { start: spans_min_start(r, n), end: spans_max_end(r, n) }
    }
}

/// Index just after the last line feed in `s[0..q]`, or 0.
pub open spec fn line_start_at(s: Seq<char>, q: int) -> int
    decreases q,
{
    if q <= 0 {
        0
    } else if s[q - 1] == '\n' {
        q
    } else {
        line_start_at(s, q - 1)
    }
}

/// Columns taken by a character: a carriage return none, a tab four, any
/// other character one.
pub open spec fn col_width(c: char) -> nat {
    if c == '\r' {
        0
    } else if char_is_whitespace(c) && c == '\t' {
        4
    } else {
        1
    }
}

/// Columns taken by `s[a..b]`.
pub open spec fn columns(s: Seq<char>, a: int, b: int) -> nat
    decreases b - a,
{
    if b <= a {
        0
    } else {
        columns(s, a, b - 1) + col_width(s[b - 1])
    }
}

/// Visual column of byte offset `off` within its line.
pub open spec fn visual_column(s: Seq<char>, off: int) -> int {
    let q = chars_in_bytes(s, off);
    columns(s, line_start_at(s, q), q) as int
}

/// Visual column of the first non-whitespace token of a line, if any.
pub open spec fn first_visual_column(l: LineTokenView, s: Seq<char>) -> Option<int> {
    match first_nonws(l) {
        Some(k) => Some(visual_column(s, l.spans[k].start as int)),
        None => None,
    }
}

/// The column of the first non-whitespace token can be computed.
pub open spec fn fvc_ok(l: LineTokenView, s: Seq<char>) -> bool {
    first_nonws(l) matches Some(k) ==> is_boundary(s, l.spans[k].start as int)
}

/// A line all of whose tokens are whitespace.
pub open spec fn effectively_blank(l: LineTokenView) -> bool {
    forall|k: int| 0 <= k < l.tokens.len() ==> tv_ws(#[trigger] l.tokens[k])
}

/// The mode read from the lines from `i` on: the first non-blank line with a
/// first token column decides (fullwidth when it sits at the fullwidth column).
pub open spec fn mode_from(lines: Seq<LineTokenView>, s: Seq<char>, i: int) -> VerbatimBlockMode
    decreases lines.len() - i,
{
    if i < 0 || i >= lines.len() {
        VerbatimBlockMode::Inflow
    } else if effectively_blank(lines[i]) {
        mode_from(lines, s, i + 1)
    } else {
        match first_visual_column(lines[i], s) {
            Some(c) => if c == FULLWIDTH_INDENT_COLUMN as int {
                VerbatimBlockMode::Fullwidth
            } else {
                VerbatimBlockMode::Inflow
            },
            None => mode_from(lines, s, i + 1),
        }
    }
}

/// Mode detection can compute every column it inspects.
pub open spec fn mode_ok(lines: Seq<LineTokenView>, s: Seq<char>, i: int) -> bool
    decreases lines.len() - i,
{
    if i < 0 || i >= lines.len() {
        true
    } else if effectively_blank(lines[i]) {
        mode_ok(lines, s, i + 1)
    } else {
        fvc_ok(lines[i], s) && (first_nonws(lines[i]) is None ==> mode_ok(lines, s, i + 1))
    }
}

/// A subject line at the given column starts a new group.
pub open spec fn new_group_subject(l: LineTokenView, base: int, s: Seq<char>) -> bool {
    (l.line_type == LineType::SubjectLine || l.line_type == LineType::SubjectOrListItemLine)
        && first_visual_column(l, s) == Some(base)
}

/// A subject-typed line.
pub open spec fn subject_typed(l: LineTokenView) -> bool {
    l.line_type == LineType::SubjectLine || l.line_type == LineType::SubjectOrListItemLine
}

/// Groups of the content lines `[0, n)`: the group subjects (as content
/// indices, the first subject being -1) in order.
pub open spec fn group_starts(lines: Seq<LineTokenView>, base: int, s: Seq<char>, n: int) -> Seq<int>
    decreases n,
{
    if n <= 0 {
        seq![-1int]
    } else if new_group_subject(lines[n - 1], base, s) {
        group_starts(lines, base, s, n - 1).push(n - 1)
    } else {
        group_starts(lines, base, s, n - 1)
    }
}

/// End of the run of spans among the first `n` pairs whose tokens are not
/// colons or line breaks, as a sequence of spans.
pub open spec fn subject_spans(l: LineTokenView, n: int) -> Seq<Range<usize>>
    decreases n,
{
    if n <= 0 {
        Seq::empty()
    } else if l.tokens[n - 1] is Colon || l.tokens[n - 1] is BlankLine {
        subject_spans(l, n - 1)
    } else {
        subject_spans(l, n - 1).push(l.spans[n - 1])
    }
}

/// Byte range of a subject line's text: the box of its non-colon,
/// non-line-break tokens.
pub open spec fn subject_range(l: LineTokenView) -> Range<usize> {
    let r = subject_spans(l, npairs(l));
    spans_box(r, r.len() as int)
}

/// The subject text can be extracted.
pub open spec fn subject_ok(l: LineTokenView, s: Seq<char>) -> bool {
    valid_slice(s, subject_range(l).start as int, subject_range(l).end as int)
}

/// End (char index) after dropping trailing line feeds and carriage returns
/// from `s[a..e]`.
pub open spec fn trim_nl_end(s: Seq<char>, a: int, e: int) -> int
    decreases e - a,
{
    if e > a && (s[e - 1] == '\n' || s[e - 1] == '\r') {
        trim_nl_end(s, a, e - 1)
    } else {
        e
    }
}

/// Columns of a whitespace character when advancing to the wall.
pub open spec fn ws_width(c: char) -> nat {
    if c == '\t' { 4 } else { 1 }
}

/// Char index reached when advancing from `k` (column `col`) over whitespace
/// toward the wall, stopping at `e`.
pub open spec fn wall_stop(s: Seq<char>, k: int, e: int, col: int, wall: int) -> int
    decreases e - k,
{
    if k < e && col < wall && char_is_whitespace(s[k]) {
        wall_stop(s, k + 1, e, col + ws_width(s[k]), wall)
    } else {
        k
    }
}

/// The content text of a line and its byte range, with the wall stripped.
pub open spec fn content_line_spec(l: LineTokenView, s: Seq<char>, wall: int) -> (Seq<char>, Range<usize>) {
    let n = npairs(l);
    if n <= 0 {
        (Seq::empty(), Range { start: 0, end: 0 })
    } else {
        let b = spans_box(l.spans, n);
        let qs = chars_in_bytes(s, b.start as int);
        let qe = chars_in_bytes(s, b.end as int);
        let te = trim_nl_end(s, qs, qe);
        let teb = utf8_len(s.take(te));
        if teb <= b.start {
            (Seq::empty(), Range { start: b.start, end: b.start })
        } else {
            let so = wall_stop(s, line_start_at(s, qs), te, 0, wall);
            let sob = utf8_len(s.take(so));
            if sob >= teb {
                (Seq::empty(), Range { start: teb as usize, end: teb as usize })
            } else {
                (s.subrange(so, te), Range { start: sob as usize, end: teb as usize })
            }
        }
    }
}

/// The content line's range is made of character boundaries.
pub open spec fn content_ok(l: LineTokenView, s: Seq<char>) -> bool {
    npairs(l) > 0 ==> is_boundary(s, spans_box(l.spans, npairs(l)).start as int) && is_boundary(
        s,
        spans_box(l.spans, npairs(l)).end as int,
    )
}

} // verus!

verus! {

/// The source is small enough for every column count to fit.
pub open spec fn source_fits(s: Seq<char>) -> bool {
    4 * s.len() + 8 <= usize::MAX
}

/// A range of characters takes at most four columns each.
proof fn lemma_columns_bound(s: Seq<char>, a: int, b: int)
    requires
        a <= b,
    ensures
        columns(s, a, b) <= 4 * (b - a),
    decreases b - a,
{
    if b > a {
        lemma_columns_bound(s, a, b - 1);
    }
}

/// The line start lies at or before `q`.
pub proof fn lemma_line_start(s: Seq<char>, q: int)
    requires
        0 <= q,
    ensures
        0 <= line_start_at(s, q) <= q,
    decreases q,
{
    if q > 0 && s[q - 1] != '\n' {
        lemma_line_start(s, q - 1);
    }
}

/// Index just after the last line feed before char `q`.
fn line_start_char(c: &Vec<char>, q: usize) -> (r: usize)
    requires
        q <= c@.len(),
    ensures
        r == line_start_at(c@, q as int),
        r <= q,
{
    let mut i = q;
    while i > 0 && c[i - 1] != '\n'
        invariant
            i <= q <= c@.len(),
            line_start_at(c@, i as int) == line_start_at(c@, q as int),
        decreases i,
    {
        i -= 1;
    }
    i
}

/// Columns taken by `c[a..b]`.
fn columns_between(c: &Vec<char>, a: usize, b: usize) -> (n: usize)
    requires
        a <= b <= c@.len(),
        source_fits(c@),
    ensures
        n == columns(c@, a as int, b as int),
{
    let mut n: usize = 0;
    let mut i = a;
    while i < b
        invariant
            a <= i <= b <= c@.len(),
            source_fits(c@),
            n == columns(c@, a as int, i as int),
        decreases b - i,
    {
        proof {
            lemma_columns_bound(c@, a as int, i + 1);
        }
        let ch = c[i];
        if ch == '\r' {
        } else if crate::text::is_whitespace(ch) && ch == '\t' {
            n = n + 4;
        } else {
            n = n + 1;
        }
        i += 1;
    }
    n
}

/// Visual column of byte offset `off` (a character boundary) within its line.
fn visual_column_at(c: &Vec<char>, offs: &Vec<usize>, off: usize) -> (n: usize)
    requires
        offs@.len() == c@.len() + 1,
        forall|k: int| 0 <= k <= c@.len() ==> #[trigger] offs@[k] == utf8_len(c@.take(k)),
        is_boundary(c@, off as int),
        source_fits(c@),
    ensures
        n == visual_column(c@, off as int),
{
    let q = char_index_of(offs, off, Ghost(c@));
    let ls = line_start_char(c, q);
    columns_between(c, ls, q)
}

/// Index of the first non-whitespace pair.
fn first_nonws_pair(pairs: &Vec<(Token, Range<usize>)>, Ghost(l): Ghost<LineTokenView>) -> (r: Option<usize>)
    requires
        pairs@.len() == npairs(l),
        forall|k: int| 0 <= k < pairs@.len() ==> (#[trigger] pairs@[k]).0@ == l.tokens[k] && pairs@[k].1 == l.spans[k],
    ensures
        r matches Some(k) ==> first_nonws(l) == Some(k as int),
        r is None <==> first_nonws(l) is None,
{
    let mut k: usize = 0;
    while k < pairs.len()
        invariant
            k <= pairs@.len(),
            pairs@.len() == npairs(l),
            forall|j: int| 0 <= j < pairs@.len() ==> (#[trigger] pairs@[j]).0@ == l.tokens[j] && pairs@[j].1 == l.spans[j],
            first_nonws_from(l, k as int) == first_nonws(l),
        decreases pairs@.len() - k,
    {
        if !pairs[k].0.is_whitespace() {
            proof {
                assert(!tv_ws(l.tokens[k as int]));
            }
            return Some(k);
        }
        proof {
            assert(tv_ws(l.tokens[k as int]));
        }
        k += 1;
    }
    None
}

/// The (token, span) pairs of a line, tied to its model.
fn pairs_of(line: &LineToken) -> (p: Vec<(Token, Range<usize>)>)
    ensures
        p@.len() == npairs(line@),
        forall|k: int| 0 <= k < p@.len() ==> (#[trigger] p@[k]).0@ == line@.tokens[k] && p@[k].1 == line@.spans[k],
{
    let p = line.source_token_pairs();
    proof {
        assert forall|k: int| 0 <= k < p@.len() implies (#[trigger] p@[k]).0@ == line@.tokens[k] && p@[k].1 == line@.spans[k] by {
            assert(line@.tokens[k] == line.source_tokens@[k]@);
        }
    }
    p
}

/// The first non-whitespace pair lies among the pairs.
proof fn lemma_first_nonws(l: LineTokenView, k: int)
    requires
        0 <= k,
    ensures
        first_nonws_from(l, k) matches Some(j) ==> k <= j < npairs(l) && !tv_ws(l.tokens[j]),
    decreases npairs(l) - k,
{
    if k < npairs(l) && tv_ws(l.tokens[k]) {
        lemma_first_nonws(l, k + 1);
    }
}

/// Visual column of the first non-whitespace token of a line, if any.
fn first_visual_column_of(line: &LineToken, c: &Vec<char>, offs: &Vec<usize>) -> (r: Option<usize>)
    requires
        offs@.len() == c@.len() + 1,
        forall|k: int| 0 <= k <= c@.len() ==> #[trigger] offs@[k] == utf8_len(c@.take(k)),
        fvc_ok(line@, c@),
        source_fits(c@),
    ensures
        r matches Some(y) ==> first_visual_column(line@, c@) == Some(y as int),
        r is None <==> first_visual_column(line@, c@) is None,
{
    let pairs = pairs_of(line);
    proof {
        lemma_first_nonws(line@, 0);
    }
    match first_nonws_pair(&pairs, Ghost(line@)) {
        Some(k) => {
            proof {
                assert(pairs@[k as int].1 == line@.spans[k as int]);

            }
            Some(visual_column_at(c, offs, pairs[k].1.start))
        },
        None => None,
    }
}

/// Whether every token of a line is whitespace.
fn is_effectively_blank(line: &LineToken) -> (b: bool)
    ensures
        b == effectively_blank(line@),
{
    let mut k: usize = 0;
    while k < line.source_tokens.len()
        invariant
            k <= line.source_tokens@.len(),
            forall|j: int| 0 <= j < k ==> tv_ws(#[trigger] line@.tokens[j]),
        decreases line.source_tokens@.len() - k,
    {
        if !line.source_tokens[k].is_whitespace() {
            proof {
                assert(line@.tokens[k as int] == line.source_tokens@[k as int]@);
            }
            return false;
        }
        proof {
            assert(line@.tokens[k as int] == line.source_tokens@[k as int]@);
        }
        k += 1;
    }
    true
}

} // verus!

verus! {

/// Models of a sequence of line tokens.
pub open spec fn lines_view(ls: Seq<LineToken>) -> Seq<LineTokenView> {
    Seq::new(ls.len(), |i: int| ls[i]@)
}

/// Read the block's mode from its content lines.
fn detect_mode(lines: &[LineToken], c: &Vec<char>, offs: &Vec<usize>) -> (m: VerbatimBlockMode)
    requires
        offs@.len() == c@.len() + 1,
        forall|k: int| 0 <= k <= c@.len() ==> #[trigger] offs@[k] == utf8_len(c@.take(k)),
        source_fits(c@),
        mode_ok(lines_view(lines@), c@, 0),
    ensures
        m == mode_from(lines_view(lines@), c@, 0),
{
    let ghost v = lines_view(lines@);
    let mut i: usize = 0;
    while i < lines.len()
        invariant
            v == lines_view(lines@),
            i <= lines@.len(),
            offs@.len() == c@.len() + 1,
            forall|k: int| 0 <= k <= c@.len() ==> #[trigger] offs@[k] == utf8_len(c@.take(k)),
            source_fits(c@),
            mode_ok(v, c@, i as int),
            mode_from(v, c@, i as int) == mode_from(v, c@, 0),
        decreases lines@.len() - i,
    {
        let line = &lines[i];
        proof {
            assert(v[i as int] == line@);
        }
        if !is_effectively_blank(line) {
            match first_visual_column_of(line, c, offs) {
                Some(col) => {
                    if col == FULLWIDTH_INDENT_COLUMN {
                        return VerbatimBlockMode::Fullwidth;
                    } else {
                        return VerbatimBlockMode::Inflow;
                    }
                },
                None => {},
            }
        }
        i += 1;
    }
    VerbatimBlockMode::Inflow
}

/// Whether a line starts a new group: a subject line at the base column.
fn is_new_group_subject(line: &LineToken, base: usize, c: &Vec<char>, offs: &Vec<usize>) -> (b: bool)
    requires
        offs@.len() == c@.len() + 1,
        forall|k: int| 0 <= k <= c@.len() ==> #[trigger] offs@[k] == utf8_len(c@.take(k)),
        source_fits(c@),
        subject_typed(line@) ==> fvc_ok(line@, c@),
    ensures
        b == new_group_subject(line@, base as int, c@),
{
    match line.line_type {
        LineType::SubjectLine | LineType::SubjectOrListItemLine => {
            match first_visual_column_of(line, c, offs) {
                Some(col) => col == base,
                None => false,
            }
        },
        _ => false,
    }
}

/// Subject of group `g` given the group starts.
pub open spec fn group_subject(first: LineTokenView, lines: Seq<LineTokenView>, starts: Seq<int>, g: int) -> LineTokenView {
    if starts[g] < 0 { first } else { lines[starts[g]] }
}

/// End (exclusive content index) of group `g`.
pub open spec fn group_end(starts: Seq<int>, g: int, n: int) -> int {
    if g + 1 < starts.len() { starts[g + 1] } else { n }
}

/// Group starts are increasing, the first is -1, all lie below `n`.
pub proof fn lemma_group_starts(lines: Seq<LineTokenView>, base: int, s: Seq<char>, n: int)
    requires
        0 <= n <= lines.len(),
    ensures
        group_starts(lines, base, s, n).len() >= 1,
        group_starts(lines, base, s, n)[0] == -1,
        forall|g: int| 0 < g < group_starts(lines, base, s, n).len() ==> 0 <= #[trigger] group_starts(lines, base, s, n)[g] < n
            && new_group_subject(lines[group_starts(lines, base, s, n)[g]], base, s),
        forall|g: int, h: int| 0 <= g < h < group_starts(lines, base, s, n).len() ==> group_starts(lines, base, s, n)[g] < group_starts(lines, base, s, n)[h],
    decreases n,
{
    if n > 0 {
        lemma_group_starts(lines, base, s, n - 1);
    }
}

/// Split content lines into groups: a subject line at the base column starts
/// a new group; every other line joins the current group.
fn split_groups(first: &LineToken, lines: &[LineToken], base: usize, c: &Vec<char>, offs: &Vec<usize>) -> (r: Vec<(LineToken, Vec<LineToken>)>)
    requires
        offs@.len() == c@.len() + 1,
        forall|k: int| 0 <= k <= c@.len() ==> #[trigger] offs@[k] == utf8_len(c@.take(k)),
        source_fits(c@),
        forall|i: int| 0 <= i < lines@.len() && subject_typed(#[trigger] lines@[i]@) ==> fvc_ok(lines@[i]@, c@),
    ensures
        ({
            let v = lines_view(lines@);
            let st = group_starts(v, base as int, c@, v.len() as int);
            &&& r@.len() == st.len()
            &&& forall|g: int| 0 <= g < r@.len() ==> (#[trigger] r@[g]).0@ == group_subject(first@, v, st, g)
                && lines_view(r@[g].1@) == v.subrange(st[g] + 1, group_end(st, g, v.len() as int))
        }),
{
    let ghost v = lines_view(lines@);
    let mut groups: Vec<(LineToken, Vec<LineToken>)> = Vec::new();
    let mut current_subject = first.clone();
    let mut current_content: Vec<LineToken> = Vec::new();
    let mut i: usize = 0;
    while i < lines.len()
        invariant
            v == lines_view(lines@),
            i <= lines@.len(),
            offs@.len() == c@.len() + 1,
            forall|k: int| 0 <= k <= c@.len() ==> #[trigger] offs@[k] == utf8_len(c@.take(k)),
            source_fits(c@),
            forall|j: int| 0 <= j < lines@.len() && subject_typed(#[trigger] lines@[j]@) ==> fvc_ok(lines@[j]@, c@),
            ({
                let st = group_starts(v, base as int, c@, i as int);
                &&& groups@.len() == st.len() - 1
                &&& forall|g: int| 0 <= g < groups@.len() ==> (#[trigger] groups@[g]).0@ == group_subject(first@, v, st, g)
                    && lines_view(groups@[g].1@) == v.subrange(st[g] + 1, group_end(st, g, i as int))
                &&& current_subject@ == group_subject(first@, v, st, st.len() - 1)
                &&& lines_view(current_content@) == v.subrange(st.last() + 1, i as int)
            }),
        decreases lines@.len() - i,
    {
        let ghost st = group_starts(v, base as int, c@, i as int);
        proof {
            lemma_group_starts(v, base as int, c@, i as int);
            assert(v[i as int] == lines@[i as int]@);
        }
        let line = &lines[i];
        if is_new_group_subject(line, base, c, offs) {
            let ghost before = groups@;
            groups.push((current_subject, current_content));
            current_subject = line.clone();
            current_content = Vec::new();
            proof {
                let st2 = group_starts(v, base as int, c@, i + 1);
                assert(st2 == st.push(i as int));
                assert forall|g: int| 0 <= g < groups@.len() implies (#[trigger] groups@[g]).0@ == group_subject(first@, v, st2, g)
                    && lines_view(groups@[g].1@) == v.subrange(st2[g] + 1, group_end(st2, g, i + 1)) by {
                    if g < before.len() {
                        assert(groups@[g] == before[g]);
                        assert(st2[g] == st[g]);
                        assert(st2[g + 1] == st[g + 1]);
                    }
                }
                assert(lines_view(current_content@) =~= v.subrange(st2.last() + 1, i + 1));
            }
        } else {
            let ghost before = current_content@;
            let cl = line.clone();
            current_content.push(cl);
            proof {
                let st2 = group_starts(v, base as int, c@, i + 1);
                assert(st2 == st);
                let want = v.subrange(st.last() + 1, i + 1);
                let old_want = v.subrange(st.last() + 1, i as int);
                assert(lines_view(before) == old_want);
                assert(st.last() + 1 <= i);
                assert(lines_view(before).len() == before.len());
                assert(before.len() == i - st.last() - 1);
                assert(current_content@.len() == want.len());
                assert forall|k: int| 0 <= k < current_content@.len() implies lines_view(current_content@)[k] == want[k] by {
                    if k == before.len() {
                        assert(current_content@[k] == cl);
                        assert(want[k] == v[i as int]);
                    }
                    if k < before.len() {
                        assert(current_content@[k] == before[k]);
                        assert(lines_view(before)[k] == old_want[k]);
                    }
                }
                assert(lines_view(current_content@) =~= want);
                assert forall|g: int| 0 <= g < groups@.len() implies (#[trigger] groups@[g]).0@ == group_subject(first@, v, st2, g)
                    && lines_view(groups@[g].1@) == v.subrange(st2[g] + 1, group_end(st2, g, i + 1)) by {
                    assert(g + 1 < st.len());
                }
            }
        }
        i += 1;
    }
    let ghost st = group_starts(v, base as int, c@, i as int);
    groups.push((current_subject, current_content));
    proof {
        assert forall|g: int| 0 <= g < groups@.len() implies (#[trigger] groups@[g]).0@ == group_subject(first@, v, st, g)
            && lines_view(groups@[g].1@) == v.subrange(st[g] + 1, group_end(st, g, v.len() as int)) by {
            if g < groups@.len() - 1 {
                assert(g + 1 < st.len());
            }
        }
    }
    groups
}

} // verus!

verus! {

/// Bounding box of the first `npairs` spans of a line.
fn spans_bbox(pairs: &Vec<(Token, Range<usize>)>, Ghost(l): Ghost<LineTokenView>) -> (r: Range<usize>)
    requires
        pairs@.len() == npairs(l),
        forall|k: int| 0 <= k < pairs@.len() ==> (#[trigger] pairs@[k]).1 == l.spans[k],
    ensures
        r == spans_box(l.spans, npairs(l)),
{
    let n = pairs.len();
    if n == 0 {
        return Range { start: 0, end: 0 };
    }
    let mut lo = pairs[0].1.start;
    let mut hi = pairs[0].1.end;
    let mut i: usize = 1;
    while i < n
        invariant
            n == pairs@.len(),
            n == npairs(l),
            forall|k: int| 0 <= k < pairs@.len() ==> (#[trigger] pairs@[k]).1 == l.spans[k],
            1 <= i <= n,
            lo == spans_min_start(l.spans, i as int),
            hi == spans_max_end(l.spans, i as int),
        decreases n - i,
    {
        if pairs[i].1.start < lo {
            lo = pairs[i].1.start;
        }
        if pairs[i].1.end > hi {
            hi = pairs[i].1.end;
        }
        i += 1;
    }
    Range { start: lo, end: hi }
}

/// End (char index) after dropping trailing line feeds and carriage returns.
fn trim_trailing_newline(c: &Vec<char>, start: usize, end: usize) -> (e: usize)
    requires
        end <= c@.len(),
    ensures
        e == trim_nl_end(c@, start as int, end as int),
        e <= end,
{
    let mut e = end;
    while e > start && (c[e - 1] == '\n' || c[e - 1] == '\r')
        invariant
            e <= end <= c@.len(),
            trim_nl_end(c@, start as int, e as int) == trim_nl_end(c@, start as int, end as int),
        decreases e,
    {
        e -= 1;
    }
    e
}

/// Char index reached when advancing from `start` over whitespace toward
/// the wall column, stopping at `end`.
fn advance_to_wall(c: &Vec<char>, start: usize, end: usize, wall: usize) -> (k: usize)
    requires
        start <= end <= c@.len(),
        wall + 4 <= usize::MAX,
    ensures
        k == wall_stop(c@, start as int, end as int, 0, wall as int),
        start <= k <= end,
{
    let mut column: usize = 0;
    let mut k = start;
    while k < end && column < wall && crate::text::is_whitespace(c[k])
        invariant
            start <= k <= end <= c@.len(),
            wall + 4 <= usize::MAX,
            column <= wall + 3,
            wall_stop(c@, k as int, end as int, column as int, wall as int) == wall_stop(c@, start as int, end as int, 0, wall as int),
        decreases end - k,
    {
        let w: usize = if c[k] == '\t' { 4 } else { 1 };
        column = column + w;
        k += 1;
    }
    k
}

/// The content text of a line with the wall stripped, and its byte range.
fn extract_content_line(line: &LineToken, wall: usize, c: &Vec<char>, offs: &Vec<usize>) -> (r: (String, Range<usize>))
    requires
        offs@.len() == c@.len() + 1,
        forall|k: int| 0 <= k <= c@.len() ==> #[trigger] offs@[k] == utf8_len(c@.take(k)),
        content_ok(line@, c@),
        wall + 4 <= usize::MAX,
    ensures
        r.0@ == content_line_spec(line@, c@, wall as int).0,
        r.1 == content_line_spec(line@, c@, wall as int).1,
{
    let pairs = pairs_of(line);
    if pairs.len() == 0 {
        return (String::new(), Range { start: 0, end: 0 });
    }
    let b = spans_bbox(&pairs, Ghost(line@));
    let qs = char_index_of(offs, b.start, Ghost(c@));
    let qe = char_index_of(offs, b.end, Ghost(c@));
    let te = trim_trailing_newline(c, qs, qe);
    let teb = offs[te];
    if teb <= b.start {
        return (String::new(), Range { start: b.start, end: b.start });
    }
    let ls = line_start_char(c, qs);
    proof {
        if te < qs {
            crate::text::lemma_widths_increase(c@, te as int, qs as int);
        }
    }
    let so = advance_to_wall(c, ls, if te >= ls { te } else { ls }, wall);
    let sob = offs[so];
    if sob >= teb {
        return (String::new(), Range { start: teb, end: teb });
    }
    proof {
        if so >= te {
            if so > te {
                crate::text::lemma_widths_increase(c@, te as int, so as int);
            }
        }
    }
    let mut out: Vec<char> = Vec::new();
    let mut i = so;
    while i < te
        invariant
            so <= i <= te <= c@.len(),
            out@ == c@.subrange(so as int, i as int),
        decreases te - i,
    {
        out.push(c[i]);
        assert(c@.subrange(so as int, i + 1) =~= c@.subrange(so as int, i as int).push(c@[i as int]));
        i += 1;
    }
    (crate::text::string_from_chars(out.as_slice()), Range { start: sob, end: teb })
}

} // verus!

verus! {

/// Bounding box of a sequence of ranges (`0..0` when empty).
fn box_of_ranges(v: &Vec<Range<usize>>) -> (r: Range<usize>)
    ensures
        r == spans_box(v@, v@.len() as int),
{
    let n = v.len();
    if n == 0 {
        return Range { start: 0, end: 0 };
    }
    let mut lo = v[0].start;
    let mut hi = v[0].end;
    let mut i: usize = 1;
    while i < n
        invariant
            n == v@.len(),
            1 <= i <= n,
            lo == spans_min_start(v@, i as int),
            hi == spans_max_end(v@, i as int),
        decreases n - i,
    {
        if v[i].start < lo {
            lo = v[i].start;
        }
        if v[i].end > hi {
            hi = v[i].end;
        }
        i += 1;
    }
    Range { start: lo, end: hi }
}

/// Byte range of a subject line's text (colons and line breaks left out).
fn subject_box(line: &LineToken) -> (r: Range<usize>)
    ensures
        r == subject_range(line@),
{
    let pairs = pairs_of(line);
    let ghost l = line@;
    let mut spans: Vec<Range<usize>> = Vec::new();
    let mut k: usize = 0;
    while k < pairs.len()
        invariant
            l == line@,
            pairs@.len() == npairs(l),
            forall|j: int| 0 <= j < pairs@.len() ==> (#[trigger] pairs@[j]).0@ == l.tokens[j] && pairs@[j].1 == l.spans[j],
            k <= pairs@.len(),
            spans@ == subject_spans(l, k as int),
        decreases pairs@.len() - k,
    {
        proof {
            assert(pairs@[k as int].0@ == l.tokens[k as int]);
        }
        match &pairs[k].0 {
            Token::Colon | Token::BlankLine(_) => {},
            _ => {
                spans.push(Range { start: pairs[k].1.start, end: pairs[k].1.end });
            },
        }
        k += 1;
    }
    box_of_ranges(&spans)
}

/// `g` is the group with subject `subj` and content `content`, with the wall at `wall`.
pub open spec fn group_data_of(g: VerbatimGroupData, subj: LineTokenView, content: Seq<LineTokenView>, s: Seq<char>, wall: int) -> bool {
    let sr = subject_range(subj);
    &&& g.subject_byte_range == sr
    &&& g.subject_text@ == trim_spec(byte_slice(s, sr.start as int, sr.end as int))
    &&& g.content_lines@.len() == content.len()
    &&& forall|i: int| 0 <= i < content.len() ==> (#[trigger] g.content_lines@[i]).0@ == content_line_spec(content[i], s, wall).0
        && g.content_lines@[i].1 == content_line_spec(content[i], s, wall).1
}

/// The data of one group: the subject's trimmed text and range, and the
/// content lines with the wall stripped.
fn extract_group(subject: LineToken, content: Vec<LineToken>, wall: usize, source: &str, c: &Vec<char>, offs: &Vec<usize>) -> (g: VerbatimGroupData)
    requires
        c@ == source@,
        offs@.len() == c@.len() + 1,
        forall|k: int| 0 <= k <= c@.len() ==> #[trigger] offs@[k] == utf8_len(c@.take(k)),
        subject_ok(subject@, c@),
        forall|i: int| 0 <= i < content@.len() ==> content_ok(#[trigger] content@[i]@, c@),
        wall + 4 <= usize::MAX,
    ensures
        group_data_of(g, subject@, lines_view(content@), c@, wall as int),
{
    let sr = subject_box(&subject);
    let raw = extract_text(Range { start: sr.start, end: sr.end }, source);
    let subject_text = crate::text::trim(raw.as_str()).to_string();
    let mut lines: Vec<(String, Range<usize>)> = Vec::new();
    let mut i: usize = 0;
    while i < content.len()
        invariant
            offs@.len() == c@.len() + 1,
            forall|k: int| 0 <= k <= c@.len() ==> #[trigger] offs@[k] == utf8_len(c@.take(k)),
            forall|k: int| 0 <= k < content@.len() ==> content_ok(#[trigger] content@[k]@, c@),
            wall + 4 <= usize::MAX,
            i <= content@.len(),
            lines@.len() == i,
            forall|k: int| 0 <= k < i ==> (#[trigger] lines@[k]).0@ == content_line_spec(content@[k]@, c@, wall as int).0
                && lines@[k].1 == content_line_spec(content@[k]@, c@, wall as int).1,
        decreases content@.len() - i,
    {
        lines.push(extract_content_line(&content[i], wall, c, offs));
        i += 1;
    }
    VerbatimGroupData { subject_text, subject_byte_range: sr, content_lines: lines }
}

/// The inputs can be extracted: columns fit, every inspected column and
/// every sliced range lies on character boundaries of the source.
pub open spec fn verbatim_ok(subject: LineTokenView, lines: Seq<LineTokenView>, s: Seq<char>) -> bool {
    let base = match first_visual_column(subject, s) {
        Some(x) => x,
        None => 0,
    };
    &&& source_fits(s)
    &&& fvc_ok(subject, s)
    &&& subject_ok(subject, s)
    &&& mode_ok(lines, s, 0)
    &&& forall|i: int| 0 <= i < lines.len() && subject_typed(#[trigger] lines[i]) ==> fvc_ok(lines[i], s)
    &&& forall|i: int| 0 <= i < lines.len() && new_group_subject(#[trigger] lines[i], base, s) ==> subject_ok(lines[i], s)
    &&& forall|i: int| 0 <= i < lines.len() ==> content_ok(#[trigger] lines[i], s)
}

/// The wall column: the fullwidth column, or one indentation step past the
/// subject's column.
pub open spec fn wall_column(mode: VerbatimBlockMode, subject_column: int) -> int {
    match mode {
        VerbatimBlockMode::Fullwidth => FULLWIDTH_INDENT_COLUMN as int,
        VerbatimBlockMode::Inflow => subject_column + INFLOW_INDENT_STEP_COLUMNS,
    }
}

/// Extract a verbatim block: detect the mode from the first non-blank content
/// line (fullwidth when its first token sits at the fullwidth column), split
/// the content into groups at subject lines that sit at the first subject's
/// column, and strip the wall (fullwidth column, or one step past the
/// subject) from every content line.
pub fn extract_verbatim_block_data(subject_line: &LineToken, content_lines: &[LineToken], source: &str) -> (d: VerbatimBlockData)
    requires
        verbatim_ok(subject_line@, lines_view(content_lines@), source@),
    ensures
        ({
            let v = lines_view(content_lines@);
            let s = source@;
            let base = match first_visual_column(subject_line@, s) {
                Some(x) => x,
                None => 0,
            };
            let mode = mode_from(v, s, 0);
            let wall = wall_column(mode, base);
            let st = group_starts(v, base, s, v.len() as int);
            &&& d.mode == mode
            &&& d.groups@.len() == st.len()
            &&& forall|g: int| 0 <= g < st.len() ==> group_data_of(
                #[trigger] d.groups@[g],
                group_subject(subject_line@, v, st, g),
                v.subrange(st[g] + 1, group_end(st, g, v.len() as int)),
                s,
                wall,
            )
        }),
{
    let ghost v = lines_view(content_lines@);
    let c = crate::text::chars_of(source);
    let offs = crate::text::char_byte_offsets(source, &c);
    let mode = detect_mode(content_lines, &c, &offs);
    let subject_column = match first_visual_column_of(subject_line, &c, &offs) {
        Some(x) => x,
        None => 0,
    };
    proof {
        if first_visual_column(subject_line@, c@) matches Some(x) {
            let k = first_nonws(subject_line@)->0;
            let q = chars_in_bytes(c@, subject_line@.spans[k].start as int);
            lemma_line_start(c@, q);
            lemma_columns_bound(c@, line_start_at(c@, q), q);
            assert(q <= c@.len());
        }
    }
    let wall = match mode {
        VerbatimBlockMode::Fullwidth => FULLWIDTH_INDENT_COLUMN,
        VerbatimBlockMode::Inflow => subject_column + INFLOW_INDENT_STEP_COLUMNS,
    };
    proof {
        assert forall|i: int| 0 <= i < content_lines@.len() && subject_typed(#[trigger] content_lines@[i]@) implies fvc_ok(content_lines@[i]@, c@) by {
            assert(v[i] == content_lines@[i]@);
        }
    }
    let groups = split_groups(subject_line, content_lines, subject_column, &c, &offs);
    let ghost st = group_starts(v, subject_column as int, c@, v.len() as int);
    proof {
        lemma_group_starts(v, subject_column as int, c@, v.len() as int);
    }
    let mut out: Vec<VerbatimGroupData> = Vec::new();
    let ghost gs = groups@;
    let mut g: usize = 0;
    for grp in it: groups
        invariant
            it.seq() == gs,
            gs.len() == st.len(),
            st == group_starts(v, subject_column as int, c@, v.len() as int),
            v == lines_view(content_lines@),
            c@ == source@,
            offs@.len() == c@.len() + 1,
            forall|k: int| 0 <= k <= c@.len() ==> #[trigger] offs@[k] == utf8_len(c@.take(k)),
            verbatim_ok(subject_line@, v, c@),
            wall + 4 <= usize::MAX,
            subject_column as int == (match first_visual_column(subject_line@, c@) {
                Some(x) => x,
                None => 0,
            }),
            forall|h: int| 0 <= h < gs.len() ==> (#[trigger] gs[h]).0@ == group_subject(subject_line@, v, st, h)
                && lines_view(gs[h].1@) == v.subrange(st[h] + 1, group_end(st, h, v.len() as int)),
            st.len() >= 1,
            st[0] == -1,
            forall|h: int| 0 < h < st.len() ==> 0 <= #[trigger] st[h] < v.len() && new_group_subject(v[st[h]], subject_column as int, c@),
            forall|h: int, j: int| 0 <= h < j < st.len() ==> st[h] < st[j],
            out@.len() == it.index(),
            forall|h: int| 0 <= h < out@.len() ==> group_data_of(
                #[trigger] out@[h],
                group_subject(subject_line@, v, st, h),
                v.subrange(st[h] + 1, group_end(st, h, v.len() as int)),
                c@,
                wall as int,
            ),
    {
        let ghost h = it.index();
        proof {
            assert(gs[h] == grp);
            let lo = st[h] + 1;
            let hi = group_end(st, h, v.len() as int);
            assert(0 <= lo <= hi <= v.len());
            assert forall|i: int| 0 <= i < grp.1@.len() implies content_ok(#[trigger] grp.1@[i]@, c@) by {
                assert(lines_view(grp.1@)[i] == grp.1@[i]@);
                assert(v.subrange(lo, hi)[i] == v[lo + i]);
            }
            let base = match first_visual_column(subject_line@, c@) {
                Some(x) => x,
                None => 0,
            };
            assert(base == subject_column as int);
            if h > 0 {
                let j = st[h];
                assert(new_group_subject(v[j], base, c@));
                assert(subject_ok(v[j], c@));
            }
            assert(subject_ok(grp.0@, c@));
        }
        let data = extract_group(grp.0, grp.1, wall, source, &c, &offs);
        out.push(data);
    }
    VerbatimBlockData { groups: out, mode }
}

} // verus!
