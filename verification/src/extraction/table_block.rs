//! Table blocks: the verbatim-like outer structure of a table becomes its
//! subject, header rows, body rows and footnotes.
use vstd::prelude::*;
use std::ops::Range;
use crate::escape::split::{lemma_split_points_below, split_points, split_points_below};
use crate::extraction::table::{
    cell_count, cells_view, classified, classifies, classify_lines, compact_row_of, content_view,
    detect_multiline, extract_footnote_lines, footnote_indices, footnote_of, group_at, has_blank_between_pipes,
    last_pipe, merge_cells_upto, merge_cell, merged_row_of, merged_upto, merges_spec, ml_groups, multiline_ok,
    parse_compact_rows, parse_multiline_rows, pipe_indices, pipe_rows_ok, ranges_fit, raws_view, resolve_merges,
    row_segments, row_view, spans_fit, split_header_body, header_row_of, wf_pipe, FootnoteLineData, LineKind,
    TableRowData,
};
use crate::extraction::verbatim::{
    content_line_spec, extract_verbatim_block_data, first_visual_column, group_end, group_starts,
    lines_view, mode_from, source_fits, verbatim_ok, wall_column, VerbatimBlockMode,
};
use crate::text::{trim_spec, utf8_len};
use crate::token::{LineToken, LineTokenView};

verus! {

/// Extracted data of a table block.
#[derive(Debug)]
pub struct TableData {
    pub subject_text: String,
    pub subject_byte_range: Range<usize>,
    pub header_rows: Vec<TableRowData>,
    pub body_rows: Vec<TableRowData>,
    pub footnotes: Vec<FootnoteLineData>,
    pub mode: VerbatimBlockMode,
}

/// The wall column of a verbatim-like block.
pub open spec fn block_wall(subject: LineTokenView, lines: Seq<LineTokenView>, s: Seq<char>) -> int {
    let base = match first_visual_column(subject, s) {
        Some(x) => x,
        None => 0,
    };
    wall_column(mode_from(lines, s, 0), base)
}

/// The content lines of a table: those of the block's first group, with
/// the wall stripped.
pub open spec fn table_content(subject: LineTokenView, lines: Seq<LineTokenView>, s: Seq<char>) -> Seq<(Seq<char>, Range<usize>)> {
    let base = match first_visual_column(subject, s) {
        Some(x) => x,
        None => 0,
    };
    let st = group_starts(lines, base, s, lines.len() as int);
    let g = lines.subrange(st[0] + 1, group_end(st, 0, lines.len() as int));
    Seq::new(g.len(), |i: int| content_line_spec(g[i], s, block_wall(subject, lines, s)))
}

/// `raw` holds the rows parsed from the classified lines `kinds`.
pub open spec fn rows_parsed(raw: Seq<TableRowData>, kinds: Seq<LineKind>) -> bool {
    if has_blank_between_pipes(kinds) {
        &&& raw.len() == ml_groups(kinds).len()
        &&& forall|k: int| 0 <= k < raw.len() ==> merged_row_of(#[trigger] raw[k], group_at(kinds, ml_groups(kinds)[k]))
    } else {
        &&& raw.len() == pipe_indices(kinds, kinds.len() as int).len()
        &&& forall|k: int| 0 <= k < raw.len() ==> compact_row_of(#[trigger] raw[k], kinds[pipe_indices(kinds, kinds.len() as int)[k]])
    }
}

/// `fs` holds the footnotes read from the classified lines `kinds`.
pub open spec fn footnotes_read(fs: Seq<FootnoteLineData>, kinds: Seq<LineKind>) -> bool {
    match last_pipe(kinds) {
        None => fs.len() == 0,
        Some(p) => {
            let idx = footnote_indices(kinds, p + 1, kinds.len() as int);
            &&& fs.len() == idx.len()
            &&& forall|k: int| 0 <= k < fs.len() ==> footnote_of(#[trigger] fs[k], kinds[idx[k]])
        },
    }
}

/// The separator positions below `n` are at most `n`.
proof fn lemma_points_count(c: Seq<char>, n: int)
    requires
        0 <= n,
    ensures
        split_points_below(c, '|', Some('`'), n).len() <= n,
    decreases n,
{
    if n > 0 {
        lemma_points_count(c, n - 1);
    }
}

/// A pipe row has at most one cell more than its trimmed text has characters.
proof fn lemma_cell_count(tc: Seq<char>)
    ensures
        cell_count(tc) <= tc.len() + 1,
{
    lemma_points_count(tc, tc.len() as int);
}

/// Merging keeps the number of texts and raw texts of the first line.
proof fn lemma_merged_widths(g: Seq<LineKind>, k: int)
    requires
        wf_pipe(g[0]),
    ensures
        merged_upto(g, k).0.len() == cells_view(g[0]).len(),
        merged_upto(g, k).1.len() == raws_view(g[0]).len(),
    decreases k,
{
    if k > 1 {
        lemma_merged_widths(g, k - 1);
        let l = g[k - 1];
        if l is PipeRow {
            lemma_merge_cells_widths(merged_upto(g, k - 1), cells_view(l), raws_view(l), cells_view(l).len() as int);
        }
    }
}

/// Merging columns keeps the number of texts and raw texts.
proof fn lemma_merge_cells_widths(acc: (Seq<Seq<char>>, Seq<Seq<char>>), cc: Seq<Seq<char>>, cr: Seq<Seq<char>>, n: int)
    requires
        acc.0.len() == acc.1.len(),
    ensures
        merge_cells_upto(acc, cc, cr, n).0.len() == acc.0.len(),
        merge_cells_upto(acc, cc, cr, n).1.len() == acc.1.len(),
    decreases n,
{
    if n > 0 {
        lemma_merge_cells_widths(acc, cc, cr, n - 1);
    }
}

} // verus!

verus! {

/// Trimming never lengthens.
proof fn lemma_trim_len(t: Seq<char>)
    ensures
        trim_spec(t).len() <= t.len(),
{
    crate::text::lemma_ws_bounds(t);
    crate::text::lemma_ws_bounds(crate::text::trim_start_spec(t));
}

/// A classified pipe row has at most one cell more than its line has characters.
proof fn lemma_kind_width(k: LineKind, t: Seq<char>, r: Range<usize>)
    requires
        classified(k, t, r),
        k is PipeRow,
    ensures
        cells_view(k).len() <= t.len() + 1,
        wf_pipe(k),
{
    lemma_trim_len(t);
    lemma_cell_count(trim_spec(t));
}

/// The trailing-newline trim ends between the start and the end.
proof fn lemma_trim_nl(s: Seq<char>, a: int, e: int)
    ensures
        (e <= a ==> crate::extraction::verbatim::trim_nl_end(s, a, e) == e),
        (a <= e ==> a <= crate::extraction::verbatim::trim_nl_end(s, a, e) <= e),
    decreases e - a,
{
    if e > a && (s[e - 1] == '\n' || s[e - 1] == '\r') {
        lemma_trim_nl(s, a, e - 1);
    }
}

/// Advancing to the wall never moves backwards.
proof fn lemma_wall_stop(s: Seq<char>, k: int, e: int, col: int, wall: int)
    ensures
        k <= crate::extraction::verbatim::wall_stop(s, k, e, col, wall),
        k <= e ==> crate::extraction::verbatim::wall_stop(s, k, e, col, wall) <= e,
    decreases e - k,
{
    if k < e && col < wall && crate::text::char_is_whitespace(s[k]) {
        lemma_wall_stop(s, k + 1, e, col + crate::extraction::verbatim::ws_width(s[k]), wall);
    }
}

/// A content line is no longer than the source, and its range leaves room
/// for its bytes.
proof fn lemma_content_line_bounds(l: LineTokenView, s: Seq<char>, wall: int)
    requires
        crate::extraction::verbatim::content_ok(l, s),
        utf8_len(s) <= usize::MAX,
    ensures
        content_line_spec(l, s, wall).0.len() <= s.len(),
        content_line_spec(l, s, wall).1.start + utf8_len(content_line_spec(l, s, wall).0) <= usize::MAX,
{
    let n = crate::extraction::verbatim::npairs(l);
    if n > 0 {
        let b = crate::extraction::verbatim::spans_box(l.spans, n);
        let qs = crate::text::chars_in_bytes(s, b.start as int);
        let qe = crate::text::chars_in_bytes(s, b.end as int);
        assert(0 <= qs <= s.len() && utf8_len(s.take(qs)) == b.start);
        assert(0 <= qe <= s.len() && utf8_len(s.take(qe)) == b.end);
        let te = crate::extraction::verbatim::trim_nl_end(s, qs, qe);
        lemma_trim_nl(s, qs, qe);
        assert(0 <= te <= s.len());
        let teb = utf8_len(s.take(te));
        crate::text::lemma_utf8_len_take_mono(s, te, s.len() as int);
        assert(s.take(s.len() as int) =~= s);
        if teb > b.start {
            let ls = crate::extraction::verbatim::line_start_at(s, qs);
            crate::extraction::verbatim::lemma_line_start(s, qs);
            let so = crate::extraction::verbatim::wall_stop(s, ls, te, 0, wall);
            lemma_wall_stop(s, ls, te, 0, wall);
            let sob = utf8_len(s.take(so));
            if so > te {
                if so <= s.len() {
                    crate::text::lemma_widths_increase(s, te, so);
                }
            }
            if sob < teb && so <= te {
                crate::text::lemma_utf8_len_subrange(s, so, te);
            }
            if sob < teb {
                if so > te {
                    assert(false);
                }
            }
        }
    } else {
        assert(utf8_len(Seq::<char>::empty()) == 0) by {
            assert(vstd::utf8::encode_utf8(Seq::<char>::empty()) =~= Seq::<u8>::empty());
        }
    }
    if content_line_spec(l, s, wall).0.len() == 0 {
        assert(content_line_spec(l, s, wall).0 =~= Seq::<char>::empty());
        assert(vstd::utf8::encode_utf8(Seq::<char>::empty()) =~= Seq::<u8>::empty());
    }
}

} // verus!

verus! {

/// Parsed rows are at most one cell wider than the longest line, and every
/// cell spans one column and one row; so the spans leave room for merging.
proof fn lemma_rows_fit(raw: Seq<TableRowData>, kinds: Seq<LineKind>, cv: Seq<(Seq<char>, Range<usize>)>, max_len: int)
    requires
        classifies(kinds, cv),
        rows_parsed(raw, kinds),
        forall|i: int| 0 <= i < cv.len() ==> (#[trigger] cv[i]).0.len() <= max_len,
        max_len + 2 <= usize::MAX,
    ensures
        spans_fit(raw),
{
    assert forall|k: int| 0 <= k < raw.len() implies (#[trigger] raw[k]).cells@.len() <= max_len + 1
        && forall|j: int| 0 <= j < raw[k].cells@.len() ==> (#[trigger] raw[k].cells@[j]).colspan == 1 && raw[k].cells@[j].rowspan == 1 by {
        if has_blank_between_pipes(kinds) {
            crate::extraction::table::lemma_ml_groups(kinds);
            let g = ml_groups(kinds)[k];
            let grp = group_at(kinds, g);
            assert(merged_row_of(raw[k], grp));
            let p = g[0];
            assert(grp[0] == kinds[p]);
            assert(classified(kinds[p], cv[p].0, cv[p].1));
            lemma_kind_width(kinds[p], cv[p].0, cv[p].1);
            lemma_merged_widths(grp, grp.len() as int);
        } else {
            crate::extraction::table::lemma_pipe_indices(kinds, kinds.len() as int);
            let p = pipe_indices(kinds, kinds.len() as int)[k];
            assert(compact_row_of(raw[k], kinds[p]));
            assert(classified(kinds[p], cv[p].0, cv[p].1));
            lemma_kind_width(kinds[p], cv[p].0, cv[p].1);
        }
    }
}

/// Extract a table: the verbatim-like outer structure gives the subject and
/// the wall-stripped content lines of the first group; these are parsed into
/// pipe rows (compact, or multi-line when blank lines separate pipe rows),
/// trailing numbered lines become footnotes, merge markers are resolved, and
/// the first row becomes the header row.
pub fn extract_table_data(subject_token: &LineToken, content_tokens: &[LineToken], source: &str) -> (t: TableData)
    requires
        verbatim_ok(subject_token@, lines_view(content_tokens@), source@),
        pipe_rows_ok(table_content(subject_token@, lines_view(content_tokens@), source@)),
    ensures
        ({
            let v = lines_view(content_tokens@);
            let s = source@;
            let base = match first_visual_column(subject_token@, s) {
                Some(x) => x,
                None => 0,
            };
            let st = group_starts(v, base, s, v.len() as int);
            let subj = crate::extraction::verbatim::group_subject(subject_token@, v, st, 0);
            let sr = crate::extraction::verbatim::subject_range(subj);
            let cv = table_content(subject_token@, v, s);
            &&& t.mode == mode_from(v, s, 0)
            &&& t.subject_byte_range == sr
            &&& t.subject_text@ == trim_spec(crate::extraction::utilities::byte_slice(s, sr.start as int, sr.end as int))
            &&& exists|kinds: Seq<LineKind>, raw: Seq<TableRowData>| #![trigger rows_parsed(raw, kinds)] {
                let m = merges_spec(raw);
                let h = if m.len() < 1 { m.len() as int } else { 1int };
                &&& classifies(kinds, cv)
                &&& rows_parsed(raw, kinds)
                &&& footnotes_read(t.footnotes@, kinds)
                &&& t.header_rows@.len() == h
                &&& forall|i: int| 0 <= i < h ==> (#[trigger] t.header_rows@[i]).byte_range == m[i].1
                    && t.header_rows@[i].cells@.len() == m[i].0.len()
                    && forall|j: int| 0 <= j < m[i].0.len() ==> #[trigger] t.header_rows@[i].cells@[j]
                        == crate::extraction::table::as_header(m[i].0[j])
                &&& t.body_rows@.len() == m.len() - h
                &&& forall|j: int| 0 <= j < t.body_rows@.len() ==> row_view(#[trigger] t.body_rows@[j]) == m[h + j]
            }
        }),
{
    let ghost v = lines_view(content_tokens@);
    let ghost s = source@;
    let total = crate::text::byte_len(source);
    let data = extract_verbatim_block_data(subject_token, content_tokens, source);
    let ghost base = match first_visual_column(subject_token@, s) {
        Some(x) => x,
        None => 0,
    };
    let ghost st = group_starts(v, base, s, v.len() as int);
    proof {
        crate::extraction::verbatim::lemma_group_starts(v, base, s, v.len() as int);
    }
    let mode = data.mode;
    let mut groups = data.groups;
    let group = groups.remove(0);
    let ghost g = v.subrange(st[0] + 1, group_end(st, 0, v.len() as int));
    let ghost cv = table_content(subject_token@, v, s);
    let content = group.content_lines;
    proof {
        assert(cv.len() == g.len());
        assert forall|i: int| 0 <= i < content@.len() implies (#[trigger] content_view(content@)[i]) == cv[i] by {
            assert(content_view(content@)[i] == (content@[i].0@, content@[i].1));
        }
        assert(content_view(content@) =~= cv);
        assert forall|i: int| 0 <= i < cv.len() implies (#[trigger] cv[i]).0.len() <= s.len()
            && cv[i].1.start + utf8_len(cv[i].0) <= usize::MAX by {
            assert(crate::extraction::verbatim::content_ok(g[i], s));
            lemma_content_line_bounds(g[i], s, block_wall(subject_token@, v, s));
        }
        assert(ranges_fit(cv));
    }
    proof {
        assert forall|i: int| 0 <= i < content@.len() implies (#[trigger] content@[i]).1.start + utf8_len(
            content@[i].0@,
        ) <= usize::MAX by {
            assert(content_view(content@)[i] == (content@[i].0@, content@[i].1));
        }
    }
    let classified_lines = classify_lines(&content);
    let ghost kinds = classified_lines@;
    proof {
        assert(classifies(kinds, cv));
    }
    let is_multiline = detect_multiline(&classified_lines);
    let raw_rows = if is_multiline {
        proof {
            assert(multiline_ok(kinds));
        }
        parse_multiline_rows(&classified_lines)
    } else {
        parse_compact_rows(&classified_lines)
    };
    let ghost raw = raw_rows@;
    proof {
        assert(rows_parsed(raw, kinds));
        lemma_rows_fit(raw, kinds, cv, s.len() as int);
    }
    let footnotes = extract_footnote_lines(&classified_lines);
    let mut rows = resolve_merges(raw_rows);
    let ghost resolved = rows@;
    let (header_rows, body_rows) = split_header_body(&mut rows, 1);
    proof {
        let m = merges_spec(raw);
        let h = if m.len() < 1 { m.len() as int } else { 1int };
        assert forall|i: int| 0 <= i < h implies (#[trigger] header_rows@[i]).byte_range == m[i].1
            && header_rows@[i].cells@.len() == m[i].0.len()
            && forall|j: int| 0 <= j < m[i].0.len() ==> #[trigger] header_rows@[i].cells@[j]
                == crate::extraction::table::as_header(m[i].0[j]) by {
            assert(header_row_of(header_rows@[i], resolved[i]));
            assert(row_view(resolved[i]) == m[i]);
        }
        assert forall|j: int| 0 <= j < body_rows@.len() implies row_view(#[trigger] body_rows@[j]) == m[h + j] by {
            assert(body_rows@[j] == resolved[h + j]);
            assert(row_view(resolved[h + j]) == m[h + j]);
        }
        assert(footnotes_read(footnotes@, kinds));
        let subj = crate::extraction::verbatim::group_subject(subject_token@, v, st, 0);
        let sr = crate::extraction::verbatim::subject_range(subj);
        assert(group.subject_byte_range == sr);
        assert(group.subject_text@ == trim_spec(crate::extraction::utilities::byte_slice(s, sr.start as int, sr.end as int)));
        assert(mode == mode_from(v, s, 0));
    }
    TableData {
        subject_text: group.subject_text,
        subject_byte_range: group.subject_byte_range,
        header_rows,
        body_rows,
        footnotes,
        mode,
    }
}

} // verus!
