//! The `lex.tabular.table` label: markdown-style pipe tables read into the
//! table shape of the wire format.
use vstd::prelude::*;
use crate::text::{chars_of, copy_chars, split_char, split_on, string_from_chars, trim, trim_spec};

verus! {

/// Fully-qualified label for the canonical tabular table.
pub const LEX_TABULAR_TABLE: &'static str = "lex.tabular.table";

/// A pipe table as the wire format carries it: the number of header rows,
/// one alignment per column (`"center"`, `"right"`, `"left"` or `""`), and
/// the rows, each a list of plain-text cells. Every cell spans one column
/// and one row; the table has no caption, origin or footnotes, and its
/// range is the default one.
#[derive(Debug, Clone, PartialEq, Eq)]
pub struct WireTable {
    pub header_rows: u32,
    pub column_aligns: Vec<String>,
    pub rows: Vec<Vec<String>>,
}

/// The non-blank lines of `s`, each trimmed (`str::lines`, then `trim`,
/// keeping the non-empty ones).
pub open spec fn nonblank(ls: Seq<Seq<char>>) -> Seq<Seq<char>>
    decreases ls.len(),
{
    if ls.len() == 0 {
        Seq::empty()
    } else {
        let rest = nonblank(ls.drop_last());
        let t = trim_spec(ls.last());
        if t.len() > 0 { rest.push(t) } else { rest }
    }
}

/// The trimmed, non-blank lines of a table body.
pub open spec fn table_lines(s: Seq<char>) -> Seq<Seq<char>> {
    nonblank(split_on(s, '\n'))
}

/// A row without its surrounding whitespace and its optional leading and
/// trailing `|`.
pub open spec fn row_inner(line: Seq<char>) -> Seq<char> {
    let t = trim_spec(line);
    let a = if t.len() > 0 && t[0] == '|' { t.drop_first() } else { t };
    if a.len() > 0 && a.last() == '|' { a.drop_last() } else { a }
}

/// The cells of a pipe row: the pieces between `|`, each trimmed.
pub open spec fn pipe_row_cells(line: Seq<char>) -> Seq<Seq<char>> {
    split_on(row_inner(line), '|').map_values(|p: Seq<char>| trim_spec(p))
}

/// The alignment a separator cell names: `:---:` center, `---:` right,
/// `:---` left, otherwise none.
pub open spec fn align_of(part: Seq<char>) -> Seq<char> {
    let t = trim_spec(part);
    let starts = t.len() > 0 && t[0] == ':';
    let ends = t.len() > 0 && t.last() == ':';
    if starts && ends {
        "center"@
    } else if ends {
        "right"@
    } else if starts {
        "left"@
    } else {
        Seq::empty()
    }
}

/// Whether a line can be the alignment row: it holds a `-` or a `|`.
pub open spec fn is_separator_row(line: Seq<char>) -> bool {
    exists|i: int| 0 <= i < line.len() && (line[i] == '-' || line[i] == '|')
}

/// Whether the table's second line is its alignment row.
pub open spec fn has_align_row(ls: Seq<Seq<char>>) -> bool {
    ls.len() > 1 && is_separator_row(ls[1])
}

/// Index of the first body line.
pub open spec fn body_start(ls: Seq<Seq<char>>) -> int {
    if has_align_row(ls) { 2 } else { 1 }
}

/// The line that row `k` of the table comes from.
pub open spec fn row_line(ls: Seq<Seq<char>>, k: int) -> Seq<char> {
    if k == 0 { ls[0] } else { ls[body_start(ls) + k - 1] }
}

/// Number of rows of the table.
pub open spec fn row_count(ls: Seq<Seq<char>>) -> int {
    if ls.len() == 0 { 0 } else { 1 + ls.len() - body_start(ls) }
}

/// The alignments the alignment row gives, one per separator cell.
pub open spec fn row_aligns(ls: Seq<Seq<char>>) -> Seq<Seq<char>> {
    if has_align_row(ls) {
        pipe_row_cells(ls[1]).map_values(|p: Seq<char>| align_of(p))
    } else {
        Seq::empty()
    }
}

/// The widest of the first `k` rows, in cells.
pub open spec fn widest(ls: Seq<Seq<char>>, k: int) -> nat
    decreases k,
{
    if k <= 0 {
        0
    } else {
        let w = widest(ls, k - 1);
        let n = pipe_row_cells(row_line(ls, k - 1)).len();
        if n > w { n } else { w }
    }
}

/// Whether `r` is the wire table of the pipe-table text `s`.
pub open spec fn wire_table_of(s: Seq<char>, r: WireTable) -> bool {
    let ls = table_lines(s);
    let al = row_aligns(ls);
    let w = widest(ls, row_count(ls));
    &&& r.header_rows == (if ls.len() == 0 { 0u32 } else { 1u32 })
    &&& r.rows@.len() == row_count(ls)
    &&& forall|k: int| 0 <= k < r.rows@.len() ==> (#[trigger] r.rows@[k])@.len() == pipe_row_cells(row_line(ls, k)).len()
        && forall|j: int| 0 <= j < r.rows@[k]@.len() ==> (#[trigger] r.rows@[k]@[j])@ == pipe_row_cells(row_line(ls, k))[j]
    &&& r.column_aligns@.len() == (if al.len() >= w { al.len() } else { w })
    &&& forall|i: int| 0 <= i < r.column_aligns@.len() ==> (#[trigger] r.column_aligns@[i])@
        == if i < al.len() { al[i] } else { Seq::<char>::empty() }
}

/// Split a `|`-delimited row into per-cell strings. Leading and trailing
/// `|` are optional and stripped; cells are individually trimmed.
pub fn parse_pipe_row(line: &str) -> (r: Vec<String>)
    ensures
        r@.len() == pipe_row_cells(line@).len(),
        forall|i: int| 0 <= i < r@.len() ==> (#[trigger] r@[i])@ == pipe_row_cells(line@)[i],
{
    let t = trim(line);
    let c = chars_of(t);
    let mut a: usize = 0;
    if c.len() > 0 && c[0] == '|' {
        a = 1;
    }
    let mut b: usize = c.len();
    if b > a && c[b - 1] == '|' {
        b = b - 1;
    }
    let inner = string_from_chars(copy_chars(&c, a, b).as_slice());
    proof {
        let tt = trim_spec(line@);
        let aa = if tt.len() > 0 && tt[0] == '|' { tt.drop_first() } else { tt };
        assert(aa =~= c@.subrange(a as int, c@.len() as int));
        assert(row_inner(line@) =~= c@.subrange(a as int, b as int));
    }
    let pieces = split_char(inner.as_str(), '|');
    let ghost sp = split_on(row_inner(line@), '|');
    let mut out: Vec<String> = Vec::new();
    let mut i: usize = 0;
    while i < pieces.len()
        invariant
            i <= pieces@.len(),
            pieces@.len() == sp.len(),
            forall|k: int| 0 <= k < pieces@.len() ==> (#[trigger] pieces@[k])@ == sp[k],
            out@.len() == i,
            forall|k: int| 0 <= k < i ==> (#[trigger] out@[k])@ == trim_spec(sp[k]),
        decreases pieces@.len() - i,
    {
        let piece = trim(pieces[i].as_str());
        out.push(piece.to_owned());
        i += 1;
    }
    out
}

/// The alignment named by one separator cell.
fn align_string(part: &str) -> (r: String)
    ensures
        r@ == align_of(part@),
{
    let t = trim(part);
    let c = chars_of(t);
    let starts = c.len() > 0 && c[0] == ':';
    let ends = c.len() > 0 && c[c.len() - 1] == ':';
    if starts && ends {
        "center".to_owned()
    } else if ends {
        "right".to_owned()
    } else if starts {
        "left".to_owned()
    } else {
        String::new()
    }
}

/// Whether `line` holds a `-` or a `|`.
fn has_dash_or_pipe(line: &str) -> (b: bool)
    ensures
        b == is_separator_row(line@),
{
    let c = chars_of(line);
    let mut i: usize = 0;
    while i < c.len()
        invariant
            c@ == line@,
            i <= c@.len(),
            forall|k: int| 0 <= k < i ==> c@[k] != '-' && c@[k] != '|',
        decreases c@.len() - i,
    {
        if c[i] == '-' || c[i] == '|' {
            return true;
        }
        i += 1;
    }
    false
}

/// The trimmed, non-blank lines of `content`.
fn nonblank_lines(content: &str) -> (r: Vec<String>)
    ensures
        r@.len() == table_lines(content@).len(),
        forall|i: int| 0 <= i < r@.len() ==> (#[trigger] r@[i])@ == table_lines(content@)[i],
{
    let pieces = split_char(content, '\n');
    let ghost sp = split_on(content@, '\n');
    let mut out: Vec<String> = Vec::new();
    let mut i: usize = 0;
    while i < pieces.len()
        invariant
            i <= pieces@.len(),
            pieces@.len() == sp.len(),
            forall|k: int| 0 <= k < pieces@.len() ==> (#[trigger] pieces@[k])@ == sp[k],
            out@.len() == nonblank(sp.take(i as int)).len(),
            forall|k: int| 0 <= k < out@.len() ==> (#[trigger] out@[k])@ == nonblank(sp.take(i as int))[k],
        decreases pieces@.len() - i,
    {
        assert(sp.take(i + 1).drop_last() =~= sp.take(i as int));
        assert(sp.take(i + 1).last() == sp[i as int]);
        let t = trim(pieces[i].as_str());
        if !t.is_empty() {
            out.push(t.to_owned());
        }
        i += 1;
    }
    assert(sp.take(sp.len() as int) =~= sp);
    out
}

/// Parse markdown-style pipe-table text into the wire table shape: the
/// first non-blank line is the header row; a second line holding a `-` or a
/// `|` is the alignment row (its cells give `column_aligns`) and is not a
/// data row; every further non-blank line is a body row. `column_aligns`
/// is padded with `""` to the widest row.
pub fn parse_pipe_table_to_wire(content: &str) -> (r: WireTable)
    ensures
        wire_table_of(content@, r),
{
    let lines = nonblank_lines(content);
    let ghost ls = table_lines(content@);
    if lines.len() == 0 {
        return WireTable { header_rows: 0, column_aligns: Vec::new(), rows: Vec::new() };
    }
    let mut column_aligns: Vec<String> = Vec::new();
    let mut start: usize = 1;
    if lines.len() > 1 && has_dash_or_pipe(lines[1].as_str()) {
        let parts = parse_pipe_row(lines[1].as_str());
        let mut i: usize = 0;
        while i < parts.len()
            invariant
                has_align_row(ls),
                i <= parts@.len(),
                parts@.len() == row_aligns(ls).len(),
                forall|k: int| 0 <= k < parts@.len() ==> (#[trigger] parts@[k])@ == pipe_row_cells(ls[1])[k],
                column_aligns@.len() == i,
                forall|k: int| 0 <= k < i ==> (#[trigger] column_aligns@[k])@ == row_aligns(ls)[k],
            decreases parts@.len() - i,
        {
            column_aligns.push(align_string(parts[i].as_str()));
            i += 1;
        }
        start = 2;
    }
    assert(start == body_start(ls));
    assert(column_aligns@.len() == row_aligns(ls).len());
    let mut rows: Vec<Vec<String>> = Vec::new();
    let mut widest_len: usize = 0;
    let first = parse_pipe_row(lines[0].as_str());
    widest_len = first.len();
    rows.push(first);
    assert(widest(ls, 1) == pipe_row_cells(ls[0]).len()) by {
        assert(widest(ls, 0) == 0);
    }
    let mut j: usize = start;
    while j < lines.len()
        invariant
            ls.len() > 0,
            lines@.len() == ls.len(),
            forall|k: int| 0 <= k < lines@.len() ==> (#[trigger] lines@[k])@ == ls[k],
            start == body_start(ls),
            start <= j <= lines@.len(),
            rows@.len() == 1 + j - start,
            widest_len == widest(ls, rows@.len() as int),
            forall|k: int| 0 <= k < rows@.len() ==> (#[trigger] rows@[k])@.len() == pipe_row_cells(row_line(ls, k)).len()
                && forall|q: int| 0 <= q < rows@[k]@.len() ==> (#[trigger] rows@[k]@[q])@ == pipe_row_cells(row_line(ls, k))[q],
        decreases lines@.len() - j,
    {
        let row = parse_pipe_row(lines[j].as_str());
        let ghost k = rows@.len() as int;
        assert(row_line(ls, k) == ls[j as int]);
        if row.len() > widest_len {
            widest_len = row.len();
        }
        rows.push(row);
        j += 1;
    }
    let ghost al = row_aligns(ls);
    while column_aligns.len() < widest_len
        invariant
            al.len() <= column_aligns@.len(),
            forall|i: int| 0 <= i < column_aligns@.len() ==> (#[trigger] column_aligns@[i])@
                == if i < al.len() { al[i] } else { Seq::<char>::empty() },
            column_aligns@.len() <= (if al.len() >= widest_len { al.len() } else { widest_len as nat }),
        decreases widest_len - column_aligns@.len(),
    {
        column_aligns.push(String::new());
    }
    WireTable { header_rows: 1, column_aligns, rows }
}

/// `widest` bounds every counted row.
proof fn lemma_widest_bounds(ls: Seq<Seq<char>>, n: int, k: int)
    requires
        0 <= k < n,
    ensures
        pipe_row_cells(row_line(ls, k)).len() <= widest(ls, n),
    decreases n,
{
    if k < n - 1 {
        lemma_widest_bounds(ls, n - 1, k);
    }
}

/// Every row fits the column alignments: there is an alignment for each
/// cell of each row, and when the alignment row is no wider than the widest
/// row, there is exactly one alignment per column of the widest row.
pub proof fn lemma_aligns_cover_rows(s: Seq<char>, r: WireTable)
    requires
        wire_table_of(s, r),
    ensures
        forall|k: int| 0 <= k < r.rows@.len() ==> (#[trigger] r.rows@[k])@.len() <= r.column_aligns@.len(),
        row_aligns(table_lines(s)).len() <= widest(table_lines(s), row_count(table_lines(s)))
            ==> r.column_aligns@.len() == widest(table_lines(s), row_count(table_lines(s))),
{
    let ls = table_lines(s);
    assert forall|k: int| 0 <= k < r.rows@.len() implies (#[trigger] r.rows@[k])@.len() <= r.column_aligns@.len() by {
        lemma_widest_bounds(ls, row_count(ls), k);
    }
}

} // verus!
