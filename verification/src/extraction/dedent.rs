//! Line-wise dedenting of multi-line cell text: the common leading
//! whitespace of the non-blank lines is removed.
use vstd::prelude::*;
use vstd::string::*;
use crate::text::{
    chars_in_bytes, is_boundary, char_byte_offsets, chars_of, char_is_whitespace, lead_ws, lemma_utf8_len_concat, lemma_ws_bounds,
    string_from_chars, trim_spec, trim_start_spec, utf8_len,
};

verus! {

/// The pieces of `s` between line feeds (one more than the number of line feeds).
pub open spec fn split_nl(s: Seq<char>) -> Seq<Seq<char>>
    decreases s.len(),
{
    if s.len() == 0 {
        seq![Seq::<char>::empty()]
    } else {
        let p = split_nl(s.drop_last());
        if s.last() == '\n' {
            p.push(Seq::<char>::empty())
        } else {
            p.update(p.len() - 1, p.last().push(s.last()))
        }
    }
}

/// A line without the carriage return that preceded its line feed.
pub open spec fn strip_cr(l: Seq<char>) -> Seq<char> {
    if l.len() > 0 && l.last() == '\r' {
        l.drop_last()
    } else {
        l
    }
}

/// The lines of `s` as `str::lines` yields them: split at `\n` or `\r\n`,
/// terminators removed, and no empty line after a final line ending.
pub open spec fn str_lines(s: Seq<char>) -> Seq<Seq<char>> {
    let p = split_nl(s);
    let n = if s.len() == 0 || s.last() == '\n' { p.len() - 1 } else { p.len() as int };
    Seq::new(n as nat, |i: int| if i < p.len() - 1 { strip_cr(p[i]) } else { p[i] })
}

/// A line is blank when it trims to nothing.
pub open spec fn is_blank_line(l: Seq<char>) -> bool {
    trim_spec(l).len() == 0
}

/// Bytes of leading whitespace of a line.
pub open spec fn lead_bytes(l: Seq<char>) -> int {
    utf8_len(l) - utf8_len(trim_start_spec(l))
}

/// The smallest leading-whitespace width (bytes) over the non-blank lines
/// among the first `n`, if any.
pub open spec fn min_lead(lines: Seq<Seq<char>>, n: int) -> Option<int>
    decreases n,
{
    if n <= 0 {
        None
    } else {
        let prev = min_lead(lines, n - 1);
        let l = lines[n - 1];
        if is_blank_line(l) {
            prev
        } else {
            match prev {
                None => Some(lead_bytes(l)),
                Some(m) => Some(if lead_bytes(l) < m { lead_bytes(l) } else { m }),
            }
        }
    }
}

/// The indentation baseline of a text: the smallest leading-whitespace width
/// of its non-blank lines, 0 when it has none.
pub open spec fn baseline(s: Seq<char>) -> int {
    match min_lead(str_lines(s), str_lines(s).len() as int) {
        Some(m) => m,
        None => 0,
    }
}

/// A line once the baseline `b` is removed.
pub open spec fn dedent_line(l: Seq<char>, b: int) -> Seq<char> {
    if is_blank_line(l) {
        Seq::empty()
    } else if utf8_len(l) > b {
        l.skip(chars_in_bytes(l, b))
    } else {
        trim_start_spec(l)
    }
}

/// Lines joined with `\n`.
pub open spec fn join_lines(ls: Seq<Seq<char>>) -> Seq<char>
    decreases ls.len(),
{
    if ls.len() == 0 {
        Seq::empty()
    } else if ls.len() == 1 {
        ls[0]
    } else {
        join_lines(ls.drop_last()).push('\n') + ls.last()
    }
}

/// Dedenting can be done: the baseline falls on a character boundary of
/// every non-blank line that is longer than it.
pub open spec fn dedent_ok(s: Seq<char>) -> bool {
    baseline(s) > 0 ==> forall|i: int|
        0 <= i < str_lines(s).len() && !is_blank_line(#[trigger] str_lines(s)[i]) && utf8_len(str_lines(s)[i])
            > baseline(s) ==> is_boundary(str_lines(s)[i], baseline(s))
}

/// The dedented text: unchanged when the baseline is 0, else the lines with
/// the baseline removed (blank lines emptied), joined with `\n`.
pub open spec fn dedent_spec(s: Seq<char>) -> Seq<char> {
    let b = baseline(s);
    if b <= 0 {
        s
    } else {
        join_lines(Seq::new(str_lines(s).len(), |i: int| dedent_line(str_lines(s)[i], b)))
    }
}

} // verus!

verus! {

/// Prefix byte widths of `v`: entry `k` is the UTF-8 width of `v.take(k)`.
fn prefix_widths(v: &Vec<char>) -> (offs: Vec<usize>)
    requires
        utf8_len(v@) <= usize::MAX,
    ensures
        offs@.len() == v@.len() + 1,
        forall|k: int| 0 <= k <= v@.len() ==> #[trigger] offs@[k] == utf8_len(v@.take(k)),
{
    let mut offs: Vec<usize> = Vec::new();
    offs.push(0);
    assert(v@.take(0) =~= Seq::<char>::empty());
    assert(utf8_len(Seq::<char>::empty()) == 0) by {
        assert(vstd::utf8::encode_utf8(Seq::<char>::empty()) =~= Seq::<u8>::empty());
    }
    let mut i: usize = 0;
    let mut acc: usize = 0;
    while i < v.len()
        invariant
            i <= v@.len(),
            utf8_len(v@) <= usize::MAX,
            acc == utf8_len(v@.take(i as int)),
            offs@.len() == i + 1,
            forall|k: int| 0 <= k <= i ==> #[trigger] offs@[k] == utf8_len(v@.take(k)),
        decreases v@.len() - i,
    {
        let w = crate::text::char_width(v[i]);
        proof {
            crate::text::lemma_utf8_len_take_step(v@, i as int);
            crate::text::lemma_utf8_len_take_mono(v@, i + 1, v@.len() as int);
            assert(v@.take(v@.len() as int) =~= v@);
        }
        acc = acc + w;
        offs.push(acc);
        i += 1;
    }
    offs
}

/// The pieces of `c` between line feeds.
fn split_pieces(c: &Vec<char>) -> (p: Vec<Vec<char>>)
    ensures
        p@.len() == split_nl(c@).len(),
        forall|i: int| 0 <= i < p@.len() ==> (#[trigger] p@[i])@ == split_nl(c@)[i],
{
    let mut p: Vec<Vec<char>> = Vec::new();
    p.push(Vec::new());
    assert(c@.take(0) =~= Seq::<char>::empty());
    let mut i: usize = 0;
    while i < c.len()
        invariant
            i <= c@.len(),
            p@.len() == split_nl(c@.take(i as int)).len(),
            p@.len() >= 1,
            forall|k: int| 0 <= k < p@.len() ==> (#[trigger] p@[k])@ == split_nl(c@.take(i as int))[k],
        decreases c@.len() - i,
    {
        let ghost before = p@;
        assert(c@.take(i + 1).drop_last() =~= c@.take(i as int));
        if c[i] == '\n' {
            p.push(Vec::new());
            proof {
                assert forall|k: int| 0 <= k < p@.len() implies (#[trigger] p@[k])@ == split_nl(c@.take(i + 1))[k] by {
                    if k < before.len() {
                        assert(p@[k] == before[k]);
                    }
                }
            }
        } else {
            let mut last = p.pop().unwrap();
            last.push(c[i]);
            p.push(last);
            proof {
                assert forall|k: int| 0 <= k < p@.len() implies (#[trigger] p@[k])@ == split_nl(c@.take(i + 1))[k] by {
                    if k < before.len() - 1 {
                        assert(p@[k] == before[k]);
                    }
                }
            }
        }
        i += 1;
    }
    assert(c@.take(c@.len() as int) =~= c@);
    p
}

/// Facts about the pieces: there is at least one, and their widths add up
/// to at most the width of the text.
proof fn lemma_split_nl(s: Seq<char>)
    ensures
        split_nl(s).len() >= 1,
        split_nl(s).len() == 1 ==> split_nl(s)[0] == s,
        forall|i: int| 0 <= i < split_nl(s).len() ==> utf8_len(#[trigger] split_nl(s)[i]) <= utf8_len(s),
        s.len() > 0 && s.last() == '\n' ==> split_nl(s).last().len() == 0,
        s.len() == 0 ==> split_nl(s).last().len() == 0,
    decreases s.len(),
{
    if s.len() > 0 {
        let t = s.drop_last();
        lemma_split_nl(t);
        assert(s =~= t.push(s.last()));
        crate::text::lemma_encode_utf8_push(t, s.last());
        let p = split_nl(t);
        if s.last() != '\n' {
            assert forall|i: int| 0 <= i < split_nl(s).len() implies utf8_len(#[trigger] split_nl(s)[i]) <= utf8_len(s) by {
                if i == p.len() - 1 {
                    crate::text::lemma_encode_utf8_push(p.last(), s.last());
                } else {
                    assert(split_nl(s)[i] == p[i]);
                }
            }
            if split_nl(s).len() == 1 {
                assert(p.last() == t);
            }
        } else {
            assert forall|i: int| 0 <= i < split_nl(s).len() implies utf8_len(#[trigger] split_nl(s)[i]) <= utf8_len(s) by {
                if i < p.len() {
                    assert(split_nl(s)[i] == p[i]);
                } else {
                    assert(vstd::utf8::encode_utf8(Seq::<char>::empty()) =~= Seq::<u8>::empty());
                }
            }
        }
    } else {
        assert(vstd::utf8::encode_utf8(Seq::<char>::empty()) =~= Seq::<u8>::empty());
    }
}

/// The lines of `c`, as `str::lines` yields them.
fn text_lines(c: &Vec<char>) -> (ls: Vec<Vec<char>>)
    ensures
        ls@.len() == str_lines(c@).len(),
        forall|i: int| 0 <= i < ls@.len() ==> (#[trigger] ls@[i])@ == str_lines(c@)[i],
{
    let p = split_pieces(c);
    proof {
        lemma_split_nl(c@);
    }
    let n = if c.len() == 0 || c[c.len() - 1] == '\n' { p.len() - 1 } else { p.len() };
    let mut ls: Vec<Vec<char>> = Vec::new();
    let mut i: usize = 0;
    while i < n
        invariant
            n as int == (if c@.len() == 0 || c@.last() == '\n' { split_nl(c@).len() - 1 } else { split_nl(c@).len() as int }),
            n <= p@.len(),
            p@.len() == split_nl(c@).len(),
            forall|k: int| 0 <= k < p@.len() ==> (#[trigger] p@[k])@ == split_nl(c@)[k],
            i <= n,
            ls@.len() == i,
            forall|k: int| 0 <= k < i ==> (#[trigger] ls@[k])@ == str_lines(c@)[k],
        decreases n - i,
    {
        let piece = &p[i];
        let line = if i + 1 < p.len() && piece.len() > 0 && piece[piece.len() - 1] == '\r' {
            let mut l: Vec<char> = Vec::new();
            let mut j: usize = 0;
            while j + 1 < piece.len()
                invariant
                    piece.len() >= 1,
                    j + 1 <= piece@.len(),
                    l@ == piece@.take(j as int),
                decreases piece@.len() - j,
            {
                l.push(piece[j]);
                assert(piece@.take(j + 1) =~= piece@.take(j as int).push(piece@[j as int]));
                j += 1;
            }
            assert(l@ =~= piece@.drop_last());
            l
        } else {
            let mut l: Vec<char> = Vec::new();
            let mut j: usize = 0;
            while j < piece.len()
                invariant
                    j <= piece@.len(),
                    l@ == piece@.take(j as int),
                decreases piece@.len() - j,
            {
                l.push(piece[j]);
                assert(piece@.take(j + 1) =~= piece@.take(j as int).push(piece@[j as int]));
                j += 1;
            }
            assert(l@ =~= piece@);
            l
        };
        ls.push(line);
        i += 1;
    }
    ls
}

} // verus!

verus! {

/// A line is blank exactly when its leading whitespace covers it, and its
/// leading whitespace width is the width of that run.
proof fn lemma_line_facts(l: Seq<char>)
    ensures
        lead_ws(l) <= l.len(),
        is_blank_line(l) <==> lead_ws(l) == l.len(),
        lead_bytes(l) == utf8_len(l.take(lead_ws(l) as int)),
        utf8_len(trim_start_spec(l)) <= utf8_len(l),
{
    lemma_ws_bounds(l);
    let k = lead_ws(l) as int;
    let a = l.skip(k);
    assert(l =~= l.take(k) + a);
    lemma_utf8_len_concat(l.take(k), a);
    lemma_ws_bounds(a);
    if k < l.len() {
        assert(a[0] == l[k]);
        assert(lead_ws(a) == 0);
        lemma_trail_ws_lt(a);
    }
}

/// A sequence whose first character is not whitespace keeps it when trimmed.
proof fn lemma_trail_ws_lt(a: Seq<char>)
    requires
        a.len() > 0,
        lead_ws(a) == 0,
    ensures
        crate::text::trail_ws(a) < a.len(),
        crate::text::trim_end_spec(a).len() > 0,
{
    lemma_ws_bounds(a);
}

/// The lines of a text are no wider than the text.
proof fn lemma_lines_width(s: Seq<char>)
    ensures
        forall|i: int| 0 <= i < str_lines(s).len() ==> utf8_len(#[trigger] str_lines(s)[i]) <= utf8_len(s),
{
    lemma_split_nl(s);
    let p = split_nl(s);
    assert forall|i: int| 0 <= i < str_lines(s).len() implies utf8_len(#[trigger] str_lines(s)[i]) <= utf8_len(s) by {
        let l = p[i];
        if l.len() > 0 && l.last() == '\r' {
            assert(l =~= l.drop_last().push('\r'));
            crate::text::lemma_encode_utf8_push(l.drop_last(), '\r');
        }
    }
}

/// Leading-whitespace character count of a line.
fn lead_count(l: &Vec<char>) -> (n: usize)
    ensures
        n == lead_ws(l@),
{
    let mut n: usize = 0;
    assert(l@.skip(0) =~= l@);
    while n < l.len() && crate::text::is_whitespace(l[n])
        invariant
            n <= l@.len(),
            lead_ws(l@) == n + lead_ws(l@.skip(n as int)),
        decreases l@.len() - n,
    {
        assert(l@.skip(n as int).drop_first() =~= l@.skip(n + 1));
        n += 1;
    }
    n
}

/// The indentation baseline of a text's lines.
fn compute_baseline(ls: &Vec<Vec<char>>, Ghost(s): Ghost<Seq<char>>) -> (b: usize)
    requires
        ls@.len() == str_lines(s).len(),
        forall|i: int| 0 <= i < ls@.len() ==> (#[trigger] ls@[i])@ == str_lines(s)[i],
        utf8_len(s) <= usize::MAX,
    ensures
        b == baseline(s),
{
    proof {
        lemma_lines_width(s);
    }
    let ghost lines = str_lines(s);
    let mut m: Option<usize> = None;
    let mut i: usize = 0;
    while i < ls.len()
        invariant
            ls@.len() == lines.len(),
            lines == str_lines(s),
            forall|k: int| 0 <= k < ls@.len() ==> (#[trigger] ls@[k])@ == lines[k],
            forall|k: int| 0 <= k < lines.len() ==> utf8_len(#[trigger] lines[k]) <= utf8_len(s),
            utf8_len(s) <= usize::MAX,
            i <= ls@.len(),
            (min_lead(lines, i as int) is None) == (m is None),
            m matches Some(x) ==> min_lead(lines, i as int) == Some(x as int),
        decreases ls@.len() - i,
    {
        let l = &ls[i];
        proof {
            lemma_line_facts(l@);
            assert(l@ == lines[i as int]);
        }
        let lw = lead_count(l);
        if lw < l.len() {
            let offs = prefix_widths(l);
            let lb = offs[lw];
            proof {
                assert(!is_blank_line(lines[i as int]));
                assert(lead_bytes(lines[i as int]) == lb);
            }
            m = match m {
                None => Some(lb),
                Some(x) => Some(if lb < x { lb } else { x }),
            };
            proof {
                assert(min_lead(lines, i + 1) == Some(m->0 as int));
            }
        } else {
            proof {
                assert(is_blank_line(lines[i as int]));
            }
        }
        i += 1;
    }
    match m {
        None => 0,
        Some(x) => x,
    }
}

/// Dedent cell text by removing the common leading whitespace of its
/// non-blank lines. With a baseline of 0 the text is unchanged; otherwise
/// the text is rebuilt from its lines (blank lines emptied) joined with `\n`.
pub fn dedent_cell_text(text: &mut String)
    requires
        dedent_ok(old(text)@),
    ensures
        final(text)@ == dedent_spec(old(text)@),
{
    let ghost s = text@;
    let total = crate::text::byte_len(text.as_str());
    let c = chars_of(text.as_str());
    let ls = text_lines(&c);
    let b = compute_baseline(&ls, Ghost(s));
    if b == 0 {
        return;
    }
    proof {
        lemma_lines_width(s);
    }
    let ghost lines = str_lines(s);
    let ghost target = Seq::new(lines.len(), |i: int| dedent_line(lines[i], b as int));
    let mut out: Vec<char> = Vec::new();
    let mut i: usize = 0;
    while i < ls.len()
        invariant
            b as int == baseline(s),
            b > 0,
            dedent_ok(s),
            lines == str_lines(s),
            target == Seq::new(lines.len(), |i: int| dedent_line(lines[i], b as int)),
            ls@.len() == lines.len(),
            forall|k: int| 0 <= k < ls@.len() ==> (#[trigger] ls@[k])@ == lines[k],
            forall|k: int| 0 <= k < lines.len() ==> utf8_len(#[trigger] lines[k]) <= utf8_len(s),
            utf8_len(s) <= usize::MAX,
            i <= ls@.len(),
            out@ == join_lines(target.take(i as int)),
        decreases ls@.len() - i,
    {
        let l = &ls[i];
        proof {
            lemma_line_facts(l@);
            assert(l@ == lines[i as int]);
            assert(target.take(i + 1).drop_last() =~= target.take(i as int));
        }
        if i > 0 {
            out.push('\n');
        }
        let ghost mid = out@;
        let lw = lead_count(l);
        let offs = prefix_widths(l);
        if lw < l.len() {
            let width = offs[l.len()];
            let mut q: usize = 0;
            if width > b {
                // the baseline's character boundary
                while q < l.len() && offs[q] < b
                    invariant
                        q <= l@.len(),
                        offs@.len() == l@.len() + 1,
                        forall|k: int| 0 <= k <= l@.len() ==> #[trigger] offs@[k] == utf8_len(l@.take(k)),
                        forall|k: int| 0 <= k < q ==> utf8_len(l@.take(k)) < b,
                    decreases l@.len() - q,
                {
                    q += 1;
                }
                proof {
                    assert(!is_blank_line(l@));
                    assert(utf8_len(l@) > b) by {
                        assert(l@.take(l@.len() as int) =~= l@);
                    }
                    assert(is_boundary(lines[i as int], b as int));
                    let w = choose|w: int| 0 <= w <= l@.len() && utf8_len(l@.take(w)) == b;
                    if w < q {
                    } else if w > q {
                        if q < l@.len() {
                            crate::text::lemma_widths_increase(l@, q as int, w);
                        } else {
                            assert(false);
                        }
                    }
                    assert(w == q);
                    assert(chars_in_bytes(l@, b as int) == q);
                }
            } else {
                q = lw;
                proof {
                    assert(l@.take(l@.len() as int) =~= l@);
                }
            }
            let mut j: usize = q;
            while j < l.len()
                invariant
                    q <= j <= l@.len(),
                    out@ == mid + l@.subrange(q as int, j as int),
                decreases l@.len() - j,
            {
                out.push(l[j]);
                assert(l@.subrange(q as int, j + 1) =~= l@.subrange(q as int, j as int).push(l@[j as int]));
                j += 1;
            }
            proof {
                assert(l@.subrange(q as int, l@.len() as int) =~= l@.skip(q as int));
            }
        } else {
            proof {
                assert(out@ =~= mid + Seq::<char>::empty());
            }
        }
        proof {
            assert(l@.take(l@.len() as int) =~= l@);
            assert(out@ == mid + dedent_line(lines[i as int], b as int));
            let t = target.take(i + 1);
            assert(t.last() == dedent_line(lines[i as int], b as int));
            if i == 0 {
                assert(out@ =~= join_lines(t));
            } else {
                assert(out@ =~= join_lines(t.drop_last()).push('\n') + t.last());
            }
        }
        i += 1;
    }
    assert(target.take(ls@.len() as int) =~= target);
    *text = crate::text::string_from_chars(out.as_slice());
}

} // verus!
