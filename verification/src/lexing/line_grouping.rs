//! Line grouping: flat tokens become classified line tokens.
//!
//! Lines end at (and include) each line break. `Indent` and `Dedent` tokens
//! are structural and get a line token of their own: an indent carries the
//! indentation tokens it replaced, a dedent carries itself. Each line is
//! classified, then dialog detection runs over the whole sequence.
use vstd::prelude::*;
use std::ops::Range;
use crate::lexing::line_classification::{classify_line_tokens, classify_spec};
use crate::token::{
    copy_range, is_end_punctuation_token, is_whitespace_token, LineToken, LineType, Token,
};

verus! {

/// One group of the flat stream: a text line `[a, b)` or a structural token at `i`.
pub enum LineGroup {
    Line(int, int),
    Standalone(int),
}

/// The groups of `ps` from index `i`, where the current line started at `start`.
pub open spec fn groups_from(ps: Seq<(Token, Range<usize>)>, i: int, start: int) -> Seq<LineGroup>
    decreases ps.len() - i,
{
    if i < 0 || i >= ps.len() {
        if 0 <= start < ps.len() {
            seq![LineGroup::Line(start, ps.len() as int)]
        } else {
            Seq::empty()
        }
    } else if ps[i].0 is Indent || ps[i].0 is Dedent {
        (if start < i {
            seq![LineGroup::Line(start, i)]
        } else {
            Seq::empty()
        }) + seq![LineGroup::Standalone(i)] + groups_from(ps, i + 1, i + 1)
    } else if ps[i].0 is BlankLine {
        seq![LineGroup::Line(start, i + 1)] + groups_from(ps, i + 1, i + 1)
    } else {
        groups_from(ps, i + 1, start)
    }
}

/// The line groups of a flat token stream.
pub open spec fn line_groups(ps: Seq<(Token, Range<usize>)>) -> Seq<LineGroup> {
    groups_from(ps, 0, 0)
}

/// The tokens and spans are those of group `g` of `ps`.
pub open spec fn content_matches(
    ps: Seq<(Token, Range<usize>)>,
    g: LineGroup,
    toks: Seq<Token>,
    spans: Seq<Range<usize>>,
) -> bool {
    match g {
        LineGroup::Line(a, b) => {
            &&& 0 <= a <= b <= ps.len()
            &&& toks.len() == b - a
            &&& spans.len() == b - a
            &&& forall|k: int|
                0 <= k < b - a ==> (#[trigger] toks[k])@ == ps[a + k].0@
                    && spans[k] == ps[a + k].1
        },
        LineGroup::Standalone(i) => {
            &&& 0 <= i < ps.len()
            &&& match ps[i].0 {
                Token::Indent(v) => {
                    &&& toks.len() == v@.len()
                    &&& spans.len() == v@.len()
                    &&& forall|k: int|
                        0 <= k < v@.len() ==> (#[trigger] toks[k])@ == v@[k].0@
                            && spans[k] == v@[k].1
                },
                _ => {
                    &&& toks.len() == 1
                    &&& spans.len() == 1
                    &&& toks[0]@ == ps[i].0@
                    &&& spans[0] == ps[i].1
                },
            }
        },
    }
}

/// The tokens and spans of `l` are those of group `g` of `ps`.
pub open spec fn line_content_matches(ps: Seq<(Token, Range<usize>)>, g: LineGroup, l: LineToken) -> bool {
    content_matches(ps, g, l.source_tokens@, l.token_spans@)
}

/// The classification a group gets before dialog detection.
pub open spec fn base_line_type(ps: Seq<(Token, Range<usize>)>, g: LineGroup, toks: Seq<Token>) -> LineType {
    match g {
        LineGroup::Line(_, _) => classify_spec(toks),
        LineGroup::Standalone(i) => if ps[i].0 is Indent {
            LineType::Indent
        } else {
            LineType::Dedent
        },
    }
}

/// Index of the last non-whitespace token below `n`, or -1.
pub open spec fn last_non_ws(t: Seq<Token>, n: int) -> int
    decreases n,
{
    if n <= 0 || n > t.len() {
        -1
    } else if !is_whitespace_token(t[n - 1]) {
        n - 1
    } else {
        last_non_ws(t, n - 1)
    }
}

/// The last two non-whitespace tokens of the line are both end punctuation.
pub open spec fn ends_in_double_punct(t: Seq<Token>) -> bool {
    let a = last_non_ws(t, t.len() as int);
    let b = last_non_ws(t, a);
    a >= 0 && b >= 0 && is_end_punctuation_token(t[a]) && is_end_punctuation_token(t[b])
}

/// Dialog detection from line `k` on, with the dialog state `in_dialog`: a
/// list line ending in two end-punctuation tokens starts dialog; following
/// list lines are dialog; blank lines and other lines end it.
pub open spec fn dialog_from(types: Seq<LineType>, ends: Seq<bool>, k: int, in_dialog: bool) -> Seq<LineType>
    decreases types.len() - k,
{
    if k < 0 || k >= types.len() {
        Seq::empty()
    } else {
        let t = types[k];
        if t == LineType::BlankLine {
            seq![t] + dialog_from(types, ends, k + 1, false)
        } else {
            let d1 = if t != LineType::ListLine && t != LineType::DialogLine {
                false
            } else {
                in_dialog
            };
            let t1 = if d1 {
                LineType::DialogLine
            } else {
                t
            };
            if t1 == LineType::ListLine && ends[k] {
                seq![LineType::DialogLine] + dialog_from(types, ends, k + 1, true)
            } else {
                seq![t1] + dialog_from(types, ends, k + 1, d1)
            }
        }
    }
}

/// The line types of a sequence of lines.
pub open spec fn types_of(s: Seq<LineToken>) -> Seq<LineType> {
    s.map_values(|l: LineToken| l.line_type)
}

/// Whether each line ends in two end-punctuation tokens.
pub open spec fn ends_of(s: Seq<LineToken>) -> Seq<bool> {
    s.map_values(|l: LineToken| ends_in_double_punct(l.source_tokens@))
}

/// Classify a line built from `ps[a..b]`.
fn classify_and_create_line_token(ps: &Vec<(Token, Range<usize>)>, a: usize, b: usize) -> (l: LineToken)
    requires
        a <= b <= ps@.len(),
    ensures
        line_content_matches(ps@, LineGroup::Line(a as int, b as int), l),
        l.line_type == classify_spec(l.source_tokens@),
{
    let mut toks: Vec<Token> = Vec::new();
    let mut spans: Vec<Range<usize>> = Vec::new();
    let mut i = a;
    while i < b
        invariant
            a <= i <= b <= ps@.len(),
            toks@.len() == i - a,
            spans@.len() == i - a,
            forall|k: int|
                0 <= k < i - a ==> (#[trigger] toks@[k])@ == ps@[a + k].0@ && spans@[k] == ps@[a + k].1,
        decreases b - i,
    {
        toks.push(ps[i].0.clone());
        spans.push(copy_range(&ps[i].1));
        i += 1;
    }
    let line_type = classify_line_tokens(toks.as_slice());
    LineToken { source_tokens: toks, token_spans: spans, line_type }
}

/// Separate (token, range) pairs into tokens and ranges.
pub fn unzip_pairs(v: &Vec<(Token, Range<usize>)>) -> (r: (Vec<Token>, Vec<Range<usize>>))
    ensures
        r.0@.len() == v@.len(),
        r.1@.len() == v@.len(),
        forall|j: int| 0 <= j < v@.len() ==> (#[trigger] r.0@[j])@ == v@[j].0@ && r.1@[j] == v@[j].1,
{
    let mut toks: Vec<Token> = Vec::new();
    let mut spans: Vec<Range<usize>> = Vec::new();
    let mut k: usize = 0;
    while k < v.len()
        invariant
            k <= v@.len(),
            toks@.len() == k,
            spans@.len() == k,
            forall|j: int| 0 <= j < k ==> (#[trigger] toks@[j])@ == v@[j].0@ && spans@[j] == v@[j].1,
        decreases v@.len() - k,
    {
        let t = v[k].0.clone();
        let r = copy_range(&v[k].1);
        toks.push(t);
        spans.push(r);
        assert(toks@[k as int]@ == v@[k as int].0@);
        assert(spans@[k as int] == v@[k as int].1);
        k += 1;
    }
    (toks, spans)
}

/// The line token of a structural token.
fn structural_line(ps: &Vec<(Token, Range<usize>)>, i: usize) -> (l: LineToken)
    requires
        i < ps@.len(),
        ps@[i as int].0 is Indent || ps@[i as int].0 is Dedent,
    ensures
        line_content_matches(ps@, LineGroup::Standalone(i as int), l),
        l.line_type == base_line_type(ps@, LineGroup::Standalone(i as int), l.source_tokens@),
{
    match &ps[i].0 {
        Token::Indent(sources) => {
            let (toks, spans) = unzip_pairs(sources);
            LineToken { source_tokens: toks, token_spans: spans, line_type: LineType::Indent }
        },
        _ => {
            let t = ps[i].0.clone();
            let r = copy_range(&ps[i].1);
            LineToken { source_tokens: vec![t], token_spans: vec![r], line_type: LineType::Dedent }
        },
    }
}

/// Whether the last two non-whitespace tokens are both end punctuation.
fn ends_with_double_punct(t: &Vec<Token>) -> (b: bool)
    ensures
        b == ends_in_double_punct(t@),
{
    let mut i: usize = t.len();
    while i > 0 && t[i - 1].is_whitespace()
        invariant
            i <= t@.len(),
            last_non_ws(t@, i as int) == last_non_ws(t@, t@.len() as int),
        decreases i,
    {
        i -= 1;
    }
    if i == 0 {
        return false;
    }
    let a = i - 1;
    let mut j: usize = a;
    while j > 0 && t[j - 1].is_whitespace()
        invariant
            j <= a < t@.len(),
            last_non_ws(t@, j as int) == last_non_ws(t@, a as int),
        decreases j,
    {
        j -= 1;
    }
    if j == 0 {
        return false;
    }
    t[a].is_end_punctuation() && t[j - 1].is_end_punctuation()
}

/// Dialog detection: a list line whose last two non-whitespace tokens are end
/// punctuation becomes a dialog line, and so do the list lines that follow it
/// until a blank or non-list line.
fn apply_dialog_detection(line_tokens: Vec<LineToken>) -> (r: Vec<LineToken>)
    ensures
        r@.len() == line_tokens@.len(),
        forall|k: int|
            0 <= k < r@.len() ==> (#[trigger] r@[k]).source_tokens == line_tokens@[k].source_tokens
                && r@[k].token_spans == line_tokens@[k].token_spans,
        types_of(r@) == dialog_from(types_of(line_tokens@), ends_of(line_tokens@), 0, false),
{
    let ghost input = line_tokens@;
    let ghost types = types_of(input);
    let ghost ends = ends_of(input);
    let mut out: Vec<LineToken> = Vec::new();
    let mut in_dialog = false;
    assert(types_of(out@) + dialog_from(types, ends, 0, false) =~= dialog_from(types, ends, 0, false));
    for l in it: line_tokens
        invariant
            it.seq() == input,
            types == types_of(input),
            ends == ends_of(input),
            out@.len() == it.index(),
            forall|k: int|
                0 <= k < out@.len() ==> (#[trigger] out@[k]).source_tokens == input[k].source_tokens
                    && out@[k].token_spans == input[k].token_spans,
            types_of(out@) + dialog_from(types, ends, it.index() as int, in_dialog) == dialog_from(
                types,
                ends,
                0,
                false,
            ),
    {
        let ghost k = it.index() as int;
        let ghost before = out@;
        let ghost d0 = in_dialog;
        let mut line = l;
        assert(line == input[k]);
        let t = line.line_type;
        assert(types[k] == t);
        if t == LineType::BlankLine {
            in_dialog = false;
        } else {
            if t != LineType::ListLine && t != LineType::DialogLine {
                in_dialog = false;
            }
            if in_dialog {
                line.line_type = LineType::DialogLine;
            }
            if line.line_type == LineType::ListLine {
                let e = ends_with_double_punct(&line.source_tokens);
                assert(ends[k] == e);
                if e {
                    line.line_type = LineType::DialogLine;
                    in_dialog = true;
                }
            }
        }
        let ghost nt = line.line_type;
        out.push(line);
        assert(types_of(out@) =~= types_of(before).push(nt));
        assert(types_of(out@) + dialog_from(types, ends, k + 1, in_dialog) =~= types_of(before) + (
        seq![nt] + dialog_from(types, ends, k + 1, in_dialog)));
    }
    assert(dialog_from(types, ends, input.len() as int, in_dialog) =~= Seq::<LineType>::empty());
    assert(types_of(out@) + Seq::<LineType>::empty() =~= types_of(out@));
    out
}

/// The final line types of lines with the token sequences `toks`: dialog
/// detection over the base classification.
pub open spec fn grouped_line_types(ps: Seq<(Token, Range<usize>)>, toks: Seq<Seq<Token>>) -> Seq<LineType> {
    dialog_from(
        Seq::new(toks.len(), |k: int| base_line_type(ps, line_groups(ps)[k], toks[k])),
        Seq::new(toks.len(), |k: int| ends_in_double_punct(toks[k])),
        0,
        false,
    )
}

/// The token sequences of a sequence of lines.
pub open spec fn token_seqs(s: Seq<LineToken>) -> Seq<Seq<Token>> {
    s.map_values(|l: LineToken| l.source_tokens@)
}

/// Group flat tokens into classified line tokens: lines end at line breaks,
/// structural tokens get their own line, each line is classified, and dialog
/// detection runs last.
pub fn group_into_lines(tokens: Vec<(Token, Range<usize>)>) -> (r: Vec<LineToken>)
    ensures
        r@.len() == line_groups(tokens@).len(),
        forall|k: int|
            0 <= k < r@.len() ==> line_content_matches(tokens@, line_groups(tokens@)[k], #[trigger] r@[k]),
        types_of(r@) == grouped_line_types(tokens@, token_seqs(r@)),
{
    let ghost ps = tokens@;
    let n = tokens.len();
    let mut lines: Vec<LineToken> = Vec::new();
    let ghost mut done: Seq<LineGroup> = Seq::empty();
    let mut start: usize = 0;
    let mut i: usize = 0;
    assert(done + groups_from(ps, 0, 0) =~= groups_from(ps, 0, 0));
    while i < n
        invariant
            ps == tokens@,
            n == ps.len(),
            start <= i <= n,
            done + groups_from(ps, i as int, start as int) == line_groups(ps),
            lines@.len() == done.len(),
            forall|k: int|
                0 <= k < lines@.len() ==> line_content_matches(ps, done[k], #[trigger] lines@[k])
                    && lines@[k].line_type == base_line_type(ps, done[k], lines@[k].source_tokens@),
        decreases n - i,
    {
        let ghost d0 = done;
        let ghost l0 = lines@;
        if matches!(tokens[i].0, Token::Indent(_) | Token::Dedent(_)) {
            if start < i {
                let l = classify_and_create_line_token(&tokens, start, i);
                lines.push(l);
                proof {
                    done = done.push(LineGroup::Line(start as int, i as int));
                }
            }
            let l = structural_line(&tokens, i);
            lines.push(l);
            proof {
                done = done.push(LineGroup::Standalone(i as int));
                assert(done + groups_from(ps, i + 1, i + 1) =~= d0 + groups_from(ps, i as int, start as int));
                assert forall|k: int| 0 <= k < lines@.len() implies line_content_matches(ps, done[k], #[trigger] lines@[k])
                    && lines@[k].line_type == base_line_type(ps, done[k], lines@[k].source_tokens@) by {
                    if k < l0.len() {
                        assert(lines@[k] == l0[k]);
                        assert(done[k] == d0[k]);
                    }
                }
            }
            start = i + 1;
        } else if matches!(tokens[i].0, Token::BlankLine(_)) {
            let l = classify_and_create_line_token(&tokens, start, i + 1);
            lines.push(l);
            proof {
                done = done.push(LineGroup::Line(start as int, i + 1));
                assert(done + groups_from(ps, i + 1, i + 1) =~= d0 + groups_from(ps, i as int, start as int));
                assert forall|k: int| 0 <= k < lines@.len() implies line_content_matches(ps, done[k], #[trigger] lines@[k])
                    && lines@[k].line_type == base_line_type(ps, done[k], lines@[k].source_tokens@) by {
                    if k < l0.len() {
                        assert(lines@[k] == l0[k]);
                        assert(done[k] == d0[k]);
                    }
                }
            }
            start = i + 1;
        }
        i += 1;
    }
    let ghost d0 = done;
    let ghost l0 = lines@;
    if start < n {
        let l = classify_and_create_line_token(&tokens, start, n);
        lines.push(l);
        proof {
            done = done.push(LineGroup::Line(start as int, n as int));
        }
    }
    proof {
        assert(done =~= line_groups(ps));
        assert forall|k: int| 0 <= k < lines@.len() implies line_content_matches(ps, done[k], #[trigger] lines@[k])
            && lines@[k].line_type == base_line_type(ps, done[k], lines@[k].source_tokens@) by {
            if k < l0.len() {
                assert(lines@[k] == l0[k]);
                assert(done[k] == d0[k]);
            }
        }
    }
    let ghost base = lines@;
    let r = apply_dialog_detection(lines);
    proof {
        assert(types_of(base) =~= Seq::new(r@.len(), |k: int| base_line_type(ps, line_groups(ps)[k], token_seqs(r@)[k])));
        assert(ends_of(base) =~= Seq::new(r@.len(), |k: int| ends_in_double_punct(token_seqs(r@)[k])));
        assert forall|k: int| 0 <= k < r@.len() implies line_content_matches(ps, line_groups(ps)[k], #[trigger] r@[k]) by {
            assert(line_content_matches(ps, done[k], base[k]));
            assert(done[k] == line_groups(ps)[k]);
            assert(r@[k].source_tokens == base[k].source_tokens);
            assert(r@[k].token_spans == base[k].token_spans);
            assert(r@[k].source_tokens@ == base[k].source_tokens@);
            assert(r@[k].token_spans@ == base[k].token_spans@);
        }
    }
    r
}

} // verus!
