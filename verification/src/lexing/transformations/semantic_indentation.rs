//! Semantic indentation: raw `Indentation` tokens become `Indent`/`Dedent` pairs.
//!
//! Lines are processed in order. A line's level is the number of
//! `Indentation` tokens at its start. Blank lines (only indentation before the
//! line break) keep just their line break and never change the level. For any
//! other line, one `Indent` per level gained (each holding the `Indentation`
//! token it replaces) or one `Dedent` per level lost is emitted, then the rest
//! of the line. At the end, one `Dedent` per open level closes the document.
use vstd::prelude::*;
use std::ops::Range;
use crate::token::{
    copy_range, lemma_pairs_view_index, lemma_pairs_view_push, pairs_view, token_view, Token,
    TokenView,
};

verus! {

/// Errors of the indentation transformation.
#[derive(Debug, Clone, PartialEq)]
pub enum TransformationError {
    Error(String),
}

/// Converts raw `Indentation` tokens into semantic `Indent`/`Dedent` tokens.
pub struct SemanticIndentationMapper;

impl SemanticIndentationMapper {
    /// A new mapper.
    pub fn new() -> (m: Self) {
        SemanticIndentationMapper
    }
}

impl Default for SemanticIndentationMapper {
    fn default() -> (m: Self) {
        Self::new()
    }
}

/// The placeholder range of synthetic tokens.
pub open spec fn empty_range() -> Range<usize> {
    Range { start: 0usize, end: 0usize }
}

/// Number of `Indentation` tokens starting at `i`.
pub open spec fn indent_run(pv: Seq<(TokenView, Range<usize>)>, i: int) -> nat
    decreases pv.len() - i,
{
    if 0 <= i < pv.len() && pv[i].0 is Indentation {
        1 + indent_run(pv, i + 1)
    } else {
        0
    }
}

/// Index of the first line break at or after `i`, or the length.
pub open spec fn next_break(pv: Seq<(TokenView, Range<usize>)>, i: int) -> int
    decreases pv.len() - i,
{
    if i < 0 || i >= pv.len() {
        pv.len() as int
    } else if pv[i].0 is BlankLine {
        i
    } else {
        next_break(pv, i + 1)
    }
}

/// Start of the line after the one starting at `i`.
pub open spec fn line_after(pv: Seq<(TokenView, Range<usize>)>, i: int) -> int {
    let b = next_break(pv, i);
    if b < pv.len() {
        b + 1
    } else {
        pv.len() as int
    }
}

/// The line starting at `i` holds only indentation before its break.
pub open spec fn line_blank(pv: Seq<(TokenView, Range<usize>)>, i: int) -> bool {
    let j = i + indent_run(pv, i);
    j >= pv.len() || pv[j].0 is BlankLine
}

/// `n` synthetic dedents.
pub open spec fn dedents(n: nat) -> Seq<(TokenView, Range<usize>)> {
    Seq::new(n, |k: int| (TokenView::Dedent(Seq::empty()), empty_range()))
}

/// The level change from `cur` to `lvl` for the line starting at `i`: one
/// indent per level gained, holding the indentation token it replaces, or one
/// dedent per level lost.
pub open spec fn level_change(pv: Seq<(TokenView, Range<usize>)>, i: int, cur: nat, lvl: nat) -> Seq<
    (TokenView, Range<usize>),
> {
    if lvl > cur {
        Seq::new(
            (lvl - cur) as nat,
            |k: int| (TokenView::Indent(seq![pv[i + cur + k]]), empty_range()),
        )
    } else {
        dedents((cur - lvl) as nat)
    }
}

/// The indentation transformation of the lines from `i` on, at level `cur`.
pub open spec fn indent_from(pv: Seq<(TokenView, Range<usize>)>, i: int, cur: nat) -> Seq<
    (TokenView, Range<usize>),
>
    decreases pv.len() - i,
{
    if i < 0 || i >= pv.len() {
        dedents(cur)
    } else {
        let b = next_break(pv, i);
        let e = line_after(pv, i);
        if e <= i {
            Seq::empty()
        } else if line_blank(pv, i) {
            (if b < pv.len() {
                seq![pv[b]]
            } else {
                Seq::empty()
            }) + indent_from(pv, e, cur)
        } else {
            let lvl = indent_run(pv, i);
            level_change(pv, i, cur, lvl) + pv.subrange(i + lvl, e) + indent_from(pv, e, lvl)
        }
    }
}

/// The semantic-indentation transformation of a flat token stream.
pub open spec fn semantic_indentation_spec(pv: Seq<(TokenView, Range<usize>)>) -> Seq<
    (TokenView, Range<usize>),
> {
    indent_from(pv, 0, 0)
}

proof fn lemma_next_break(pv: Seq<(TokenView, Range<usize>)>, i: int)
    requires
        0 <= i <= pv.len(),
    ensures
        i <= next_break(pv, i) <= pv.len(),
        forall|k: int| i <= k < next_break(pv, i) ==> !(#[trigger] pv[k].0 is BlankLine),
        next_break(pv, i) < pv.len() ==> pv[next_break(pv, i)].0 is BlankLine,
    decreases pv.len() - i,
{
    if i < pv.len() && !(pv[i].0 is BlankLine) {
        lemma_next_break(pv, i + 1);
    }
}

proof fn lemma_indent_run(pv: Seq<(TokenView, Range<usize>)>, i: int)
    requires
        0 <= i <= pv.len(),
    ensures
        i + indent_run(pv, i) <= pv.len(),
        forall|k: int| i <= k < i + indent_run(pv, i) ==> #[trigger] pv[k].0 is Indentation,
        i + indent_run(pv, i) < pv.len() ==> !(pv[i + indent_run(pv, i)].0 is Indentation),
    decreases pv.len() - i,
{
    if i < pv.len() && pv[i].0 is Indentation {
        lemma_indent_run(pv, i + 1);
    }
}

/// Start of the line containing position `pos`: just after the previous line break.
pub fn find_line_start(tokens: &[Token], pos: usize) -> (r: usize)
    requires
        pos <= tokens@.len(),
    ensures
        r <= pos,
        r == 0 || tokens@[r - 1] is BlankLine,
        forall|k: int| r <= k < pos ==> !(#[trigger] tokens@[k] is BlankLine),
{
    let mut p = pos;
    while p > 0
        invariant
            p <= pos <= tokens@.len(),
            forall|k: int| p <= k < pos ==> !(#[trigger] tokens@[k] is BlankLine),
        decreases p,
    {
        p -= 1;
        if matches!(tokens[p], Token::BlankLine(_)) {
            return p + 1;
        }
    }
    0
}

/// Whether the line starting at `line_start` holds only indentation before its break.
fn is_line_blank(tokens: &[Token], line_start: usize) -> (b: bool)
    requires
        line_start <= tokens@.len(),
    ensures
        b == ({
            let j = line_start + count_steps_spec(tokens@, line_start as int);
            j >= tokens@.len() || tokens@[j] is BlankLine
        }),
{
    let mut i = line_start;
    while i < tokens.len() && matches!(tokens[i], Token::Indentation)
        invariant
            line_start <= i <= tokens@.len(),
            i + count_steps_spec(tokens@, i as int) == line_start + count_steps_spec(
                tokens@,
                line_start as int,
            ),
        decreases tokens@.len() - i,
    {
        i += 1;
    }
    i >= tokens.len() || matches!(tokens[i], Token::BlankLine(_))
}

/// Number of consecutive `Indentation` tokens from `start`.
pub open spec fn count_steps_spec(tokens: Seq<Token>, start: int) -> nat
    decreases tokens.len() - start,
{
    if 0 <= start < tokens.len() && tokens[start] is Indentation {
        1 + count_steps_spec(tokens, start + 1)
    } else {
        0
    }
}

/// Count the `Indentation` tokens at the start of a line.
pub fn count_line_indent_steps(tokens: &[Token], start: usize) -> (n: usize)
    requires
        start <= tokens@.len(),
    ensures
        n == count_steps_spec(tokens@, start as int),
{
    let mut count: usize = 0;
    let mut i = start;
    while i < tokens.len() && matches!(tokens[i], Token::Indentation)
        invariant
            start <= i <= tokens@.len(),
            count == i - start,
            count + count_steps_spec(tokens@, i as int) == count_steps_spec(tokens@, start as int),
        decreases tokens@.len() - i,
    {
        count += 1;
        i += 1;
    }
    count
}

/// The tokens of a pair sequence (the kinds, without their ranges).
fn kinds_of(tokens: &Vec<(Token, Range<usize>)>) -> (k: Vec<Token>)
    ensures
        k@.len() == tokens@.len(),
        forall|j: int| 0 <= j < k@.len() ==> (#[trigger] k@[j])@ == tokens@[j].0@,
{
    let mut out: Vec<Token> = Vec::new();
    let mut i: usize = 0;
    while i < tokens.len()
        invariant
            i <= tokens@.len(),
            out@.len() == i,
            forall|j: int| 0 <= j < i ==> (#[trigger] out@[j])@ == tokens@[j].0@,
        decreases tokens@.len() - i,
    {
        out.push(tokens[i].0.clone());
        i += 1;
    }
    out
}

/// Token kinds agree with their models on the variants the transformation reads.
proof fn lemma_kind_variants(t: Token)
    ensures
        (t is Indentation) == (token_view(t) is Indentation),
        (t is BlankLine) == (token_view(t) is BlankLine),
{
}

proof fn lemma_steps_agree(kinds: Seq<Token>, pv: Seq<(TokenView, Range<usize>)>, i: int)
    requires
        kinds.len() == pv.len(),
        forall|j: int| 0 <= j < kinds.len() ==> token_view(#[trigger] kinds[j]) == pv[j].0,
        0 <= i <= kinds.len(),
    ensures
        count_steps_spec(kinds, i) == indent_run(pv, i),
    decreases kinds.len() - i,
{
    if i < kinds.len() {
        lemma_kind_variants(kinds[i]);
        lemma_steps_agree(kinds, pv, i + 1);
    }
}

/// Append the models `pv[a..b]` by copying the input pairs.
fn push_copies(
    result: &mut Vec<(Token, Range<usize>)>,
    tokens: &Vec<(Token, Range<usize>)>,
    a: usize,
    b: usize,
)
    requires
        a <= b <= tokens@.len(),
    ensures
        pairs_view(final(result)@) == pairs_view(old(result)@) + pairs_view(tokens@).subrange(
            a as int,
            b as int,
        ),
{
    let ghost pv = pairs_view(tokens@);
    proof {
        lemma_pairs_view_index(tokens@);
    }
    let ghost start = pairs_view(result@);
    let mut j = a;
    assert(pv.subrange(a as int, a as int) =~= Seq::<(TokenView, Range<usize>)>::empty());
    assert(start + Seq::<(TokenView, Range<usize>)>::empty() =~= start);
    while j < b
        invariant
            a <= j <= b <= tokens@.len(),
            pv == pairs_view(tokens@),
            pv.len() == tokens@.len(),
            forall|k: int| 0 <= k < tokens@.len() ==> #[trigger] pv[k] == (token_view(tokens@[k].0), tokens@[k].1),
            pairs_view(result@) == start + pv.subrange(a as int, j as int),
        decreases b - j,
    {
        let t = tokens[j].0.clone();
        let r = copy_range(&tokens[j].1);
        let ghost before = result@;
        result.push((t, r));
        proof {
            lemma_pairs_view_push(before, (t, r));
            assert(pv.subrange(a as int, j + 1) =~= pv.subrange(a as int, j as int).push(pv[j as int]));
            assert(start + pv.subrange(a as int, j + 1) =~= (start + pv.subrange(a as int, j as int)).push(
                pv[j as int],
            ));
        }
        j += 1;
    }
}

/// Append `n` synthetic dedents.
fn push_dedents(result: &mut Vec<(Token, Range<usize>)>, n: usize)
    ensures
        pairs_view(final(result)@) == pairs_view(old(result)@) + dedents(n as nat),
{
    let ghost start = pairs_view(result@);
    let mut k: usize = 0;
    assert(dedents(0) =~= Seq::<(TokenView, Range<usize>)>::empty());
    assert(start + dedents(0) =~= start);
    while k < n
        invariant
            k <= n,
            pairs_view(result@) == start + dedents(k as nat),
        decreases n - k,
    {
        let ghost before = result@;
        let d = Token::Dedent(Vec::new());
        let r = Range { start: 0, end: 0 };
        result.push((d, r));
        proof {
            lemma_pairs_view_push(before, (d, r));
            assert(pairs_view(Seq::<(Token, Range<usize>)>::empty()) =~= Seq::empty());
            assert(token_view(d) == TokenView::Dedent(Seq::empty()));
            assert(dedents((k + 1) as nat) =~= dedents(k as nat).push((TokenView::Dedent(Seq::empty()), empty_range())));
            assert(start + dedents((k + 1) as nat) =~= (start + dedents(k as nat)).push(
                (TokenView::Dedent(Seq::empty()), empty_range()),
            ));
        }
        k += 1;
    }
}

/// Append the indents for the levels `cur..lvl` of the line starting at `line_start`.
fn push_indents(
    result: &mut Vec<(Token, Range<usize>)>,
    tokens: &Vec<(Token, Range<usize>)>,
    kinds: &Vec<Token>,
    line_start: usize,
    cur: usize,
    lvl: usize,
)
    requires
        cur < lvl,
        line_start + lvl <= tokens@.len(),
        kinds@.len() == tokens@.len(),
        forall|j: int| 0 <= j < kinds@.len() ==> (#[trigger] kinds@[j])@ == tokens@[j].0@,
        forall|j: int| line_start <= j < line_start + lvl ==> (#[trigger] kinds@[j]) is Indentation,
    ensures
        pairs_view(final(result)@) == pairs_view(old(result)@) + level_change(
            pairs_view(tokens@),
            line_start as int,
            cur as nat,
            lvl as nat,
        ),
{
    let ghost pv = pairs_view(tokens@);
    proof {
        lemma_pairs_view_index(tokens@);
    }
    let ghost start = pairs_view(result@);
    let ghost change = level_change(pv, line_start as int, cur as nat, lvl as nat);
    let n = tokens.len();
    let mut k: usize = 0;
    assert(change.take(0) =~= Seq::<(TokenView, Range<usize>)>::empty());
    assert(start + change.take(0) =~= start);
    while k < lvl - cur
        invariant
            cur < lvl,
            line_start + lvl <= n,
            n == tokens@.len(),
            kinds@.len() == n,
            forall|j: int| 0 <= j < kinds@.len() ==> (#[trigger] kinds@[j])@ == tokens@[j].0@,
            forall|j: int| line_start <= j < line_start + lvl ==> (#[trigger] kinds@[j]) is Indentation,
            pv == pairs_view(tokens@),
            forall|j: int| 0 <= j < tokens@.len() ==> #[trigger] pv[j] == (token_view(tokens@[j].0), tokens@[j].1),
            change == level_change(pv, line_start as int, cur as nat, lvl as nat),
            change.len() == lvl - cur,
            k <= lvl - cur,
            pairs_view(result@) == start + change.take(k as int),
        decreases lvl - cur - k,
    {
        let idx = line_start + cur + k;
        let mut source: Vec<(Token, Range<usize>)> = Vec::new();
        if idx < n && matches!(kinds[idx], Token::Indentation) {
            source.push((kinds[idx].clone(), copy_range(&tokens[idx].1)));
        }
        proof {
            assert(pairs_view(Seq::<(Token, Range<usize>)>::empty()) =~= Seq::empty());
            lemma_pairs_view_push(Seq::<(Token, Range<usize>)>::empty(), source@[0]);
            assert(Seq::<(Token, Range<usize>)>::empty().push(source@[0]) =~= source@);
            assert(pairs_view(source@) =~= seq![pv[idx as int]]);
        }
        let ghost before = result@;
        let t = Token::Indent(source);
        let r = Range { start: 0, end: 0 };
        result.push((t, r));
        proof {
            lemma_pairs_view_push(before, (t, r));
            assert(change[k as int] == (TokenView::Indent(seq![pv[idx as int]]), empty_range()));
            assert(change.take(k + 1) =~= change.take(k as int).push(change[k as int]));
            assert(start + change.take(k + 1) =~= (start + change.take(k as int)).push(change[k as int]));
        }
        k += 1;
    }
    assert(change.take((lvl - cur) as int) =~= change);
}

impl SemanticIndentationMapper {
    /// Replace raw indentation tokens by semantic `Indent`/`Dedent` tokens,
    /// preserving the source ranges of every other token.
    pub fn map(&mut self, tokens: Vec<(Token, Range<usize>)>) -> (r: Result<
        Vec<(Token, Range<usize>)>,
        TransformationError,
    >)
        ensures
            r matches Ok(v) && pairs_view(v@) == semantic_indentation_spec(pairs_view(tokens@)),
    {
        let kinds = kinds_of(&tokens);
        let ghost pv = pairs_view(tokens@);
        proof {
            lemma_pairs_view_index(tokens@);
        }
        let n = tokens.len();
        let mut result: Vec<(Token, Range<usize>)> = Vec::new();
        let mut current_level: usize = 0;
        let mut i: usize = 0;
        assert(pairs_view(result@) =~= Seq::empty());
        assert(Seq::<(TokenView, Range<usize>)>::empty() + indent_from(pv, 0, 0) =~= indent_from(pv, 0, 0));
        while i < n
            invariant
                n == tokens@.len(),
                kinds@.len() == n,
                forall|j: int| 0 <= j < n ==> (#[trigger] kinds@[j])@ == tokens@[j].0@,
                pv == pairs_view(tokens@),
                pv.len() == n,
                forall|j: int| 0 <= j < n ==> #[trigger] pv[j] == (token_view(tokens@[j].0), tokens@[j].1),
                i <= n,
                i == n || i == 0 || kinds@[i - 1] is BlankLine,
                current_level <= n,
                pairs_view(result@) + indent_from(pv, i as int, current_level as nat) == indent_from(pv, 0, 0),
            decreases n - i,
        {
            let ghost before = pairs_view(result@);
            let ghost cur0 = current_level;
            let line_start = find_line_start(&kinds, i);
            assert(line_start == i);
            let level = count_line_indent_steps(&kinds, line_start);
            let blank = is_line_blank(&kinds, line_start);
            proof {
                assert forall|j: int| 0 <= j < kinds@.len() implies token_view(#[trigger] kinds@[j]) == pv[j].0 by {}
                lemma_steps_agree(kinds@, pv, i as int);
                lemma_indent_run(pv, i as int);
                lemma_next_break(pv, i as int);
                let j0 = i + level;
                if j0 < n {
                    lemma_kind_variants(kinds@[j0 as int]);
                }
                assert forall|j: int| i <= j < i + level implies (#[trigger] kinds@[j]) is Indentation by {
                    lemma_kind_variants(kinds@[j]);
                }
            }
            let ghost b = next_break(pv, i as int);
            let ghost e = line_after(pv, i as int);
            if blank {
                let mut j = line_start;
                while j < n && !matches!(kinds[j], Token::BlankLine(_))
                    invariant
                        i <= j <= n,
                        n == kinds@.len(),
                        j <= b,
                        b == next_break(pv, i as int),
                        pv.len() == n,
                        forall|k: int| 0 <= k < n ==> token_view(#[trigger] kinds@[k]) == pv[k].0,
                        b < n ==> pv[b].0 is BlankLine,
                        forall|k: int| i <= k < b ==> !(#[trigger] pv[k].0 is BlankLine),
                    decreases n - j,
                {
                    proof {
                        lemma_kind_variants(kinds@[j as int]);
                    }
                    j += 1;
                }
                proof {
                    if j < n {
                        lemma_kind_variants(kinds@[j as int]);
                    }
                }
                if j < n && matches!(kinds[j], Token::BlankLine(_)) {
                    push_copies(&mut result, &tokens, j, j + 1);
                    assert(pv.subrange(j as int, j + 1) =~= seq![pv[j as int]]);
                    j += 1;
                } else {
                    assert(b == n);
                }
                assert(j == e);
                assert(pairs_view(result@) + indent_from(pv, e, current_level as nat) =~= before + indent_from(
                    pv,
                    i as int,
                    current_level as nat,
                ));
                i = j;
                continue;
            }
            if level > current_level {
                push_indents(&mut result, &tokens, &kinds, line_start, current_level, level);
            } else {
                push_dedents(&mut result, current_level - level);
                assert(level_change(pv, i as int, current_level as nat, level as nat) == dedents(
                    (current_level - level) as nat,
                ));
            }
            let ghost mid = pairs_view(result@);
            current_level = level;
            let mut j = line_start + level;
            while j < n && !matches!(kinds[j], Token::BlankLine(_))
                invariant
                    i + level <= j <= n,
                    n == kinds@.len(),
                    j <= b,
                    b == next_break(pv, i as int),
                    pv.len() == n,
                    forall|k: int| 0 <= k < n ==> token_view(#[trigger] kinds@[k]) == pv[k].0,
                    b < n ==> pv[b].0 is BlankLine,
                    forall|k: int| i <= k < b ==> !(#[trigger] pv[k].0 is BlankLine),
                decreases n - j,
            {
                proof {
                    lemma_kind_variants(kinds@[j as int]);
                }
                j += 1;
            }
            proof {
                if j < n {
                    lemma_kind_variants(kinds@[j as int]);
                }
            }
            if j < n && matches!(kinds[j], Token::BlankLine(_)) {
                j += 1;
            } else {
                assert(b == n);
            }
            assert(j == e);
            push_copies(&mut result, &tokens, line_start + level, j);
            assert(pairs_view(result@) + indent_from(pv, e, level as nat) =~= before + indent_from(
                pv,
                i as int,
                cur0 as nat,
            )) by {
                assert(!line_blank(pv, i as int));
                assert(e > i);
            }
            i = j;
        }
        push_dedents(&mut result, current_level);
        Ok(result)
    }
}

/// Indents minus dedents in a token sequence.
pub open spec fn indent_balance(s: Seq<(TokenView, Range<usize>)>) -> int
    decreases s.len(),
{
    if s.len() == 0 {
        0
    } else {
        (if s[0].0 is Indent {
            1int
        } else if s[0].0 is Dedent {
            -1int
        } else {
            0int
        }) + indent_balance(s.drop_first())
    }
}

/// A flat stream: no semantic indentation tokens yet.
pub open spec fn is_flat(s: Seq<(TokenView, Range<usize>)>) -> bool {
    forall|k: int| 0 <= k < s.len() ==> !(#[trigger] s[k].0 is Indent) && !(s[k].0 is Dedent)
}

proof fn lemma_balance_concat(a: Seq<(TokenView, Range<usize>)>, b: Seq<(TokenView, Range<usize>)>)
    ensures
        indent_balance(a + b) == indent_balance(a) + indent_balance(b),
    decreases a.len(),
{
    if a.len() > 0 {
        assert((a + b).drop_first() =~= a.drop_first() + b);
        lemma_balance_concat(a.drop_first(), b);
    } else {
        assert(a + b =~= b);
    }
}

proof fn lemma_balance_flat(s: Seq<(TokenView, Range<usize>)>)
    requires
        is_flat(s),
    ensures
        indent_balance(s) == 0,
    decreases s.len(),
{
    if s.len() > 0 {
        lemma_balance_flat(s.drop_first());
    }
}

proof fn lemma_balance_dedents(n: nat)
    ensures
        indent_balance(dedents(n)) == -n,
    decreases n,
{
    if n > 0 {
        assert(dedents(n).drop_first() =~= dedents((n - 1) as nat));
        lemma_balance_dedents((n - 1) as nat);
    } else {
        assert(dedents(0) =~= Seq::<(TokenView, Range<usize>)>::empty());
    }
}

proof fn lemma_balance_indents(s: Seq<(TokenView, Range<usize>)>)
    requires
        forall|k: int| 0 <= k < s.len() ==> #[trigger] s[k].0 is Indent,
    ensures
        indent_balance(s) == s.len(),
    decreases s.len(),
{
    if s.len() > 0 {
        lemma_balance_indents(s.drop_first());
    }
}

proof fn lemma_balance_from(pv: Seq<(TokenView, Range<usize>)>, i: int, cur: nat)
    requires
        is_flat(pv),
        0 <= i <= pv.len(),
    ensures
        indent_balance(indent_from(pv, i, cur)) == -cur,
    decreases pv.len() - i,
{
    if i >= pv.len() {
        lemma_balance_dedents(cur);
    } else {
        lemma_next_break(pv, i);
        let b = next_break(pv, i);
        let e = line_after(pv, i);
        lemma_balance_from(pv, e, cur);
        if line_blank(pv, i) {
            let head: Seq<(TokenView, Range<usize>)> = if b < pv.len() {
                seq![pv[b]]
            } else {
                Seq::empty()
            };
            lemma_balance_flat(head);
            lemma_balance_concat(head, indent_from(pv, e, cur));
        } else {
            lemma_indent_run(pv, i);
            let lvl = indent_run(pv, i);
            lemma_balance_from(pv, e, lvl);
            let change = level_change(pv, i, cur, lvl);
            if lvl > cur {
                lemma_balance_indents(change);
            } else {
                lemma_balance_dedents((cur - lvl) as nat);
            }
            let body = pv.subrange(i + lvl, e);
            lemma_balance_flat(body);
            lemma_balance_concat(change, body);
            lemma_balance_concat(change + body, indent_from(pv, e, lvl));
        }
    }
}

/// Indentation balance: for a flat token stream, the transformation emits
/// exactly as many `Indent` tokens as `Dedent` tokens, so every opened level
/// is closed, like matching braces.
pub proof fn lemma_semantic_indentation_balanced(pv: Seq<(TokenView, Range<usize>)>)
    requires
        is_flat(pv),
    ensures
        indent_balance(semantic_indentation_spec(pv)) == 0,
{
    lemma_balance_from(pv, 0, 0);
}

/// Every prefix of `s` holds at least `floor` more indents than dedents.
pub open spec fn prefixes_at_least(s: Seq<(TokenView, Range<usize>)>, floor: int) -> bool {
    forall|k: int| 0 <= k <= s.len() ==> indent_balance(#[trigger] s.take(k)) >= floor
}

/// Every indent of `s` holds exactly one token, an `Indentation`.
pub open spec fn indents_hold_one_indentation(s: Seq<(TokenView, Range<usize>)>) -> bool {
    forall|k: int| 0 <= k < s.len() && (#[trigger] s[k]).0 is Indent ==> s[k].0->Indent_0.len() == 1
        && s[k].0->Indent_0[0].0 is Indentation
}

proof fn lemma_prefixes_concat(a: Seq<(TokenView, Range<usize>)>, b: Seq<(TokenView, Range<usize>)>, fa: int, fb: int)
    requires
        prefixes_at_least(a, fa),
        prefixes_at_least(b, fb),
    ensures
        prefixes_at_least(a + b, if fa <= indent_balance(a) + fb { fa } else { indent_balance(a) + fb }),
        indents_hold_one_indentation(a) && indents_hold_one_indentation(b) ==> indents_hold_one_indentation(a + b),
{
    assert forall|k: int| 0 <= k <= (a + b).len() implies indent_balance(#[trigger] (a + b).take(k))
        >= (if fa <= indent_balance(a) + fb { fa } else { indent_balance(a) + fb }) by {
        if k <= a.len() {
            assert((a + b).take(k) =~= a.take(k));
        } else {
            assert((a + b).take(k) =~= a + b.take(k - a.len()));
            lemma_balance_concat(a, b.take(k - a.len()));
            assert(b.take(k - a.len()) == b.take(k - a.len()));
        }
    }
    if indents_hold_one_indentation(a) && indents_hold_one_indentation(b) {
        assert forall|k: int| 0 <= k < (a + b).len() && (#[trigger] (a + b)[k]).0 is Indent implies (a + b)[k].0->Indent_0.len() == 1
            && (a + b)[k].0->Indent_0[0].0 is Indentation by {
            if k < a.len() {
                assert((a + b)[k] == a[k]);
            } else {
                assert((a + b)[k] == b[k - a.len()]);
            }
        }
    }
}

proof fn lemma_prefixes_flat(s: Seq<(TokenView, Range<usize>)>)
    requires
        is_flat(s),
    ensures
        prefixes_at_least(s, 0),
        indents_hold_one_indentation(s),
{
    assert forall|k: int| 0 <= k <= s.len() implies indent_balance(#[trigger] s.take(k)) >= 0 by {
        lemma_balance_flat(s.take(k));
    }
}

proof fn lemma_prefixes_dedents(n: nat)
    ensures
        prefixes_at_least(dedents(n), -n),
        indents_hold_one_indentation(dedents(n)),
{
    assert forall|k: int| 0 <= k <= dedents(n).len() implies indent_balance(#[trigger] dedents(n).take(k)) >= -n by {
        assert(dedents(n).take(k) =~= dedents(k as nat));
        lemma_balance_dedents(k as nat);
    }
}

proof fn lemma_prefixes_from(pv: Seq<(TokenView, Range<usize>)>, i: int, cur: nat)
    requires
        is_flat(pv),
        0 <= i <= pv.len(),
    ensures
        prefixes_at_least(indent_from(pv, i, cur), -cur),
        indents_hold_one_indentation(indent_from(pv, i, cur)),
    decreases pv.len() - i,
{
    if i >= pv.len() {
        lemma_prefixes_dedents(cur);
    } else {
        lemma_next_break(pv, i);
        let b = next_break(pv, i);
        let e = line_after(pv, i);
        if e <= i {
            assert(Seq::<(TokenView, Range<usize>)>::empty().take(0) =~= Seq::<(TokenView, Range<usize>)>::empty());
        } else if line_blank(pv, i) {
            lemma_prefixes_from(pv, e, cur);
            let head: Seq<(TokenView, Range<usize>)> = if b < pv.len() {
                seq![pv[b]]
            } else {
                Seq::empty()
            };
            lemma_prefixes_flat(head);
            lemma_balance_flat(head);
            lemma_prefixes_concat(head, indent_from(pv, e, cur), 0, -cur);
        } else {
            lemma_indent_run(pv, i);
            let lvl = indent_run(pv, i);
            lemma_prefixes_from(pv, e, lvl);
            lemma_balance_from(pv, e, lvl);
            let change = level_change(pv, i, cur, lvl);
            if lvl > cur {
                lemma_balance_indents(change);
                assert forall|k: int| 0 <= k <= change.len() implies indent_balance(#[trigger] change.take(k)) >= 0 by {
                    lemma_balance_indents(change.take(k));
                }
                assert forall|k: int| 0 <= k < change.len() && (#[trigger] change[k]).0 is Indent implies change[k].0->Indent_0.len() == 1
                    && change[k].0->Indent_0[0].0 is Indentation by {
                    assert(pv[i + cur + k].0 is Indentation);
                }
            } else {
                lemma_balance_dedents((cur - lvl) as nat);
                lemma_prefixes_dedents((cur - lvl) as nat);
            }
            let body = pv.subrange(i + lvl, e);
            lemma_prefixes_flat(body);
            lemma_balance_flat(body);
            let fc: int = if lvl > cur { 0 } else { lvl - cur };
            lemma_prefixes_concat(change, body, fc, 0);
            lemma_balance_concat(change, body);
            let fcb: int = if fc <= indent_balance(change) { fc } else { indent_balance(change) };
            lemma_prefixes_concat(change + body, indent_from(pv, e, lvl), fcb, -lvl);
        }
    }
}

/// Indentation nests like brackets: for a flat token stream, every prefix of
/// the output holds at least as many `Indent` tokens as `Dedent` tokens, and
/// every `Indent` carries exactly the one `Indentation` token it replaces.
pub proof fn lemma_semantic_indentation_nested(pv: Seq<(TokenView, Range<usize>)>)
    requires
        is_flat(pv),
    ensures
        prefixes_at_least(semantic_indentation_spec(pv), 0),
        indents_hold_one_indentation(semantic_indentation_spec(pv)),
{
    lemma_prefixes_from(pv, 0, 0);
}

/// `s` without its `Indent` and `Dedent` tokens.
pub open spec fn without_structure(s: Seq<(TokenView, Range<usize>)>) -> Seq<(TokenView, Range<usize>)>
    decreases s.len(),
{
    if s.len() == 0 {
        Seq::empty()
    } else if s[0].0 is Indent || s[0].0 is Dedent {
        without_structure(s.drop_first())
    } else {
        seq![s[0]] + without_structure(s.drop_first())
    }
}

/// The lines from `i` on without their leading `Indentation` tokens (a line
/// holding only indentation keeps just its line break).
pub open spec fn without_leading_indentation(pv: Seq<(TokenView, Range<usize>)>, i: int) -> Seq<(TokenView, Range<usize>)>
    decreases pv.len() - i,
{
    if i < 0 || i >= pv.len() {
        Seq::empty()
    } else {
        let b = next_break(pv, i);
        let e = line_after(pv, i);
        if e <= i {
            Seq::empty()
        } else if line_blank(pv, i) {
            (if b < pv.len() {
                seq![pv[b]]
            } else {
                Seq::empty()
            }) + without_leading_indentation(pv, e)
        } else {
            pv.subrange(i + indent_run(pv, i), e) + without_leading_indentation(pv, e)
        }
    }
}

proof fn lemma_without_concat(a: Seq<(TokenView, Range<usize>)>, b: Seq<(TokenView, Range<usize>)>)
    ensures
        without_structure(a + b) == without_structure(a) + without_structure(b),
    decreases a.len(),
{
    if a.len() > 0 {
        assert((a + b).drop_first() =~= a.drop_first() + b);
        lemma_without_concat(a.drop_first(), b);
        assert((a + b)[0] == a[0]);
        if !(a[0].0 is Indent || a[0].0 is Dedent) {
            assert(seq![a[0]] + (without_structure(a.drop_first()) + without_structure(b)) =~= (seq![a[0]]
                + without_structure(a.drop_first())) + without_structure(b));
        }
    } else {
        assert(a + b =~= b);
        assert(without_structure(a) =~= Seq::<(TokenView, Range<usize>)>::empty());
        assert(Seq::<(TokenView, Range<usize>)>::empty() + without_structure(b) =~= without_structure(b));
    }
}

proof fn lemma_without_flat(s: Seq<(TokenView, Range<usize>)>)
    requires
        is_flat(s),
    ensures
        without_structure(s) == s,
    decreases s.len(),
{
    if s.len() > 0 {
        lemma_without_flat(s.drop_first());
        assert(seq![s[0]] + s.drop_first() =~= s);
    } else {
        assert(s =~= Seq::<(TokenView, Range<usize>)>::empty());
    }
}

proof fn lemma_without_all_structure(s: Seq<(TokenView, Range<usize>)>)
    requires
        forall|k: int| 0 <= k < s.len() ==> (#[trigger] s[k]).0 is Indent || s[k].0 is Dedent,
    ensures
        without_structure(s) == Seq::<(TokenView, Range<usize>)>::empty(),
    decreases s.len(),
{
    if s.len() > 0 {
        assert(s[0].0 is Indent || s[0].0 is Dedent);
        lemma_without_all_structure(s.drop_first());
    }
}

proof fn lemma_without_from(pv: Seq<(TokenView, Range<usize>)>, i: int, cur: nat)
    requires
        is_flat(pv),
        0 <= i <= pv.len(),
    ensures
        without_structure(indent_from(pv, i, cur)) == without_leading_indentation(pv, i),
    decreases pv.len() - i,
{
    if i >= pv.len() {
        lemma_without_all_structure(dedents(cur));
    } else {
        lemma_next_break(pv, i);
        let b = next_break(pv, i);
        let e = line_after(pv, i);
        if e <= i {
            assert(without_structure(Seq::<(TokenView, Range<usize>)>::empty()) =~= Seq::<(TokenView, Range<usize>)>::empty());
        } else if line_blank(pv, i) {
            lemma_without_from(pv, e, cur);
            let head: Seq<(TokenView, Range<usize>)> = if b < pv.len() {
                seq![pv[b]]
            } else {
                Seq::empty()
            };
            lemma_without_flat(head);
            lemma_without_concat(head, indent_from(pv, e, cur));
        } else {
            lemma_indent_run(pv, i);
            let lvl = indent_run(pv, i);
            lemma_without_from(pv, e, lvl);
            let change = level_change(pv, i, cur, lvl);
            lemma_without_all_structure(change);
            let body = pv.subrange(i + lvl, e);
            lemma_without_flat(body);
            lemma_without_concat(change, body);
            lemma_without_concat(change + body, indent_from(pv, e, lvl));
            assert(Seq::<(TokenView, Range<usize>)>::empty() + body =~= body);
        }
    }
}

/// Apart from the indentation structure nothing changes: removing the
/// `Indent` and `Dedent` tokens from the output gives the input without each
/// line's leading `Indentation` tokens, the other tokens and their ranges in
/// their order.
pub proof fn lemma_semantic_indentation_keeps_content(pv: Seq<(TokenView, Range<usize>)>)
    requires
        is_flat(pv),
    ensures
        without_structure(semantic_indentation_spec(pv)) == without_leading_indentation(pv, 0),
{
    lemma_without_from(pv, 0, 0);
}

} // verus!
