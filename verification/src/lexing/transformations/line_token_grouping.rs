//! Line token grouping: flat tokens become line-based groups, each with its
//! classification (see [`group_into_lines`]).
use vstd::prelude::*;
use std::ops::Range;
use crate::escape::structural::firsts;
use crate::lexing::line_grouping::{content_matches, group_into_lines, grouped_line_types, line_groups};
use crate::token::{copy_range, LineToken, LineType, Token};

verus! {

/// Transformation that groups flat tokens into classified lines.
pub struct LineTokenGroupingMapper;

/// One classified line: its (token, range) pairs and its type.
#[derive(Debug, PartialEq)]
pub struct GroupedTokens {
    pub source_tokens: Vec<(Token, Range<usize>)>,
    pub group_type: GroupType,
}

/// The kind of a group.
#[derive(Debug, Clone, Copy, PartialEq, Eq, Structural)]
pub enum GroupType {
    Line(LineType),
}

/// The second components of a sequence of pairs.
pub open spec fn seconds(s: Seq<(Token, Range<usize>)>) -> Seq<Range<usize>> {
    s.map_values(|p: (Token, Range<usize>)| p.1)
}

/// Pair a line's tokens with their ranges, moving the tokens.
fn into_pairs(l: LineToken) -> (r: Vec<(Token, Range<usize>)>)
    requires
        l.source_tokens@.len() == l.token_spans@.len(),
    ensures
        firsts(r@) == l.source_tokens@,
        seconds(r@) == l.token_spans@,
{
    let LineToken { source_tokens, token_spans, line_type: _ } = l;
    let ghost toks = source_tokens@;
    let mut out: Vec<(Token, Range<usize>)> = Vec::new();
    for t in it: source_tokens
        invariant
            it.seq() == toks,
            toks.len() == token_spans@.len(),
            out@.len() == it.index(),
            forall|k: int| 0 <= k < out@.len() ==> (#[trigger] out@[k]).0 == toks[k] && out@[k].1 == token_spans@[k],
    {
        let k = out.len();
        let r = copy_range(&token_spans[k]);
        out.push((t, r));
    }
    assert(firsts(out@) =~= toks);
    assert(seconds(out@) =~= token_spans@);
    out
}

impl LineTokenGroupingMapper {
    /// A new mapper.
    pub fn new() -> (m: Self) {
        Self
    }

    /// Group flat tokens into classified lines (see [`group_into_lines`]).
    pub fn map(&mut self, tokens: Vec<(Token, Range<usize>)>) -> (r: Vec<GroupedTokens>)
        ensures
            r@.len() == line_groups(tokens@).len(),
            forall|k: int|
                0 <= k < r@.len() ==> content_matches(
                    tokens@,
                    line_groups(tokens@)[k],
                    firsts((#[trigger] r@[k]).source_tokens@),
                    seconds(r@[k].source_tokens@),
                ),
            forall|k: int|
                0 <= k < r@.len() ==> (#[trigger] r@[k]).group_type == GroupType::Line(
                    grouped_line_types(
                        tokens@,
                        Seq::new(r@.len(), |j: int| firsts(r@[j].source_tokens@)),
                    )[k],
                ),
    {
        let ghost ps = tokens@;
        let lines = group_into_lines(tokens);
        let ghost lv = lines@;
        let mut out: Vec<GroupedTokens> = Vec::new();
        for l in it: lines
            invariant
                it.seq() == lv,
                forall|k: int| 0 <= k < lv.len() ==> content_matches(ps, line_groups(ps)[k], (#[trigger] lv[k]).source_tokens@, lv[k].token_spans@),
                out@.len() == it.index(),
                forall|k: int|
                    0 <= k < out@.len() ==> firsts((#[trigger] out@[k]).source_tokens@) == lv[k].source_tokens@
                        && seconds(out@[k].source_tokens@) == lv[k].token_spans@
                        && out@[k].group_type == GroupType::Line(lv[k].line_type),
        {
            let ghost k = it.index() as int;
            assert(l == lv[k]);
            assert(content_matches(ps, line_groups(ps)[k], lv[k].source_tokens@, lv[k].token_spans@));
            let t = l.line_type;
            let pairs = into_pairs(l);
            out.push(GroupedTokens { source_tokens: pairs, group_type: GroupType::Line(t) });
        }
        proof {
            let toks = Seq::new(out@.len(), |j: int| firsts(out@[j].source_tokens@));
            assert(toks =~= crate::lexing::line_grouping::token_seqs(lv));
            assert forall|k: int| 0 <= k < out@.len() implies (#[trigger] out@[k]).group_type == GroupType::Line(
                grouped_line_types(ps, toks)[k],
            ) by {
                assert(crate::lexing::line_grouping::types_of(lv)[k] == lv[k].line_type);
            }
        }
        out
    }
}

impl Default for LineTokenGroupingMapper {
    fn default() -> (m: Self) {
        Self::new()
    }
}

impl GroupedTokens {
    /// Convert into the canonical [`LineToken`] representation.
    pub fn into_line_token(self) -> (l: LineToken)
        ensures
            l.source_tokens@ == firsts(self.source_tokens@),
            l.token_spans@ == seconds(self.source_tokens@),
            GroupType::Line(l.line_type) == self.group_type,
    {
        let GroupedTokens { source_tokens, group_type } = self;
        let ghost ps = source_tokens@;
        let mut toks: Vec<Token> = Vec::new();
        let mut spans: Vec<Range<usize>> = Vec::new();
        for p in it: source_tokens
            invariant
                it.seq() == ps,
                toks@.len() == it.index(),
                spans@.len() == it.index(),
                forall|k: int| 0 <= k < toks@.len() ==> (#[trigger] toks@[k]) == ps[k].0,
                forall|k: int| 0 <= k < spans@.len() ==> (#[trigger] spans@[k]) == ps[k].1,
        {
            let (t, r) = p;
            toks.push(t);
            spans.push(r);
        }
        assert(toks@ =~= firsts(ps));
        assert(spans@ =~= seconds(ps));
        let GroupType::Line(line_type) = group_type;
        LineToken { source_tokens: toks, token_spans: spans, line_type }
    }
}

} // verus!
