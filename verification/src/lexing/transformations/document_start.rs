//! Injects a synthetic `DocumentStart` line token between document-level
//! metadata (leading annotations) and the document's content.
//!
//! The marker goes at position 0 when the document has no leading
//! annotations, and immediately after the last of them otherwise.
use vstd::prelude::*;
use crate::token::{LineToken, LineTokenView, LineType};

verus! {

/// Transformation that inserts the document-start marker.
pub struct DocumentStartMarker;

/// The models of a sequence of line tokens.
pub open spec fn line_views(s: Seq<LineToken>) -> Seq<LineTokenView> {
    s.map_values(|l: LineToken| l@)
}

/// The model of the synthetic marker: no tokens, no spans.
pub open spec fn document_start_view() -> LineTokenView {
    LineTokenView { tokens: Seq::empty(), spans: Seq::empty(), line_type: LineType::DocumentStart }
}

/// First index at or after `i` whose line is not blank.
pub open spec fn skip_blank_lines(types: Seq<LineType>, i: int) -> int
    decreases types.len() - i,
{
    if 0 <= i < types.len() && types[i] == LineType::BlankLine {
        skip_blank_lines(types, i + 1)
    } else {
        i
    }
}

/// Where content starts, scanning from `pos` at annotation depth `depth`:
/// root-level annotation starts and ends, everything nested inside an
/// indented block, and blank lines that are followed by another annotation
/// are metadata; anything else at root level starts the content.
pub open spec fn content_start_from(types: Seq<LineType>, pos: int, depth: nat) -> int
    decreases types.len() - pos,
{
    if pos < 0 || pos >= types.len() {
        pos
    } else {
        let t = types[pos];
        if t == LineType::Indent {
            content_start_from(types, pos + 1, depth + 1)
        } else if t == LineType::Dedent {
            content_start_from(types, pos + 1, if depth > 0 { (depth - 1) as nat } else { 0 })
        } else if depth == 0 && (t == LineType::AnnotationStartLine || t == LineType::AnnotationEndLine) {
            content_start_from(types, pos + 1, depth)
        } else if depth == 0 && t == LineType::BlankLine {
            let look = skip_blank_lines(types, pos + 1);
            if look < types.len() && types[look] == LineType::AnnotationStartLine && look > pos {
                content_start_from(types, look, depth)
            } else {
                pos
            }
        } else if depth > 0 {
            content_start_from(types, pos + 1, depth)
        } else {
            pos
        }
    }
}

/// The line types of a sequence of line tokens.
pub open spec fn line_types(s: Seq<LineToken>) -> Seq<LineType> {
    s.map_values(|l: LineToken| l.line_type)
}

/// Where document content starts in `s`.
pub open spec fn content_start(s: Seq<LineToken>) -> int {
    content_start_from(line_types(s), 0, 0)
}

proof fn lemma_skip_blank_lines(types: Seq<LineType>, i: int)
    requires
        0 <= i <= types.len(),
    ensures
        i <= skip_blank_lines(types, i) <= types.len(),
    decreases types.len() - i,
{
    if i < types.len() && types[i] == LineType::BlankLine {
        lemma_skip_blank_lines(types, i + 1);
    }
}

proof fn lemma_content_start_bounds(types: Seq<LineType>, pos: int, depth: nat)
    requires
        0 <= pos <= types.len(),
    ensures
        pos <= content_start_from(types, pos, depth) <= types.len(),
    decreases types.len() - pos,
{
    if pos < types.len() {
        let t = types[pos];
        if t == LineType::Indent {
            lemma_content_start_bounds(types, pos + 1, depth + 1);
        } else if t == LineType::Dedent {
            lemma_content_start_bounds(types, pos + 1, if depth > 0 { (depth - 1) as nat } else { 0 });
        } else if depth == 0 && (t == LineType::AnnotationStartLine || t == LineType::AnnotationEndLine) {
            lemma_content_start_bounds(types, pos + 1, depth);
        } else if depth == 0 && t == LineType::BlankLine {
            lemma_skip_blank_lines(types, pos + 1);
            let look = skip_blank_lines(types, pos + 1);
            if look < types.len() && types[look] == LineType::AnnotationStartLine && look > pos {
                lemma_content_start_bounds(types, look, depth);
            }
        } else if depth > 0 {
            lemma_content_start_bounds(types, pos + 1, depth);
        }
    }
}

impl DocumentStartMarker {
    /// A new marker transformation.
    pub fn new() -> (m: Self) {
        Self
    }

    /// The line tokens with the `DocumentStart` marker inserted where the
    /// content starts: after the leading document-level annotations (and their
    /// nested content), or at position 0 when there are none.
    pub fn mark(line_tokens: Vec<LineToken>) -> (r: Vec<LineToken>)
        ensures
            line_views(r@) == line_views(line_tokens@).take(content_start(line_tokens@)) + seq![
                document_start_view(),
            ] + line_views(line_tokens@).skip(content_start(line_tokens@)),
    {
        if line_tokens.len() == 0 {
            let r = vec![Self::synthetic_document_start()];
            assert(line_views(r@) =~= seq![document_start_view()]);
            assert(line_views(line_tokens@) =~= Seq::<LineTokenView>::empty());
            return r;
        }
        let insert_pos = Self::find_content_start(&line_tokens);
        let mut result: Vec<LineToken> = Vec::new();
        let mut i: usize = 0;
        let ghost lv = line_views(line_tokens@);
        while i < insert_pos
            invariant
                insert_pos <= line_tokens@.len(),
                lv == line_views(line_tokens@),
                i <= insert_pos,
                line_views(result@) == lv.take(i as int),
            decreases insert_pos - i,
        {
            let ghost before = result@;
            result.push(line_tokens[i].clone());
            assert(line_views(result@) =~= line_views(before).push(line_tokens@[i as int]@));
            assert(lv.take(i + 1) =~= lv.take(i as int).push(lv[i as int]));
            i += 1;
        }
        let ghost before = result@;
        result.push(Self::synthetic_document_start());
        assert(line_views(result@) =~= line_views(before).push(document_start_view()));
        let ghost mid = line_views(result@);
        let mut j: usize = insert_pos;
        while j < line_tokens.len()
            invariant
                insert_pos <= j <= line_tokens@.len(),
                lv == line_views(line_tokens@),
                line_views(result@) == mid + lv.subrange(insert_pos as int, j as int),
            decreases line_tokens@.len() - j,
        {
            let ghost before = result@;
            result.push(line_tokens[j].clone());
            assert(line_views(result@) =~= line_views(before).push(line_tokens@[j as int]@));
            assert(lv.subrange(insert_pos as int, j + 1) =~= lv.subrange(insert_pos as int, j as int).push(
                lv[j as int],
            ));
            assert(mid + lv.subrange(insert_pos as int, j + 1) =~= (mid + lv.subrange(
                insert_pos as int,
                j as int,
            )).push(lv[j as int]));
            j += 1;
        }
        assert(lv.subrange(insert_pos as int, lv.len() as int) =~= lv.skip(insert_pos as int));
        assert(lv.take(insert_pos as int).push(document_start_view()) + lv.skip(insert_pos as int)
            =~= lv.take(insert_pos as int) + seq![document_start_view()] + lv.skip(insert_pos as int));
        result
    }

    /// Position where the document content starts.
    fn find_content_start(tokens: &Vec<LineToken>) -> (p: usize)
        ensures
            p == content_start(tokens@),
            p <= tokens@.len(),
    {
        let ghost types = line_types(tokens@);
        let n = tokens.len();
        let mut pos: usize = 0;
        let mut indent_depth: usize = 0;
        proof {
            lemma_content_start_bounds(types, 0, 0);
        }
        while pos < n
            invariant
                n == tokens@.len(),
                types == line_types(tokens@),
                types.len() == n,
                pos <= n,
                indent_depth <= pos,
                content_start_from(types, pos as int, indent_depth as nat) == content_start_from(types, 0, 0),
            ensures
                content_start_from(types, pos as int, indent_depth as nat) == pos,
                pos <= n,
                content_start_from(types, pos as int, indent_depth as nat) == content_start_from(types, 0, 0),
            decreases n - pos,
        {
            let line_type = tokens[pos].line_type;
            assert(types[pos as int] == line_type);
            if line_type == LineType::Indent {
                indent_depth += 1;
                pos += 1;
            } else if line_type == LineType::Dedent {
                indent_depth = if indent_depth > 0 { indent_depth - 1 } else { 0 };
                pos += 1;
            } else if indent_depth == 0 && (line_type == LineType::AnnotationStartLine || line_type
                == LineType::AnnotationEndLine) {
                pos += 1;
            } else if indent_depth == 0 && line_type == LineType::BlankLine {
                let mut lookahead = pos + 1;
                while lookahead < n && tokens[lookahead].line_type == LineType::BlankLine
                    invariant
                        n == tokens@.len(),
                        types == line_types(tokens@),
                        pos < lookahead <= n,
                        skip_blank_lines(types, lookahead as int) == skip_blank_lines(types, pos + 1),
                    decreases n - lookahead,
                {
                    assert(types[lookahead as int] == tokens@[lookahead as int].line_type);
                    lookahead += 1;
                }
                if lookahead < n {
                    assert(types[lookahead as int] == tokens@[lookahead as int].line_type);
                }
                if lookahead < n && tokens[lookahead].line_type == LineType::AnnotationStartLine {
                    pos = lookahead;
                } else {
                    break;
                }
            } else if indent_depth > 0 {
                pos += 1;
            } else {
                break;
            }
        }
        pos
    }

    /// The synthetic `DocumentStart` line token.
    fn synthetic_document_start() -> (l: LineToken)
        ensures
            l@ == document_start_view(),
    {
        let l = LineToken {
            source_tokens: Vec::new(),
            token_spans: Vec::new(),
            line_type: LineType::DocumentStart,
        };
        assert(l@.tokens =~= Seq::<crate::token::TokenView>::empty());
        l
    }
}

impl Default for DocumentStartMarker {
    fn default() -> (m: Self) {
        Self::new()
    }
}

/// No line of `s` is a document-start marker.
pub open spec fn has_no_marker(s: Seq<LineToken>) -> bool {
    forall|i: int| 0 <= i < s.len() ==> (#[trigger] s[i]).line_type != LineType::DocumentStart
}

/// No line of `s` opens or closes an annotation or changes indentation.
pub open spec fn has_no_annotation_or_indent(s: Seq<LineToken>) -> bool {
    forall|i: int| 0 <= i < s.len() ==> {
        let t = (#[trigger] s[i]).line_type;
        t != LineType::AnnotationStartLine && t != LineType::AnnotationEndLine && t != LineType::Indent
            && t != LineType::Dedent
    }
}

/// Marking inserts exactly one marker: the output is one line longer, its
/// line at the content start is the empty document-start marker, no other
/// line is a marker, and removing the marker gives back the input. Without
/// annotation or indentation lines the marker goes first.
pub proof fn lemma_mark_inserts_one_marker(s: Seq<LineToken>)
    requires
        has_no_marker(s),
    ensures
        ({
            let k = content_start(s);
            let out = line_views(s).take(k) + seq![document_start_view()] + line_views(s).skip(k);
            &&& 0 <= k <= s.len()
            &&& out.len() == s.len() + 1
            &&& out[k] == document_start_view()
            &&& forall|j: int| 0 <= j < out.len() && j != k ==> (#[trigger] out[j]).line_type != LineType::DocumentStart
            &&& out.remove(k) == line_views(s)
            &&& has_no_annotation_or_indent(s) ==> k == 0
        }),
{
    let types = line_types(s);
    lemma_content_start_bounds(types, 0, 0);
    let k = content_start(s);
    let v = line_views(s);
    let out = v.take(k) + seq![document_start_view()] + v.skip(k);
    assert forall|j: int| 0 <= j < out.len() && j != k implies (#[trigger] out[j]).line_type != LineType::DocumentStart by {
        if j < k {
            assert(out[j] == v[j]);
            assert(v[j] == s[j]@);
        } else {
            assert(out[j] == v[j - 1]);
            assert(v[j - 1] == s[j - 1]@);
        }
    }
    assert(out.remove(k) =~= v);
    if has_no_annotation_or_indent(s) && s.len() > 0 {
        let t = types[0];
        assert(t == s[0].line_type);
        if t == LineType::BlankLine {
            lemma_skip_blank_lines(types, 1);
            let look = skip_blank_lines(types, 1);
            if look < types.len() {
                assert(types[look] == s[look].line_type);
            }
        }
    }
}

} // verus!
