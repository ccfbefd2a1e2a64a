//! The canonical built-in labels of the `lex.*` and `doc.*` namespaces.
use vstd::prelude::*;
use crate::text::str_in;

pub mod doc;
pub mod handler;
pub mod include_handler;
pub mod ir_build;
pub mod tabular;

verus! {

/// Every canonical `lex.*` and `doc.*` label the core ships.
pub const CANONICAL_LABELS: [&'static str; 20] = [
    "lex.include",
    "lex.notes",
    "lex.metadata.title",
    "lex.metadata.author",
    "lex.metadata.date",
    "lex.metadata.tags",
    "lex.metadata.category",
    "lex.metadata.template",
    "lex.metadata.publishing-date",
    "lex.metadata.front-matter",
    "lex.tabular.table",
    "lex.media.image",
    "lex.media.video",
    "lex.media.audio",
    "doc.title",
    "doc.author",
    "doc.date",
    "doc.tags",
    "doc.category",
    "doc.template",
];

/// The built-in `doc.*` canonicals: document-level metadata labels.
pub const DOC_BUILTIN_LABELS: [&'static str; 6] = [
    "doc.title",
    "doc.author",
    "doc.date",
    "doc.tags",
    "doc.category",
    "doc.template",
];

/// The views of a list of string slices.
pub open spec fn str_views(v: Seq<&str>) -> Seq<Seq<char>> {
    v.map_values(|s: &str| s@)
}

/// Whether `s` is one of `list`.
fn listed(s: &str, list: &[&str]) -> (r: bool)
    ensures
        r == str_views(list@).contains(s@),
{
    let r = str_in(s, list);
    proof {
        if r {
            let k = choose|k: int| 0 <= k < list@.len() && (#[trigger] list@[k])@ == s@;
            assert(str_views(list@)[k] == s@);
        } else {
            assert forall|k: int| 0 <= k < str_views(list@).len() implies (#[trigger] str_views(list@)[k]) != s@ by {
                assert(list@[k]@ != s@);
            }
        }
    }
    r
}

/// Whether `label` names a canonical built-in label.
pub fn is_canonical_label(label: &str) -> (r: bool)
    ensures
        r == str_views(CANONICAL_LABELS@).contains(label@),
{
    listed(label, CANONICAL_LABELS.as_slice())
}

/// Whether `label` names one of the built-in `doc.*` canonicals.
pub fn is_doc_builtin(label: &str) -> (r: bool)
    ensures
        r == str_views(DOC_BUILTIN_LABELS@).contains(label@),
{
    listed(label, DOC_BUILTIN_LABELS.as_slice())
}

} // verus!

verus! {

/// Every built-in `doc.*` canonical is a canonical built-in label.
pub proof fn lemma_doc_builtins_are_canonical(label: Seq<char>)
    requires
        str_views(DOC_BUILTIN_LABELS@).contains(label),
    ensures
        str_views(CANONICAL_LABELS@).contains(label),
{
    let d = str_views(DOC_BUILTIN_LABELS@);
    let c = str_views(CANONICAL_LABELS@);
    let i = choose|i: int| 0 <= i < d.len() && d[i] == label;
    assert(d[i] == DOC_BUILTIN_LABELS@[i]@);
    assert(c[14 + i] == CANONICAL_LABELS@[14 + i]@);
    assert(c[14 + i] == label);
}

} // verus!
