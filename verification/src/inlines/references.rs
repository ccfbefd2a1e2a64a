//! Classification of reference inlines by their content: placeholders,
//! citations, footnotes, sessions, URLs, file paths and general references.
use vstd::prelude::*;
use crate::inlines::{InlineNode, ReferenceInline, ReferenceType};
use crate::inlines::citations::{citation_keys_spec, citation_matches, parse_citation_data, split_locator_spec};
use crate::text::{
    all_ascii_digits, char_is_alphanumeric, chars_of, is_alphanumeric, parse_u32, parse_u32_spec,
    trim, trim_spec,
};

verus! {

/// `t` or `T`.
pub open spec fn is_t(c: char) -> bool {
    c == 't' || c == 'T'
}

/// `k` or `K`.
pub open spec fn is_k(c: char) -> bool {
    c == 'k' || c == 'K'
}

/// An ASCII lowercase letter or digit.
pub open spec fn lower_or_digit(c: char) -> bool {
    ('a' <= c && c <= 'z') || ('0' <= c && c <= '9')
}

/// A placeholder reference: `TK` (any case) gives no identifier; `TK-id`
/// (any case of `TK`) gives `id` when it is 1 to 20 lowercase letters or digits.
pub open spec fn tk_spec(t: Seq<char>) -> Option<Option<Seq<char>>> {
    if t.len() == 2 && is_t(t[0]) && is_k(t[1]) {
        Some(None)
    } else if t.len() >= 3 && is_t(t[0]) && is_k(t[1]) && t[2] == '-' {
        let id = t.skip(3);
        if id.len() > 0 && id.len() <= 20 && (forall|i: int| 0 <= i < id.len() ==> lower_or_digit(#[trigger] id[i])) {
            Some(Some(id))
        } else {
            None
        }
    } else {
        None
    }
}

/// A session reference `#2.1`: the target after `#`, made of digits, periods
/// and dashes.
pub open spec fn session_spec(t: Seq<char>) -> Option<Seq<char>> {
    if t.len() > 1 && t[0] == '#' && (forall|i: int| 1 <= i < t.len() ==> {
        let c = #[trigger] t[i];
        ('0' <= c && c <= '9') || c == '.' || c == '-'
    }) {
        Some(t.drop_first())
    } else {
        None
    }
}

/// `p` starts `t`.
pub open spec fn has_prefix(t: Seq<char>, p: Seq<char>) -> bool {
    p.len() <= t.len() && t.take(p.len() as int) == p
}

/// A URL reference: `http://`, `https://` or `mailto:`.
pub open spec fn is_url_spec(t: Seq<char>) -> bool {
    has_prefix(t, "http://"@) || has_prefix(t, "https://"@) || has_prefix(t, "mailto:"@)
}

/// The text holds a letter or digit.
pub open spec fn has_alnum(t: Seq<char>) -> bool {
    exists|i: int| 0 <= i < t.len() && char_is_alphanumeric(#[trigger] t[i])
}

/// The content after `@` reads as a citation.
pub open spec fn citation_some(rest: Seq<char>) -> bool {
    let c = trim_spec(rest);
    c.len() > 0 && citation_keys_spec(split_locator_spec(c).0) is Some
}

/// Text of an optional string.
pub open spec fn opt_view(o: Option<String>) -> Option<Seq<char>> {
    match o {
        Some(s) => Some(s@),
        None => None,
    }
}

/// `r` is the reference type of raw content `raw`, tried in order:
/// not-sure (blank, or no letter or digit), placeholder, citation, labeled
/// footnote, session, URL, file, numbered footnote, and general.
pub open spec fn reference_type_of(r: ReferenceType, raw: Seq<char>) -> bool {
    let t = trim_spec(raw);
    if t.len() == 0 || !has_alnum(t) {
        r is NotSure
    } else if tk_spec(t) is Some {
        r matches ReferenceType::ToCome { identifier } && opt_view(identifier) == tk_spec(t)->0
    } else if t[0] == '@' && citation_some(t.drop_first()) {
        r matches ReferenceType::Citation(d) && citation_matches(Some(d), t.drop_first())
    } else if t[0] == '^' && t.len() > 1 {
        r matches ReferenceType::FootnoteLabeled { label } && label@ == t.drop_first()
    } else if session_spec(t) is Some {
        r matches ReferenceType::Session { target } && target@ == session_spec(t)->0
    } else if is_url_spec(t) {
        r matches ReferenceType::Url { target } && target@ == t
    } else if t[0] == '.' || t[0] == '/' {
        r matches ReferenceType::File { target } && target@ == t
    } else if all_ascii_digits(t) && parse_u32_spec(t) is Some {
        r matches ReferenceType::FootnoteNumber { number } && Some(number) == parse_u32_spec(t)
    } else {
        r matches ReferenceType::General { target } && target@ == t
    }
}

/// Whether `prefix` starts `c`.
fn starts_with_chars(c: &Vec<char>, prefix: &str) -> (b: bool)
    ensures
        b == has_prefix(c@, prefix@),
{
    let p = chars_of(prefix);
    if p.len() > c.len() {
        return false;
    }
    let mut i: usize = 0;
    while i < p.len()
        invariant
            p@ == prefix@,
            p@.len() <= c@.len(),
            i <= p@.len(),
            forall|j: int| 0 <= j < i ==> c@[j] == p@[j],
        decreases p@.len() - i,
    {
        if c[i] != p[i] {
            proof {
                assert(c@.take(p@.len() as int)[i as int] != p@[i as int]);
            }
            return false;
        }
        i += 1;
    }
    assert(c@.take(p@.len() as int) =~= p@);
    true
}

/// Detect a placeholder reference (`TK`, `TK-feature`).
pub fn detect_tk_reference(trimmed: &str) -> (r: Option<Option<String>>)
    ensures
        match tk_spec(trimmed@) {
            Some(id) => r matches Some(x) && opt_view(x) == id,
            None => r is None,
        },
{
    let t = chars_of(trimmed);
    let tk = t.len() >= 2 && (t[0] == 't' || t[0] == 'T') && (t[1] == 'k' || t[1] == 'K');
    if tk && t.len() == 2 {
        return Some(None);
    }
    if tk && t.len() >= 3 && t[2] == '-' {
        let n = t.len();
        let mut ok = n - 3 > 0 && n - 3 <= 20;
        let mut i: usize = 3;
        while ok && i < n
            invariant
                t@ == trimmed@,
                n == t@.len(),
                3 <= i <= n,
                ok ==> forall|j: int| 3 <= j < i ==> lower_or_digit(#[trigger] t@[j]),
                ok ==> n - 3 > 0 && n - 3 <= 20,
                !ok ==> !(n - 3 > 0 && n - 3 <= 20 && (forall|j: int| 3 <= j < n ==> lower_or_digit(#[trigger] t@[j]))),
            decreases n - i,
        {
            let c = t[i];
            if !(('a' <= c && c <= 'z') || ('0' <= c && c <= '9')) {
                ok = false;
            }
            i += 1;
        }
        proof {
            let id = t@.skip(3);
            if ok {
                assert forall|j: int| 0 <= j < id.len() implies lower_or_digit(#[trigger] id[j]) by {
                    assert(id[j] == t@[j + 3]);
                }
            } else {
                if id.len() > 0 && id.len() <= 20 && (forall|j: int| 0 <= j < id.len() ==> lower_or_digit(#[trigger] id[j])) {
                    assert forall|j: int| 3 <= j < n implies lower_or_digit(#[trigger] t@[j]) by {
                        assert(t@[j] == id[j - 3]);
                    }
                }
            }
        }
        if ok {
            let id = trimmed.substring_char(3, n);
            proof {
                assert(t@.subrange(3, n as int) =~= t@.skip(3));
            }
            return Some(Some(id.to_string()));
        }
    }
    None
}

/// Parse a session reference `#2.1` into its target.
pub fn parse_session_reference(trimmed: &str) -> (r: Option<String>)
    ensures
        opt_view(r) == session_spec(trimmed@),
{
    let t = chars_of(trimmed);
    if t.len() <= 1 || t[0] != '#' {
        return None;
    }
    let mut i: usize = 1;
    while i < t.len()
        invariant
            t@ == trimmed@,
            1 <= i <= t@.len(),
            forall|j: int| 1 <= j < i ==> {
                let c = #[trigger] t@[j];
                ('0' <= c && c <= '9') || c == '.' || c == '-'
            },
        decreases t@.len() - i,
    {
        let c = t[i];
        if !(('0' <= c && c <= '9') || c == '.' || c == '-') {
            return None;
        }
        i += 1;
    }
    let rest = trimmed.substring_char(1, t.len());
    proof {
        assert(t@.subrange(1, t@.len() as int) =~= t@.drop_first());
    }
    Some(rest.to_string())
}

/// Whether the reference is a URL.
pub fn is_url_reference(trimmed: &str) -> (b: bool)
    ensures
        b == is_url_spec(trimmed@),
        trimmed@.len() >= 7 && trimmed@.take(7) == "http://"@ ==> b,
        trimmed@.len() >= 8 && trimmed@.take(8) == "https://"@ ==> b,
        trimmed@.len() >= 7 && trimmed@.take(7) == "mailto:"@ ==> b,
{
    proof {
        lemma_url_prefixes(trimmed@);
    }
    let t = chars_of(trimmed);
    starts_with_chars(&t, "http://") || starts_with_chars(&t, "https://") || starts_with_chars(&t, "mailto:")
}

/// Text that starts with `http://`, `https://` or `mailto:` is a URL
/// reference, whatever follows the prefix.
pub proof fn lemma_url_prefixes(t: Seq<char>)
    ensures
        t.len() >= 7 && t.take(7) == "http://"@ ==> is_url_spec(t),
        t.len() >= 8 && t.take(8) == "https://"@ ==> is_url_spec(t),
        t.len() >= 7 && t.take(7) == "mailto:"@ ==> is_url_spec(t),
{
    reveal_strlit("http://");
    reveal_strlit("https://");
    reveal_strlit("mailto:");
}

/// Reference content whose trimmed text starts with `http://`, `https://` or
/// `mailto:` is classified as a URL whose target is that trimmed text: no
/// earlier form (placeholder, citation, labeled footnote, session) can start
/// that way.
pub proof fn lemma_url_content_is_url(r: ReferenceType, raw: Seq<char>)
    requires
        reference_type_of(r, raw),
        ({
            let t = trim_spec(raw);
            ||| t.len() >= 7 && t.take(7) == "http://"@
            ||| t.len() >= 8 && t.take(8) == "https://"@
            ||| t.len() >= 7 && t.take(7) == "mailto:"@
        }),
    ensures
        r matches ReferenceType::Url { target } && target@ == trim_spec(raw),
{
    let t = trim_spec(raw);
    reveal_strlit("http://");
    reveal_strlit("https://");
    reveal_strlit("mailto:");
    lemma_url_prefixes(t);
    assert(t[0] == t.take(7)[0]);
    assert(t[0] == 'h' || t[0] == 'm');
    assert(char_is_alphanumeric(t[0]));
    assert(has_alnum(t));
    assert(is_url_spec(t));
}

/// Whether the reference is a file path (starts with `.` or `/`).
pub fn is_file_reference(trimmed: &str) -> (b: bool)
    ensures
        b == (trimmed@.len() > 0 && (trimmed@[0] == '.' || trimmed@[0] == '/')),
{
    let t = chars_of(trimmed);
    t.len() > 0 && (t[0] == '.' || t[0] == '/')
}

/// A numbered footnote reference: all ASCII digits, with a value that fits.
pub fn parse_footnote_number(trimmed: &str) -> (r: Option<u32>)
    ensures
        r == (if all_ascii_digits(trimmed@) { parse_u32_spec(trimmed@) } else { None }),
{
    let t = chars_of(trimmed);
    let mut i: usize = 0;
    while i < t.len()
        invariant
            t@ == trimmed@,
            i <= t@.len(),
            forall|j: int| 0 <= j < i ==> '0' <= #[trigger] t@[j] <= '9',
        decreases t@.len() - i,
    {
        if !('0' <= t[i] && t[i] <= '9') {
            return None;
        }
        i += 1;
    }
    parse_u32(trimmed)
}

/// Classify a reference by its raw content.
pub fn determine_reference_type(raw: &str) -> (r: ReferenceType)
    ensures
        reference_type_of(r, raw@),
{
    let trimmed = trim(raw);
    let t = chars_of(trimmed);
    let mut any_alnum = false;
    let mut i: usize = 0;
    while i < t.len()
        invariant
            t@ == trimmed@,
            i <= t@.len(),
            any_alnum <==> exists|j: int| 0 <= j < i && char_is_alphanumeric(#[trigger] t@[j]),
        decreases t@.len() - i,
    {
        if is_alphanumeric(t[i]) {
            any_alnum = true;
        }
        proof {
            assert(char_is_alphanumeric(t@[i as int]) ==> exists|j: int| 0 <= j < i + 1 && char_is_alphanumeric(#[trigger] t@[j]));
        }
        i += 1;
    }
    if t.len() == 0 || !any_alnum {
        return ReferenceType::NotSure;
    }
    if let Some(identifier) = detect_tk_reference(trimmed) {
        return ReferenceType::ToCome { identifier };
    }
    if t[0] == '@' {
        let rest = trimmed.substring_char(1, t.len());
        proof {
            assert(t@.subrange(1, t@.len() as int) =~= t@.drop_first());
        }
        if let Some(citation) = parse_citation_data(rest) {
            return ReferenceType::Citation(citation);
        }
    }
    if t[0] == '^' && t.len() > 1 {
        let rest = trimmed.substring_char(1, t.len());
        proof {
            assert(t@.subrange(1, t@.len() as int) =~= t@.drop_first());
        }
        return ReferenceType::FootnoteLabeled { label: rest.to_string() };
    }
    if let Some(target) = parse_session_reference(trimmed) {
        return ReferenceType::Session { target };
    }
    if is_url_reference(trimmed) {
        return ReferenceType::Url { target: trimmed.to_string() };
    }
    if is_file_reference(trimmed) {
        return ReferenceType::File { target: trimmed.to_string() };
    }
    if let Some(number) = parse_footnote_number(trimmed) {
        return ReferenceType::FootnoteNumber { number };
    }
    ReferenceType::General { target: trimmed.to_string() }
}

/// Post-processor for reference nodes: sets the reference type from the
/// raw content; every other node is returned unchanged.
pub fn classify_reference_node(node: InlineNode) -> (r: InlineNode)
    ensures
        node matches InlineNode::Reference { .. } ==> (r matches InlineNode::Reference { data, annotations }
            && data.raw == node->Reference_data.raw && annotations == node->Reference_annotations
            && reference_type_of(data.reference_type, data.raw@)),
        !(node matches InlineNode::Reference { .. }) ==> r == node,
{
    match node {
        InlineNode::Reference { data, annotations } => {
            let reference_type = determine_reference_type(data.raw.as_str());
            InlineNode::Reference { data: ReferenceInline { raw: data.raw, reference_type }, annotations }
        },
        other => other,
    }
}

} // verus!
