//! Rendering of the `doc.*` document-metadata labels: a YAML frontmatter
//! line for markdown, a `<title>` or `<meta>` element for HTML.
use vstd::prelude::*;
use super::{is_doc_builtin, str_views, DOC_BUILTIN_LABELS};
use crate::text::{chars_of, copy_chars, str_eq, string_from_chars, trim, trim_spec};

verus! {

/// The body of a label occurrence, as far as rendering reads it.
#[derive(Debug, Clone, PartialEq, Eq)]
pub enum DocBody {
    /// A single-line text body.
    Text(String),
    /// A structured (parsed lex) body.
    Lex,
    /// No body.
    Empty,
}

/// The output format a render is asked for.
#[derive(Debug, Clone, PartialEq, Eq)]
pub enum RenderFormat {
    Markdown,
    Html,
    /// Any other format, by name.
    Custom(String),
}

/// The HTML escape of one character.
pub open spec fn html_escape_char(c: char) -> Seq<char> {
    if c == '<' {
        "&lt;"@
    } else if c == '>' {
        "&gt;"@
    } else if c == '&' {
        "&amp;"@
    } else if c == '"' {
        "&quot;"@
    } else {
        seq![c]
    }
}

/// `s` with `<`, `>`, `&` and `"` replaced by their HTML entities.
pub open spec fn html_escaped(s: Seq<char>) -> Seq<char>
    decreases s.len(),
{
    if s.len() == 0 {
        Seq::empty()
    } else {
        html_escaped(s.drop_last()) + html_escape_char(s.last())
    }
}

/// `s` with each line feed replaced by a space.
pub open spec fn newlines_to_spaces(s: Seq<char>) -> Seq<char> {
    s.map_values(|c: char| if c == '\n' { ' ' } else { c })
}

/// The YAML frontmatter line `<key>: <value>\n`, line feeds in the value
/// folded to spaces.
pub open spec fn yaml_line(key: Seq<char>, value: Seq<char>) -> Seq<char> {
    key + ": "@ + newlines_to_spaces(value) + "\n"@
}

/// The HTML `name` for a key: `tags` becomes `keywords`.
pub open spec fn html_name(key: Seq<char>) -> Seq<char> {
    if key == "tags"@ { "keywords"@ } else { key }
}

/// The HTML head element for a key: `<title>` for `title`, a `<meta>`
/// element otherwise.
pub open spec fn html_meta(key: Seq<char>, value: Seq<char>) -> Seq<char> {
    if key == "title"@ {
        "<title>"@ + html_escaped(value) + "</title>"@
    } else {
        "<meta name=\""@ + html_escaped(html_name(key)) + "\" content=\""@ + html_escaped(value) + "\">"@
    }
}

/// The key of a built-in `doc.*` label: the label without `doc.`.
pub open spec fn doc_key(label: Seq<char>) -> Option<Seq<char>> {
    if label.len() >= 4 && label.take(4) == "doc."@ && str_views(DOC_BUILTIN_LABELS@).contains(label) {
        Some(label.skip(4))
    } else {
        None
    }
}

/// What a `doc.*` label renders to: nothing unless the label is a built-in
/// with a non-blank text body and the format is markdown or HTML.
pub open spec fn doc_render(label: Seq<char>, body: DocBody, format: RenderFormat) -> Option<Seq<char>> {
    match (doc_key(label), body) {
        (Some(key), DocBody::Text(t)) => {
            let value = trim_spec(t@);
            if value.len() == 0 {
                None
            } else {
                match format {
                    RenderFormat::Markdown => Some(yaml_line(key, value)),
                    RenderFormat::Html => Some(html_meta(key, value)),
                    RenderFormat::Custom(_) => None,
                }
            }
        },
        _ => None,
    }
}

/// Minimal HTML escape of `<`, `>`, `&` and `"`.
pub fn html_escape_text(s: &str) -> (r: String)
    ensures
        r@ == html_escaped(s@),
{
    let c = chars_of(s);
    let mut out = String::new();
    let mut i: usize = 0;
    while i < c.len()
        invariant
            c@ == s@,
            i <= c@.len(),
            out@ == html_escaped(c@.take(i as int)),
        decreases c@.len() - i,
    {
        assert(c@.take(i + 1).drop_last() =~= c@.take(i as int));
        let ch = c[i];
        if ch == '<' {
            out.append("&lt;");
        } else if ch == '>' {
            out.append("&gt;");
        } else if ch == '&' {
            out.append("&amp;");
        } else if ch == '"' {
            out.append("&quot;");
        } else {
            crate::text::push_char(&mut out, ch);
        }
        i += 1;
    }
    assert(c@.take(c@.len() as int) =~= c@);
    out
}

/// One YAML frontmatter line (`<key>: <value>\n`); line feeds inside the
/// value become spaces so the line stays a single YAML scalar.
pub fn render_markdown_yaml_line(key: &str, value: &str) -> (r: String)
    ensures
        r@ == yaml_line(key@, value@),
{
    let c = chars_of(value);
    let mut out = String::new();
    out.append(key);
    out.append(": ");
    let ghost head = out@;
    let mut i: usize = 0;
    while i < c.len()
        invariant
            c@ == value@,
            i <= c@.len(),
            out@ == head + newlines_to_spaces(c@.take(i as int)),
        decreases c@.len() - i,
    {
        let ch = c[i];
        if ch == '\n' {
            crate::text::push_char(&mut out, ' ');
        } else {
            crate::text::push_char(&mut out, ch);
        }
        assert(newlines_to_spaces(c@.take(i + 1)) =~= newlines_to_spaces(c@.take(i as int)).push(
            if ch == '\n' { ' ' } else { ch },
        ));
        i += 1;
    }
    assert(c@.take(c@.len() as int) =~= c@);
    out.append("\n");
    out
}

/// One HTML head element: `doc.title` becomes `<title>`; every other key a
/// `<meta>` whose `name` mirrors the key (`tags` becomes `keywords`).
pub fn render_html_meta(key: &str, value: &str) -> (r: String)
    ensures
        r@ == html_meta(key@, value@),
{
    let mut out = String::new();
    if str_eq(key, "title") {
        out.append("<title>");
        out.append(html_escape_text(value).as_str());
        out.append("</title>");
        return out;
    }
    let name = if str_eq(key, "tags") { "keywords" } else { key };
    out.append("<meta name=\"");
    out.append(html_escape_text(name).as_str());
    out.append("\" content=\"");
    out.append(html_escape_text(value).as_str());
    out.append("\">");
    out
}

/// The key of a built-in `doc.*` label.
fn doc_key_of(label: &str) -> (r: Option<String>)
    ensures
        match (r, doc_key(label@)) {
            (Some(k), Some(s)) => k@ == s,
            (None, None) => true,
            _ => false,
        },
{
    let c = chars_of(label);
    if c.len() >= 4 && c[0] == 'd' && c[1] == 'o' && c[2] == 'c' && c[3] == '.' && is_doc_builtin(label) {
        proof {
            reveal_strlit("doc.");
            assert(label@.take(4) =~= "doc."@);
        }
        Some(string_from_chars(copy_chars(&c, 4, c.len()).as_slice()))
    } else {
        proof {
            reveal_strlit("doc.");
            if label@.len() >= 4 && label@.take(4) == "doc."@ {
                assert(label@.take(4)[0] == 'd');
                assert(label@.take(4)[1] == 'o');
                assert(label@.take(4)[2] == 'c');
                assert(label@.take(4)[3] == '.');
            }
        }
        None
    }
}

/// Render a `doc.*` label occurrence for a format: `None` (the host's
/// default rendering) unless the label is a built-in `doc.*` canonical with
/// a text body that is not blank and the format is markdown or HTML.
pub fn render_doc_annotation(label: &str, body: &DocBody, format: &RenderFormat) -> (r: Option<String>)
    ensures
        match (r, doc_render(label@, *body, *format)) {
            (Some(s), Some(t)) => s@ == t,
            (None, None) => true,
            _ => false,
        },
{
    let key = match doc_key_of(label) {
        Some(k) => k,
        None => return None,
    };
    let text = match body {
        DocBody::Text(t) => t,
        _ => return None,
    };
    let value = trim(text.as_str());
    if value.is_empty() {
        return None;
    }
    match format {
        RenderFormat::Markdown => Some(render_markdown_yaml_line(key.as_str(), value)),
        RenderFormat::Html => Some(render_html_meta(key.as_str(), value)),
        RenderFormat::Custom(_) => None,
    }
}

} // verus!
