use lex_core::builtins::doc::{
    html_escape_text, render_doc_annotation, render_html_meta, render_markdown_yaml_line,
    DocBody, RenderFormat,
};

fn text(s: &str) -> DocBody {
    DocBody::Text(s.to_string())
}

#[test]
fn render_markdown_emits_yaml_line() {
    let out = render_doc_annotation("doc.title", &text("My Doc"), &RenderFormat::Markdown).expect("Some");
    assert_eq!(out, "title: My Doc\n");
}

#[test]
fn render_html_title_emits_title_element() {
    let out = render_doc_annotation("doc.title", &text("My Doc"), &RenderFormat::Html).expect("Some");
    assert_eq!(out, "<title>My Doc</title>");
}

#[test]
fn render_html_non_title_emits_meta_element() {
    let out = render_doc_annotation("doc.author", &text("Alice"), &RenderFormat::Html).expect("Some");
    assert_eq!(out, "<meta name=\"author\" content=\"Alice\">");
}

#[test]
fn render_html_tags_maps_to_keywords_meta() {
    let out = render_doc_annotation("doc.tags", &text("rust, lex"), &RenderFormat::Html).expect("Some");
    assert_eq!(out, "<meta name=\"keywords\" content=\"rust, lex\">");
}

#[test]
fn render_html_escapes_special_characters() {
    let out = render_doc_annotation("doc.title", &text("Lex & <Friends>"), &RenderFormat::Html).expect("Some");
    assert_eq!(out, "<title>Lex &amp; &lt;Friends&gt;</title>");
}

#[test]
fn render_returns_none_for_empty_body() {
    let out = render_doc_annotation("doc.title", &text("   "), &RenderFormat::Markdown);
    assert!(out.is_none(), "empty body must fall back to host default rendering");
}

#[test]
fn render_returns_none_for_unsupported_format() {
    let out = render_doc_annotation("doc.title", &text("My Doc"), &RenderFormat::Custom("rfc-xml".into()));
    assert!(out.is_none());
}

#[test]
fn render_returns_none_for_non_doc_label() {
    let out = render_doc_annotation("acme.title", &text("My Doc"), &RenderFormat::Markdown);
    assert!(out.is_none(), "unrelated labels must be skipped");
}

#[test]
fn render_returns_none_for_unknown_doc_label() {
    let out = render_doc_annotation("doc.unknown", &text("v"), &RenderFormat::Markdown);
    assert!(out.is_none());
}

#[test]
fn render_returns_none_for_structured_or_missing_body() {
    assert!(render_doc_annotation("doc.title", &DocBody::Lex, &RenderFormat::Markdown).is_none());
    assert!(render_doc_annotation("doc.title", &DocBody::Empty, &RenderFormat::Html).is_none());
}

#[test]
fn render_trims_and_folds_newlines_for_markdown() {
    let out = render_doc_annotation("doc.date", &text("  2024-01-01\nnoon \n"), &RenderFormat::Markdown)
        .expect("Some");
    assert_eq!(out, "date: 2024-01-01 noon\n");
}

#[test]
fn html_escape_covers_four_characters() {
    assert_eq!(html_escape_text("a\"b'c<>&"), "a&quot;b'c&lt;&gt;&amp;");
    assert_eq!(html_escape_text(""), "");
    assert_eq!(html_escape_text("plain é"), "plain é");
}

#[test]
fn yaml_line_and_meta_helpers() {
    assert_eq!(render_markdown_yaml_line("tags", "a\nb"), "tags: a b\n");
    assert_eq!(render_html_meta("title", "x\"y"), "<title>x&quot;y</title>");
    assert_eq!(render_html_meta("tags", "t"), "<meta name=\"keywords\" content=\"t\">");
    assert_eq!(render_html_meta("<k>", "v"), "<meta name=\"&lt;k&gt;\" content=\"v\">");
}
