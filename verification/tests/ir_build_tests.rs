use lex_core::builtins::doc::RenderFormat;
use lex_core::builtins::ir_build::{DocBuiltinsHandler, LexBuiltinsHandler};
use lex_core::includes::{MemoryLoader, ResolveConfig};
use std::path::PathBuf;
use lex_core::builtins::doc::DocBody;
use lex_core::builtins::handler::DataValue;
use lex_core::builtins::ir_build::{
    on_format, on_ir_build, FormatInput, IrNode, LabelInput, WirePosition, WireRange,
};

fn zero_range() -> WireRange {
    WireRange {
        start: WirePosition { line: 0, column: 0 },
        end: WirePosition { line: 0, column: 0 },
    }
}

fn params(pairs: &[(&str, &str)]) -> Option<Vec<(String, DataValue)>> {
    Some(
        pairs
            .iter()
            .map(|(k, v)| (k.to_string(), DataValue::Str(v.to_string())))
            .collect(),
    )
}

fn make_ctx(label: &str, src: Option<&str>, body: DocBody) -> LabelInput {
    LabelInput {
        label: label.into(),
        params: match src {
            Some(s) => params(&[("src", s)]),
            None => params(&[]),
        },
        body,
        range: zero_range(),
        origin: None,
    }
}

#[test]
fn dispatch_ir_build_media_returns_typed_wire_kinds() {
    for (label, expect_kind) in [
        ("lex.media.image", "image"),
        ("lex.media.video", "video"),
        ("lex.media.audio", "audio"),
    ] {
        let ctx = make_ctx(label, Some("./asset.media"), DocBody::Empty);
        let result = on_ir_build(&ctx).unwrap_or_else(|| panic!("on_ir_build({label}) must return Some"));
        let actual = match result {
            IrNode::Image { .. } => "image",
            IrNode::Video { .. } => "video",
            IrNode::Audio { .. } => "audio",
            other => panic!("on_ir_build({label}) produced unexpected variant {other:?}"),
        };
        assert_eq!(actual, expect_kind, "wire variant for {label}");
    }
}

#[test]
fn dispatch_ir_build_propagates_ctx_range_and_origin() {
    let stamped_range = WireRange {
        start: WirePosition { line: 12, column: 4 },
        end: WirePosition { line: 14, column: 10 },
    };
    let stamped_origin = Some("/host/doc.lex".to_string());
    let cases: &[(&str, &str)] = &[
        ("lex.tabular.table", "| a | b |\n|---|---|\n| 1 | 2 |"),
        ("lex.media.image", ""),
        ("lex.media.video", ""),
        ("lex.media.audio", ""),
    ];
    for (label, body) in cases {
        let ctx = LabelInput {
            label: (*label).into(),
            params: params(&[("src", "x")]),
            body: DocBody::Text((*body).into()),
            range: stamped_range,
            origin: stamped_origin.clone(),
        };
        let result = on_ir_build(&ctx).unwrap_or_else(|| panic!("on_ir_build({label}) must return Some"));
        let (got_range, got_origin) = match result {
            IrNode::Table { range, origin, .. }
            | IrNode::Image { range, origin, .. }
            | IrNode::Video { range, origin, .. }
            | IrNode::Audio { range, origin, .. } => (range, origin),
        };
        assert_eq!(got_range, stamped_range, "range must propagate for {label}");
        assert_eq!(got_origin, stamped_origin, "origin must propagate for {label}");
    }
}

#[test]
fn other_labels_get_no_node() {
    for label in ["lex.include", "lex.notes", "lex.metadata.title", "doc.title", "acme.x"] {
        assert!(on_ir_build(&make_ctx(label, Some("a"), DocBody::Empty)).is_none());
    }
}

#[test]
fn image_alt_falls_back_to_trimmed_body() {
    let ctx = make_ctx("lex.media.image", Some("cat.png"), DocBody::Text("  A cat \n".into()));
    match on_ir_build(&ctx) {
        Some(IrNode::Image { src, alt, title, .. }) => {
            assert_eq!(src, "cat.png");
            assert_eq!(alt, "A cat");
            assert_eq!(title, None);
        }
        other => panic!("unexpected {other:?}"),
    }
    let mut ctx = make_ctx("lex.media.image", None, DocBody::Text("body".into()));
    ctx.params = params(&[("alt", "given"), ("title", "T")]);
    match on_ir_build(&ctx) {
        Some(IrNode::Image { src, alt, title, .. }) => {
            assert_eq!(src, "");
            assert_eq!(alt, "given");
            assert_eq!(title, Some("T".to_string()));
        }
        other => panic!("unexpected {other:?}"),
    }
}

#[test]
fn video_reads_poster_and_table_parses_body() {
    let mut ctx = make_ctx("lex.media.video", Some("v.mp4"), DocBody::Empty);
    ctx.params = params(&[("src", "v.mp4"), ("poster", "p.png")]);
    match on_ir_build(&ctx) {
        Some(IrNode::Video { src, title, poster, .. }) => {
            assert_eq!(src, "v.mp4");
            assert_eq!(title, None);
            assert_eq!(poster, Some("p.png".to_string()));
        }
        other => panic!("unexpected {other:?}"),
    }
    let ctx = make_ctx("lex.tabular.table", None, DocBody::Text("| h |\n| v |".into()));
    match on_ir_build(&ctx) {
        Some(IrNode::Table { table, .. }) => {
            // Any second line holding a `|` is read as the alignment row.
            assert_eq!(table.header_rows, 1);
            assert_eq!(table.rows, vec![vec!["h".to_string()]]);
            assert_eq!(table.column_aligns, vec![String::new()]);
        }
        other => panic!("unexpected {other:?}"),
    }
    let ctx = make_ctx("lex.tabular.table", None, DocBody::Empty);
    match on_ir_build(&ctx) {
        Some(IrNode::Table { table, .. }) => assert!(table.rows.is_empty()),
        other => panic!("unexpected {other:?}"),
    }
}

fn format_ctx_verbatim(label: &str, params: Vec<(&str, &str)>, body_text: &str) -> FormatInput {
    FormatInput {
        label: label.into(),
        params: params
            .into_iter()
            .map(|(k, v)| (k.to_string(), v.to_string()))
            .collect(),
        verbatim_body: Some(body_text.into()),
    }
}

#[test]
fn dispatch_format_for_lex_tabular_table_returns_verbatim_annotation() {
    let body = "| a | b |\n|---|---|\n| 1 | 2 |";
    let ctx = format_ctx_verbatim("lex.tabular.table", vec![("header", "1")], body);
    let out = on_format(&ctx).expect("handler returned Some");
    assert_eq!(out.label, "lex.tabular.table");
    assert_eq!(out.params, vec![("header".into(), "1".into())]);
    assert_eq!(out.body, body);
    assert!(out.verbatim_label);
}

#[test]
fn dispatch_format_for_lex_media_image_returns_verbatim_annotation() {
    let ctx = format_ctx_verbatim("lex.media.image", vec![("src", "chart.png"), ("alt", "Q4 chart")], "");
    let out = on_format(&ctx).expect("handler returned Some");
    assert_eq!(out.label, "lex.media.image");
    let src = out.params.iter().find(|(k, _)| k == "src").map(|(_, v)| v.as_str());
    assert_eq!(src, Some("chart.png"));
    assert!(out.verbatim_label);
}

#[test]
fn dispatch_format_for_lex_media_video_and_audio_return_verbatim_annotation() {
    for label in ["lex.media.video", "lex.media.audio"] {
        let ctx = format_ctx_verbatim(label, vec![("src", "media.mp4")], "");
        let out = on_format(&ctx).unwrap_or_else(|| panic!("handler must return Some for {label}"));
        assert_eq!(out.label, label);
        assert!(out.verbatim_label);
    }
}

#[test]
fn dispatch_format_for_lex_include_returns_none() {
    let ctx = format_ctx_verbatim("lex.include", vec![("src", "other.lex")], "");
    assert!(on_format(&ctx).is_none(), "lex.include has no on_format path");
}

#[test]
fn dispatch_format_for_lex_metadata_returns_none() {
    let ctx = format_ctx_verbatim("lex.metadata.title", vec![], "My Doc");
    assert!(on_format(&ctx).is_none(), "metadata labels fall back to host default");
}

#[test]
fn dispatch_format_with_non_verbatim_node_returns_none() {
    let ctx = FormatInput {
        label: "lex.tabular.table".into(),
        params: vec![],
        verbatim_body: None,
    };
    assert!(on_format(&ctx).is_none(), "non-verbatim wire node must fall back to host default");
}

#[test]
fn builtins_handlers_delegate_to_hooks() {
    let handler = LexBuiltinsHandler::new(MemoryLoader::new(), ResolveConfig::with_root(PathBuf::from("/r")));
    let ctx = make_ctx("lex.media.audio", Some("a.ogg"), DocBody::Empty);
    assert!(matches!(handler.on_ir_build(&ctx), Some(IrNode::Audio { .. })));
    let fctx = format_ctx_verbatim("lex.media.audio", vec![("src", "a.ogg")], "");
    assert!(handler.on_format(&fctx).is_some());
    let doc = DocBuiltinsHandler;
    assert_eq!(
        doc.on_render("doc.author", &DocBody::Text("Ann".into()), &RenderFormat::Markdown),
        Some("author: Ann\n".to_string())
    );
}
