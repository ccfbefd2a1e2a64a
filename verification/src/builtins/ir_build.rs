//! The lifecycle hooks of the verbatim built-ins: at IR build,
//! `lex.tabular.table` bodies become typed tables and `lex.media.*`
//! parameters typed media nodes; at format time, each is written back as a
//! verbatim annotation.
use vstd::prelude::*;
use super::doc::DocBody;
use super::handler::{data_str, data_str_of, DataValue};
use super::tabular::{parse_pipe_table_to_wire, wire_table_of, WireTable};
use crate::text::{trim, trim_spec};

verus! {

/// A line/column position in a host document.
#[derive(Debug, Clone, Copy, PartialEq, Eq)]
pub struct WirePosition {
    pub line: usize,
    pub column: usize,
}

/// A range in a host document.
#[derive(Debug, Clone, Copy, PartialEq, Eq)]
pub struct WireRange {
    pub start: WirePosition,
    pub end: WirePosition,
}

/// A label occurrence as the IR-build hook sees it: its label, parameters,
/// body, and the range and origin file of the node it sits on.
#[derive(Debug, Clone, PartialEq, Eq)]
pub struct LabelInput {
    pub label: String,
    pub params: Option<Vec<(String, DataValue)>>,
    pub body: DocBody,
    pub range: WireRange,
    pub origin: Option<String>,
}

/// A typed node produced for a verbatim built-in, stamped with the host
/// node's range and origin.
#[derive(Debug, Clone, PartialEq, Eq)]
pub enum IrNode {
    Table { range: WireRange, origin: Option<String>, table: WireTable },
    Image { range: WireRange, origin: Option<String>, src: String, alt: String, title: Option<String> },
    Video { range: WireRange, origin: Option<String>, src: String, title: Option<String>, poster: Option<String> },
    Audio { range: WireRange, origin: Option<String>, src: String, title: Option<String> },
}

/// Whether `a` and `b` are the same optional string.
pub open spec fn same_opt(a: Option<String>, b: Option<Seq<char>>) -> bool {
    match (a, b) {
        (Some(x), Some(y)) => x@ == y,
        (None, None) => true,
        _ => false,
    }
}

/// Whether `a` is the optional string `b`, or empty when `b` is absent.
pub open spec fn or_empty(a: String, b: Option<Seq<char>>) -> bool {
    match b {
        Some(y) => a@ == y,
        None => a@.len() == 0,
    }
}

/// Whether `o` is the same optional text as `p`.
pub open spec fn same_origin(o: Option<String>, p: Option<String>) -> bool {
    match (o, p) {
        (Some(x), Some(y)) => x@ == y@,
        (None, None) => true,
        _ => false,
    }
}

/// The text of a text body; empty otherwise.
pub open spec fn body_text(b: DocBody) -> Seq<char> {
    match b {
        DocBody::Text(t) => t@,
        _ => Seq::empty(),
    }
}

/// The node the IR-build hook produces for `ctx`: a table parsed from the
/// body for `lex.tabular.table`; for the media labels, the `src`, `title`
/// (and `poster` for video) string parameters, `src` empty when missing,
/// and for images an `alt` that falls back to the trimmed text body; no
/// node for any other label.
pub open spec fn ir_node_of(ctx: LabelInput, r: Option<IrNode>) -> bool {
    let p = ctx.params;
    if ctx.label@ == "lex.tabular.table"@ {
        r matches Some(IrNode::Table { range, origin, table }) && range == ctx.range && same_origin(origin, ctx.origin)
            && wire_table_of(body_text(ctx.body), table)
    } else if ctx.label@ == "lex.media.image"@ {
        r matches Some(IrNode::Image { range, origin, src, alt, title }) && range == ctx.range && same_origin(origin, ctx.origin)
            && or_empty(src, data_str_of(p, "src"@)) && same_opt(title, data_str_of(p, "title"@))
            && alt@ == match data_str_of(p, "alt"@) {
                Some(a) => a,
                None => match ctx.body {
                    DocBody::Text(t) => trim_spec(t@),
                    _ => Seq::empty(),
                },
            }
    } else if ctx.label@ == "lex.media.video"@ {
        r matches Some(IrNode::Video { range, origin, src, title, poster }) && range == ctx.range
            && same_origin(origin, ctx.origin) && or_empty(src, data_str_of(p, "src"@))
            && same_opt(title, data_str_of(p, "title"@)) && same_opt(poster, data_str_of(p, "poster"@))
    } else if ctx.label@ == "lex.media.audio"@ {
        r matches Some(IrNode::Audio { range, origin, src, title }) && range == ctx.range && same_origin(origin, ctx.origin)
            && or_empty(src, data_str_of(p, "src"@)) && same_opt(title, data_str_of(p, "title"@))
    } else {
        r is None
    }
}

/// A copy of an optional string.
fn copy_origin(o: &Option<String>) -> (r: Option<String>)
    ensures
        same_origin(r, *o),
{
    match o {
        Some(s) => Some(s.clone()),
        None => None,
    }
}

/// A string parameter of `ctx`, if present and a string.
fn string_param(ctx: &LabelInput, key: &str) -> (r: Option<String>)
    ensures
        same_opt(r, data_str_of(ctx.params, key@)),
{
    data_str(&ctx.params, key)
}

/// A string parameter of `ctx`, or the empty string.
fn string_param_or_empty(ctx: &LabelInput, key: &str) -> (r: String)
    ensures
        or_empty(r, data_str_of(ctx.params, key@)),
{
    match string_param(ctx, key) {
        Some(s) => s,
        None => String::new(),
    }
}

/// The IR-build hook of the `lex.*` built-ins: hydrate the verbatim labels
/// into typed nodes; every other label gets no node.
pub fn on_ir_build(ctx: &LabelInput) -> (r: Option<IrNode>)
    ensures
        ir_node_of(*ctx, r),
{
    let label = ctx.label.as_str();
    if crate::text::str_eq(label, "lex.tabular.table") {
        let body = match &ctx.body {
            DocBody::Text(t) => t.as_str(),
            _ => "",
        };
        proof {
            reveal_strlit("");
        }
        let table = parse_pipe_table_to_wire(body);
        Some(IrNode::Table { range: ctx.range, origin: copy_origin(&ctx.origin), table })
    } else if crate::text::str_eq(label, "lex.media.image") {
        let src = string_param_or_empty(ctx, "src");
        let alt = match string_param(ctx, "alt") {
            Some(a) => a,
            None => match &ctx.body {
                DocBody::Text(t) => trim(t.as_str()).to_owned(),
                _ => String::new(),
            },
        };
        let title = string_param(ctx, "title");
        Some(IrNode::Image { range: ctx.range, origin: copy_origin(&ctx.origin), src, alt, title })
    } else if crate::text::str_eq(label, "lex.media.video") {
        Some(
            IrNode::Video {
                range: ctx.range,
                origin: copy_origin(&ctx.origin),
                src: string_param_or_empty(ctx, "src"),
                title: string_param(ctx, "title"),
                poster: string_param(ctx, "poster"),
            },
        )
    } else if crate::text::str_eq(label, "lex.media.audio") {
        Some(
            IrNode::Audio {
                range: ctx.range,
                origin: copy_origin(&ctx.origin),
                src: string_param_or_empty(ctx, "src"),
                title: string_param(ctx, "title"),
            },
        )
    } else {
        None
    }
}

/// A label occurrence as the format hook sees it: its label, its
/// parameters, and the body text when the node is a verbatim block.
#[derive(Debug, Clone, PartialEq, Eq)]
pub struct FormatInput {
    pub label: String,
    pub params: Vec<(String, String)>,
    pub verbatim_body: Option<String>,
}

/// A Lex annotation to emit: label, parameters, body, and whether it closes
/// a verbatim block.
#[derive(Debug, Clone, PartialEq, Eq)]
pub struct AnnotationOut {
    pub label: String,
    pub params: Vec<(String, String)>,
    pub body: String,
    pub verbatim_label: bool,
}

/// The four verbatim built-ins.
pub open spec fn is_verbatim_builtin(label: Seq<char>) -> bool {
    label == "lex.tabular.table"@ || label == "lex.media.image"@ || label == "lex.media.video"@
        || label == "lex.media.audio"@
}

/// Whether two parameter lists hold the same texts.
pub open spec fn same_params(a: Seq<(String, String)>, b: Seq<(String, String)>) -> bool {
    a.len() == b.len() && forall|i: int| 0 <= i < a.len() ==> (#[trigger] a[i]).0@ == b[i].0@ && a[i].1@ == b[i].1@
}

/// A copy of a parameter list.
fn copy_params(v: &Vec<(String, String)>) -> (r: Vec<(String, String)>)
    ensures
        same_params(r@, v@),
{
    let mut r: Vec<(String, String)> = Vec::new();
    let mut i: usize = 0;
    while i < v.len()
        invariant
            i <= v@.len(),
            r@.len() == i,
            forall|k: int| 0 <= k < i ==> (#[trigger] r@[k]).0@ == v@[k].0@ && r@[k].1@ == v@[k].1@,
        decreases v@.len() - i,
    {
        r.push((v[i].0.clone(), v[i].1.clone()));
        i += 1;
    }
    r
}

/// The format hook of the verbatim built-ins: write the occurrence back as
/// a verbatim annotation with its label, parameters and body text. Other
/// labels, and nodes that are not verbatim blocks, get nothing (the host's
/// own formatter applies).
pub fn on_format(ctx: &FormatInput) -> (r: Option<AnnotationOut>)
    ensures
        match r {
            Some(out) => is_verbatim_builtin(ctx.label@) && (ctx.verbatim_body matches Some(b)
                && out.body@ == b@) && out.label@ == ctx.label@ && same_params(out.params@, ctx.params@)
                && out.verbatim_label,
            None => !is_verbatim_builtin(ctx.label@) || ctx.verbatim_body is None,
        },
{
    let label = ctx.label.as_str();
    if !(crate::text::str_eq(label, "lex.tabular.table") || crate::text::str_eq(label, "lex.media.image")
        || crate::text::str_eq(label, "lex.media.video") || crate::text::str_eq(label, "lex.media.audio")) {
        return None;
    }
    match &ctx.verbatim_body {
        Some(body) => Some(
            AnnotationOut {
                label: ctx.label.clone(),
                params: copy_params(&ctx.params),
                body: body.clone(),
                verbatim_label: true,
            },
        ),
        None => None,
    }
}

/// The handler of the `lex.*` built-ins: the `lex.include` handler and the
/// hooks of the verbatim built-ins.
pub struct LexBuiltinsHandler<L: crate::includes::Loader> {
    inclusion: super::include_handler::LexIncludeHandler<L>,
}

impl<L: crate::includes::Loader> LexBuiltinsHandler<L> {
    /// The `lex.include` handler inside.
    pub closed spec fn include_handler(&self) -> super::include_handler::LexIncludeHandler<L> {
        self.inclusion
    }

    /// A handler whose `lex.include` part reads through `loader` under `config`.
    pub fn new(loader: L, config: crate::includes::ResolveConfig) -> (h: Self)
        ensures
            h.include_handler().loader() == loader,
            h.include_handler().config() == config,
    {
        LexBuiltinsHandler { inclusion: super::include_handler::LexIncludeHandler::new(loader, config) }
    }

    /// The IR-build hook: see [`on_ir_build`].
    pub fn on_ir_build(&self, ctx: &LabelInput) -> (r: Option<IrNode>)
        ensures
            ir_node_of(*ctx, r),
    {
        on_ir_build(ctx)
    }

    /// The format hook: see [`on_format`].
    pub fn on_format(&self, ctx: &FormatInput) -> (r: Option<AnnotationOut>)
        ensures
            match r {
                Some(out) => is_verbatim_builtin(ctx.label@) && (ctx.verbatim_body matches Some(b)
                    && out.body@ == b@) && out.label@ == ctx.label@ && same_params(out.params@, ctx.params@)
                    && out.verbatim_label,
                None => !is_verbatim_builtin(ctx.label@) || ctx.verbatim_body is None,
            },
    {
        on_format(ctx)
    }
}

/// The handler of the `doc.*` namespace: renders the document-metadata labels.
pub struct DocBuiltinsHandler;

impl DocBuiltinsHandler {
    /// The render hook: see [`render_doc_annotation`](super::doc::render_doc_annotation).
    pub fn on_render(&self, label: &str, body: &DocBody, format: &super::doc::RenderFormat) -> (r: Option<String>)
        ensures
            match (r, super::doc::doc_render(label@, *body, *format)) {
                (Some(s), Some(t)) => s@ == t,
                (None, None) => true,
                _ => false,
            },
    {
        super::doc::render_doc_annotation(label, body, format)
    }
}

} // verus!
