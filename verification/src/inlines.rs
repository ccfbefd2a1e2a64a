//! Inline nodes and the math post-processor that attaches MathML renderings
//! of AsciiMath expressions.
use vstd::prelude::*;
use vstd::string::*;

pub mod citations;
pub mod references;

verus! {

/// Page-number format of a citation locator: `p.` or `pp.`.
#[derive(Debug, Clone, Copy, PartialEq, Eq, Structural)]
pub enum PageFormat {
    P,
    Pp,
}

/// A single page (`end` none) or a page range.
#[derive(Debug, Clone, Copy, PartialEq, Eq, Structural)]
pub struct PageRange {
    pub start: u32,
    pub end: Option<u32>,
}

/// The page locator of a citation.
#[derive(Debug, Clone, PartialEq)]
pub struct CitationLocator {
    pub format: PageFormat,
    pub ranges: Vec<PageRange>,
    /// The locator text as written (trimmed).
    pub raw: String,
}

/// Citation keys and optional page locator of `[@key1; @key2, pp. 45-46]`.
#[derive(Debug, Clone, PartialEq)]
pub struct CitationData {
    pub keys: Vec<String>,
    pub locator: Option<CitationLocator>,
}

/// What a reference points at.
#[derive(Debug, Clone, PartialEq)]
pub enum ReferenceType {
    /// A placeholder (`[TK]`, `[TK-identifier]`).
    ToCome { identifier: Option<String> },
    /// A citation (`[@key]`).
    Citation(CitationData),
    /// A labeled footnote (`[^note]`).
    FootnoteLabeled { label: String },
    /// A numbered footnote (`[42]`).
    FootnoteNumber { number: u32 },
    /// A session (`[#2.1]`).
    Session { target: String },
    /// A URL.
    Url { target: String },
    /// A file path.
    File { target: String },
    /// Anything else (`[Section Title]`).
    General { target: String },
    /// Content that cannot be a reference (empty or no letters or digits).
    NotSure,
}

/// A reference inline: its raw content and what it was classified as.
#[derive(Debug, Clone, PartialEq)]
pub struct ReferenceInline {
    pub raw: String,
    pub reference_type: ReferenceType,
}

/// An annotation label.
#[derive(Debug, Clone, PartialEq)]
pub struct Label {
    pub value: String,
}

/// A `key=value` annotation parameter.
#[derive(Debug, Clone, PartialEq)]
pub struct Parameter {
    pub key: String,
    pub value: String,
}

/// Label and parameters of an annotation.
#[derive(Debug, Clone, PartialEq)]
pub struct AnnotationData {
    pub label: Label,
    pub parameters: Vec<Parameter>,
}

/// A single line of text content.
#[derive(Debug, Clone, PartialEq)]
pub struct TextLine {
    pub content: String,
}

impl TextLine {
    /// The line's text.
    pub fn text(&self) -> (s: &str)
        ensures
            s@ == self.content@,
    {
        self.content.as_str()
    }
}

/// Block content carried by an annotation.
#[derive(Debug, Clone, PartialEq)]
pub enum ContentItem {
    TextLine(TextLine),
}

/// An annotation attached to an inline node.
#[derive(Debug, Clone, PartialEq)]
pub struct Annotation {
    pub data: AnnotationData,
    pub children: Vec<ContentItem>,
}

/// An inline node: plain text, a code span, a math span or a reference,
/// each with the annotations attached to it.
#[derive(Debug, Clone, PartialEq)]
pub enum InlineNode {
    Plain { text: String, annotations: Vec<Annotation> },
    Code { text: String, annotations: Vec<Annotation> },
    Math { text: String, annotations: Vec<Annotation> },
    Reference { data: ReferenceInline, annotations: Vec<Annotation> },
}

impl InlineNode {
    /// A plain-text node without annotations.
    pub fn plain(text: String) -> (n: Self)
        ensures
            n matches InlineNode::Plain { text: t, annotations: a } && t == text && a@.len() == 0,
    {
        InlineNode::Plain { text, annotations: Vec::new() }
    }

    /// A math node without annotations.
    pub fn math(text: String) -> (n: Self)
        ensures
            n matches InlineNode::Math { text: t, annotations: a } && t == text && a@.len() == 0,
    {
        InlineNode::Math { text, annotations: Vec::new() }
    }
}

/// The MathML rendering of an AsciiMath expression (`polymath_rs::to_math_ml`).
pub uninterp spec fn asciimath_to_mathml(s: Seq<char>) -> Seq<char>;

/// The opening of every MathML document the converter writes.
pub open spec fn mathml_open() -> Seq<char> {
    "<math display=\"block\">"@
}

/// `polymath_rs::to_math_ml`. Trusted: the result is the named rendering of
/// the input, and it is wrapped in a block `<math>` element (the converter
/// formats its output as `<math display="block">…</math>`). The converter
/// accepts every input: its `unwrap` and `unreachable!` sites sit behind its
/// own parser's checks.
#[verifier::external_body]
fn to_math_ml(s: &str) -> (r: String)
    ensures
        r@ == asciimath_to_mathml(s@),
        r@.len() >= mathml_open().len() + 7,
        r@.take(mathml_open().len() as int) == mathml_open(),
        r@.skip(r@.len() - 7) == "</math>"@,
{
    polymath_rs::to_math_ml(s)
}

/// Convert an AsciiMath expression to MathML. Conversion never fails.
pub fn parse_asciimath_to_mathml(asciimath: &str) -> (r: Result<String, String>)
    ensures
        r matches Ok(m) && m@ == asciimath_to_mathml(asciimath@),
        r matches Ok(m) && m@.take(mathml_open().len() as int) == mathml_open(),
        r matches Ok(m) && m@.skip(m@.len() - 7) == "</math>"@,
{
    Ok(to_math_ml(asciimath))
}

/// A string holding exactly `s`.
fn owned(s: &str) -> (r: String)
    ensures
        r@ == s@,
{
    s.to_string()
}

/// `a` is the `doc.data` annotation with `type=mathml` whose single child line holds `mathml`.
pub open spec fn is_mathml_annotation(a: Annotation, mathml: Seq<char>) -> bool {
    &&& a.data.label.value@ == "doc.data"@
    &&& a.data.parameters@.len() == 1
    &&& a.data.parameters@[0].key@ == "type"@
    &&& a.data.parameters@[0].value@ == "mathml"@
    &&& a.children@.len() == 1
    &&& a.children@[0] matches ContentItem::TextLine(line) && line.content@ == mathml
}

/// Post-processor for math inline nodes: a math node keeps its text and
/// existing annotations and gains a `doc.data` annotation (`type=mathml`)
/// whose child line holds the MathML rendering of its AsciiMath text. Every
/// other node is returned unchanged.
pub fn math_to_mathml_processor(node: InlineNode) -> (r: InlineNode)
    ensures
        node matches InlineNode::Math { .. } ==> (r matches InlineNode::Math { text: t, annotations: a } && {
            let old_text = node->Math_text;
            let old_annos = node->Math_annotations;
            &&& t == old_text
            &&& a@.len() == old_annos@.len() + 1
            &&& a@.take(old_annos@.len() as int) == old_annos@
            &&& is_mathml_annotation(a@.last(), asciimath_to_mathml(old_text@))
        }),
        !(node matches InlineNode::Math { .. }) ==> r == node,
{
    match node {
        InlineNode::Math { text, mut annotations } => {
            let ghost old_annos = annotations@;
            match parse_asciimath_to_mathml(text.as_str()) {
                Ok(mathml) => {
                    let mut params: Vec<Parameter> = Vec::new();
                    params.push(Parameter { key: owned("type"), value: owned("mathml") });
                    let mut children: Vec<ContentItem> = Vec::new();
                    children.push(ContentItem::TextLine(TextLine { content: mathml }));
                    let anno = Annotation {
                        data: AnnotationData { label: Label { value: owned("doc.data") }, parameters: params },
                        children,
                    };
                    annotations.push(anno);
                    assert(annotations@.take(old_annos.len() as int) =~= old_annos);
                    InlineNode::Math { text, annotations }
                },
                Err(err) => {
                    let mut params: Vec<Parameter> = Vec::new();
                    params.push(Parameter { key: owned("type"), value: owned("error") });
                    params.push(Parameter { key: owned("message"), value: err });
                    let anno = Annotation {
                        data: AnnotationData { label: Label { value: owned("doc.data") }, parameters: params },
                        children: Vec::new(),
                    };
                    annotations.push(anno);
                    InlineNode::Math { text, annotations }
                },
            }
        },
        other => other,
    }
}

} // verus!
