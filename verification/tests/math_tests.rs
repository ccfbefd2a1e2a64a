use lex_core::inlines::{math_to_mathml_processor, parse_asciimath_to_mathml, ContentItem, InlineNode};

#[test]
fn parses_simple_expression() {
    let result = parse_asciimath_to_mathml("x + y");
    assert!(result.is_ok());
    let mathml = result.unwrap();
    assert!(mathml.contains("<math"));
    assert!(mathml.contains("</math>"));
}

#[test]
fn parses_superscript() {
    let result = parse_asciimath_to_mathml("x^2");
    assert!(result.is_ok());
    let mathml = result.unwrap();
    assert!(mathml.contains("<msup"));
}

#[test]
fn parses_fraction() {
    let result = parse_asciimath_to_mathml("a/b");
    assert!(result.is_ok());
    let mathml = result.unwrap();
    assert!(mathml.contains("<mfrac"));
}

#[test]
fn post_processor_adds_annotation() {
    let node = InlineNode::math("x + y".to_string());
    let processed = math_to_mathml_processor(node);

    match processed {
        InlineNode::Math { text, annotations } => {
            assert_eq!(text, "x + y");
            assert_eq!(annotations.len(), 1);
            assert_eq!(annotations[0].data.label.value, "doc.data");
            assert_eq!(annotations[0].data.parameters.len(), 1);
            assert_eq!(annotations[0].data.parameters[0].key, "type");
            assert_eq!(annotations[0].data.parameters[0].value, "mathml");

            // Check that MathML content was stored
            assert!(!annotations[0].children.is_empty());
        }
        _ => panic!("Expected Math node"),
    }
}

#[test]
fn post_processor_preserves_non_math_nodes() {
    let node = InlineNode::plain("text".to_string());
    let processed = math_to_mathml_processor(node.clone());
    assert_eq!(processed, node);
}

#[test]
fn post_processor_child_line_holds_block_mathml() {
    let processed = math_to_mathml_processor(InlineNode::math("x^2".to_string()));
    let InlineNode::Math { annotations, .. } = processed else {
        panic!("Expected Math node");
    };
    let ContentItem::TextLine(line) = &annotations[0].children[0];
    assert!(line.text().starts_with("<math display=\"block\">"));
    assert!(line.text().ends_with("</math>"));
    assert!(line.text().contains("<msup"));
}
