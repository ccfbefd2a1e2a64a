use lex_core::inlines::citations::{
    looks_like_locator_start, parse_citation_data, parse_citation_keys, parse_citation_locator,
    parse_page_ranges, split_locator_segment,
};
use lex_core::inlines::references::{classify_reference_node, determine_reference_type, detect_tk_reference};
use lex_core::inlines::{InlineNode, PageFormat, PageRange, ReferenceInline, ReferenceType};

#[test]
fn citation_with_keys_and_page_range() {
    let c = parse_citation_data("smith2020; @jones2019, pp. 45-46").unwrap();
    assert_eq!(c.keys, vec!["smith2020".to_string(), "jones2019".to_string()]);
    let loc = c.locator.unwrap();
    assert_eq!(loc.format, PageFormat::Pp);
    assert_eq!(loc.ranges, vec![PageRange { start: 45, end: Some(46) }]);
    assert_eq!(loc.raw, "pp. 45-46");
}

#[test]
fn citation_keys_split_on_commas_without_semicolon() {
    assert_eq!(
        parse_citation_keys(" a, @ b ,, c "),
        Some(vec!["a".to_string(), "b".to_string(), "c".to_string()])
    );
    assert_eq!(parse_citation_keys("  "), None);
    assert_eq!(parse_citation_keys("@ ; @"), None);
}

#[test]
fn locator_segment_is_split_at_last_locator_comma() {
    assert_eq!(split_locator_segment("a, b, p.3"), ("a, b", Some("p.3")));
    assert_eq!(split_locator_segment("a, b"), ("a, b", None));
    assert!(looks_like_locator_start("pp 4"));
    assert!(looks_like_locator_start("P3"));
    assert!(!looks_like_locator_start("page"));
    assert!(!looks_like_locator_start("p"));
}

#[test]
fn page_ranges_skip_unreadable_parts() {
    assert_eq!(
        parse_page_ranges("1, 2-3, x, 4-, 5-y, +6"),
        vec![
            PageRange { start: 1, end: None },
            PageRange { start: 2, end: Some(3) },
            PageRange { start: 4, end: None },
            PageRange { start: 6, end: None },
        ]
    );
    assert!(parse_page_ranges("99999999999").is_empty());
}

#[test]
fn locator_formats() {
    let l = parse_citation_locator(" p.12 ").unwrap();
    assert_eq!(l.format, PageFormat::P);
    assert_eq!(l.ranges, vec![PageRange { start: 12, end: None }]);
    assert!(parse_citation_locator("pp.").is_none());
    assert!(parse_citation_locator("q. 4").is_none());
}

#[test]
fn reference_types_in_order() {
    assert_eq!(determine_reference_type("  "), ReferenceType::NotSure);
    assert_eq!(determine_reference_type("..."), ReferenceType::NotSure);
    assert_eq!(determine_reference_type("TK"), ReferenceType::ToCome { identifier: None });
    assert_eq!(
        determine_reference_type("tk-intro2"),
        ReferenceType::ToCome { identifier: Some("intro2".to_string()) }
    );
    assert!(matches!(determine_reference_type("@key"), ReferenceType::Citation(_)));
    assert_eq!(
        determine_reference_type("^note"),
        ReferenceType::FootnoteLabeled { label: "note".to_string() }
    );
    assert_eq!(
        determine_reference_type("#2.1"),
        ReferenceType::Session { target: "2.1".to_string() }
    );
    assert_eq!(
        determine_reference_type("https://example.com"),
        ReferenceType::Url { target: "https://example.com".to_string() }
    );
    assert_eq!(
        determine_reference_type("./file.txt"),
        ReferenceType::File { target: "./file.txt".to_string() }
    );
    assert_eq!(determine_reference_type(" 42 "), ReferenceType::FootnoteNumber { number: 42 });
    assert_eq!(
        determine_reference_type("Section Title"),
        ReferenceType::General { target: "Section Title".to_string() }
    );
    // TK with an uppercase identifier is not a placeholder
    assert_eq!(detect_tk_reference("TK-Intro"), None);
}

#[test]
fn classify_reference_node_sets_type() {
    let node = InlineNode::Reference {
        data: ReferenceInline { raw: "[42]".to_string(), reference_type: ReferenceType::NotSure },
        annotations: vec![],
    };
    match classify_reference_node(node) {
        InlineNode::Reference { data, .. } => {
            assert_eq!(data.reference_type, ReferenceType::General { target: "[42]".to_string() })
        }
        _ => panic!("expected a reference"),
    }
    let plain = InlineNode::plain("x".to_string());
    assert_eq!(classify_reference_node(plain.clone()), plain);
}
