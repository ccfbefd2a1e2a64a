use lex_core::extraction::table::{
    classify_lines, detect_multiline, extract_footnote_lines, is_separator_line, merge_group,
    parse_footnote_line, parse_pipe_rows, resolve_merges, split_header_body, LineKind, TableCellData,
    TableRowData,
};

#[test]
fn test_is_separator_line() {
    assert!(is_separator_line("|---|---|"));
    assert!(is_separator_line("|:---:|---:|"));
    assert!(is_separator_line("+---+---+"));
    assert!(is_separator_line("| --- | --- |"));
    assert!(!is_separator_line("| hello | world |"));
    assert!(!is_separator_line("| --- | data |"));
}

#[test]
fn test_classify_lines_cell_splitting() {
    let lines = vec![("| a | b | c |".to_string(), 0..13)];
    let classified = classify_lines(&lines);
    if let LineKind::PipeRow { cells, .. } = &classified[0] {
        assert_eq!(cells, &["a", "b", "c"]);
    } else {
        panic!("Expected PipeRow");
    }
}

#[test]
fn test_classify_lines_escaped_pipe_in_cell() {
    // `\|` should not split the cell; the backslash is stripped in the cell text.
    let lines = vec![(r"| a\|b | c |".to_string(), 0..12)];
    let classified = classify_lines(&lines);
    if let LineKind::PipeRow {
        cells, cell_ranges, ..
    } = &classified[0]
    {
        assert_eq!(cells.len(), 2, "expected 2 cells, got {cells:?}");
        assert_eq!(cells[0], "a|b");
        assert_eq!(cells[1], "c");
        // Byte range of cell 0 spans "a\|b" in source (4 bytes), pointing at the
        // trimmed content inside the segment, not the stripped cell text.
        assert_eq!(cell_ranges[0].end - cell_ranges[0].start, 4);
    } else {
        panic!("Expected PipeRow");
    }
}

#[test]
fn test_classify_lines_backtick_protects_pipe() {
    // Pipes inside balanced backticks must not split cells.
    let lines = vec![("| a | `x|y|z` | c |".to_string(), 0..19)];
    let classified = classify_lines(&lines);
    if let LineKind::PipeRow { cells, .. } = &classified[0] {
        assert_eq!(cells.len(), 3, "expected 3 cells, got {cells:?}");
        assert_eq!(cells[0], "a");
        assert_eq!(cells[1], "`x|y|z`");
        assert_eq!(cells[2], "c");
    } else {
        panic!("Expected PipeRow");
    }
}

#[test]
fn test_classify_lines_multiple_escaped_pipes() {
    let lines = vec![(r"| a\|b\|c | d |".to_string(), 0..15)];
    let classified = classify_lines(&lines);
    if let LineKind::PipeRow { cells, .. } = &classified[0] {
        assert_eq!(cells.len(), 2);
        assert_eq!(cells[0], "a|b|c");
        assert_eq!(cells[1], "d");
    } else {
        panic!("Expected PipeRow");
    }
}

#[test]
fn test_classify_lines_double_backslash_then_pipe_splits() {
    // `\\|` = literal backslash + structural pipe (even backslashes → not escaped).
    let lines = vec![(r"| a\\|b |".to_string(), 0..9)];
    let classified = classify_lines(&lines);
    if let LineKind::PipeRow { cells, .. } = &classified[0] {
        assert_eq!(cells.len(), 2, "expected 2 cells, got {cells:?}");
        assert_eq!(cells[0], r"a\\");
        assert_eq!(cells[1], "b");
    } else {
        panic!("Expected PipeRow");
    }
}

#[test]
fn test_classify_lines_escape_inside_backticks_preserved() {
    // Inside backtick literal region, backslashes pass through verbatim —
    // no split AND no stripping.
    let lines = vec![(r"| a | `code\|here` | b |".to_string(), 0..24)];
    let classified = classify_lines(&lines);
    if let LineKind::PipeRow { cells, .. } = &classified[0] {
        assert_eq!(cells.len(), 3);
        assert_eq!(cells[0], "a");
        assert_eq!(cells[1], r"`code\|here`");
        assert_eq!(cells[2], "b");
    } else {
        panic!("Expected PipeRow");
    }
}

#[test]
fn test_classify_lines_no_trailing_pipe() {
    let lines = vec![("| a | b | c".to_string(), 0..11)];
    let classified = classify_lines(&lines);
    if let LineKind::PipeRow { cells, .. } = &classified[0] {
        assert_eq!(cells.len(), 3);
        assert_eq!(cells[2], "c");
    } else {
        panic!("Expected PipeRow");
    }
}

#[test]
fn test_classify_lines_empty_cells() {
    let lines = vec![("| a | | c |".to_string(), 0..11)];
    let classified = classify_lines(&lines);
    if let LineKind::PipeRow { cells, .. } = &classified[0] {
        assert_eq!(cells.len(), 3);
        assert_eq!(cells[1], "");
    } else {
        panic!("Expected PipeRow");
    }
}

#[test]
fn test_resolve_merges_colspan() {
    let rows = vec![TableRowData {
        cells: vec![
            TableCellData {
                text: "wide".to_string(),
                byte_range: 0..4,
                colspan: 1,
                rowspan: 1,
                is_header: false,
                raw_text: None,
            },
            TableCellData {
                text: ">>".to_string(),
                byte_range: 0..2,
                colspan: 1,
                rowspan: 1,
                is_header: false,
                raw_text: None,
            },
            TableCellData {
                text: "normal".to_string(),
                byte_range: 0..6,
                colspan: 1,
                rowspan: 1,
                is_header: false,
                raw_text: None,
            },
        ],
        byte_range: 0..20,
    }];

    let resolved = resolve_merges(rows);
    assert_eq!(resolved[0].cells.len(), 2);
    assert_eq!(resolved[0].cells[0].text, "wide");
    assert_eq!(resolved[0].cells[0].colspan, 2);
    assert_eq!(resolved[0].cells[1].text, "normal");
}

#[test]
fn test_resolve_merges_rowspan() {
    let rows = vec![
        TableRowData {
            cells: vec![
                TableCellData {
                    text: "tall".to_string(),
                    raw_text: None,
                    byte_range: 0..4,
                    colspan: 1,
                    rowspan: 1,
                    is_header: false,
                },
                TableCellData {
                    text: "b".to_string(),
                    raw_text: None,
                    byte_range: 0..1,
                    colspan: 1,
                    rowspan: 1,
                    is_header: false,
                },
            ],
            byte_range: 0..10,
        },
        TableRowData {
            cells: vec![
                TableCellData {
                    text: "^^".to_string(),
                    raw_text: None,
                    byte_range: 0..2,
                    colspan: 1,
                    rowspan: 1,
                    is_header: false,
                },
                TableCellData {
                    text: "d".to_string(),
                    raw_text: None,
                    byte_range: 0..1,
                    colspan: 1,
                    rowspan: 1,
                    is_header: false,
                },
            ],
            byte_range: 0..10,
        },
    ];

    let resolved = resolve_merges(rows);
    assert_eq!(resolved[0].cells[0].rowspan, 2);
    assert_eq!(resolved[1].cells.len(), 1);
    assert_eq!(resolved[1].cells[0].text, "d");
}

#[test]
fn test_parse_pipe_rows_skips_separators() {
    let lines = vec![
        ("| a | b |".to_string(), 0..9),
        ("|---|---|".to_string(), 10..18),
        ("| c | d |".to_string(), 19..28),
    ];
    let rows = parse_pipe_rows(&lines);
    assert_eq!(rows.len(), 2);
}

#[test]
fn test_parse_pipe_rows_blanks_trigger_multiline() {
    // Blank between pipe rows → multi-line mode, but each group has 1 line → 2 rows
    let lines = vec![
        ("| a | b |".to_string(), 0..9),
        ("".to_string(), 10..10),
        ("| c | d |".to_string(), 11..20),
    ];
    let rows = parse_pipe_rows(&lines);
    assert_eq!(rows.len(), 2);
    assert_eq!(rows[0].cells[0].text, "a");
    assert_eq!(rows[1].cells[0].text, "c");
}

#[test]
fn test_detect_multiline_false_for_compact() {
    let lines = vec![
        ("| a | b |".to_string(), 0..9),
        ("| c | d |".to_string(), 10..19),
    ];
    let classified = classify_lines(&lines);
    assert!(!detect_multiline(&classified));
}

#[test]
fn test_detect_multiline_true_with_blanks() {
    let lines = vec![
        ("| a | b |".to_string(), 0..9),
        ("".to_string(), 10..10),
        ("| c | d |".to_string(), 11..20),
    ];
    let classified = classify_lines(&lines);
    assert!(detect_multiline(&classified));
}

#[test]
fn test_merge_group_single_line() {
    let lines = vec![("| x | y |".to_string(), 0..9)];
    let classified = classify_lines(&lines);
    let refs: Vec<&LineKind> = classified.iter().collect();
    let row = merge_group(&refs).unwrap();
    assert_eq!(row.cells.len(), 2);
    assert_eq!(row.cells[0].text, "x");
    assert_eq!(row.cells[1].text, "y");
}

#[test]
fn test_merge_group_continuation() {
    let lines = vec![
        ("| hello | world |".to_string(), 0..17),
        ("|       | again |".to_string(), 18..35),
    ];
    let classified = classify_lines(&lines);
    let refs: Vec<&LineKind> = classified.iter().collect();
    let row = merge_group(&refs).unwrap();
    assert_eq!(row.cells.len(), 2);
    assert_eq!(row.cells[0].text, "hello");
    assert_eq!(row.cells[1].text, "world\nagain");
}

#[test]
fn test_merge_group_whitespace_only_continuation_ignored() {
    let lines = vec![
        ("| base | val |".to_string(), 0..14),
        ("|      |     |".to_string(), 15..29),
    ];
    let classified = classify_lines(&lines);
    let refs: Vec<&LineKind> = classified.iter().collect();
    let row = merge_group(&refs).unwrap();
    assert_eq!(row.cells[0].text, "base");
    assert_eq!(row.cells[1].text, "val");
}

#[test]
fn test_multiline_rows_grouping() {
    let lines = vec![
        ("| H1 | H2 |".to_string(), 0..11),
        ("".to_string(), 12..12),
        ("| a  | line1 |".to_string(), 13..27),
        ("|    | line2 |".to_string(), 28..42),
        ("".to_string(), 43..43),
        ("| b  | single |".to_string(), 44..59),
    ];
    let rows = parse_pipe_rows(&lines);
    assert_eq!(rows.len(), 3); // header group, row group 1, row group 2
    assert_eq!(rows[0].cells[0].text, "H1");
    assert_eq!(rows[1].cells[0].text, "a");
    assert_eq!(rows[1].cells[1].text, "line1\nline2");
    assert_eq!(rows[2].cells[0].text, "b");
    assert_eq!(rows[2].cells[1].text, "single");
}

#[test]
fn test_parse_footnote_line_numbered_period() {
    let f = parse_footnote_line("1. Some text here", &(0..17)).unwrap();
    assert_eq!(f.marker, "1.");
    assert_eq!(f.text, "Some text here");
}

#[test]
fn test_parse_footnote_line_numbered_paren() {
    let f = parse_footnote_line("2) Another note", &(0..15)).unwrap();
    assert_eq!(f.marker, "2)");
    assert_eq!(f.text, "Another note");
}

#[test]
fn test_parse_footnote_line_not_a_footnote() {
    assert!(parse_footnote_line("Just plain text", &(0..15)).is_none());
    assert!(parse_footnote_line("- a dash item", &(0..13)).is_none());
}

#[test]
fn test_extract_footnote_lines_from_classified() {
    let lines = vec![
        ("| a | b |".to_string(), 0..9),
        ("| c | d |".to_string(), 10..19),
        ("".to_string(), 20..20),
        ("1. First note".to_string(), 21..34),
        ("2. Second note".to_string(), 35..49),
    ];
    let classified = classify_lines(&lines);
    let footnotes = extract_footnote_lines(&classified);
    assert_eq!(footnotes.len(), 2);
    assert_eq!(footnotes[0].marker, "1.");
    assert_eq!(footnotes[0].text, "First note");
    assert_eq!(footnotes[1].marker, "2.");
    assert_eq!(footnotes[1].text, "Second note");
}

#[test]
fn test_extract_footnote_lines_none_when_no_trailing() {
    let lines = vec![
        ("| a | b |".to_string(), 0..9),
        ("| c | d |".to_string(), 10..19),
    ];
    let classified = classify_lines(&lines);
    let footnotes = extract_footnote_lines(&classified);
    assert!(footnotes.is_empty());
}


fn cell(text: &str) -> TableCellData {
    TableCellData {
        text: text.to_string(),
        raw_text: None,
        byte_range: 0..text.len(),
        colspan: 1,
        rowspan: 1,
        is_header: false,
    }
}

#[test]
fn classify_lines_cell_ranges_point_at_trimmed_text() {
    // "  | ab |  c |" at byte 100: trimmed line starts at 102.
    let lines = vec![("  | ab |  c |".to_string(), 100..113)];
    let classified = classify_lines(&lines);
    if let LineKind::PipeRow { cells, cell_ranges, raw_cells, .. } = &classified[0] {
        assert_eq!(cells, &["ab", "c"]);
        assert_eq!(raw_cells, &[" ab", "  c"]);
        assert_eq!(cell_ranges[0], 104..106);
        assert_eq!(cell_ranges[1], 110..111);
    } else {
        panic!("Expected PipeRow");
    }
}

#[test]
fn classify_lines_blank_and_other() {
    let lines = vec![("   ".to_string(), 0..3), ("  note here ".to_string(), 4..16)];
    let classified = classify_lines(&lines);
    assert!(matches!(classified[0], LineKind::Blank));
    match &classified[1] {
        LineKind::Other { text, line_range } => {
            assert_eq!(*text, "note here");
            assert_eq!(**line_range, 4..16);
        }
        _ => panic!("Expected Other"),
    }
}

#[test]
fn separator_line_is_other_not_a_row() {
    let lines = vec![("|===|===|".to_string(), 0..9)];
    let classified = classify_lines(&lines);
    assert!(matches!(classified[0], LineKind::Other { .. }));
}

#[test]
fn resolve_merges_colspan_chain_and_leading_marker() {
    let rows = vec![TableRowData {
        cells: vec![cell(">>"), cell(">>"), cell("a"), cell(">>"), cell(">>")],
        byte_range: 0..10,
    }];
    let resolved = resolve_merges(rows);
    assert_eq!(resolved[0].cells.len(), 2);
    assert_eq!(resolved[0].cells[0].text, ">>");
    assert_eq!(resolved[0].cells[0].colspan, 2);
    assert_eq!(resolved[0].cells[1].text, "a");
    assert_eq!(resolved[0].cells[1].colspan, 3);
}

#[test]
fn resolve_merges_rowspan_in_first_row_is_kept() {
    let rows = vec![
        TableRowData { cells: vec![cell("^^"), cell("x")], byte_range: 0..5 },
        TableRowData { cells: vec![cell("^^"), cell("^^"), cell("y")], byte_range: 6..12 },
    ];
    let resolved = resolve_merges(rows);
    assert_eq!(resolved[0].cells.len(), 2);
    assert_eq!(resolved[0].cells[0].text, "^^");
    // both markers of the second row sit at column 0 once the first is removed
    assert_eq!(resolved[0].cells[0].rowspan, 3);
    assert_eq!(resolved[0].cells[1].rowspan, 1);
    assert_eq!(resolved[1].cells.len(), 1);
    assert_eq!(resolved[1].cells[0].text, "y");
}

#[test]
fn split_header_body_marks_header_cells() {
    let mut rows = vec![
        TableRowData { cells: vec![cell("h")], byte_range: 0..3 },
        TableRowData { cells: vec![cell("b")], byte_range: 4..7 },
    ];
    let (header, body) = split_header_body(&mut rows, 1);
    assert!(rows.is_empty());
    assert_eq!(header.len(), 1);
    assert!(header[0].cells[0].is_header);
    assert_eq!(body.len(), 1);
    assert!(!body[0].cells[0].is_header);
    let mut rows = vec![TableRowData { cells: vec![cell("only")], byte_range: 0..4 }];
    let (header, body) = split_header_body(&mut rows, 5);
    assert_eq!(header.len(), 1);
    assert!(body.is_empty());
}

#[test]
fn merge_group_dedents_raw_text_and_spans_group() {
    let lines = vec![
        ("| - one |".to_string(), 0..9),
        ("|   two |".to_string(), 10..19),
        ("|  \t   |".to_string(), 20..29),
        ("| - three |".to_string(), 30..41),
    ];
    let classified = classify_lines(&lines);
    let refs: Vec<&LineKind> = classified.iter().collect();
    let row = merge_group(&refs).unwrap();
    assert_eq!(row.byte_range, 0..41);
    assert_eq!(row.cells.len(), 1);
    assert_eq!(row.cells[0].text, "- one\ntwo\n- three");
    assert_eq!(row.cells[0].raw_text.as_deref(), Some("- one\n  two\n\n\n- three"));
    assert_eq!(row.cells[0].byte_range, 2..7);
}

#[test]
fn merge_group_skips_separator_lines() {
    // A whitespace-only pipe line is a cosmetic separator: it is not a row line.
    let lines = vec![
        ("| - one |".to_string(), 0..9),
        ("|       |".to_string(), 10..19),
        ("|   two |".to_string(), 20..29),
    ];
    let classified = classify_lines(&lines);
    assert!(matches!(classified[1], LineKind::Other { .. }));
    let refs: Vec<&LineKind> = classified.iter().collect();
    let row = merge_group(&refs).unwrap();
    assert_eq!(row.cells[0].text, "- one\ntwo");
    assert_eq!(row.cells[0].raw_text.as_deref(), Some("- one\n  two"));
}

#[test]
fn merge_group_empty_is_none() {
    let refs: Vec<&LineKind> = Vec::new();
    assert!(merge_group(&refs).is_none());
}

#[test]
fn parse_footnote_line_edge_cases() {
    assert!(parse_footnote_line("12", &(0..2)).is_none());
    assert!(parse_footnote_line("3.no space", &(0..10)).is_none());
    let f = parse_footnote_line("  10) ten  ", &(5..16)).unwrap();
    assert_eq!(f.marker, "10)");
    assert_eq!(f.text, "ten");
    assert_eq!(f.byte_range, 5..16);
}
