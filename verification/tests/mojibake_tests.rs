use lex_core::mojibake::detect_mojibake;

#[test]
fn detects_classic_double_encoded_paragraph() {
    // A paragraph containing several mojibaked words. Should fire.
    // The em-dash mojibake `â€\u{201D}` ends in a curly quote, not
    // the ASCII string-terminator quote — explicit escape avoids
    // confusing Rust's lexer.
    let input = "RÃ©sumÃ© of MÃ¶bius strip: a cafÃ© favourite. â€\u{201D} indeed.";
    let report = detect_mojibake(input).expect("clear mojibake should report");
    assert!(
        report.distinct_patterns >= 3,
        "expected ≥3 distinct patterns, got {}",
        report.distinct_patterns
    );
}

#[test]
fn ignores_legitimate_text_with_isolated_accents() {
    // Spanish / French prose containing real `â`, `Ã` etc. should
    // NOT trigger. Single isolated occurrences stay below the
    // threshold.
    let input = "El niño visitó la ciudad. Le maître prépare le dîner.";
    assert_eq!(detect_mojibake(input), None);
}

#[test]
fn ignores_pure_ascii() {
    let input = "Just plain ASCII text with no special characters.\n";
    assert_eq!(detect_mojibake(input), None);
}

#[test]
fn ignores_single_pattern_hit() {
    // A single mojibake occurrence — could equally be an unrelated
    // accented word — stays under the threshold.
    let input = "An odd Ã© occurrence, nothing else.";
    assert_eq!(detect_mojibake(input), None);
}

#[test]
fn flags_smart_quote_em_dash_storm() {
    // Curly-quote / em-dash mojibake clusters around `â€` patterns.
    // All cp1252-byte trailers (em-dash, right-quote, left-quote)
    // reduce to the same `â€` prefix, so we add Latin-letter hits
    // (`Ã©`, `Ã¶`, `Ã±`) to clear the three-distinct threshold.
    let input = "He said â€\u{201C}helloâ€\u{201D}, then â€\u{201D} she replied. \
                 CafÃ© Ã¶pen Ã± kids.";
    let report = detect_mojibake(input).expect("should detect");
    assert!(report.distinct_patterns >= 3);
}
