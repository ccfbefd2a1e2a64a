//! Line classification: the type of a line from its token pattern.
//!
//! Classification order (more specific patterns first):
//! 1. blank lines;
//! 2. data marker lines (`:: label params? ::`, closed form);
//! 3. lines that start with a list marker and end with a colon;
//! 4. list lines (start with a list marker);
//! 5. subject lines (end with a colon);
//! 6. everything else is a paragraph line.
use vstd::prelude::*;
use crate::escape::structural::{find_structural_lex_markers, structural_markers};
use crate::text::chars_of;
use crate::token::{LineType, Token};

verus! {

/// Decoration style of a sequence marker.
#[derive(Debug, Clone, Copy, PartialEq, Eq, Structural)]
pub enum DecorationStyle {
    /// `-`
    Plain,
    /// `1.`
    Numerical,
    /// `a.`
    Alphabetical,
    /// `IV.`
    Roman,
}

/// Separator that follows a sequence marker.
#[derive(Debug, Clone, Copy, PartialEq, Eq, Structural)]
pub enum Separator {
    /// `1.`
    Period,
    /// `1)`
    Parenthesis,
    /// `(1)`
    DoubleParens,
}

/// Short (`1.`) or extended (`1.2.3`) sequence marker.
#[derive(Debug, Clone, Copy, PartialEq, Eq, Structural)]
pub enum Form {
    Short,
    Extended,
}

/// Parsed details about a list marker at the start of a line.
#[derive(Debug, Clone, Copy, PartialEq, Eq, Structural)]
pub struct ParsedListMarker {
    /// Index of the first marker token (after any indentation).
    pub marker_start: usize,
    /// Index one past the last marker token.
    pub marker_end: usize,
    /// Index of the first body token after the marker's whitespace.
    pub body_start: usize,
    /// Decoration style of the marker.
    pub style: DecorationStyle,
    /// Separator style.
    pub separator: Separator,
    /// Short or extended form.
    pub form: Form,
}

/// Indentation or spaces.
pub open spec fn is_indent_or_space(t: Token) -> bool {
    t is Indentation || t is Whitespace
}

/// First index at or after `i` that is not indentation or spaces.
pub open spec fn skip_leading(tokens: Seq<Token>, i: int) -> int
    decreases tokens.len() - i,
{
    if 0 <= i < tokens.len() && is_indent_or_space(tokens[i]) {
        skip_leading(tokens, i + 1)
    } else {
        i
    }
}

/// First index at or after `i` that is not a `Whitespace` token.
pub open spec fn skip_spaces(tokens: Seq<Token>, i: int) -> int
    decreases tokens.len() - i,
{
    if 0 <= i < tokens.len() && tokens[i] is Whitespace {
        skip_spaces(tokens, i + 1)
    } else {
        i
    }
}

/// A one-character ASCII letter.
pub open spec fn is_single_letter_spec(s: Seq<char>) -> bool {
    s.len() == 1 && (('a' <= s[0] && s[0] <= 'z') || ('A' <= s[0] && s[0] <= 'Z'))
}

/// Uppercase Roman numeral digit.
pub open spec fn is_upper_roman(c: char) -> bool {
    c == 'I' || c == 'V' || c == 'X' || c == 'L' || c == 'C' || c == 'D' || c == 'M'
}

/// Lowercase Roman numeral digit.
pub open spec fn is_lower_roman(c: char) -> bool {
    c == 'i' || c == 'v' || c == 'x' || c == 'l' || c == 'c' || c == 'd' || c == 'm'
}

/// A non-empty run of Roman numeral digits in a single case.
pub open spec fn is_roman_numeral_spec(s: Seq<char>) -> bool {
    s.len() > 0 && ((forall|i: int| 0 <= i < s.len() ==> is_upper_roman(#[trigger] s[i])) || (forall|
        i: int,
    |
        0 <= i < s.len() ==> is_lower_roman(#[trigger] s[i])))
}

/// A token that can be one segment of a sequence marker.
pub open spec fn is_segment_spec(t: Token) -> bool {
    match t {
        Token::Number(_) => true,
        Token::Text(s) => is_single_letter_spec(s@) || is_roman_numeral_spec(s@),
        _ => false,
    }
}

/// The decoration style a segment token implies.
pub open spec fn segment_style_spec(t: Token) -> DecorationStyle {
    match t {
        Token::Number(_) => DecorationStyle::Numerical,
        Token::Text(s) => if is_roman_numeral_spec(s@) {
            DecorationStyle::Roman
        } else if is_single_letter_spec(s@) {
            DecorationStyle::Alphabetical
        } else {
            DecorationStyle::Numerical
        },
        _ => DecorationStyle::Numerical,
    }
}

/// End of the run of `. segment` pairs that starts at `idx`.
pub open spec fn extended_end(tokens: Seq<Token>, idx: int) -> int
    decreases tokens.len() - idx,
{
    if 0 <= idx && idx + 1 < tokens.len() && tokens[idx] is Period && is_segment_spec(tokens[idx + 1]) {
        extended_end(tokens, idx + 2)
    } else {
        idx
    }
}

/// A marker ending at `marker_end` followed by at least one space.
pub open spec fn finish_marker(
    tokens: Seq<Token>,
    start: int,
    marker_end: int,
    style: DecorationStyle,
    separator: Separator,
    form: Form,
) -> Option<ParsedListMarker> {
    let body = skip_spaces(tokens, marker_end);
    if body > marker_end {
        Some(
            ParsedListMarker {
                marker_start: start as usize,
                marker_end: marker_end as usize,
                body_start: body as usize,
                style,
                separator,
                form,
            },
        )
    } else {
        None
    }
}

/// The list marker at the start of a line, by the marker grammar: a dash;
/// a parenthesised segment `(1)`; an extended marker `4.3.2` with an optional
/// final `.` or `)`; or a single segment followed by `.` or `)`. A marker must
/// be followed by at least one space.
pub open spec fn seq_marker_spec(tokens: Seq<Token>) -> Option<ParsedListMarker> {
    let i = skip_leading(tokens, 0);
    if i >= tokens.len() {
        None
    } else if tokens[i] is Dash {
        finish_marker(tokens, i, i + 1, DecorationStyle::Plain, Separator::Period, Form::Short)
    } else if i + 2 < tokens.len() && tokens[i] is OpenParen && tokens[i + 2] is CloseParen
        && is_segment_spec(tokens[i + 1]) {
        finish_marker(
            tokens,
            i,
            i + 3,
            segment_style_spec(tokens[i + 1]),
            Separator::DoubleParens,
            Form::Short,
        )
    } else if is_segment_spec(tokens[i]) && extended_end(tokens, i + 1) >= i + 3 {
        let e = extended_end(tokens, i + 1);
        if e < tokens.len() && tokens[e] is CloseParen {
            finish_marker(
                tokens,
                i,
                e + 1,
                segment_style_spec(tokens[i]),
                Separator::Parenthesis,
                Form::Extended,
            )
        } else if e < tokens.len() && tokens[e] is Period {
            finish_marker(
                tokens,
                i,
                e + 1,
                segment_style_spec(tokens[i]),
                Separator::Period,
                Form::Extended,
            )
        } else {
            finish_marker(tokens, i, e, segment_style_spec(tokens[i]), Separator::Period, Form::Extended)
        }
    } else if i + 1 < tokens.len() && is_segment_spec(tokens[i]) && (tokens[i + 1] is Period
        || tokens[i + 1] is CloseParen) {
        finish_marker(
            tokens,
            i,
            i + 2,
            segment_style_spec(tokens[i]),
            if tokens[i + 1] is Period {
                Separator::Period
            } else {
                Separator::Parenthesis
            },
            Form::Short,
        )
    } else {
        None
    }
}

/// Whether `s` is a single ASCII letter.
fn is_single_letter(s: &str) -> (b: bool)
    ensures
        b == is_single_letter_spec(s@),
{
    let cs = chars_of(s);
    cs.len() == 1 && (('a' <= cs[0] && cs[0] <= 'z') || ('A' <= cs[0] && cs[0] <= 'Z'))
}

/// Whether `s` is a non-empty Roman numeral in a single case.
fn is_roman_numeral(s: &str) -> (b: bool)
    ensures
        b == is_roman_numeral_spec(s@),
{
    let cs = chars_of(s);
    if cs.len() == 0 {
        return false;
    }
    let mut upper = true;
    let mut lower = true;
    let mut i: usize = 0;
    while i < cs.len()
        invariant
            i <= cs@.len(),
            cs@ == s@,
            upper == (forall|j: int| 0 <= j < i ==> is_upper_roman(#[trigger] cs@[j])),
            lower == (forall|j: int| 0 <= j < i ==> is_lower_roman(#[trigger] cs@[j])),
        decreases cs@.len() - i,
    {
        let c = cs[i];
        if !(c == 'I' || c == 'V' || c == 'X' || c == 'L' || c == 'C' || c == 'D' || c == 'M') {
            upper = false;
        }
        if !(c == 'i' || c == 'v' || c == 'x' || c == 'l' || c == 'c' || c == 'd' || c == 'm') {
            lower = false;
        }
        i += 1;
    }
    upper || lower
}

/// Whether `token` can be a sequence-marker segment.
fn is_segment(token: &Token) -> (b: bool)
    ensures
        b == is_segment_spec(*token),
{
    match token {
        Token::Number(_) => true,
        Token::Text(s) => is_single_letter(s.as_str()) || is_roman_numeral(s.as_str()),
        _ => false,
    }
}

/// The decoration style of a marker segment.
fn detect_segment_style(token: &Token) -> (d: DecorationStyle)
    ensures
        d == segment_style_spec(*token),
{
    match token {
        Token::Number(_) => DecorationStyle::Numerical,
        Token::Text(s) => {
            if is_roman_numeral(s.as_str()) {
                DecorationStyle::Roman
            } else if is_single_letter(s.as_str()) {
                DecorationStyle::Alphabetical
            } else {
                DecorationStyle::Numerical
            }
        },
        _ => DecorationStyle::Numerical,
    }
}

/// Complete a marker: at least one space must follow it.
fn finish_with_whitespace(
    tokens: &[Token],
    start: usize,
    marker_end: usize,
    style: DecorationStyle,
    separator: Separator,
    form: Form,
) -> (r: Option<ParsedListMarker>)
    requires
        start <= marker_end <= tokens@.len(),
    ensures
        r == finish_marker(tokens@, start as int, marker_end as int, style, separator, form),
{
    let mut body_start = marker_end;
    while body_start < tokens.len() && matches!(tokens[body_start], Token::Whitespace(_))
        invariant
            marker_end <= body_start <= tokens@.len(),
            skip_spaces(tokens@, body_start as int) == skip_spaces(tokens@, marker_end as int),
        decreases tokens@.len() - body_start,
    {
        body_start += 1;
    }
    if body_start == marker_end {
        return None;
    }
    Some(ParsedListMarker { marker_start: start, marker_end, body_start, style, separator, form })
}

/// Parse a list marker at the start of a line (after optional indentation):
/// `- `, `1. `, `a) `, `(I) `, or extended forms such as `4.3.2 `.
pub fn parse_seq_marker(tokens: &[Token]) -> (r: Option<ParsedListMarker>)
    ensures
        r == seq_marker_spec(tokens@),
{
    let n = tokens.len();
    let mut i: usize = 0;
    while i < n && matches!(tokens[i], Token::Indentation | Token::Whitespace(_))
        invariant
            n == tokens@.len(),
            i <= n,
            skip_leading(tokens@, i as int) == skip_leading(tokens@, 0),
        decreases n - i,
    {
        i += 1;
    }
    if i >= n {
        return None;
    }
    if matches!(tokens[i], Token::Dash) {
        return finish_with_whitespace(
            tokens,
            i,
            i + 1,
            DecorationStyle::Plain,
            Separator::Period,
            Form::Short,
        );
    }
    if n - i > 2 && matches!(tokens[i], Token::OpenParen) && matches!(tokens[i + 2], Token::CloseParen)
        && is_segment(&tokens[i + 1]) {
        let style = detect_segment_style(&tokens[i + 1]);
        return finish_with_whitespace(tokens, i, i + 3, style, Separator::DoubleParens, Form::Short);
    }
    if is_segment(&tokens[i]) {
        let mut idx = i + 1;
        let mut segments: usize = 1;
        while n - idx > 1 && matches!(tokens[idx], Token::Period) && is_segment(&tokens[idx + 1])
            invariant
                n == tokens@.len(),
                i < n,
                i + 1 <= idx <= n,
                idx == i + 1 + 2 * (segments - 1),
                segments >= 1,
                extended_end(tokens@, idx as int) == extended_end(tokens@, i + 1),
            decreases n - idx,
        {
            segments += 1;
            idx += 2;
        }
        if segments >= 2 {
            let style = detect_segment_style(&tokens[i]);
            if idx < n && matches!(tokens[idx], Token::CloseParen) {
                return finish_with_whitespace(
                    tokens,
                    i,
                    idx + 1,
                    style,
                    Separator::Parenthesis,
                    Form::Extended,
                );
            } else if idx < n && matches!(tokens[idx], Token::Period) {
                return finish_with_whitespace(
                    tokens,
                    i,
                    idx + 1,
                    style,
                    Separator::Period,
                    Form::Extended,
                );
            } else {
                return finish_with_whitespace(tokens, i, idx, style, Separator::Period, Form::Extended);
            }
        }
    }
    if n - i > 1 && is_segment(&tokens[i]) && matches!(tokens[i + 1], Token::Period | Token::CloseParen) {
        let style = detect_segment_style(&tokens[i]);
        let separator = if matches!(tokens[i + 1], Token::Period) {
            Separator::Period
        } else {
            Separator::Parenthesis
        };
        return finish_with_whitespace(tokens, i, i + 2, style, separator, Form::Short);
    }
    None
}

/// Whether the line starts with a list marker (after optional indentation).
pub fn has_seq_marker(tokens: &[Token]) -> (b: bool)
    ensures
        b == seq_marker_spec(tokens@) is Some,
{
    parse_seq_marker(tokens).is_some()
}

/// The last token that is not a space or line break is a colon.
pub open spec fn ends_with_colon_spec(tokens: Seq<Token>) -> bool {
    exists|i: int|
        0 <= i < tokens.len() && tokens[i] is Colon && (forall|j: int|
            i < j < tokens.len() ==> (#[trigger] tokens[j] is BlankLine || tokens[j] is Whitespace))
}

/// Whether the line ends with a colon, ignoring trailing spaces and line breaks.
pub fn ends_with_colon(tokens: &[Token]) -> (b: bool)
    ensures
        b == ends_with_colon_spec(tokens@),
{
    let mut i: usize = tokens.len();
    while i > 0
        invariant
            i <= tokens@.len(),
            forall|j: int| i <= j < tokens@.len() ==> (#[trigger] tokens@[j] is BlankLine || tokens@[j] is Whitespace),
        decreases i,
    {
        match &tokens[i - 1] {
            Token::BlankLine(_) | Token::Whitespace(_) => {
                i -= 1;
            },
            Token::Colon => {
                return true;
            },
            _ => {
                assert forall|k: int| 0 <= k < tokens@.len() && tokens@[k] is Colon implies !(forall|j: int|
                    k < j < tokens@.len() ==> (#[trigger] tokens@[j] is BlankLine || tokens@[j] is Whitespace)) by {
                    if k < i - 1 {
                        assert(!(tokens@[i - 1] is BlankLine || tokens@[i - 1] is Whitespace));
                    }
                }
                return false;
            },
        }
    }
    assert forall|k: int| 0 <= k < tokens@.len() && tokens@[k] is Colon implies !(forall|j: int|
        k < j < tokens@.len() ==> (#[trigger] tokens@[j] is BlankLine || tokens@[j] is Whitespace)) by {
        assert(tokens@[k] is Colon);
    }
    false
}

/// Every token is a space, an indentation step or a line break.
pub open spec fn is_blank_line_spec(tokens: Seq<Token>) -> bool {
    forall|i: int|
        0 <= i < tokens.len() ==> (#[trigger] tokens[i] is Whitespace || tokens[i] is Indentation
            || tokens[i] is BlankLine)
}

/// Whether the line holds only spaces, indentation and line breaks.
fn is_blank_line(tokens: &[Token]) -> (b: bool)
    ensures
        b == is_blank_line_spec(tokens@),
{
    let mut i: usize = 0;
    while i < tokens.len()
        invariant
            i <= tokens@.len(),
            forall|j: int|
                0 <= j < i ==> (#[trigger] tokens@[j] is Whitespace || tokens@[j] is Indentation
                    || tokens@[j] is BlankLine),
        decreases tokens@.len() - i,
    {
        if !matches!(tokens[i], Token::Whitespace(_) | Token::Indentation | Token::BlankLine(_)) {
            return false;
        }
        i += 1;
    }
    true
}

/// Tokens that can make up an annotation label (`lex.metadata.title`, `publishing-date`).
pub open spec fn is_label_part(t: Token) -> bool {
    t is Text || t is Period || t is Dash || t is Number
}

/// End of the label run that starts at `i`.
pub open spec fn label_end(tokens: Seq<Token>, i: int) -> int
    decreases tokens.len() - i,
{
    if 0 <= i < tokens.len() && is_label_part(tokens[i]) {
        label_end(tokens, i + 1)
    } else {
        i
    }
}

/// An annotation header (the tokens between the markers) starts, after
/// spaces, with a label: a text run that is not the key of a `key=value`
/// parameter.
pub open spec fn header_has_label_spec(tokens: Seq<Token>) -> bool {
    let s = skip_leading(tokens, 0);
    &&& s < tokens.len()
    &&& tokens[s] is Text
    &&& (label_end(tokens, s) >= tokens.len() || !(tokens[label_end(tokens, s)] is Equals))
}

/// Whether the annotation header `tokens[a..b]` starts with a label.
fn header_has_label(tokens: &[Token], a: usize, b: usize) -> (r: bool)
    requires
        a <= b <= tokens@.len(),
    ensures
        r == header_has_label_spec(tokens@.subrange(a as int, b as int)),
{
    let ghost h = tokens@.subrange(a as int, b as int);
    let n = b - a;
    let mut s: usize = 0;
    while s < n && matches!(tokens[a + s], Token::Indentation | Token::Whitespace(_))
        invariant
            h == tokens@.subrange(a as int, b as int),
            a <= b <= tokens@.len(),
            n == b - a,
            s <= n,
            skip_leading(h, s as int) == skip_leading(h, 0),
        decreases n - s,
    {
        assert(h[s as int] == tokens@[a + s]);
        s += 1;
    }
    if s < n {
        assert(h[s as int] == tokens@[a + s]);
    }
    if s >= n || !matches!(tokens[a + s], Token::Text(_)) {
        return false;
    }
    let mut e = s;
    while e < n && matches!(tokens[a + e], Token::Text(_) | Token::Period | Token::Dash | Token::Number(_))
        invariant
            h == tokens@.subrange(a as int, b as int),
            a <= b <= tokens@.len(),
            n == b - a,
            s <= e <= n,
            label_end(h, e as int) == label_end(h, s as int),
        decreases n - e,
    {
        assert(h[e as int] == tokens@[a + e]);
        e += 1;
    }
    if e < n {
        assert(h[e as int] == tokens@[a + e]);
    }
    e >= n || !matches!(tokens[a + e], Token::Equals)
}

/// Closed-form data marker line: the first two structural markers bracket a
/// header with a label, only indentation precedes the first, and a space (or
/// the end of the line) follows it.
pub open spec fn is_data_marker_line_spec(tokens: Seq<Token>) -> bool {
    let m = structural_markers(tokens);
    &&& m.len() >= 2
    &&& forall|j: int| 0 <= j < m[0] ==> is_indent_or_space(#[trigger] tokens[j])
    &&& (m[0] + 1 < tokens.len() ==> tokens[m[0] + 1] is Whitespace)
    &&& header_has_label_spec(tokens.subrange(m[0] + 1, m[1] as int))
}

/// Whether the line is a closed-form data marker line `:: label params? ::`.
fn is_data_marker_line(tokens: &[Token]) -> (b: bool)
    ensures
        b == is_data_marker_line_spec(tokens@),
{
    let structural = find_structural_lex_markers(tokens);
    if structural.len() < 2 {
        return false;
    }
    proof {
        assert(tokens@.len() == tokens.len());
        crate::escape::structural::lemma_structural_markers(tokens@, tokens@.len() as int);
    }
    let first = structural[0];
    let second = structural[1];
    let mut j: usize = 0;
    while j < first
        invariant
            first < tokens@.len(),
            structural@ == structural_markers(tokens@),
            structural@.len() >= 2,
            first == structural@[0],
            j <= first,
            forall|k: int| 0 <= k < j ==> is_indent_or_space(#[trigger] tokens@[k]),
        decreases first - j,
    {
        if !matches!(tokens[j], Token::Indentation | Token::Whitespace(_)) {
            assert(!is_indent_or_space(tokens@[j as int]));
            assert(structural_markers(tokens@)[0] == first);
            return false;
        }
        j += 1;
    }
    if first + 1 < tokens.len() && !matches!(tokens[first + 1], Token::Whitespace(_)) {
        return false;
    }
    header_has_label(tokens, first + 1, second)
}

/// The classification of a line from its tokens, in priority order: empty
/// lines are paragraph lines; then blank, data marker, list-and-subject, list,
/// subject, and otherwise paragraph.
pub open spec fn classify_spec(tokens: Seq<Token>) -> LineType {
    if tokens.len() == 0 {
        LineType::ParagraphLine
    } else if is_blank_line_spec(tokens) {
        LineType::BlankLine
    } else if is_data_marker_line_spec(tokens) {
        LineType::DataMarkerLine
    } else if seq_marker_spec(tokens) is Some && ends_with_colon_spec(tokens) {
        LineType::SubjectOrListItemLine
    } else if seq_marker_spec(tokens) is Some {
        LineType::ListLine
    } else if ends_with_colon_spec(tokens) {
        LineType::SubjectLine
    } else {
        LineType::ParagraphLine
    }
}

/// Determine the type of a line from its tokens.
pub fn classify_line_tokens(tokens: &[Token]) -> (t: LineType)
    ensures
        t == classify_spec(tokens@),
{
    if tokens.len() == 0 {
        return LineType::ParagraphLine;
    }
    if is_blank_line(tokens) {
        return LineType::BlankLine;
    }
    if is_data_marker_line(tokens) {
        return LineType::DataMarkerLine;
    }
    let has_marker = parse_seq_marker(tokens).is_some();
    let has_colon = ends_with_colon(tokens);
    if has_marker && has_colon {
        return LineType::SubjectOrListItemLine;
    }
    if has_marker {
        return LineType::ListLine;
    }
    if has_colon {
        return LineType::SubjectLine;
    }
    LineType::ParagraphLine
}

} // verus!
