//! Escape and unescape rules for Lex content.
//!
//! Inline escaping: a backslash before a non-alphanumeric character escapes
//! it (the backslash is removed); before an alphanumeric character, or at the
//! end of the input, the backslash is literal; `\\` yields one backslash.
//!
//! Quoted parameter values: `\"` and `\\` are the only escapes; other
//! backslashes are literal.
//!
//! Structural scanners (split/find on delimiters such as `|`): `\<sep>` is a
//! literal separator whose backslash is stripped from the segment text;
//! `\\<sep>` is an escaped backslash followed by a structural separator; content
//! inside balanced literal delimiters (such as backticks) passes verbatim.
pub mod inline;
pub mod split;
pub mod structural;



pub use inline::{escape_inline, unescape_inline, unescape_inline_char, EscapeAction};
pub use structural::{
    escape_quoted, find_structural_lex_marker_pairs, find_structural_lex_markers, is_quote_escaped,
    is_structural_at, unescape_quoted,
};
pub use split::{
    find_respecting_escape, find_respecting_escape_and_literals, split_respecting_escape,
    split_respecting_escape_and_literals, split_respecting_escape_with_ranges,
};
