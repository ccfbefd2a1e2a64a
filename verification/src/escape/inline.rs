//! Inline character escaping.
use vstd::prelude::*;
use crate::text::{char_is_alphanumeric, chars_of, is_alphanumeric, is_ascii_alnum, push_char};

verus! {

/// Result of processing a backslash in a character stream.
pub enum EscapeAction {
    /// The backslash escapes the next character: consume both, emit this one.
    Escape(char),
    /// The backslash is literal (before an alphanumeric or at the end).
    Literal,
}

/// The inline unescaping of `s`.
pub open spec fn unescape_inline_spec(s: Seq<char>) -> Seq<char>
    decreases s.len(),
{
    if s.len() == 0 {
        Seq::empty()
    } else if s[0] == '\\' && s.len() >= 2 && !char_is_alphanumeric(s[1]) {
        seq![s[1]] + unescape_inline_spec(s.subrange(2, s.len() as int))
    } else {
        seq![s[0]] + unescape_inline_spec(s.drop_first())
    }
}

/// Characters with a meaning in inline markup.
pub open spec fn is_inline_special_spec(c: char) -> bool {
    c == '\\' || c == '*' || c == '_' || c == '`' || c == '#' || c == '[' || c == ']'
}

/// The inline escaping of `s`: each special character gets a backslash before it.
pub open spec fn escape_inline_spec(s: Seq<char>) -> Seq<char>
    decreases s.len(),
{
    if s.len() == 0 {
        Seq::empty()
    } else if is_inline_special_spec(s[0]) {
        seq!['\\', s[0]] + escape_inline_spec(s.drop_first())
    } else {
        seq![s[0]] + escape_inline_spec(s.drop_first())
    }
}

/// Decide what a backslash does given the character `next` after it, if any.
pub fn unescape_inline_char(next: Option<char>) -> (a: EscapeAction)
    ensures
        a == (match next {
            Some(ch) => if !char_is_alphanumeric(ch) {
                EscapeAction::Escape(ch)
            } else {
                EscapeAction::Literal
            },
            None => EscapeAction::Literal,
        }),
{
    match next {
        Some(ch) => {
            if !is_alphanumeric(ch) {
                EscapeAction::Escape(ch)
            } else {
                EscapeAction::Literal
            }
        },
        None => EscapeAction::Literal,
    }
}

/// Resolve inline escape sequences in `text`.
pub fn unescape_inline(text: &str) -> (r: String)
    ensures
        r@ == unescape_inline_spec(text@),
{
    let chars = chars_of(text);
    let n = chars.len();
    let mut result = String::new();
    let mut i: usize = 0;
    assert(chars@.subrange(0, n as int) =~= chars@);
    assert(Seq::<char>::empty() + unescape_inline_spec(chars@) =~= unescape_inline_spec(chars@));
    while i < n
        invariant
            n == chars@.len(),
            i <= n,
            result@ + unescape_inline_spec(chars@.subrange(i as int, n as int))
                == unescape_inline_spec(chars@),
        decreases n - i,
    {
        let ghost rest = chars@.subrange(i as int, n as int);
        let ghost before = result@;
        let c = chars[i];
        if c == '\\' && i + 1 < n && !is_alphanumeric(chars[i + 1]) {
            let next = chars[i + 1];
            push_char(&mut result, next);
            assert(rest.subrange(2, rest.len() as int) =~= chars@.subrange(i + 2, n as int));
            assert(before.push(next) + unescape_inline_spec(chars@.subrange(i + 2, n as int))
                =~= before + (seq![next] + unescape_inline_spec(chars@.subrange(i + 2, n as int))));
            i += 2;
        } else {
            push_char(&mut result, c);
            assert(rest.drop_first() =~= chars@.subrange(i + 1, n as int));
            assert(before.push(c) + unescape_inline_spec(chars@.subrange(i + 1, n as int))
                =~= before + (seq![c] + unescape_inline_spec(chars@.subrange(i + 1, n as int))));
            i += 1;
        }
    }
    assert(chars@.subrange(n as int, n as int) =~= Seq::<char>::empty());
    assert(result@ + Seq::<char>::empty() =~= result@);
    result
}

/// Characters with special meaning in inline parsing.
fn is_inline_special(ch: char) -> (b: bool)
    ensures
        b == is_inline_special_spec(ch),
{
    ch == '\\' || ch == '*' || ch == '_' || ch == '`' || ch == '#' || ch == '[' || ch == ']'
}

/// Escape inline-special characters so that they are not read as markup.
pub fn escape_inline(text: &str) -> (r: String)
    ensures
        r@ == escape_inline_spec(text@),
{
    let chars = chars_of(text);
    let n = chars.len();
    let mut result = String::new();
    let mut i: usize = 0;
    assert(chars@.subrange(0, n as int) =~= chars@);
    assert(Seq::<char>::empty() + escape_inline_spec(chars@) =~= escape_inline_spec(chars@));
    while i < n
        invariant
            n == chars@.len(),
            i <= n,
            result@ + escape_inline_spec(chars@.subrange(i as int, n as int)) == escape_inline_spec(
                chars@,
            ),
        decreases n - i,
    {
        let ghost rest = chars@.subrange(i as int, n as int);
        let ghost before = result@;
        let ghost tail = escape_inline_spec(chars@.subrange(i + 1, n as int));
        let c = chars[i];
        assert(rest.drop_first() =~= chars@.subrange(i + 1, n as int));
        if is_inline_special(c) {
            push_char(&mut result, '\\');
            push_char(&mut result, c);
            assert(before.push('\\').push(c) + tail =~= before + (seq!['\\', c] + tail));
        } else {
            push_char(&mut result, c);
            assert(before.push(c) + tail =~= before + (seq![c] + tail));
        }
        i += 1;
    }
    assert(chars@.subrange(n as int, n as int) =~= Seq::<char>::empty());
    assert(result@ + Seq::<char>::empty() =~= result@);
    result
}

/// Unescaping undoes escaping: `unescape_inline(escape_inline(s)) == s` for every text.
pub proof fn lemma_inline_roundtrip(s: Seq<char>)
    ensures
        unescape_inline_spec(escape_inline_spec(s)) == s,
    decreases s.len(),
{
    if s.len() > 0 {
        let c = s[0];
        let rest = s.drop_first();
        lemma_inline_roundtrip(rest);
        let er = escape_inline_spec(rest);
        if is_inline_special_spec(c) {
            let e = seq!['\\', c] + er;
            assert(e[0] == '\\' && e[1] == c);
            assert(!is_ascii_alnum(c));
            assert(e.subrange(2, e.len() as int) =~= er);
        } else {
            let e = seq![c] + er;
            assert(e.drop_first() =~= er);
        }
        assert(seq![c] + rest =~= s);
    } else {
        assert(s =~= Seq::<char>::empty());
    }
}

} // verus!
