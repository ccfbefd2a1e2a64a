//! Structural marker detection and quoted-parameter-value escaping.
use vstd::prelude::*;
use crate::text::{chars_of, lit_state, push_char, run_before, trailing_backslash_count};
use crate::token::Token;

verus! {

/// The token is text ending in an odd number of backslashes, so a quote
/// right after it is escaped.
pub open spec fn escapes_next_quote(t: Token) -> bool {
    match t {
        Token::Text(s) => run_before(s@, s@.len() as int, '\\') % 2 == 1,
        _ => false,
    }
}

/// Whether position `i` of `tokens` lies inside a quoted region: each `Quote`
/// not escaped by the token before it toggles the state.
pub open spec fn in_quotes(tokens: Seq<Token>, i: int) -> bool
    decreases i,
{
    if i <= 0 || i > tokens.len() {
        false
    } else {
        let j = i - 1;
        let toggles = tokens[j] is Quote && !(j > 0 && escapes_next_quote(tokens[j - 1]));
        if toggles {
            !in_quotes(tokens, j)
        } else {
            in_quotes(tokens, j)
        }
    }
}

/// Token `i` is a `LexMarker` outside any quoted region.
pub open spec fn is_structural_marker(tokens: Seq<Token>, i: int) -> bool {
    0 <= i < tokens.len() && tokens[i] is LexMarker && !in_quotes(tokens, i)
}

/// The structural markers of `tokens` below index `n`, in increasing order.
pub open spec fn structural_markers_below(tokens: Seq<Token>, n: int) -> Seq<usize>
    decreases n,
{
    if n <= 0 {
        Seq::empty()
    } else if is_structural_marker(tokens, n - 1) {
        structural_markers_below(tokens, n - 1).push((n - 1) as usize)
    } else {
        structural_markers_below(tokens, n - 1)
    }
}

/// All structural markers of `tokens`, in increasing order.
pub open spec fn structural_markers(tokens: Seq<Token>) -> Seq<usize> {
    structural_markers_below(tokens, tokens.len() as int)
}

/// The first components of a sequence of pairs.
pub open spec fn firsts<R>(s: Seq<(Token, R)>) -> Seq<Token> {
    s.map_values(|p: (Token, R)| p.0)
}

/// The marker list holds exactly the structural markers, each once, in
/// increasing order.
pub proof fn lemma_structural_markers(tokens: Seq<Token>, n: int)
    requires
        0 <= n <= tokens.len() <= usize::MAX,
    ensures
        forall|k: int|
            0 <= k < structural_markers_below(tokens, n).len() ==> is_structural_marker(
                tokens,
                #[trigger] structural_markers_below(tokens, n)[k] as int,
            ) && structural_markers_below(tokens, n)[k] < n,
        forall|k: int, l: int|
            0 <= k < l < structural_markers_below(tokens, n).len() ==> structural_markers_below(
                tokens,
                n,
            )[k] < structural_markers_below(tokens, n)[l],
        forall|i: int|
            0 <= i < n && is_structural_marker(tokens, i) ==> structural_markers_below(
                tokens,
                n,
            ).contains(i as usize),
    decreases n,
{
    if n > 0 {
        lemma_structural_markers(tokens, n - 1);
        let p = structural_markers_below(tokens, n - 1);
        if is_structural_marker(tokens, n - 1) {
            let q = p.push((n - 1) as usize);
            assert(q[q.len() - 1] == (n - 1) as usize);
            assert forall|i: int| 0 <= i < n && is_structural_marker(tokens, i) implies q.contains(
                i as usize,
            ) by {
                if i < n - 1 {
                    let k = choose|k: int| 0 <= k < p.len() && p[k] == i as usize;
                    assert(q[k] == i as usize);
                }
            }
        }
    }
}

/// A quote right after `prev` is escaped when `prev` is text ending in an odd
/// number of backslashes.
pub fn is_quote_escaped_by_prev_token(prev: Option<&Token>) -> (b: bool)
    ensures
        b == match prev {
            Some(t) => escapes_next_quote(*t),
            None => false,
        },
{
    match prev {
        Some(Token::Text(s)) => {
            let cs = chars_of(s.as_str());
            let trailing = trailing_backslash_count(&cs);
            trailing % 2 == 1
        },
        _ => false,
    }
}

/// Positions of the `LexMarker` tokens that are not inside a quoted context.
pub fn find_structural_lex_markers(tokens: &[Token]) -> (r: Vec<usize>)
    ensures
        r@ == structural_markers(tokens@),
{
    let mut markers: Vec<usize> = Vec::new();
    let mut quoted = false;
    let mut i: usize = 0;
    while i < tokens.len()
        invariant
            i <= tokens@.len(),
            quoted == in_quotes(tokens@, i as int),
            markers@ == structural_markers_below(tokens@, i as int),
        decreases tokens@.len() - i,
    {
        match &tokens[i] {
            Token::Quote => {
                let prev = if i > 0 { Some(&tokens[i - 1]) } else { None };
                if !is_quote_escaped_by_prev_token(prev) {
                    quoted = !quoted;
                }
            },
            Token::LexMarker => {
                if !quoted {
                    markers.push(i);
                }
            },
            _ => {},
        }
        i += 1;
    }
    markers
}

/// Same as [`find_structural_lex_markers`] for a slice of (token, span) pairs.
pub fn find_structural_lex_marker_pairs<R>(tokens: &[(Token, R)]) -> (r: Vec<usize>)
    ensures
        r@ == structural_markers(firsts(tokens@)),
{
    let ghost ts = firsts(tokens@);
    let mut markers: Vec<usize> = Vec::new();
    let mut quoted = false;
    let mut i: usize = 0;
    while i < tokens.len()
        invariant
            ts == firsts(tokens@),
            ts.len() == tokens@.len(),
            i <= tokens@.len(),
            quoted == in_quotes(ts, i as int),
            markers@ == structural_markers_below(ts, i as int),
        decreases tokens@.len() - i,
    {
        assert(ts[i as int] == tokens@[i as int].0);
        match &tokens[i].0 {
            Token::Quote => {
                let prev = if i > 0 { Some(&tokens[i - 1].0) } else { None };
                if i > 0 {
                    assert(ts[i - 1] == tokens@[i - 1].0);
                }
                if !is_quote_escaped_by_prev_token(prev) {
                    quoted = !quoted;
                }
            },
            Token::LexMarker => {
                if !quoted {
                    markers.push(i);
                }
            },
            _ => {},
        }
        i += 1;
    }
    markers
}

/// Number of backslash bytes immediately before byte position `pos`.
pub fn trailing_backslashes_before(bytes: &[u8], pos: usize) -> (n: usize)
    requires
        pos <= bytes@.len(),
    ensures
        n == run_before(bytes@, pos as int, 92u8),
        n <= pos,
{
    let mut n: usize = 0;
    let mut i: usize = pos;
    while i > 0 && bytes[i - 1] == 92u8
        invariant
            i <= pos <= bytes@.len(),
            n + i == pos,
            run_before(bytes@, pos as int, 92u8) == n + run_before(bytes@, i as int, 92u8),
        decreases i,
    {
        n += 1;
        i -= 1;
    }
    n
}

/// The byte at `pos` is a structural delimiter: inside the input, not escaped
/// by an odd run of backslashes, and (with a literal delimiter) not inside a
/// balanced literal region counted from the start.
pub open spec fn structural_at_spec(bytes: Seq<u8>, pos: int, literal_delim: Option<u8>) -> bool {
    &&& 0 <= pos < bytes.len()
    &&& run_before(bytes, pos, 92u8) % 2 == 0
    &&& !lit_state(bytes, pos, 92u8, literal_delim)
}

/// Whether the byte at `pos` is a structural delimiter.
pub fn is_structural_at(bytes: &[u8], pos: usize, literal_delim: Option<u8>) -> (b: bool)
    ensures
        b == structural_at_spec(bytes@, pos as int, literal_delim),
{
    if pos >= bytes.len() {
        return false;
    }
    if trailing_backslashes_before(bytes, pos) % 2 == 1 {
        return false;
    }
    if let Some(delim) = literal_delim {
        let mut in_literal = false;
        let mut i: usize = 0;
        while i < pos
            invariant
                pos < bytes@.len(),
                i <= pos,
                literal_delim == Some(delim),
                in_literal == lit_state(bytes@, i as int, 92u8, literal_delim),
            decreases pos - i,
        {
            if bytes[i] == delim && trailing_backslashes_before(bytes, i) % 2 == 0 {
                in_literal = !in_literal;
            }
            i += 1;
        }
        if in_literal {
            return false;
        }
    } else {
        assert(!lit_state(bytes@, pos as int, 92u8, literal_delim)) by {
            lemma_lit_state_none(bytes@, pos as int, 92u8);
        }
    }
    true
}

/// Without a literal delimiter no position is inside a literal region.
pub proof fn lemma_lit_state_none<A>(s: Seq<A>, i: int, bs: A)
    ensures
        !lit_state(s, i, bs, None),
    decreases i,
{
    if i > 0 {
        lemma_lit_state_none(s, i - 1, bs);
    }
}

/// Whether the quote at `pos` is escaped by an odd run of backslashes before it.
pub fn is_quote_escaped(source: &[u8], pos: usize) -> (b: bool)
    requires
        pos <= source@.len(),
    ensures
        b == (run_before(source@, pos as int, 92u8) % 2 == 1),
{
    trailing_backslashes_before(source, pos) % 2 == 1
}

/// `s` without one pair of enclosing double quotes, when it has them.
pub open spec fn strip_outer_quotes(s: Seq<char>) -> Seq<char> {
    if s.len() >= 2 && s[0] == '"' && s[s.len() - 1] == '"' {
        s.subrange(1, s.len() - 1)
    } else {
        s
    }
}

/// Resolve `\"` and `\\` in a quoted value; other backslashes are literal.
pub open spec fn unescape_quoted_body(s: Seq<char>) -> Seq<char>
    decreases s.len(),
{
    if s.len() == 0 {
        Seq::empty()
    } else if s[0] == '\\' && s.len() >= 2 && (s[1] == '"' || s[1] == '\\') {
        seq![s[1]] + unescape_quoted_body(s.subrange(2, s.len() as int))
    } else {
        seq![s[0]] + unescape_quoted_body(s.drop_first())
    }
}

/// The semantic content of a stored quoted value.
pub open spec fn unescape_quoted_spec(raw: Seq<char>) -> Seq<char> {
    unescape_quoted_body(strip_outer_quotes(raw))
}

/// Quoted-value escaping: `\` and `"` get a backslash before them.
pub open spec fn escape_quoted_spec(s: Seq<char>) -> Seq<char>
    decreases s.len(),
{
    if s.len() == 0 {
        Seq::empty()
    } else if s[0] == '\\' || s[0] == '"' {
        seq!['\\', s[0]] + escape_quoted_spec(s.drop_first())
    } else {
        seq![s[0]] + escape_quoted_spec(s.drop_first())
    }
}

/// Unescape a quoted parameter value: strips the outer quotes if present and
/// resolves `\"` and `\\`.
pub fn unescape_quoted(raw: &str) -> (r: String)
    ensures
        r@ == unescape_quoted_spec(raw@),
{
    let all = chars_of(raw);
    let len = all.len();
    let (lo, hi) = if len >= 2 && all[0] == '"' && all[len - 1] == '"' {
        (1usize, len - 1)
    } else {
        (0usize, len)
    };
    let ghost inner = all@.subrange(lo as int, hi as int);
    assert(inner == strip_outer_quotes(raw@)) by {
        if !(len >= 2 && all@[0] == '"' && all@[len - 1] == '"') {
            assert(inner =~= all@);
        }
    }
    let mut result = String::new();
    let mut i: usize = lo;
    assert(Seq::<char>::empty() + unescape_quoted_body(inner) =~= unescape_quoted_body(inner));
    assert(all@.subrange(lo as int, hi as int) =~= inner);
    while i < hi
        invariant
            lo <= i <= hi <= len,
            len == all@.len(),
            inner == all@.subrange(lo as int, hi as int),
            result@ + unescape_quoted_body(all@.subrange(i as int, hi as int))
                == unescape_quoted_body(inner),
        decreases hi - i,
    {
        let ghost rest = all@.subrange(i as int, hi as int);
        let ghost before = result@;
        let c = all[i];
        if c == '\\' && i + 1 < hi && (all[i + 1] == '"' || all[i + 1] == '\\') {
            let next = all[i + 1];
            push_char(&mut result, next);
            assert(rest.subrange(2, rest.len() as int) =~= all@.subrange(i + 2, hi as int));
            assert(before.push(next) + unescape_quoted_body(all@.subrange(i + 2, hi as int))
                =~= before + (seq![next] + unescape_quoted_body(all@.subrange(i + 2, hi as int))));
            i += 2;
        } else {
            push_char(&mut result, c);
            assert(rest.drop_first() =~= all@.subrange(i + 1, hi as int));
            assert(before.push(c) + unescape_quoted_body(all@.subrange(i + 1, hi as int))
                =~= before + (seq![c] + unescape_quoted_body(all@.subrange(i + 1, hi as int))));
            i += 1;
        }
    }
    assert(all@.subrange(hi as int, hi as int) =~= Seq::<char>::empty());
    assert(result@ + Seq::<char>::empty() =~= result@);
    result
}

/// Escape `\` and `"` for use inside a quoted parameter value (no outer quotes added).
pub fn escape_quoted(text: &str) -> (r: String)
    ensures
        r@ == escape_quoted_spec(text@),
{
    let chars = chars_of(text);
    let n = chars.len();
    let mut result = String::new();
    let mut i: usize = 0;
    assert(chars@.subrange(0, n as int) =~= chars@);
    assert(Seq::<char>::empty() + escape_quoted_spec(chars@) =~= escape_quoted_spec(chars@));
    while i < n
        invariant
            n == chars@.len(),
            i <= n,
            result@ + escape_quoted_spec(chars@.subrange(i as int, n as int)) == escape_quoted_spec(
                chars@,
            ),
        decreases n - i,
    {
        let ghost rest = chars@.subrange(i as int, n as int);
        let ghost before = result@;
        let ghost tail = escape_quoted_spec(chars@.subrange(i + 1, n as int));
        let c = chars[i];
        assert(rest.drop_first() =~= chars@.subrange(i + 1, n as int));
        if c == '\\' || c == '"' {
            push_char(&mut result, '\\');
            push_char(&mut result, c);
            assert(before.push('\\').push(c) + tail =~= before + (seq!['\\', c] + tail));
        } else {
            push_char(&mut result, c);
            assert(before.push(c) + tail =~= before + (seq![c] + tail));
        }
        i += 1;
    }
    assert(chars@.subrange(n as int, n as int) =~= Seq::<char>::empty());
    assert(result@ + Seq::<char>::empty() =~= result@);
    result
}

/// Resolving the escapes of an escaped body gives back the original text.
pub proof fn lemma_quoted_body_roundtrip(s: Seq<char>)
    ensures
        unescape_quoted_body(escape_quoted_spec(s)) == s,
    decreases s.len(),
{
    if s.len() > 0 {
        let c = s[0];
        let rest = s.drop_first();
        lemma_quoted_body_roundtrip(rest);
        let er = escape_quoted_spec(rest);
        if c == '\\' || c == '"' {
            let e = seq!['\\', c] + er;
            assert(e.subrange(2, e.len() as int) =~= er);
        } else {
            let e = seq![c] + er;
            assert(e.drop_first() =~= er);
        }
        assert(seq![c] + rest =~= s);
    } else {
        assert(s =~= Seq::<char>::empty());
    }
}

/// Quoting round trip: wrapping `escape_quoted(s)` in double quotes and
/// unescaping the result gives back `s`, for every text `s`.
pub proof fn lemma_quoted_roundtrip(s: Seq<char>)
    ensures
        unescape_quoted_spec(seq!['"'] + escape_quoted_spec(s) + seq!['"']) == s,
{
    let q = seq!['"'] + escape_quoted_spec(s) + seq!['"'];
    assert(q.subrange(1, q.len() - 1) =~= escape_quoted_spec(s));
    lemma_quoted_body_roundtrip(s);
}

} // verus!
