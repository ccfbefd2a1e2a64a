//! Character-level helpers shared by the scanners: conversions between
//! `&str`, `String` and character vectors, UTF-8 widths, and backslash runs.
use vstd::prelude::*;
use vstd::string::StrSliceExecFns;
use vstd::utf8::*;

verus! {

/// The number of consecutive copies of `x` that end just before index `i` of `s`.
pub open spec fn run_before<A>(s: Seq<A>, i: int, x: A) -> nat
    decreases i,
{
    if i <= 0 || i > s.len() || s[i - 1] != x {
        0
    } else {
        1 + run_before(s, i - 1, x)
    }
}

/// Number of UTF-8 bytes that encode the characters `cs`.
pub open spec fn utf8_len(cs: Seq<char>) -> nat {
    encode_utf8(cs).len()
}

/// ASCII letters and digits.
pub open spec fn is_ascii_alnum(c: char) -> bool {
    ('a' <= c && c <= 'z') || ('A' <= c && c <= 'Z') || ('0' <= c && c <= '9')
}

/// What `char::is_alphanumeric` returns for a non-ASCII `c` (Unicode
/// Alphabetic or Numeric property).
pub uninterp spec fn unicode_is_alphanumeric(c: char) -> bool;

/// `char::is_alphanumeric`: ASCII letters and digits, and beyond ASCII the
/// Unicode Alphabetic/Numeric property.
pub open spec fn char_is_alphanumeric(c: char) -> bool {
    if (c as u32) < 128 {
        is_ascii_alnum(c)
    } else {
        unicode_is_alphanumeric(c)
    }
}

/// `char::is_alphanumeric`. Trusted: on ASCII input it holds exactly of
/// letters and digits, as std documents; beyond ASCII the result is the named
/// Unicode property.
#[verifier::external_body]
pub(crate) fn is_alphanumeric(c: char) -> (b: bool)
    ensures
        (c as u32) < 128 ==> (b == is_ascii_alnum(c)),
        (c as u32) >= 128 ==> (b == unicode_is_alphanumeric(c)),
{
    c.is_alphanumeric()
}

/// The characters of `s`, in order.
pub fn chars_of(s: &str) -> (v: Vec<char>)
    ensures
        v@ == s@,
{
    let mut v: Vec<char> = Vec::new();
    for c in it: s.chars()
        invariant
            v@ == it.seq().take(it.index() as int),
            it.seq() == s@,
    {
        v.push(c);
    }
    v
}

/// Appends one character to `s` (`String::push`).
#[verifier::external_body]
pub(crate) fn push_char(s: &mut String, c: char)
    ensures
        final(s)@ == old(s)@.push(c),
{
    s.push(c);
}

/// A `String` holding exactly the characters of `cs`.
pub fn string_from_chars(cs: &[char]) -> (s: String)
    ensures
        s@ == cs@,
{
    let mut s = String::new();
    let mut i: usize = 0;
    while i < cs.len()
        invariant
            i <= cs@.len(),
            s@ == cs@.take(i as int),
        decreases cs@.len() - i,
    {
        push_char(&mut s, cs[i]);
        assert(cs@.take(i + 1) =~= cs@.take(i as int).push(cs@[i as int]));
        i += 1;
    }
    assert(cs@.take(cs@.len() as int) =~= cs@);
    s
}

/// Appending one character to a sequence appends its encoding to the UTF-8 bytes.
pub proof fn lemma_encode_utf8_push(a: Seq<char>, x: char)
    ensures
        encode_utf8(a.push(x)) == encode_utf8(a) + encode_scalar(x as u32),
    decreases a.len(),
{
    if a.len() == 0 {
        assert(a.push(x).drop_first() =~= Seq::<char>::empty());
        assert(encode_utf8(Seq::<char>::empty()) =~= Seq::<u8>::empty());
        assert(encode_utf8(a) =~= Seq::<u8>::empty());
        assert(encode_scalar(x as u32) + Seq::<u8>::empty() =~= encode_scalar(x as u32));
    } else {
        assert(a.push(x).drop_first() =~= a.drop_first().push(x));
        lemma_encode_utf8_push(a.drop_first(), x);
        assert(a.push(x)[0] == a[0]);
        assert(encode_utf8(a.push(x)) =~= encode_scalar(a[0] as u32) + (encode_utf8(
            a.drop_first(),
        ) + encode_scalar(x as u32)));
    }
}

/// Every character takes between one and four bytes.
pub proof fn lemma_utf8_len_bounds(a: Seq<char>)
    ensures
        a.len() <= utf8_len(a) <= 4 * a.len(),
    decreases a.len(),
{
    if a.len() > 0 {
        lemma_utf8_len_bounds(a.drop_first());
    }
}

/// Byte width of the prefix `a.take(k)` grows by the width of `a[k]`.
pub proof fn lemma_utf8_len_take_step(a: Seq<char>, k: int)
    requires
        0 <= k < a.len(),
    ensures
        utf8_len(a.take(k + 1)) == utf8_len(a.take(k)) + encode_scalar(a[k] as u32).len(),
{
    assert(a.take(k + 1) =~= a.take(k).push(a[k]));
    lemma_encode_utf8_push(a.take(k), a[k]);
}

/// Byte width of a prefix never exceeds that of the whole.
pub proof fn lemma_utf8_len_take_mono(a: Seq<char>, k: int, m: int)
    requires
        0 <= k <= m <= a.len(),
    ensures
        utf8_len(a.take(k)) <= utf8_len(a.take(m)),
    decreases m - k,
{
    if k < m {
        lemma_utf8_len_take_step(a, m - 1);
        lemma_utf8_len_take_mono(a, k, m - 1);
    }
}

/// `char::len_utf8`: the number of bytes that encode `c`.
pub fn char_width(c: char) -> (w: usize)
    ensures
        w == encode_scalar(c as u32).len(),
        1 <= w <= 4,
{
    let v = c as u32;
    if v < 0x80 {
        1
    } else if v < 0x800 {
        2
    } else if v < 0x10000 {
        3
    } else {
        4
    }
}

/// Byte length of `s`, with the fact that it is the UTF-8 width of its characters.
pub fn byte_len(s: &str) -> (n: usize)
    ensures
        n == utf8_len(s@),
{
    let b = s.as_bytes();
    b.len()
}

} // verus!

verus! {

/// Whether position `i` of `s` lies inside a region opened by an unescaped
/// `delim` that has not been closed again, scanning from the start. A delimiter
/// counts when it is not preceded by an odd run of `bs`.
pub open spec fn lit_state<A>(s: Seq<A>, i: int, bs: A, delim: Option<A>) -> bool
    decreases i,
{
    if i <= 0 || i > s.len() {
        false
    } else {
        let toggles = match delim {
            Some(d) => s[i - 1] == d && run_before(s, i - 1, bs) % 2 == 0,
            None => false,
        };
        if toggles {
            !lit_state(s, i - 1, bs, delim)
        } else {
            lit_state(s, i - 1, bs, delim)
        }
    }
}

/// Number of trailing backslashes of the characters `v`.
pub fn trailing_backslash_count(v: &Vec<char>) -> (n: usize)
    ensures
        n == run_before(v@, v@.len() as int, '\\'),
{
    let mut n: usize = 0;
    let mut i: usize = v.len();
    while i > 0 && v[i - 1] == '\\'
        invariant
            i <= v@.len(),
            v@.len() == v.len(),
            n + i == v@.len(),
            run_before(v@, v@.len() as int, '\\') == n + run_before(v@, i as int, '\\'),
        decreases i,
    {
        i -= 1;
        n += 1;
    }
    n
}

} // verus!

verus! {

/// Number of backslashes immediately before index `pos` of `c`.
pub fn backslashes_before(c: &Vec<char>, pos: usize) -> (n: usize)
    requires
        pos <= c@.len(),
    ensures
        n == run_before(c@, pos as int, '\\'),
        n <= pos,
{
    let mut n: usize = 0;
    let mut i: usize = pos;
    while i > 0 && c[i - 1] == '\\'
        invariant
            i <= pos <= c@.len(),
            n + i == pos,
            run_before(c@, pos as int, '\\') == n + run_before(c@, i as int, '\\'),
        decreases i,
    {
        n += 1;
        i -= 1;
    }
    n
}

/// The characters `c[a..b]` as a new vector.
pub fn copy_chars(c: &Vec<char>, a: usize, b: usize) -> (v: Vec<char>)
    requires
        a <= b <= c@.len(),
    ensures
        v@ == c@.subrange(a as int, b as int),
{
    let mut v: Vec<char> = Vec::new();
    let mut i: usize = a;
    while i < b
        invariant
            a <= i <= b <= c@.len(),
            v@ == c@.subrange(a as int, i as int),
        decreases b - i,
    {
        v.push(c[i]);
        assert(c@.subrange(a as int, i + 1) =~= c@.subrange(a as int, i as int).push(c@[i as int]));
        i += 1;
    }
    v
}

/// Byte offsets of every character boundary of `s`: entry `k` is the UTF-8
/// width of the first `k` characters.
pub fn char_byte_offsets(s: &str, c: &Vec<char>) -> (offs: Vec<usize>)
    requires
        c@ == s@,
    ensures
        offs@.len() == c@.len() + 1,
        forall|k: int| 0 <= k <= c@.len() ==> #[trigger] offs@[k] == utf8_len(c@.take(k)),
{
    let total = byte_len(s);
    let mut offs: Vec<usize> = Vec::new();
    offs.push(0);
    assert(c@.take(0) =~= Seq::<char>::empty());
    assert(utf8_len(Seq::<char>::empty()) == 0) by {
        assert(vstd::utf8::encode_utf8(Seq::<char>::empty()) =~= Seq::<u8>::empty());
    }
    let mut i: usize = 0;
    let mut acc: usize = 0;
    while i < c.len()
        invariant
            i <= c@.len(),
            total == utf8_len(c@),
            acc == utf8_len(c@.take(i as int)),
            offs@.len() == i + 1,
            forall|k: int| 0 <= k <= i ==> #[trigger] offs@[k] == utf8_len(c@.take(k)),
        decreases c@.len() - i,
    {
        let w = char_width(c[i]);
        proof {
            lemma_utf8_len_take_step(c@, i as int);
            lemma_utf8_len_take_mono(c@, i + 1, c@.len() as int);
            assert(c@.take(c@.len() as int) =~= c@);
        }
        acc = acc + w;
        offs.push(acc);
        i += 1;
    }
    offs
}

} // verus!

verus! {

/// Whether two strings hold the same characters.
pub fn str_eq(a: &str, b: &str) -> (r: bool)
    ensures
        r == (a@ == b@),
{
    let x = chars_of(a);
    let y = chars_of(b);
    if x.len() != y.len() {
        assert(a@.len() != b@.len());
        return false;
    }
    let mut i: usize = 0;
    while i < x.len()
        invariant
            x@ == a@,
            y@ == b@,
            x@.len() == y@.len(),
            i <= x@.len(),
            forall|j: int| 0 <= j < i ==> x@[j] == y@[j],
        decreases x@.len() - i,
    {
        if x[i] != y[i] {
            assert(x@[i as int] != y@[i as int]);
            assert(a@ != b@);
            return false;
        }
        i += 1;
    }
    assert(x@ =~= y@);
    true
}

/// Whether `s` equals one of `list`.
pub fn str_in(s: &str, list: &[&str]) -> (r: bool)
    ensures
        r == exists|k: int| 0 <= k < list@.len() && (#[trigger] list@[k])@ == s@,
{
    let mut i: usize = 0;
    while i < list.len()
        invariant
            i <= list@.len(),
            forall|k: int| 0 <= k < i ==> (#[trigger] list@[k])@ != s@,
        decreases list@.len() - i,
    {
        if str_eq(list[i], s) {
            return true;
        }
        i += 1;
    }
    false
}

} // verus!

verus! {

/// The decimal digit for `d` (`0 <= d < 10`).
pub open spec fn digit_char(d: nat) -> char {
    ((d + 48) as u32) as char
}

/// The decimal representation of `n`, without leading zeros.
pub open spec fn decimal(n: nat) -> Seq<char>
    decreases n,
{
    if n < 10 {
        seq![digit_char(n)]
    } else {
        decimal(n / 10).push(digit_char(n % 10))
    }
}

/// The decimal representation of `n` (as `format!("{n}")` writes it).
pub fn decimal_string(n: u64) -> (s: String)
    ensures
        s@ == decimal(n as nat),
    decreases n,
{
    let d: u8 = (n % 10) as u8;
    let c: char = (d + 48) as char;
    if n < 10 {
        let mut s = String::new();
        push_char(&mut s, c);
        assert(s@ =~= seq![digit_char(n as nat)]);
        s
    } else {
        let mut s = decimal_string(n / 10);
        push_char(&mut s, c);
        s
    }
}

} // verus!

verus! {

/// ASCII whitespace as `char::is_whitespace` has it: tab, line feed,
/// vertical tab, form feed, carriage return and space.
pub open spec fn is_ascii_ws(c: char) -> bool {
    c == ' ' || c == '\t' || c == '\n' || c == '\x0B' || c == '\x0C' || c == '\r'
}

/// What `char::is_whitespace` returns for a non-ASCII `c` (the Unicode
/// White_Space property).
pub uninterp spec fn unicode_is_whitespace(c: char) -> bool;

/// `char::is_whitespace`: the ASCII whitespace characters, and beyond ASCII
/// the Unicode White_Space property.
pub open spec fn char_is_whitespace(c: char) -> bool {
    if (c as u32) < 128 {
        is_ascii_ws(c)
    } else {
        unicode_is_whitespace(c)
    }
}

/// `char::is_whitespace`. Trusted: on ASCII input it holds exactly of the six
/// ASCII whitespace characters, as std documents; beyond ASCII the result is
/// the named Unicode property.
#[verifier::external_body]
pub(crate) fn is_whitespace(c: char) -> (b: bool)
    ensures
        (c as u32) < 128 ==> (b == is_ascii_ws(c)),
        (c as u32) >= 128 ==> (b == unicode_is_whitespace(c)),
{
    c.is_whitespace()
}

/// Number of whitespace characters at the start of `s`.
pub open spec fn lead_ws(s: Seq<char>) -> nat
    decreases s.len(),
{
    if s.len() > 0 && char_is_whitespace(s[0]) {
        1 + lead_ws(s.drop_first())
    } else {
        0
    }
}

/// Number of whitespace characters at the end of `s`.
pub open spec fn trail_ws(s: Seq<char>) -> nat
    decreases s.len(),
{
    if s.len() > 0 && char_is_whitespace(s.last()) {
        1 + trail_ws(s.drop_last())
    } else {
        0
    }
}

/// `s` without its leading whitespace.
pub open spec fn trim_start_spec(s: Seq<char>) -> Seq<char> {
    s.skip(lead_ws(s) as int)
}

/// `s` without its trailing whitespace.
pub open spec fn trim_end_spec(s: Seq<char>) -> Seq<char> {
    s.take(s.len() - trail_ws(s))
}

/// `s` without leading and trailing whitespace.
pub open spec fn trim_spec(s: Seq<char>) -> Seq<char> {
    trim_end_spec(trim_start_spec(s))
}

/// Number of whitespace characters at the start of `c`.
fn leading_ws_count(c: &Vec<char>) -> (n: usize)
    ensures
        n == lead_ws(c@),
{
    let mut i: usize = 0;
    assert(c@.skip(0) =~= c@);
    while i < c.len() && is_whitespace(c[i])
        invariant
            i <= c@.len(),
            lead_ws(c@) == i + lead_ws(c@.skip(i as int)),
        decreases c@.len() - i,
    {
        assert(c@.skip(i as int)[0] == c@[i as int]);
        assert(c@.skip(i as int).drop_first() =~= c@.skip(i + 1));
        i += 1;
    }
    if i < c.len() {
        assert(c@.skip(i as int)[0] == c@[i as int]);
    }
    i
}

/// Number of whitespace characters at the end of `c`.
fn trailing_ws_count(c: &Vec<char>) -> (n: usize)
    ensures
        n == trail_ws(c@),
{
    let mut k: usize = 0;
    assert(c@.take(c@.len() as int) =~= c@);
    while k < c.len() && is_whitespace(c[c.len() - 1 - k])
        invariant
            k <= c@.len(),
            trail_ws(c@) == k + trail_ws(c@.take(c@.len() - k)),
        decreases c@.len() - k,
    {
        assert(c@.take(c@.len() - k).last() == c@[c@.len() - 1 - k]);
        assert(c@.take(c@.len() - k).drop_last() =~= c@.take(c@.len() - k - 1));
        k += 1;
    }
    if k < c.len() {
        assert(c@.take(c@.len() - k).last() == c@[c@.len() - 1 - k]);
    }
    k
}

/// The slice without leading whitespace (`str::trim_start`).
pub(crate) fn trim_start(s: &str) -> (r: &str)
    ensures
        r@ == trim_start_spec(s@),
{
    let c = chars_of(s);
    let n = leading_ws_count(&c);
    proof {
        lemma_ws_bounds(s@);
    }
    s.substring_char(n, c.len())
}

/// The slice without trailing whitespace (`str::trim_end`).
pub(crate) fn trim_end(s: &str) -> (r: &str)
    ensures
        r@ == trim_end_spec(s@),
{
    let c = chars_of(s);
    let n = trailing_ws_count(&c);
    proof {
        lemma_ws_bounds(s@);
    }
    s.substring_char(0, c.len() - n)
}

/// The slice without leading and trailing whitespace (`str::trim`).
pub(crate) fn trim(s: &str) -> (r: &str)
    ensures
        r@ == trim_spec(s@),
{
    trim_end(trim_start(s))
}

/// The whitespace counts are within the sequence, and a sequence that is all
/// whitespace trims to nothing from either side.
pub proof fn lemma_ws_bounds(s: Seq<char>)
    ensures
        lead_ws(s) <= s.len(),
        trail_ws(s) <= s.len(),
        lead_ws(s) == s.len() <==> trail_ws(s) == s.len(),
        forall|i: int| 0 <= i < lead_ws(s) ==> char_is_whitespace(#[trigger] s[i]),
        forall|i: int| s.len() - trail_ws(s) <= i < s.len() ==> char_is_whitespace(#[trigger] s[i]),
        lead_ws(s) < s.len() ==> !char_is_whitespace(s[lead_ws(s) as int]),
        trail_ws(s) < s.len() ==> !char_is_whitespace(s[s.len() - 1 - trail_ws(s)]),
    decreases s.len(),
{
    if s.len() > 0 {
        lemma_ws_bounds(s.drop_first());
        lemma_ws_bounds(s.drop_last());
        if char_is_whitespace(s[0]) {
            assert forall|i: int| 0 <= i < lead_ws(s) implies char_is_whitespace(#[trigger] s[i]) by {
                if i > 0 {
                    assert(s[i] == s.drop_first()[i - 1]);
                }
            }
        }
        if char_is_whitespace(s.last()) {
            assert forall|i: int| s.len() - trail_ws(s) <= i < s.len() implies char_is_whitespace(#[trigger] s[i]) by {
                if i < s.len() - 1 {
                    assert(s[i] == s.drop_last()[i]);
                }
            }
        }
        // all-whitespace on one side means all-whitespace on the other
        lemma_all_ws_iff(s);
    }
}

/// A sequence is all whitespace exactly when its leading (and trailing)
/// whitespace run covers it.
proof fn lemma_all_ws_iff(s: Seq<char>)
    ensures
        lead_ws(s) == s.len() <==> (forall|i: int| 0 <= i < s.len() ==> char_is_whitespace(#[trigger] s[i])),
        trail_ws(s) == s.len() <==> (forall|i: int| 0 <= i < s.len() ==> char_is_whitespace(#[trigger] s[i])),
    decreases s.len(),
{
    if s.len() > 0 {
        lemma_all_ws_iff(s.drop_first());
        lemma_all_ws_iff(s.drop_last());
        if forall|i: int| 0 <= i < s.len() ==> char_is_whitespace(#[trigger] s[i]) {
            assert forall|i: int| 0 <= i < s.drop_first().len() implies char_is_whitespace(#[trigger] s.drop_first()[i]) by {
                assert(s.drop_first()[i] == s[i + 1]);
            }
            assert forall|i: int| 0 <= i < s.drop_last().len() implies char_is_whitespace(#[trigger] s.drop_last()[i]) by {
                assert(s.drop_last()[i] == s[i]);
            }
        }
        if lead_ws(s) == s.len() {
            assert(char_is_whitespace(s[0]));
            assert forall|i: int| 0 <= i < s.len() implies char_is_whitespace(#[trigger] s[i]) by {
                if i > 0 {
                    assert(s[i] == s.drop_first()[i - 1]);
                }
            }
        }
        if trail_ws(s) == s.len() {
            assert(char_is_whitespace(s.last()));
            assert forall|i: int| 0 <= i < s.len() implies char_is_whitespace(#[trigger] s[i]) by {
                if i < s.len() - 1 {
                    assert(s[i] == s.drop_last()[i]);
                }
            }
        }
    }
}

} // verus!

verus! {

/// The UTF-8 width of a concatenation is the sum of the widths.
pub proof fn lemma_utf8_len_concat(a: Seq<char>, b: Seq<char>)
    ensures
        utf8_len(a + b) == utf8_len(a) + utf8_len(b),
    decreases b.len(),
{
    if b.len() == 0 {
        assert(a + b =~= a);
        assert(vstd::utf8::encode_utf8(b) =~= Seq::<u8>::empty());
    } else {
        let x = b.last();
        lemma_utf8_len_concat(a, b.drop_last());
        assert(a + b =~= (a + b.drop_last()).push(x));
        assert(b =~= b.drop_last().push(x));
        lemma_encode_utf8_push(a + b.drop_last(), x);
        lemma_encode_utf8_push(b.drop_last(), x);
    }
}

/// The UTF-8 width of a subrange is the difference of the prefix widths.
pub proof fn lemma_utf8_len_subrange(a: Seq<char>, i: int, j: int)
    requires
        0 <= i <= j <= a.len(),
    ensures
        utf8_len(a.take(j)) == utf8_len(a.take(i)) + utf8_len(a.subrange(i, j)),
{
    assert(a.take(j) =~= a.take(i) + a.subrange(i, j));
    lemma_utf8_len_concat(a.take(i), a.subrange(i, j));
}

} // verus!

verus! {

/// Characters of `l` that make up its first `b` bytes, when `b` falls on a
/// character boundary.
pub open spec fn chars_in_bytes(l: Seq<char>, b: int) -> int {
    choose|q: int| 0 <= q <= l.len() && utf8_len(l.take(q)) == b
}

/// Byte `b` is a character boundary of `l`.
pub open spec fn is_boundary(l: Seq<char>, b: int) -> bool {
    exists|q: int| 0 <= q <= l.len() && utf8_len(l.take(q)) == b
}

/// Prefix widths strictly increase with the prefix length.
pub proof fn lemma_widths_increase(l: Seq<char>, i: int, j: int)
    requires
        0 <= i < j <= l.len(),
    ensures
        utf8_len(l.take(i)) < utf8_len(l.take(j)),
    decreases j - i,
{
    crate::text::lemma_utf8_len_take_step(l, j - 1);
    if i < j - 1 {
        lemma_widths_increase(l, i, j - 1);
    }
}

} // verus!

verus! {

/// The pieces of `s` between occurrences of `d` (one more than the number of
/// occurrences), as `str::split` with a character pattern yields them.
pub open spec fn split_on(s: Seq<char>, d: char) -> Seq<Seq<char>>
    decreases s.len(),
{
    if s.len() == 0 {
        seq![Seq::<char>::empty()]
    } else {
        let p = split_on(s.drop_last(), d);
        if s.last() == d {
            p.push(Seq::<char>::empty())
        } else {
            p.update(p.len() - 1, p.last().push(s.last()))
        }
    }
}

/// Every character of `s` is an ASCII digit.
pub open spec fn all_ascii_digits(s: Seq<char>) -> bool {
    forall|i: int| 0 <= i < s.len() ==> '0' <= #[trigger] s[i] <= '9'
}

/// The value of a run of ASCII digits.
pub open spec fn digits_value(s: Seq<char>) -> nat
    decreases s.len(),
{
    if s.len() == 0 {
        0
    } else {
        digits_value(s.drop_last()) * 10 + ((s.last() as u32) - 48) as nat
    }
}

/// What `str::parse::<u32>` gives: an optional `+` followed by at least one
/// ASCII digit, whose value fits in `u32`.
pub open spec fn parse_u32_spec(s: Seq<char>) -> Option<u32> {
    let d = if s.len() > 0 && s[0] == '+' { s.drop_first() } else { s };
    if d.len() == 0 || !all_ascii_digits(d) || digits_value(d) > u32::MAX {
        None
    } else {
        Some(digits_value(d) as u32)
    }
}

/// A run of digits is worth at least each of its prefixes.
proof fn lemma_digits_value_prefix(d: Seq<char>, k: int)
    requires
        0 <= k <= d.len(),
        all_ascii_digits(d),
    ensures
        digits_value(d.take(k)) <= digits_value(d),
    decreases d.len() - k,
{
    if k < d.len() {
        lemma_digits_value_prefix(d, k + 1);
        assert(d.take(k + 1).drop_last() =~= d.take(k));
        assert('0' <= d.take(k + 1).last() <= '9');
        assert(digits_value(d.take(k)) <= digits_value(d.take(k)) * 10) by (nonlinear_arith);
    } else {
        assert(d.take(k) =~= d);
    }
}

/// `str::parse::<u32>`, as std documents `u32::from_str`: an optional `+`
/// followed by ASCII digits only, with a value that fits; anything else is an
/// error.
pub(crate) fn parse_u32(s: &str) -> (r: Option<u32>)
    ensures
        r == parse_u32_spec(s@),
{
    let c = chars_of(s);
    let start: usize = if c.len() > 0 && c[0] == '+' { 1 } else { 0 };
    let ghost d = if s@.len() > 0 && s@[0] == '+' { s@.drop_first() } else { s@ };
    assert(d =~= c@.subrange(start as int, c@.len() as int));
    if start == c.len() {
        return None;
    }
    let mut acc: u64 = 0;
    let mut i: usize = start;
    assert(d.take(0) =~= Seq::<char>::empty());
    while i < c.len()
        invariant
            c@ == s@,
            start <= i <= c@.len(),
            d == c@.subrange(start as int, c@.len() as int),
            d == (if s@.len() > 0 && s@[0] == '+' { s@.drop_first() } else { s@ }),
            d.len() > 0,
            all_ascii_digits(d.take(i - start)),
            acc == digits_value(d.take(i - start)),
            acc <= u32::MAX,
        decreases c@.len() - i,
    {
        let ch = c[i];
        assert(d[i - start] == ch);
        if !('0' <= ch && ch <= '9') {
            assert(!all_ascii_digits(d));
            return None;
        }
        let digit = (ch as u32 - 48) as u64;
        assert(d.take(i - start + 1).drop_last() =~= d.take(i - start));
        assert(d.take(i - start + 1).last() == ch);
        acc = acc * 10 + digit;
        if acc > u32::MAX as u64 {
            proof {
                if all_ascii_digits(d) {
                    lemma_digits_value_prefix(d, i - start + 1);
                }
            }
            return None;
        }
        i += 1;
    }
    assert(d.take(d.len() as int) =~= d);
    Some(acc as u32)
}

/// The pieces of `s` between occurrences of `d`, as owned strings.
pub fn split_char(s: &str, d: char) -> (r: Vec<String>)
    ensures
        r@.len() == split_on(s@, d).len(),
        forall|i: int| 0 <= i < r@.len() ==> (#[trigger] r@[i])@ == split_on(s@, d)[i],
{
    let c = chars_of(s);
    let mut pieces: Vec<Vec<char>> = Vec::new();
    pieces.push(Vec::new());
    assert(c@.take(0) =~= Seq::<char>::empty());
    let mut i: usize = 0;
    while i < c.len()
        invariant
            c@ == s@,
            i <= c@.len(),
            pieces@.len() == split_on(c@.take(i as int), d).len(),
            pieces@.len() >= 1,
            forall|k: int| 0 <= k < pieces@.len() ==> (#[trigger] pieces@[k])@ == split_on(c@.take(i as int), d)[k],
        decreases c@.len() - i,
    {
        let ghost before = pieces@;
        assert(c@.take(i + 1).drop_last() =~= c@.take(i as int));
        if c[i] == d {
            pieces.push(Vec::new());
            proof {
                assert forall|k: int| 0 <= k < pieces@.len() implies (#[trigger] pieces@[k])@ == split_on(c@.take(i + 1), d)[k] by {
                    if k < before.len() {
                        assert(pieces@[k] == before[k]);
                    }
                }
            }
        } else {
            let mut last = pieces.pop().unwrap();
            last.push(c[i]);
            pieces.push(last);
            proof {
                assert forall|k: int| 0 <= k < pieces@.len() implies (#[trigger] pieces@[k])@ == split_on(c@.take(i + 1), d)[k] by {
                    if k < before.len() - 1 {
                        assert(pieces@[k] == before[k]);
                    }
                }
            }
        }
        i += 1;
    }
    assert(c@.take(c@.len() as int) =~= c@);
    let mut out: Vec<String> = Vec::new();
    let mut k: usize = 0;
    while k < pieces.len()
        invariant
            c@ == s@,
            pieces@.len() == split_on(c@, d).len(),
            forall|j: int| 0 <= j < pieces@.len() ==> (#[trigger] pieces@[j])@ == split_on(c@, d)[j],
            k <= pieces@.len(),
            out@.len() == k,
            forall|j: int| 0 <= j < k ==> (#[trigger] out@[j])@ == split_on(c@, d)[j],
        decreases pieces@.len() - k,
    {
        out.push(string_from_chars(pieces[k].as_slice()));
        k += 1;
    }
    out
}

} // verus!
