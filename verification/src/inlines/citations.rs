//! Citations: `[@key1; @key2, pp. 45-46]` read into keys and a page locator.
use vstd::prelude::*;
use crate::inlines::{CitationData, CitationLocator, PageFormat, PageRange};
use crate::text::{
    char_is_whitespace, chars_of, parse_u32, parse_u32_spec, split_char, split_on, trim, trim_end,
    trim_end_spec, trim_spec, trim_start, trim_start_spec,
};

verus! {

/// `p` or `P`.
pub open spec fn is_p(c: char) -> bool {
    c == 'p' || c == 'P'
}

/// A character that may follow `p` or `pp` in a page locator.
pub open spec fn locator_char(c: char) -> bool {
    c == '.' || char_is_whitespace(c) || ('0' <= c && c <= '9')
}

/// Text starts like a page locator: `p` or `pp` (any case) followed by a
/// period, whitespace or digit.
pub open spec fn looks_like_locator_spec(t: Seq<char>) -> bool {
    if t.len() >= 2 && is_p(t[0]) && is_p(t[1]) {
        t.len() >= 3 && locator_char(t[2])
    } else if t.len() >= 1 && is_p(t[0]) {
        t.len() >= 2 && locator_char(t[1])
    } else {
        false
    }
}

/// The last comma among `s[0..n]` after which (past whitespace) a locator starts.
pub open spec fn locator_comma(s: Seq<char>, n: int) -> Option<int>
    decreases n,
{
    if n <= 0 {
        None
    } else if s[n - 1] == ',' && looks_like_locator_spec(trim_start_spec(s.skip(n))) {
        Some(n - 1)
    } else {
        locator_comma(s, n - 1)
    }
}

/// Citation content split into the keys part and the locator part (if any).
pub open spec fn split_locator_spec(s: Seq<char>) -> (Seq<char>, Option<Seq<char>>) {
    match locator_comma(s, s.len() as int) {
        Some(i) => {
            let keys = trim_end_spec(s.take(i));
            let loc = trim_start_spec(s.skip(i + 1));
            if loc.len() == 0 { (keys, None) } else { (keys, Some(loc)) }
        },
        None => (s, None),
    }
}

/// A key chunk without surrounding whitespace and its leading `@`.
pub open spec fn key_of(chunk: Seq<char>) -> Seq<char> {
    let k = trim_spec(chunk);
    if k.len() > 0 && k[0] == '@' { trim_spec(k.drop_first()) } else { k }
}

/// The non-empty keys of the first `n` chunks.
pub open spec fn keys_from(chunks: Seq<Seq<char>>, n: int) -> Seq<Seq<char>>
    decreases n,
{
    if n <= 0 {
        Seq::empty()
    } else if key_of(chunks[n - 1]).len() == 0 {
        keys_from(chunks, n - 1)
    } else {
        keys_from(chunks, n - 1).push(key_of(chunks[n - 1]))
    }
}

/// The keys of a keys segment: split at `;` when there is one, else at `,`.
pub open spec fn citation_keys_spec(segment: Seq<char>) -> Option<Seq<Seq<char>>> {
    let t = trim_spec(segment);
    if t.len() == 0 {
        None
    } else {
        let d = if t.contains(';') { ';' } else { ',' };
        let chunks = split_on(t, d);
        let ks = keys_from(chunks, chunks.len() as int);
        if ks.len() == 0 { None } else { Some(ks) }
    }
}

/// Index of the first `c` in `s` from `i` on.
pub open spec fn index_of_from(s: Seq<char>, c: char, i: int) -> Option<int>
    decreases s.len() - i,
{
    if i < 0 || i >= s.len() {
        None
    } else if s[i] == c {
        Some(i)
    } else {
        index_of_from(s, c, i + 1)
    }
}

/// A page or page range read from one comma-separated part.
pub open spec fn page_range_spec(part: Seq<char>) -> Option<(u32, Option<u32>)> {
    let seg = trim_spec(part);
    if seg.len() == 0 {
        None
    } else {
        match index_of_from(seg, '-', 0) {
            Some(idx) => {
                let st = trim_spec(seg.take(idx));
                let en = trim_spec(seg.skip(idx + 1));
                match parse_u32_spec(st) {
                    Some(sn) => if en.len() == 0 {
                        Some((sn, None))
                    } else {
                        match parse_u32_spec(en) {
                            Some(v) => Some((sn, Some(v))),
                            None => None,
                        }
                    },
                    None => None,
                }
            },
            None => match parse_u32_spec(seg) {
                Some(n) => Some((n, None)),
                None => None,
            },
        }
    }
}

/// The page ranges read from the first `n` parts.
pub open spec fn ranges_from(parts: Seq<Seq<char>>, n: int) -> Seq<(u32, Option<u32>)>
    decreases n,
{
    if n <= 0 {
        Seq::empty()
    } else {
        match page_range_spec(parts[n - 1]) {
            Some(r) => ranges_from(parts, n - 1).push(r),
            None => ranges_from(parts, n - 1),
        }
    }
}

/// The page ranges of a comma-separated page specification.
pub open spec fn page_ranges_spec(text: Seq<char>) -> Seq<(u32, Option<u32>)> {
    ranges_from(split_on(text, ','), split_on(text, ',').len() as int)
}

/// `v` holds the page ranges `r`.
pub open spec fn ranges_match(v: Seq<PageRange>, r: Seq<(u32, Option<u32>)>) -> bool {
    &&& v.len() == r.len()
    &&& forall|i: int| 0 <= i < v.len() ==> (#[trigger] v[i]).start == r[i].0 && v[i].end == r[i].1
}

/// The locator read from text: format, page ranges and the trimmed text.
pub open spec fn locator_spec(text: Seq<char>) -> Option<(PageFormat, Seq<(u32, Option<u32>)>, Seq<char>)> {
    let t = trim_spec(text);
    if t.len() == 0 {
        None
    } else if !is_p(t[0]) {
        None
    } else {
        let pp = t.len() >= 2 && is_p(t[1]);
        let fmt = if pp { PageFormat::Pp } else { PageFormat::P };
        let rest0 = trim_start_spec(t.skip(if pp { 2 } else { 1 }));
        let rest = if rest0.len() > 0 && rest0[0] == '.' { trim_start_spec(rest0.drop_first()) } else { rest0 };
        if rest.len() == 0 {
            None
        } else {
            let rs = page_ranges_spec(rest);
            if rs.len() == 0 { None } else { Some((fmt, rs, t)) }
        }
    }
}

/// `l` is the locator read from `text`.
pub open spec fn locator_matches(l: Option<CitationLocator>, text: Seq<char>) -> bool {
    match locator_spec(text) {
        Some((f, rs, raw)) => l matches Some(x) && x.format == f && ranges_match(x.ranges@, rs) && x.raw@ == raw,
        None => l is None,
    }
}

/// The citation read from the content after `@`.
pub open spec fn citation_matches(c: Option<CitationData>, content: Seq<char>) -> bool {
    let t = trim_spec(content);
    if t.len() == 0 {
        c is None
    } else {
        let (ks, ls) = split_locator_spec(t);
        match citation_keys_spec(ks) {
            None => c is None,
            Some(keys) => c matches Some(d) && d.keys@.len() == keys.len()
                && (forall|i: int| 0 <= i < keys.len() ==> (#[trigger] d.keys@[i])@ == keys[i])
                && match ls {
                    Some(l) => locator_matches(d.locator, l),
                    None => d.locator is None,
                },
        }
    }
}

} // verus!

verus! {

fn is_p_char(c: char) -> (b: bool)
    ensures
        b == is_p(c),
{
    c == 'p' || c == 'P'
}

fn is_locator_char(c: char) -> (b: bool)
    ensures
        b == locator_char(c),
{
    c == '.' || crate::text::is_whitespace(c) || ('0' <= c && c <= '9')
}

/// Whether text starts like a page locator (`p.`, `pp 4`, `P3`, …).
pub fn looks_like_locator_start(text: &str) -> (b: bool)
    ensures
        b == looks_like_locator_spec(text@),
{
    let t = chars_of(text);
    if t.len() >= 2 && is_p_char(t[0]) && is_p_char(t[1]) {
        t.len() >= 3 && is_locator_char(t[2])
    } else if t.len() >= 1 && is_p_char(t[0]) {
        t.len() >= 2 && is_locator_char(t[1])
    } else {
        false
    }
}

/// Split citation content into the keys part and the locator part, at the
/// last comma that starts a page locator (`, pp. 45`).
pub fn split_locator_segment(content: &str) -> (r: (&str, Option<&str>))
    ensures
        r.0@ == split_locator_spec(content@).0,
        match split_locator_spec(content@).1 {
            Some(l) => r.1 matches Some(x) && x@ == l,
            None => r.1 is None,
        },
{
    let c = chars_of(content);
    let n = c.len();
    let mut locator_index: Option<usize> = None;
    let mut i: usize = 0;
    while i < n
        invariant
            c@ == content@,
            n == c@.len(),
            i <= n,
            match locator_comma(c@, i as int) {
                Some(k) => locator_index == Some(k as usize) && 0 <= k < i,
                None => locator_index is None,
            },
        decreases n - i,
    {
        if c[i] == ',' {
            let tail = trim_start(content.substring_char(i + 1, n));
            proof {
                assert(c@.subrange(i + 1, n as int) =~= c@.skip(i + 1));
            }
            if looks_like_locator_start(tail) {
                locator_index = Some(i);
            }
        }
        i += 1;
    }
    match locator_index {
        Some(idx) => {
            let keys = trim_end(content.substring_char(0, idx));
            let locator = trim_start(content.substring_char(idx + 1, n));
            proof {
                assert(c@.subrange(0, idx as int) =~= c@.take(idx as int));
                assert(c@.subrange(idx + 1, n as int) =~= c@.skip(idx + 1));
            }
            if locator.is_empty() {
                (keys, None)
            } else {
                (keys, Some(locator))
            }
        },
        None => (content, None),
    }
}

/// The keys of a citation: split at `;` when there is one, else at `,`;
/// each key trimmed and stripped of a leading `@`; empty keys dropped.
/// None when no key remains.
pub fn parse_citation_keys(segment: &str) -> (r: Option<Vec<String>>)
    ensures
        match citation_keys_spec(segment@) {
            Some(ks) => r matches Some(v) && v@.len() == ks.len() && forall|i: int| 0 <= i < ks.len() ==> (#[trigger] v@[i])@ == ks[i],
            None => r is None,
        },
{
    let t = trim(segment);
    if t.is_empty() {
        return None;
    }
    let tc = chars_of(t);
    let mut has_semi = false;
    let mut j: usize = 0;
    while j < tc.len()
        invariant
            tc@ == t@,
            j <= tc@.len(),
            has_semi == tc@.take(j as int).contains(';'),
        decreases tc@.len() - j,
    {
        proof {
            assert(tc@.take(j + 1) =~= tc@.take(j as int).push(tc@[j as int]));
            if tc@.take(j as int).contains(';') {
                let w = choose|w: int| 0 <= w < j && tc@.take(j as int)[w] == ';';
                assert(tc@.take(j + 1)[w] == ';');
            }
        }
        if tc[j] == ';' {
            has_semi = true;
            proof {
                assert(tc@.take(j + 1)[j as int] == ';');
            }
        }
        j += 1;
    }
    assert(tc@.take(tc@.len() as int) =~= tc@);
    let d = if has_semi { ';' } else { ',' };
    let chunks = split_char(t, d);
    let ghost cs = split_on(t@, d);
    let mut keys: Vec<String> = Vec::new();
    let mut k: usize = 0;
    while k < chunks.len()
        invariant
            chunks@.len() == cs.len(),
            forall|i: int| 0 <= i < chunks@.len() ==> (#[trigger] chunks@[i])@ == cs[i],
            k <= chunks@.len(),
            keys@.len() == keys_from(cs, k as int).len(),
            forall|i: int| 0 <= i < keys@.len() ==> (#[trigger] keys@[i])@ == keys_from(cs, k as int)[i],
        decreases chunks@.len() - k,
    {
        let mut key = trim(chunks[k].as_str());
        let kc = chars_of(key);
        if kc.len() > 0 && kc[0] == '@' {
            let rest = key.substring_char(1, kc.len());
            proof {
                assert(kc@.subrange(1, kc@.len() as int) =~= kc@.drop_first());
            }
            key = trim(rest);
        }
        let ghost prev = keys_from(cs, k as int);
        if !key.is_empty() {
            keys.push(key.to_string());
            proof {
                assert(keys_from(cs, k + 1) == prev.push(key_of(cs[k as int])));
                assert forall|i: int| 0 <= i < keys@.len() implies (#[trigger] keys@[i])@ == keys_from(cs, k + 1)[i] by {
                    if i < prev.len() {
                        assert(keys_from(cs, k + 1)[i] == prev[i]);
                    }
                }
            }
        }
        k += 1;
    }
    if keys.len() == 0 {
        None
    } else {
        Some(keys)
    }
}

} // verus!

verus! {

/// Index of the first `ch` in `c`.
fn index_of(c: &Vec<char>, ch: char) -> (r: Option<usize>)
    ensures
        r matches Some(i) ==> index_of_from(c@, ch, 0) == Some(i as int) && i < c@.len(),
        r is None <==> index_of_from(c@, ch, 0) is None,
{
    let mut i: usize = 0;
    while i < c.len()
        invariant
            i <= c@.len(),
            index_of_from(c@, ch, i as int) == index_of_from(c@, ch, 0),
        decreases c@.len() - i,
    {
        if c[i] == ch {
            return Some(i);
        }
        i += 1;
    }
    None
}

/// A page or page range from one part of a page specification.
fn parse_page_range(part: &str) -> (r: Option<PageRange>)
    ensures
        match page_range_spec(part@) {
            Some((s, e)) => r == Some(PageRange { start: s, end: e }),
            None => r is None,
        },
{
    let segment = trim(part);
    if segment.is_empty() {
        return None;
    }
    let sc = chars_of(segment);
    match index_of(&sc, '-') {
        Some(idx) => {
            let start = trim(segment.substring_char(0, idx));
            let end = trim(segment.substring_char(idx + 1, sc.len()));
            proof {
                assert(sc@.subrange(0, idx as int) =~= sc@.take(idx as int));
                assert(sc@.subrange(idx + 1, sc@.len() as int) =~= sc@.skip(idx + 1));
            }
            match parse_u32(start) {
                Some(start_num) => {
                    if end.is_empty() {
                        Some(PageRange { start: start_num, end: None })
                    } else {
                        match parse_u32(end) {
                            Some(value) => Some(PageRange { start: start_num, end: Some(value) }),
                            None => None,
                        }
                    }
                },
                None => None,
            }
        },
        None => match parse_u32(segment) {
            Some(number) => Some(PageRange { start: number, end: None }),
            None => None,
        },
    }
}

/// Page ranges of a comma-separated page specification: single pages (`45`)
/// and ranges (`45-46`, or open `45-`); parts that read as neither are
/// skipped.
pub fn parse_page_ranges(text: &str) -> (r: Vec<PageRange>)
    ensures
        ranges_match(r@, page_ranges_spec(text@)),
{
    let parts = split_char(text, ',');
    let ghost ps = split_on(text@, ',');
    let mut ranges: Vec<PageRange> = Vec::new();
    let mut k: usize = 0;
    while k < parts.len()
        invariant
            parts@.len() == ps.len(),
            ps == split_on(text@, ','),
            forall|i: int| 0 <= i < parts@.len() ==> (#[trigger] parts@[i])@ == ps[i],
            k <= parts@.len(),
            ranges_match(ranges@, ranges_from(ps, k as int)),
        decreases parts@.len() - k,
    {
        let ghost prev = ranges_from(ps, k as int);
        match parse_page_range(parts[k].as_str()) {
            Some(pr) => {
                ranges.push(pr);
                proof {
                    assert forall|i: int| 0 <= i < ranges@.len() implies (#[trigger] ranges@[i]).start == ranges_from(ps, k + 1)[i].0
                        && ranges@[i].end == ranges_from(ps, k + 1)[i].1 by {
                        if i < prev.len() {
                            assert(ranges_from(ps, k + 1)[i] == prev[i]);
                        }
                    }
                }
            },
            None => {},
        }
        k += 1;
    }
    ranges
}

/// A citation locator: `p` or `pp` (any case), an optional period, then
/// page ranges. None when the text is not such a locator or has no ranges.
pub fn parse_citation_locator(text: &str) -> (r: Option<CitationLocator>)
    ensures
        locator_matches(r, text@),
{
    let trimmed = trim(text);
    let t = chars_of(trimmed);
    if t.len() == 0 {
        return None;
    }
    if !is_p_char(t[0]) {
        return None;
    }
    let pp = t.len() >= 2 && is_p_char(t[1]);
    let format = if pp { PageFormat::Pp } else { PageFormat::P };
    let skip: usize = if pp { 2 } else { 1 };
    let rest0 = trim_start(trimmed.substring_char(skip, t.len()));
    proof {
        assert(t@.subrange(skip as int, t@.len() as int) =~= t@.skip(skip as int));
    }
    let r0 = chars_of(rest0);
    let rest = if r0.len() > 0 && r0[0] == '.' {
        proof {
            assert(r0@.subrange(1, r0@.len() as int) =~= r0@.drop_first());
        }
        trim_start(rest0.substring_char(1, r0.len()))
    } else {
        rest0
    };
    if rest.is_empty() {
        return None;
    }
    let ranges = parse_page_ranges(rest);
    if ranges.len() == 0 {
        return None;
    }
    Some(CitationLocator { format, ranges, raw: trimmed.to_string() })
}

/// Citation data from the content after `@`: keys and an optional locator.
/// None when the content is blank or has no keys.
pub fn parse_citation_data(content: &str) -> (r: Option<CitationData>)
    ensures
        citation_matches(r, content@),
{
    let trimmed = trim(content);
    if trimmed.is_empty() {
        return None;
    }
    let (keys_segment, locator_segment) = split_locator_segment(trimmed);
    let keys = match parse_citation_keys(keys_segment) {
        Some(k) => k,
        None => {
            return None;
        },
    };
    let locator = match locator_segment {
        Some(l) => parse_citation_locator(l),
        None => None,
    };
    Some(CitationData { keys, locator })
}

} // verus!
