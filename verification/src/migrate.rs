//! Source-level migration of legacy bare labels to their canonical forms.
use vstd::prelude::*;
use crate::text::str_eq;

verus! {

/// Legacy label inputs and the blessed form each migrates to.
pub const LEGACY_TO_BLESSED: [(&'static str, &'static str); 8] = [
    ("category", "metadata.category"),
    ("template", "metadata.template"),
    ("publishing-date", "metadata.publishing-date"),
    ("front-matter", "metadata.front-matter"),
    ("doc.table", "table"),
    ("doc.image", "image"),
    ("doc.video", "video"),
    ("doc.audio", "audio"),
];

/// The blessed form of the first table entry from `k` on whose legacy form is `legacy`.
pub open spec fn blessed_from(legacy: Seq<char>, k: int) -> Option<Seq<char>>
    decreases LEGACY_TO_BLESSED@.len() - k,
{
    if k < 0 || k >= LEGACY_TO_BLESSED@.len() {
        None
    } else if LEGACY_TO_BLESSED@[k].0@ == legacy {
        Some(LEGACY_TO_BLESSED@[k].1@)
    } else {
        blessed_from(legacy, k + 1)
    }
}

/// The blessed form that a legacy label migrates to, if it is a legacy label.
pub fn blessed_for_legacy(legacy: &str) -> (r: Option<&'static str>)
    ensures
        match r {
            Some(b) => blessed_from(legacy@, 0) == Some(b@),
            None => blessed_from(legacy@, 0) is None,
        },
{
    let mut k: usize = 0;
    while k < LEGACY_TO_BLESSED.len()
        invariant
            k <= LEGACY_TO_BLESSED@.len(),
            blessed_from(legacy@, k as int) == blessed_from(legacy@, 0),
        decreases LEGACY_TO_BLESSED@.len() - k,
    {
        let (l, b) = LEGACY_TO_BLESSED[k];
        if str_eq(l, legacy) {
            return Some(b);
        }
        k += 1;
    }
    None
}

/// One legacy-label rewrite site.
#[derive(Debug, PartialEq, Eq)]
pub struct LabelMigration {
    /// Byte range in the original source that holds the legacy label.
    pub byte_range: std::ops::Range<usize>,
    /// Legacy label as it appears in the source.
    pub from: &'static str,
    /// Canonical replacement.
    pub to: &'static str,
}

impl Clone for LabelMigration {
    fn clone(&self) -> (c: Self)
        ensures
            c == *self,
    {
        LabelMigration { byte_range: crate::token::copy_range(&self.byte_range), from: self.from, to: self.to }
    }
}

/// The result of a migration pass.
#[derive(Debug, Clone, PartialEq, Eq)]
pub struct MigrationOutcome {
    /// The rewritten source.
    pub rewritten: String,
    /// One entry per legacy label site found in the input.
    pub migrations: Vec<LabelMigration>,
}

impl MigrationOutcome {
    /// True when the migration pass found legacy labels to rewrite.
    pub fn is_modified(&self) -> (b: bool)
        ensures
            b == (self.migrations@.len() > 0),
    {
        self.migrations.len() != 0
    }
}

/// Errors surfaced by a migration pass.
#[derive(Debug, Clone, PartialEq, Eq)]
pub enum MigrationError {
    /// The parser rejected the source.
    ParseFailed { message: String },
}

} // verus!

verus! {

/// ASCII whitespace bytes as `u8::is_ascii_whitespace` has them: space, tab,
/// line feed, form feed and carriage return.
pub open spec fn is_ascii_ws_byte(b: u8) -> bool {
    b == 32u8 || b == 9u8 || b == 10u8 || b == 12u8 || b == 13u8
}

/// Number of ASCII whitespace bytes at the start of `s`.
pub open spec fn ws_prefix(s: Seq<u8>) -> nat
    decreases s.len(),
{
    if s.len() > 0 && is_ascii_ws_byte(s[0]) { 1 + ws_prefix(s.drop_first()) } else { 0 }
}

/// Number of ASCII whitespace bytes at the end of `s`.
pub open spec fn ws_suffix(s: Seq<u8>) -> nat
    decreases s.len(),
{
    if s.len() > 0 && is_ascii_ws_byte(s.last()) { 1 + ws_suffix(s.drop_last()) } else { 0 }
}

/// Index of the first table entry from `k` on whose legacy form has the bytes `bs`.
pub open spec fn legacy_entry(bs: Seq<u8>, k: int) -> Option<int>
    decreases LEGACY_TO_BLESSED@.len() - k,
{
    if k < 0 || k >= LEGACY_TO_BLESSED@.len() {
        None
    } else if vstd::utf8::encode_utf8(LEGACY_TO_BLESSED@[k].0@) == bs {
        Some(k)
    } else {
        legacy_entry(bs, k + 1)
    }
}

/// The legacy-label site inside the label span `start..end` of the source
/// bytes `b`: the span without surrounding ASCII whitespace, when its text
/// is a legacy label. Gives the trimmed range and the table entry.
pub open spec fn label_site(b: Seq<u8>, start: int, end: int) -> Option<(int, int, int)> {
    if start > end || end > b.len() {
        None
    } else {
        let raw = b.subrange(start, end);
        let ts = start + ws_prefix(raw);
        let te = end - ws_suffix(raw);
        if ts >= te {
            None
        } else {
            match legacy_entry(b.subrange(ts, te), 0) {
                Some(k) => Some((ts, te, k)),
                None => None,
            }
        }
    }
}

/// Whether two byte strings are equal.
fn bytes_eq(a: &[u8], b: &[u8]) -> (r: bool)
    ensures
        r == (a@ == b@),
{
    if a.len() != b.len() {
        return false;
    }
    let mut i: usize = 0;
    while i < a.len()
        invariant
            a@.len() == b@.len(),
            i <= a@.len(),
            forall|j: int| 0 <= j < i ==> a@[j] == b@[j],
        decreases a@.len() - i,
    {
        if a[i] != b[i] {
            return false;
        }
        i += 1;
    }
    assert(a@ =~= b@);
    true
}

fn ascii_ws_byte(b: u8) -> (r: bool)
    ensures
        r == is_ascii_ws_byte(b),
{
    b == 32u8 || b == 9u8 || b == 10u8 || b == 12u8 || b == 13u8
}

/// Record a migration site when the label span `span` of `src` holds a
/// legacy label (ignoring surrounding ASCII whitespace). Spans that are
/// reversed or run past the source are ignored.
pub fn check_label(span: &std::ops::Range<usize>, src: &str, sites: &mut Vec<LabelMigration>)
    requires
        span.start <= span.end <= vstd::utf8::encode_utf8(src@).len() ==> crate::text::is_boundary(src@, span.start as int)
            && crate::text::is_boundary(src@, span.end as int),
    ensures
        match label_site(vstd::utf8::encode_utf8(src@), span.start as int, span.end as int) {
            Some((ts, te, k)) => final(sites)@ == old(sites)@.push(LabelMigration {
                byte_range: std::ops::Range { start: ts as usize, end: te as usize },
                from: LEGACY_TO_BLESSED@[k].0,
                to: LEGACY_TO_BLESSED@[k].1,
            }),
            None => final(sites)@ == old(sites)@,
        },
{
    let bytes = src.as_bytes();
    let ghost b = bytes@;
    let start = span.start;
    let end = span.end;
    if start > end || end > bytes.len() {
        return;
    }
    let ghost raw = b.subrange(start as int, end as int);
    let mut lead: usize = 0;
    assert(raw.skip(0) =~= raw);
    while start + lead < end && ascii_ws_byte(bytes[start + lead])
        invariant
            start + lead <= end <= b.len(),
            bytes@ == b,
            raw == b.subrange(start as int, end as int),
            ws_prefix(raw) == lead + ws_prefix(raw.skip(lead as int)),
        decreases end - lead - start,
    {
        assert(raw.skip(lead as int).drop_first() =~= raw.skip(lead + 1));
        lead += 1;
    }
    assert(ws_prefix(raw.skip(lead as int)) == 0) by {
        if start + lead < end {
            assert(raw.skip(lead as int)[0] == b[start + lead]);
        }
    }
    let mut trail: usize = 0;
    assert(raw.take(raw.len() as int) =~= raw);
    while trail < end - start && ascii_ws_byte(bytes[end - 1 - trail])
        invariant
            start <= end <= b.len(),
            trail <= end - start,
            bytes@ == b,
            raw == b.subrange(start as int, end as int),
            ws_suffix(raw) == trail + ws_suffix(raw.take(raw.len() - trail)),
        decreases end - start - trail,
    {
        assert(raw.take(raw.len() - trail).drop_last() =~= raw.take(raw.len() - trail - 1));
        trail += 1;
    }
    assert(ws_suffix(raw.take(raw.len() - trail)) == 0) by {
        if trail < end - start {
            assert(raw.take(raw.len() - trail).last() == b[end - 1 - trail]);
        }
    }
    assert(ws_prefix(raw) == lead);
    assert(ws_suffix(raw) == trail);
    let trim_start = start + lead;
    let trim_end = end - trail;
    if trim_start >= trim_end {
        return;
    }
    let slice = slice_bytes(bytes, trim_start, trim_end);
    match legacy_index(slice) {
        Some(k) => {
            let (from, to) = LEGACY_TO_BLESSED[k];
            proof {
                assert(label_site(b, start as int, end as int) == Some((trim_start as int, trim_end as int, k as int)));
            }
            sites.push(LabelMigration { byte_range: std::ops::Range { start: trim_start, end: trim_end }, from, to });
        },
        None => {},
    }
}

/// Index of the first table entry whose legacy form has the bytes `slice`.
fn legacy_index(slice: &[u8]) -> (r: Option<usize>)
    ensures
        r matches Some(k) ==> legacy_entry(slice@, 0) == Some(k as int) && k < LEGACY_TO_BLESSED@.len(),
        r is None <==> legacy_entry(slice@, 0) is None,
{
    let mut k: usize = 0;
    while k < LEGACY_TO_BLESSED.len()
        invariant
            k <= LEGACY_TO_BLESSED@.len(),
            legacy_entry(slice@, k as int) == legacy_entry(slice@, 0),
        decreases LEGACY_TO_BLESSED@.len() - k,
    {
        let (from, _) = LEGACY_TO_BLESSED[k];
        if bytes_eq(from.as_bytes(), slice) {
            return Some(k);
        }
        k += 1;
    }
    None
}

/// The bytes `b[a..e]`.
fn slice_bytes(b: &[u8], a: usize, e: usize) -> (r: &[u8])
    requires
        a <= e <= b@.len(),
    ensures
        r@ == b@.subrange(a as int, e as int),
{
    let (_, tail) = b.split_at(a);
    let (mid, _) = tail.split_at(e - a);
    assert(mid@ =~= b@.subrange(a as int, e as int));
    mid
}

} // verus!

verus! {

/// Position in `order` of the first site that starts before `key`
/// (`order.len()` when there is none).
pub open spec fn first_smaller(order: Seq<usize>, sites: Seq<LabelMigration>, key: usize) -> int
    decreases order.len(),
{
    if order.len() == 0 {
        0
    } else if sites[order[0] as int].byte_range.start < key {
        0
    } else {
        1 + first_smaller(order.drop_first(), sites, key)
    }
}

/// The indices of the first `n` sites ordered by start, last first; sites
/// with equal starts keep their document order (a stable sort).
pub open spec fn stable_desc(sites: Seq<LabelMigration>, n: int) -> Seq<usize>
    decreases n,
{
    if n <= 0 {
        Seq::empty()
    } else {
        let o = stable_desc(sites, n - 1);
        o.insert(first_smaller(o, sites, sites[n - 1].byte_range.start), (n - 1) as usize)
    }
}

/// Whether a rewrite of `m` can be applied to `s`: its byte range is in
/// order and both ends lie on character boundaries of `s`.
pub open spec fn splice_ok(s: Seq<char>, m: LabelMigration) -> bool {
    m.byte_range.start <= m.byte_range.end && crate::text::is_boundary(s, m.byte_range.start as int)
        && crate::text::is_boundary(s, m.byte_range.end as int)
}

/// `s` with the bytes of `m`'s range replaced by its canonical label.
pub open spec fn splice(s: Seq<char>, m: LabelMigration) -> Seq<char> {
    s.take(crate::text::chars_in_bytes(s, m.byte_range.start as int)) + m.to@
        + s.skip(crate::text::chars_in_bytes(s, m.byte_range.end as int))
}

/// The rewrites of the sites `order` names, applied one after another.
pub open spec fn apply_in_order(s: Seq<char>, sites: Seq<LabelMigration>, order: Seq<usize>) -> Seq<char>
    decreases order.len(),
{
    if order.len() == 0 {
        s
    } else {
        apply_in_order(splice(s, sites[order[0] as int]), sites, order.drop_first())
    }
}

/// Whether every rewrite of `order` applies to the text it meets.
pub open spec fn applies_in_order(s: Seq<char>, sites: Seq<LabelMigration>, order: Seq<usize>) -> bool
    decreases order.len(),
{
    order.len() == 0 || (splice_ok(s, sites[order[0] as int]) && applies_in_order(
        splice(s, sites[order[0] as int]),
        sites,
        order.drop_first(),
    ))
}

/// The stable order names each of the first `n` sites once.
proof fn lemma_stable_desc_indices(sites: Seq<LabelMigration>, n: int)
    requires
        0 <= n <= sites.len(),
    ensures
        stable_desc(sites, n).len() == n,
        forall|k: int| 0 <= k < n ==> (#[trigger] stable_desc(sites, n)[k]) < n,
    decreases n,
{
    if n > 0 {
        let o = stable_desc(sites, n - 1);
        lemma_stable_desc_indices(sites, n - 1);
        let p = first_smaller(o, sites, sites[n - 1].byte_range.start);
        lemma_first_smaller_bounds(o, sites, sites[n - 1].byte_range.start);
        o.insert_ensures(p, (n - 1) as usize);
        assert forall|k: int| 0 <= k < n implies (#[trigger] stable_desc(sites, n)[k]) < n by {
            if k < p {
                assert(o.insert(p, (n - 1) as usize)[k] == o[k]);
            } else if k > p {
                assert(o.insert(p, (n - 1) as usize)[(k - 1) + 1] == o[k - 1]);
            }
        }
    }
}

proof fn lemma_first_smaller_bounds(order: Seq<usize>, sites: Seq<LabelMigration>, key: usize)
    ensures
        0 <= first_smaller(order, sites, key) <= order.len(),
    decreases order.len(),
{
    if order.len() > 0 {
        lemma_first_smaller_bounds(order.drop_first(), sites, key);
    }
}

/// Where a site starting at `key` goes in `order`.
fn insertion_point(order: &Vec<usize>, sites: &[LabelMigration], key: usize) -> (p: usize)
    requires
        forall|k: int| 0 <= k < order@.len() ==> (#[trigger] order@[k]) < sites@.len(),
    ensures
        p == first_smaller(order@, sites@, key),
{
    let mut p: usize = 0;
    assert(order@.skip(0) =~= order@);
    while p < order.len() && sites[order[p]].byte_range.start >= key
        invariant
            p <= order@.len(),
            forall|k: int| 0 <= k < order@.len() ==> (#[trigger] order@[k]) < sites@.len(),
            first_smaller(order@, sites@, key) == p + first_smaller(order@.skip(p as int), sites@, key),
        decreases order@.len() - p,
    {
        assert(order@.skip(p as int)[0] == order@[p as int]);
        assert(order@.skip(p as int).drop_first() =~= order@.skip(p + 1));
        p += 1;
    }
    if p < order.len() {
        assert(order@.skip(p as int)[0] == order@[p as int]);
    }
    p
}

/// `s` with the bytes of `m`'s range replaced by its canonical label.
fn splice_string(s: &str, m: &LabelMigration) -> (r: String)
    requires
        splice_ok(s@, *m),
    ensures
        r@ == splice(s@, *m),
{
    let c = crate::text::chars_of(s);
    let offs = crate::text::char_byte_offsets(s, &c);
    let a = crate::extraction::utilities::char_index_of(&offs, m.byte_range.start, Ghost(c@));
    let b = crate::extraction::utilities::char_index_of(&offs, m.byte_range.end, Ghost(c@));
    proof {
        if a > b {
            crate::text::lemma_widths_increase(c@, b as int, a as int);
        }
    }
    let mut out = crate::text::string_from_chars(crate::text::copy_chars(&c, 0, a).as_slice());
    out.append(m.to);
    let tail = crate::text::string_from_chars(crate::text::copy_chars(&c, b, c.len()).as_slice());
    out.append(tail.as_str());
    proof {
        assert(c@.subrange(0, a as int) =~= c@.take(a as int));
        assert(c@.subrange(b as int, c@.len() as int) =~= c@.skip(b as int));
    }
    out
}

/// Rewrite every migration site of `src` to its canonical label. The sites
/// are applied from the last start to the first (equal starts in document
/// order), so earlier rewrites never shift the offsets of those still to come.
pub fn apply_migrations(src: &str, sites: &[LabelMigration]) -> (r: String)
    requires
        applies_in_order(src@, sites@, stable_desc(sites@, sites@.len() as int)),
    ensures
        r@ == apply_in_order(src@, sites@, stable_desc(sites@, sites@.len() as int)),
{
    if sites.len() == 0 {
        return src.to_owned();
    }
    let mut order: Vec<usize> = Vec::new();
    let mut i: usize = 0;
    while i < sites.len()
        invariant
            i <= sites@.len(),
            order@ == stable_desc(sites@, i as int),
        decreases sites@.len() - i,
    {
        proof {
            lemma_stable_desc_indices(sites@, i as int);
            lemma_first_smaller_bounds(order@, sites@, sites@[i as int].byte_range.start);
        }
        let p = insertion_point(&order, sites, sites[i].byte_range.start);
        order.insert(p, i);
        i += 1;
    }
    proof {
        lemma_stable_desc_indices(sites@, sites@.len() as int);
    }
    let ghost full = order@;
    let mut cur: String = src.to_owned();
    let mut k: usize = 0;
    assert(full.skip(0) =~= full);
    while k < order.len()
        invariant
            order@ == full,
            k <= full.len(),
            full.len() == sites@.len(),
            forall|j: int| 0 <= j < full.len() ==> (#[trigger] full[j]) < sites@.len(),
            apply_in_order(src@, sites@, full) == apply_in_order(cur@, sites@, full.skip(k as int)),
            applies_in_order(cur@, sites@, full.skip(k as int)),
        decreases full.len() - k,
    {
        assert(full.skip(k as int)[0] == full[k as int]);
        assert(full.skip(k as int).drop_first() =~= full.skip(k + 1));
        cur = splice_string(cur.as_str(), &sites[order[k]]);
        k += 1;
    }
    cur
}

} // verus!
