//! Detection of UTF-8 double-encoding (mojibake) in source text.
//!
//! Text that was UTF-8, misread as cp1252 and re-encoded as UTF-8 shows
//! telltale two-character signatures such as `Ã©` (for `é`) or `â€` (the prefix
//! of mangled smart punctuation). A report is produced only when at least three
//! distinct signatures occur, so isolated accented words never trigger it.
use vstd::prelude::*;
use crate::text::chars_of;

verus! {

/// How many distinct mojibake signatures occur in one input.
#[derive(Debug, Clone, PartialEq, Eq)]
pub struct MojibakeReport {
    /// Number of distinct signatures found (each counted once).
    pub distinct_patterns: usize,
}

/// The two-character signatures of UTF-8 → cp1252 → UTF-8 round trips:
/// `Ã` followed by a Latin-1 trailer, and the smart-punctuation prefix `â€`.
pub open spec fn mojibake_patterns() -> Seq<(char, char)> {
    seq![
        ('\u{C3}', '\u{A9}'),
        ('\u{C3}', '\u{A8}'),
        ('\u{C3}', '\u{AA}'),
        ('\u{C3}', '\u{AB}'),
        ('\u{C3}', '\u{A0}'),
        ('\u{C3}', '\u{A1}'),
        ('\u{C3}', '\u{A2}'),
        ('\u{C3}', '\u{A3}'),
        ('\u{C3}', '\u{A4}'),
        ('\u{C3}', '\u{A5}'),
        ('\u{C3}', '\u{AC}'),
        ('\u{C3}', '\u{AD}'),
        ('\u{C3}', '\u{AE}'),
        ('\u{C3}', '\u{AF}'),
        ('\u{C3}', '\u{B2}'),
        ('\u{C3}', '\u{B3}'),
        ('\u{C3}', '\u{B4}'),
        ('\u{C3}', '\u{B6}'),
        ('\u{C3}', '\u{B9}'),
        ('\u{C3}', '\u{BA}'),
        ('\u{C3}', '\u{BB}'),
        ('\u{C3}', '\u{BC}'),
        ('\u{C3}', '\u{B1}'),
        ('\u{C3}', '\u{A7}'),
        ('\u{C3}', '\u{178}'),
        ('\u{C3}', '\u{20AC}'),
        ('\u{C3}', '\u{81}'),
        ('\u{C3}', '\u{201A}'),
        ('\u{C3}', '\u{192}'),
        ('\u{C3}', '\u{201E}'),
        ('\u{C3}', '\u{2026}'),
        ('\u{C3}', '\u{2030}'),
        ('\u{C3}', '\u{160}'),
        ('\u{C3}', '\u{2039}'),
        ('\u{C3}', '\u{2018}'),
        ('\u{C3}', '\u{201C}'),
        ('\u{C3}', '\u{201D}'),
        ('\u{C3}', '\u{2013}'),
        ('\u{C3}', '\u{161}'),
        ('\u{C3}', '\u{203A}'),
        ('\u{C3}', '\u{153}'),
        ('\u{E2}', '\u{20AC}')
    ]
}

/// The signatures, as a vector.
fn patterns() -> (v: Vec<(char, char)>)
    ensures
        v@ == mojibake_patterns(),
{
    vec![
        ('\u{C3}', '\u{A9}'),
        ('\u{C3}', '\u{A8}'),
        ('\u{C3}', '\u{AA}'),
        ('\u{C3}', '\u{AB}'),
        ('\u{C3}', '\u{A0}'),
        ('\u{C3}', '\u{A1}'),
        ('\u{C3}', '\u{A2}'),
        ('\u{C3}', '\u{A3}'),
        ('\u{C3}', '\u{A4}'),
        ('\u{C3}', '\u{A5}'),
        ('\u{C3}', '\u{AC}'),
        ('\u{C3}', '\u{AD}'),
        ('\u{C3}', '\u{AE}'),
        ('\u{C3}', '\u{AF}'),
        ('\u{C3}', '\u{B2}'),
        ('\u{C3}', '\u{B3}'),
        ('\u{C3}', '\u{B4}'),
        ('\u{C3}', '\u{B6}'),
        ('\u{C3}', '\u{B9}'),
        ('\u{C3}', '\u{BA}'),
        ('\u{C3}', '\u{BB}'),
        ('\u{C3}', '\u{BC}'),
        ('\u{C3}', '\u{B1}'),
        ('\u{C3}', '\u{A7}'),
        ('\u{C3}', '\u{178}'),
        ('\u{C3}', '\u{20AC}'),
        ('\u{C3}', '\u{81}'),
        ('\u{C3}', '\u{201A}'),
        ('\u{C3}', '\u{192}'),
        ('\u{C3}', '\u{201E}'),
        ('\u{C3}', '\u{2026}'),
        ('\u{C3}', '\u{2030}'),
        ('\u{C3}', '\u{160}'),
        ('\u{C3}', '\u{2039}'),
        ('\u{C3}', '\u{2018}'),
        ('\u{C3}', '\u{201C}'),
        ('\u{C3}', '\u{201D}'),
        ('\u{C3}', '\u{2013}'),
        ('\u{C3}', '\u{161}'),
        ('\u{C3}', '\u{203A}'),
        ('\u{C3}', '\u{153}'),
        ('\u{E2}', '\u{20AC}')
    ]
}

/// `s` contains the two characters `a` then `b` next to each other.
pub open spec fn contains_pair(s: Seq<char>, a: char, b: char) -> bool {
    exists|i: int| 0 <= i && i + 1 < s.len() && #[trigger] s[i] == a && s[i + 1] == b
}

/// Number of the first `n` signatures that occur in `s`.
pub open spec fn hits_below(s: Seq<char>, n: int) -> nat
    decreases n,
{
    if n <= 0 {
        0
    } else {
        let p = mojibake_patterns()[n - 1];
        hits_below(s, n - 1) + if contains_pair(s, p.0, p.1) {
            1nat
        } else {
            0nat
        }
    }
}

/// Number of distinct signatures that occur in `s`.
pub open spec fn distinct_hits(s: Seq<char>) -> nat {
    hits_below(s, mojibake_patterns().len() as int)
}

/// Whether `s` contains `a` immediately followed by `b`.
fn has_pair(s: &Vec<char>, a: char, b: char) -> (r: bool)
    ensures
        r == contains_pair(s@, a, b),
{
    let mut i: usize = 0;
    while i < s.len() && s.len() - i > 1
        invariant
            i <= s@.len(),
            forall|j: int| 0 <= j < i && j + 1 < s@.len() ==> !(#[trigger] s@[j] == a && s@[j + 1] == b),
        decreases s@.len() - i,
    {
        if s[i] == a && s[i + 1] == b {
            return true;
        }
        i += 1;
    }
    false
}

/// Scan `input` for mojibake signatures: `Some` report when at least three
/// distinct signatures occur, `None` otherwise.
pub fn detect_mojibake(input: &str) -> (r: Option<MojibakeReport>)
    ensures
        distinct_hits(input@) >= 3 ==> r == Some(
            MojibakeReport { distinct_patterns: distinct_hits(input@) as usize },
        ),
        distinct_hits(input@) < 3 ==> r.is_none(),
{
    let cs = chars_of(input);
    let pats = patterns();
    let mut distinct: usize = 0;
    let mut k: usize = 0;
    while k < pats.len()
        invariant
            pats@ == mojibake_patterns(),
            cs@ == input@,
            k <= pats@.len(),
            distinct == hits_below(cs@, k as int),
            distinct <= k,
        decreases pats@.len() - k,
    {
        let (a, b) = pats[k];
        if has_pair(&cs, a, b) {
            distinct += 1;
        }
        k += 1;
    }
    if distinct >= 3 {
        Some(MojibakeReport { distinct_patterns: distinct })
    } else {
        None
    }
}

} // verus!
