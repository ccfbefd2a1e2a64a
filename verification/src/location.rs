//! Source locations: byte spans with line:column positions, and bounding
//! boxes of several locations.
use vstd::prelude::*;

verus! {

/// A line:column position (both zero-based).
#[derive(Debug, Clone, Copy, PartialEq, Eq, Structural)]
pub struct Position {
    pub line: usize,
    pub column: usize,
}

impl Position {
    /// The position at `line`, `column`.
    pub fn new(line: usize, column: usize) -> (p: Self)
        ensures
            p.line == line,
            p.column == column,
    {
        Position { line, column }
    }
}

/// `a` comes strictly before `b` (by line, then column).
pub open spec fn pos_before(a: Position, b: Position) -> bool {
    a.line < b.line || (a.line == b.line && a.column < b.column)
}

/// Whether `a` comes strictly before `b`.
pub fn position_before(a: Position, b: Position) -> (r: bool)
    ensures
        r == pos_before(a, b),
{
    a.line < b.line || (a.line == b.line && a.column < b.column)
}

/// A location: byte span plus start and end positions.
#[derive(Debug, PartialEq)]
pub struct Range {
    pub span: std::ops::Range<usize>,
    pub start: Position,
    pub end: Position,
}

impl Range {
    /// A location from its parts.
    pub fn new(span: std::ops::Range<usize>, start: Position, end: Position) -> (r: Self)
        ensures
            r.span == span,
            r.start == start,
            r.end == end,
    {
        Range { span, start, end }
    }
}

impl Clone for Range {
    fn clone(&self) -> (r: Self)
        ensures
            r == *self,
    {
        Range {
            span: std::ops::Range { start: self.span.start, end: self.span.end },
            start: self.start,
            end: self.end,
        }
    }
}

/// The empty location at (0,0).
pub open spec fn is_default_location(r: Range) -> bool {
    &&& r.span.start == 0
    &&& r.span.end == 0
    &&& r.start == Position { line: 0, column: 0 }
    &&& r.end == Position { line: 0, column: 0 }
}

impl Default for Range {
    fn default() -> (r: Self)
        ensures
            is_default_location(r),
    {
        default_location()
    }
}

/// Create a default location (0,0)..(0,0), used when no span is known.
pub fn default_location() -> (r: Range)
    ensures
        is_default_location(r),
{
    Range {
        span: std::ops::Range { start: 0, end: 0 },
        start: Position { line: 0, column: 0 },
        end: Position { line: 0, column: 0 },
    }
}

/// `r` bounds all of `locs`: its start is the earliest start position (with
/// the smallest start byte among locations starting there) and its end is the
/// latest end position (with the largest end byte among locations ending there).
pub open spec fn is_bounding_box(locs: Seq<Range>, r: Range) -> bool {
    &&& forall|k: int| 0 <= k < locs.len() ==> !pos_before(#[trigger] locs[k].start, r.start)
    &&& forall|k: int| 0 <= k < locs.len() ==> !pos_before(r.end, #[trigger] locs[k].end)
    &&& exists|k: int| 0 <= k < locs.len() && #[trigger] locs[k].start == r.start && locs[k].span.start == r.span.start
    &&& exists|k: int| 0 <= k < locs.len() && #[trigger] locs[k].end == r.end && locs[k].span.end == r.span.end
    &&& forall|k: int| 0 <= k < locs.len() && #[trigger] locs[k].start == r.start ==> r.span.start <= locs[k].span.start
    &&& forall|k: int| 0 <= k < locs.len() && #[trigger] locs[k].end == r.end ==> locs[k].span.end <= r.span.end
}

/// The bounding box of `locations`; the default location when there are none.
pub fn compute_location_from_locations(locations: &[Range]) -> (r: Range)
    ensures
        locations@.len() == 0 ==> is_default_location(r),
        locations@.len() > 0 ==> is_bounding_box(locations@, r),
{
    if locations.len() == 0 {
        return default_location();
    }
    let first = &locations[0];
    let mut start_pos = first.start;
    let mut start_byte = first.span.start;
    let mut end_pos = first.end;
    let mut end_byte = first.span.end;
    let ghost mut si: int = 0;
    let ghost mut ei: int = 0;
    let mut i: usize = 1;
    while i < locations.len()
        invariant
            1 <= i <= locations@.len(),
            0 <= si < i,
            0 <= ei < i,
            locations@[si].start == start_pos && locations@[si].span.start == start_byte,
            locations@[ei].end == end_pos && locations@[ei].span.end == end_byte,
            forall|k: int| 0 <= k < i ==> !pos_before(#[trigger] locations@[k].start, start_pos),
            forall|k: int| 0 <= k < i ==> !pos_before(end_pos, #[trigger] locations@[k].end),
            forall|k: int| 0 <= k < i && #[trigger] locations@[k].start == start_pos ==> start_byte <= locations@[k].span.start,
            forall|k: int| 0 <= k < i && #[trigger] locations@[k].end == end_pos ==> locations@[k].span.end <= end_byte,
        decreases locations@.len() - i,
    {
        let loc = &locations[i];
        if position_before(loc.start, start_pos) {
            start_pos = loc.start;
            start_byte = loc.span.start;
            proof { si = i as int; }
        } else if loc.start == start_pos {
            if loc.span.start < start_byte {
                start_byte = loc.span.start;
                proof { si = i as int; }
            }
        }
        if position_before(end_pos, loc.end) {
            end_pos = loc.end;
            end_byte = loc.span.end;
            proof { ei = i as int; }
        } else if loc.end == end_pos {
            if loc.span.end > end_byte {
                end_byte = loc.span.end;
                proof { ei = i as int; }
            }
        }
        i += 1;
    }
    let r = Range::new(std::ops::Range { start: start_byte, end: end_byte }, start_pos, end_pos);
    assert(locations@[si].start == r.start);
    assert(locations@[ei].end == r.end);
    r
}

} // verus!
