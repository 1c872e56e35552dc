use vstd::prelude::*;

use crate::parser::position::{pos_le, pos_less_eq, pos_max, pos_min, Position};

verus! {

/// Storing positions of a range of code.
///
/// The offsets count characters and form a half-open interval.
#[derive(Debug, Clone, Copy, PartialEq, Eq)]
pub struct Span {
    pub start: Position,
    pub end: Position,
    pub offset: (usize, usize),
}

/// The start comes no later than the end, and the offsets are ordered.
pub open spec fn span_wf(s: Span) -> bool {
    pos_le(s.start, s.end) && s.offset.0 <= s.offset.1
}

/// The offsets covering both intervals, when they share an area: each
/// half-open interval reaches strictly past the start of the other.
pub open spec fn merged_offsets(a: (usize, usize), b: (usize, usize)) -> Option<(usize, usize)> {
    if a.1 > b.0 && b.1 > a.0 {
        Some((
            if a.0 <= b.0 { a.0 } else { b.0 },
            if a.1 >= b.1 { a.1 } else { b.1 },
        ))
    } else {
        None
    }
}

/// The span covering `a` and `b`, when their offsets share an area.
pub open spec fn combined(a: Span, b: Span) -> Option<Span> {
    match merged_offsets(a.offset, b.offset) {
        Some(offset) => Some(
            Span { start: pos_min(a.start, b.start), end: pos_max(a.end, b.end), offset },
        ),
        None => None,
    }
}

impl Span {
    /// Create a span.
    pub fn new(start: Position, end: Position, offset: (usize, usize)) -> (s: Self)
        requires
            pos_le(start, end),
            offset.0 <= offset.1,
        ensures
            s == (Span { start, end, offset }),
    {
        Self { start, end, offset }
    }

    /// Merge two span.
    ///
    /// # Returns
    /// If two span have intersection area, a set of offsets will be returned, otherwise a None will be returned.
    fn merge_offset(&self, other: &Self) -> (r: Option<(usize, usize)>)
        ensures
            r == merged_offsets(self.offset, other.offset),
    {
        if self.offset.1 > other.offset.0 && other.offset.1 > self.offset.0 {
            Some((
                if self.offset.0 <= other.offset.0 { self.offset.0 } else { other.offset.0 },
                if self.offset.1 >= other.offset.1 { self.offset.1 } else { other.offset.1 },
            ))
        } else {
            None
        }
    }

    /// Check if two span are at the same line.
    pub fn is_same_line(&self, other: &Self) -> (r: bool)
        ensures
            r == (self.end.0 == other.end.0),
    {
        self.end.0 == other.end.0
    }

    /// Combine two span.
    ///
    /// # If two span have intersection area, a new span will be returned, otherwise a None will be returned.
    pub fn combine(&self, other: &Self) -> (r: Option<Self>)
        ensures
            r == combined(*self, *other),
    {
        let new_offset = self.merge_offset(other);
        match new_offset {
            Some(offset) => {
                let start = if pos_less_eq(self.start, other.start) {
                    self.start
                } else {
                    other.start
                };
                let end = if pos_less_eq(self.end, other.end) {
                    other.end
                } else {
                    self.end
                };
                Some(Self { start, end, offset })
            },
            None => None,
        }
    }
}

/// Combining is symmetric: the order of the two spans does not matter.
pub proof fn law_combine_commutes(a: Span, b: Span)
    ensures
        combined(a, b) == combined(b, a),
{
}

/// A combined span covers both spans, and is well formed when both are.
pub proof fn law_combine_covers(a: Span, b: Span)
    requires
        combined(a, b) is Some,
    ensures
        ({
            let c = combined(a, b)->Some_0;
            &&& pos_le(c.start, a.start) && pos_le(c.start, b.start)
            &&& pos_le(a.end, c.end) && pos_le(b.end, c.end)
            &&& c.offset.0 <= a.offset.0 && c.offset.0 <= b.offset.0
            &&& a.offset.1 <= c.offset.1 && b.offset.1 <= c.offset.1
            &&& (span_wf(a) && span_wf(b) ==> span_wf(c))
        }),
{
}

/// Two spans whose offsets share no area, the first ending where or before
/// the second starts, cannot be combined.
pub proof fn law_combine_disjoint(a: Span, b: Span)
    requires
        a.offset.1 <= b.offset.0,
    ensures
        combined(a, b) is None,
{
}

} // verus!
