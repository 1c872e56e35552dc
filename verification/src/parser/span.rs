use vstd::prelude::*;

use crate::parser::position::{pos_le, pos_less_eq, pos_max, pos_min, Position};

verus! {

/// Storing positions of a range of code, with the byte offsets it covers.
#[derive(Debug, Clone, Copy)]
pub struct Span {
    pub start: Position,
    pub end: Position,
    pub offsets: (usize, usize),
}

/// The offsets covering `a` and `b`, when `a` does not end before `b`
/// starts.
pub open spec fn joined_offsets(a: (usize, usize), b: (usize, usize)) -> Option<(usize, usize)> {
    if a.1 >= b.0 {
        Some((
            if a.0 <= b.0 { a.0 } else { b.0 },
            if a.1 >= b.1 { a.1 } else { b.1 },
        ))
    } else {
        None
    }
}

impl Span {
    /// Create a span.
    ///
    /// # Panics
    /// Panic if `start` comes after `end`.
    pub fn new(start: Position, end: Position, offsets: (usize, usize)) -> (s: Self)
        requires
            pos_le(start, end),
        ensures
            s == (Span { start, end, offsets }),
    {
        Self { start, end, offsets }
    }

    fn merge_offsets(&self, other: &Self) -> (r: Option<(usize, usize)>)
        ensures
            r == joined_offsets(self.offsets, other.offsets),
    {
        if self.offsets.1 >= other.offsets.0 && self.offsets.1 >= other.offsets.0 {
            Some((
                if self.offsets.0 <= other.offsets.0 { self.offsets.0 } else { other.offsets.0 },
                if self.offsets.1 >= other.offsets.1 { self.offsets.1 } else { other.offsets.1 },
            ))
        } else {
            None
        }
    }

    /// Combine two span.
    ///
    /// # Returns
    /// The span from the earlier start to the later end, when `self` does not
    /// end before `other` starts; `None` otherwise.
    pub fn combine(&mut self, other: &Self) -> (r: Option<Self>)
        ensures
            *final(self) == *old(self),
            r == (match joined_offsets(old(self).offsets, other.offsets) {
                Some(offsets) => Some(
                    Span {
                        start: pos_min(old(self).start, other.start),
                        end: pos_max(old(self).end, other.end),
                        offsets,
                    },
                ),
                None => None,
            }),
    {
        let new_offsets = self.merge_offsets(other);
        match new_offsets {
            Some(offsets) => {
                let start = if pos_less_eq(self.start, other.start) {
                    self.start
                } else {
                    other.start
                };
                let end = if pos_less_eq(self.end, other.end) {
                    other.end
                } else {
                    self.end
                };
                Some(Self { start, end, offsets })
            },
            None => None,
        }
    }
}

/// When two spans combine, the result runs from the earlier start to the
/// later end and its offsets cover the offsets of both.
pub proof fn law_joined_covers(a: Span, b: Span)
    requires
        joined_offsets(a.offsets, b.offsets) is Some,
    ensures
        ({
            let o = joined_offsets(a.offsets, b.offsets)->Some_0;
            &&& o.0 <= a.offsets.0 && o.0 <= b.offsets.0
            &&& a.offsets.1 <= o.1 && b.offsets.1 <= o.1
            &&& pos_le(pos_min(a.start, b.start), a.start)
            &&& pos_le(pos_min(a.start, b.start), b.start)
            &&& pos_le(a.end, pos_max(a.end, b.end))
            &&& pos_le(b.end, pos_max(a.end, b.end))
        }),
{
}

} // verus!
