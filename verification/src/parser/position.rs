use vstd::prelude::*;

verus! {

/// A place in the source: line, then column, both counted from 1.
#[derive(Debug, PartialEq, Eq, Structural, PartialOrd, Ord, Clone, Copy)]
pub struct Position(pub usize, pub usize);

/// `a` comes no later than `b`: positions are ordered by line, then by column.
pub open spec fn pos_le(a: Position, b: Position) -> bool {
    a.0 < b.0 || (a.0 == b.0 && a.1 <= b.1)
}

/// The earlier of two positions.
pub open spec fn pos_min(a: Position, b: Position) -> Position {
    if pos_le(a, b) { a } else { b }
}

/// The later of two positions.
pub open spec fn pos_max(a: Position, b: Position) -> Position {
    if pos_le(a, b) { b } else { a }
}

pub fn pos_less_eq(a: Position, b: Position) -> (r: bool)
    ensures
        r == pos_le(a, b),
{
    a.0 < b.0 || (a.0 == b.0 && a.1 <= b.1)
}

impl Position {
    /// Add column counter by given number.
    ///
    /// # Returns
    /// It will return legacy position.
    pub fn add_column_by(&mut self, step: usize) -> (legacy: Position)
        requires
            old(self).1 + step <= usize::MAX,
        ensures
            legacy == *old(self),
            *final(self) == Position(old(self).0, (old(self).1 + step) as usize),
    {
        let cache = *self;
        self.1 += step;
        cache
    }

    /// Add line counter by given number and set column counter to 1.
    ///
    /// # Returns
    /// It will return legacy position.
    pub fn add_line_by(&mut self, step: usize) -> (legacy: Position)
        requires
            old(self).0 + step <= usize::MAX,
        ensures
            legacy == *old(self),
            *final(self) == Position((old(self).0 + step) as usize, 1),
    {
        let cache = *self;
        self.0 += step;
        self.1 = 1;
        cache
    }

    /// Subtract column counter by given number.
    ///
    /// # Returns
    /// It will return legacy position.
    pub fn subtract_column_by(&mut self, step: usize) -> (legacy: Position)
        requires
            step <= old(self).1,
        ensures
            legacy == *old(self),
            *final(self) == Position(old(self).0, (old(self).1 - step) as usize),
    {
        let cache = *self;
        self.1 -= step;
        cache
    }

    /// Subtract line counter by given number and set column counter to 1.
    ///
    /// # Returns
    /// It will return legacy position.
    pub fn subtract_line_by(&mut self, step: usize) -> (legacy: Position)
        requires
            step <= old(self).0,
        ensures
            legacy == *old(self),
            *final(self) == Position((old(self).0 - step) as usize, 1),
    {
        let cache = *self;
        self.0 -= step;
        self.1 = 1;
        cache
    }

    /// Move one column to the right.
    pub fn add_column(&mut self)
        requires
            old(self).1 < usize::MAX,
        ensures
            *final(self) == Position(old(self).0, (old(self).1 + 1) as usize),
    {
        self.1 += 1;
    }
}

/// Moving `step` columns right and then `step` columns left comes back to
/// the same position.
pub proof fn law_column_round_trip(p: Position, step: usize)
    requires
        p.1 + step <= usize::MAX,
    ensures
        ({
            let moved = Position(p.0, (p.1 + step) as usize);
            Position(moved.0, (moved.1 - step) as usize) == p
        }),
{
}

/// Moving `step` lines down and then `step` lines up lands on the first
/// column of the starting line.
pub proof fn law_line_round_trip(p: Position, step: usize)
    requires
        p.0 + step <= usize::MAX,
    ensures
        ({
            let moved = Position((p.0 + step) as usize, 1);
            Position((moved.0 - step) as usize, 1) == Position(p.0, 1)
        }),
{
}

/// The order of positions is total: of any two, one comes no later than the other.
pub proof fn law_pos_le_total(a: Position, b: Position)
    ensures
        pos_le(a, b) || pos_le(b, a),
        pos_le(a, b) && pos_le(b, a) ==> a == b,
{
}

impl From<(usize, usize)> for Position {
    fn from(value: (usize, usize)) -> (p: Position) {
        Position(value.0, value.1)
    }
}

impl vstd::std_specs::convert::FromSpecImpl<(usize, usize)> for Position {
    open spec fn obeys_from_spec() -> bool {
        true
    }

    open spec fn from_spec(v: (usize, usize)) -> Position {
        Position(v.0, v.1)
    }
}

} // verus!
