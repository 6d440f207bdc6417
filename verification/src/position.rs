use vstd::prelude::*;

verus! {

/// A coordinate position in the terminal. May be absolute or relative to some
/// buffer's origin. Ordered lexicographically by `(y, x)`: row first, then
/// column. The field order below makes the derived comparison implementations
/// follow that same order.
#[derive(Eq, PartialEq, Structural, PartialOrd, Ord, Copy, Clone, Debug, Hash)]
pub struct Position {
    /// This position's line (row) value, zero-indexed.
    pub y: u16,
    /// This position's column value, zero-indexed.
    pub x: u16,
}

/// The strict `(y, x)` lexicographic order on positions.
pub open spec fn pos_lt(a: Position, b: Position) -> bool {
    a.y < b.y || (a.y == b.y && a.x < b.x)
}

/// The reflexive `(y, x)` lexicographic order on positions.
pub open spec fn pos_le(a: Position, b: Position) -> bool {
    pos_lt(a, b) || a == b
}

/// Saturating addition on 16-bit coordinates.
pub open spec fn sat_add(a: u16, b: u16) -> u16 {
    if a + b > 0xffff {
        0xffff_u16
    } else {
        (a + b) as u16
    }
}

impl Position {
    /// Create a new, immutable position.
    pub fn new(x: u16, y: u16) -> (r: Position)
        ensures
            r.x == x,
            r.y == y,
    {
        Position { y, x }
    }

    /// This position's column value.
    pub fn x(&self) -> (r: u16)
        ensures
            r == self.x,
    {
        self.x
    }

    /// This position's line value.
    pub fn y(&self) -> (r: u16)
        ensures
            r == self.y,
    {
        self.y
    }

    /// This position translated by the specified amount, saturating at the
    /// coordinate space's upper bound.
    pub fn translate(&self, diff_x: u16, diff_y: u16) -> (r: Position)
        ensures
            r.x == sat_add(self.x, diff_x),
            r.y == sat_add(self.y, diff_y),
    {
        let x: u16 = if self.x as u32 + diff_x as u32 > 0xffff {
            0xffff
        } else {
            self.x + diff_x
        };
        let y: u16 = if self.y as u32 + diff_y as u32 > 0xffff {
            0xffff
        } else {
            self.y + diff_y
        };
        Position { y, x }
    }

    /// Compare two positions in the `(y, x)` lexicographic order.
    pub fn is_before(&self, other: &Position) -> (r: bool)
        ensures
            r == pos_lt(*self, *other),
    {
        self.y < other.y || (self.y == other.y && self.x < other.x)
    }
}

/// The `(y, x)` order is total: any two positions are comparable.
pub proof fn lemma_pos_order_total(a: Position, b: Position)
    ensures
        pos_lt(a, b) || pos_lt(b, a) || a == b,
        !(pos_lt(a, b) && pos_lt(b, a)),
{
}

/// The `(y, x)` order is transitive.
pub proof fn lemma_pos_order_transitive(a: Position, b: Position, c: Position)
    ensures
        pos_lt(a, b) && pos_lt(b, c) ==> pos_lt(a, c),
{
}

/// A position in the terminal window's coordinates, absolute with respect to
/// the top-left corner of the viewport.
#[derive(Eq, PartialEq, Structural, Copy, Clone, Debug)]
pub struct AbsolutePosition {
    /// This position's line (row) value, zero-indexed.
    pub row: u16,
    /// This position's column value, zero-indexed.
    pub column: u16,
}

impl AbsolutePosition {
    /// Create a new absolute position from a column and row.
    pub fn new(column: u16, row: u16) -> (r: AbsolutePosition)
        ensures
            r.column == column,
            r.row == row,
    {
        AbsolutePosition { row, column }
    }

    /// Create a new absolute position from a `(column, row)` pair.
    pub fn new_from_tuple(pair: (u16, u16)) -> (r: AbsolutePosition)
        ensures
            r.column == pair.0,
            r.row == pair.1,
    {
        AbsolutePosition { row: pair.1, column: pair.0 }
    }

    /// This position's row value.
    pub fn row(&self) -> (r: u16)
        ensures
            r == self.row,
    {
        self.row
    }

    /// This position's column value.
    pub fn column(&self) -> (r: u16)
        ensures
            r == self.column,
    {
        self.column
    }

    /// This position moved by a signed number of rows, saturating at the
    /// coordinate space's bounds.
    pub fn add_rows(&self, diff: i16) -> (r: AbsolutePosition)
        ensures
            r.column == self.column,
            r.row == sat_add_signed(self.row, diff),
    {
        AbsolutePosition { row: sat_add_signed_exec(self.row, diff), column: self.column }
    }

    /// This position moved by a signed number of columns, saturating at the
    /// coordinate space's bounds.
    pub fn add_columns(&self, diff: i16) -> (r: AbsolutePosition)
        ensures
            r.row == self.row,
            r.column == sat_add_signed(self.column, diff),
    {
        AbsolutePosition { row: self.row, column: sat_add_signed_exec(self.column, diff) }
    }

    /// This position with its column replaced.
    pub fn set_column(&self, column: u16) -> (r: AbsolutePosition)
        ensures
            r.row == self.row,
            r.column == column,
    {
        AbsolutePosition { row: self.row, column }
    }
}

impl Default for AbsolutePosition {
    /// The viewport's origin: row zero, column zero.
    fn default() -> (r: Self)
        ensures
            r.row == 0,
            r.column == 0,
    {
        AbsolutePosition { row: 0, column: 0 }
    }
}

/// Saturating addition of a signed offset to an unsigned 16-bit coordinate.
pub open spec fn sat_add_signed(a: u16, b: i16) -> u16 {
    if a + b > 0xffff {
        0xffff_u16
    } else if a + b < 0 {
        0u16
    } else {
        (a + b) as u16
    }
}

fn sat_add_signed_exec(a: u16, b: i16) -> (r: u16)
    ensures
        r == sat_add_signed(a, b),
{
    let sum: i32 = a as i32 + b as i32;
    if sum > 0xffff {
        0xffff
    } else if sum < 0 {
        0
    } else {
        sum as u16
    }
}

} // verus!
