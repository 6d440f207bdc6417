use vstd::prelude::*;

verus! {

/// A directional vector with no positional information, used for sizes.
#[derive(Eq, PartialEq, Structural, Copy, Clone, Debug)]
pub struct Vector {
    /// This vector's column extent.
    pub x: u16,
    /// This vector's line extent.
    pub y: u16,
}

impl Vector {
    /// Create a new, immutable vector.
    pub fn new(x: u16, y: u16) -> (r: Vector)
        ensures
            r.x == x,
            r.y == y,
    {
        Vector { x, y }
    }

    /// This vector's column value.
    pub fn x(&self) -> (r: u16)
        ensures
            r == self.x,
    {
        self.x
    }

    /// This vector's line value.
    pub fn y(&self) -> (r: u16)
        ensures
            r == self.y,
    {
        self.y
    }
}

} // verus!
