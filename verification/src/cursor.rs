use vstd::prelude::*;

verus! {

/// A cursor position relative to where this interface was initialized (e.g.
/// `(0, 0)` describes the origin point for this interface rather than the
/// absolute start of the terminal window).
#[derive(Copy, Clone, Eq, PartialEq, Structural, Debug)]
pub struct CursorPosition {
    /// Horizontal position, interface-relative, 0-indexed.
    pub x: u16,
    /// Vertical position, interface-relative, 0-indexed.
    pub y: u16,
}

impl CursorPosition {
    /// Create a new cursor position, interface-relative, 0-indexed.
    pub fn init(x: u16, y: u16) -> (r: CursorPosition)
        ensures
            r.x == x,
            r.y == y,
    {
        CursorPosition { x, y }
    }
}

} // verus!
