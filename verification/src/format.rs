use vstd::prelude::*;

verus! {

/// A color to be applied to text foreground or background in a rendered
/// segment.
#[derive(Debug, Copy, Clone, Eq, PartialEq, Structural)]
pub enum Color {
    Black,
    Red,
    Green,
    Yellow,
    Blue,
    Magenta,
    Cyan,
    White,
}

/// Styling to be applied to text in a rendered segment.
#[derive(Debug, Copy, Clone, Eq, PartialEq, Structural)]
pub enum Style {
    Bold,
    Italic,
    Underline,
}

} // verus!
