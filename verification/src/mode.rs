use vstd::prelude::*;

verus! {

/// How the cursor should be moved around the terminal.
#[derive(Copy, Clone, Eq, PartialEq, Structural, Debug)]
pub enum CursorMode {
    /// Jogs the cursor with up/down/left/right movements, rather than using
    /// goto-commands.
    Relative,
    /// Positions the cursor by coordinates with goto-commands.
    Absolute,
}

impl Default for CursorMode {
    /// Relative movement is the default.
    fn default() -> (r: Self)
        ensures
            r == CursorMode::Relative,
    {
        CursorMode::Relative
    }
}

/// How the interface should be rendered to the terminal.
#[derive(Copy, Clone, Eq, PartialEq, Structural, Debug)]
pub enum RenderMode {
    /// Appends the interface to the existing buffer content. Attempts to
    /// preserve the existing buffer content, but this may not handle terminal
    /// resizes well.
    Relative,
    /// Assumes full control of the terminal, clearing all existing content in
    /// the viewport.
    Full,
}

impl Default for RenderMode {
    /// Full-screen rendering is the default.
    fn default() -> (r: Self)
        ensures
            r == RenderMode::Full,
    {
        RenderMode::Full
    }
}

} // verus!
