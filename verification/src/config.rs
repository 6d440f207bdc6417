use vstd::prelude::*;
use crate::mode::{CursorMode, RenderMode};

verus! {

/// Options for an interface's behavior: how the cursor is moved and how the
/// viewport is rendered.
#[derive(Copy, Clone, Eq, PartialEq, Structural, Debug)]
pub struct Configuration {
    /// How the cursor is moved in the terminal.
    pub cursor_mode: CursorMode,
    /// How the terminal handles rendering content.
    pub render_mode: RenderMode,
}

impl Configuration {
    /// Create a new, immutable configuration.
    pub fn new(cursor_mode: CursorMode, render_mode: RenderMode) -> (r: Self)
        ensures
            r.cursor_mode == cursor_mode,
            r.render_mode == render_mode,
    {
        Configuration { cursor_mode, render_mode }
    }

    /// This configuration's cursor movement mode.
    pub fn cursor_mode(&self) -> (r: CursorMode)
        ensures
            r == self.cursor_mode,
    {
        self.cursor_mode
    }

    /// This configuration's terminal rendering mode.
    pub fn render_mode(&self) -> (r: RenderMode)
        ensures
            r == self.render_mode,
    {
        self.render_mode
    }
}

impl Default for Configuration {
    /// The default modes: relative cursor movement, full-screen rendering.
    fn default() -> (r: Self)
        ensures
            r.cursor_mode == CursorMode::Relative,
            r.render_mode == RenderMode::Full,
    {
        Configuration { cursor_mode: CursorMode::Relative, render_mode: RenderMode::Full }
    }
}

} // verus!
