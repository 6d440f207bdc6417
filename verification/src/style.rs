use vstd::prelude::*;

verus! {

/// Colors to be used for foreground and background text formatting.
///
/// `Reset` is distinct from an absent color: an absent color inherits whatever
/// the terminal currently uses, while `Reset` explicitly reverts to the
/// terminal's default.
#[derive(Debug, Copy, Clone, Eq, PartialEq, Structural)]
pub enum Color {
    Black,
    DarkGrey,
    Red,
    DarkRed,
    Green,
    DarkGreen,
    Yellow,
    DarkYellow,
    Blue,
    DarkBlue,
    Magenta,
    DarkMagenta,
    Cyan,
    DarkCyan,
    White,
    Grey,
    Reset,
}

/// Text formatting styles: optional foreground and background colors plus
/// bold, italic, and underline flags. All mutators return a new value.
#[derive(Debug, Copy, Clone, Eq, PartialEq, Structural)]
pub struct Style {
    /// The foreground color, or `None` to inherit the terminal's current one.
    pub foreground_color: Option<Color>,
    /// The background color, or `None` to inherit the terminal's current one.
    pub background_color: Option<Color>,
    /// Whether text is rendered bold.
    pub is_bold: bool,
    /// Whether text is rendered italic.
    pub is_italic: bool,
    /// Whether text is rendered underlined.
    pub is_underline: bool,
}

/// The style with no colors and all flags off.
pub open spec fn plain_style() -> Style {
    Style {
        foreground_color: None,
        background_color: None,
        is_bold: false,
        is_italic: false,
        is_underline: false,
    }
}

impl Style {
    /// Create a new style with no colors and no styling flags set.
    pub fn new() -> (r: Style)
        ensures
            r == plain_style(),
    {
        Style {
            foreground_color: None,
            background_color: None,
            is_bold: false,
            is_italic: false,
            is_underline: false,
        }
    }

    /// Create a new style with the specified foreground color.
    pub fn set_foreground(&self, color: Color) -> (r: Style)
        ensures
            r == (Style { foreground_color: Some(color), ..*self }),
    {
        Style { foreground_color: Some(color), ..*self }
    }

    /// This style's foreground color, if specified.
    pub fn foreground(&self) -> (r: Option<Color>)
        ensures
            r == self.foreground_color,
    {
        self.foreground_color
    }

    /// Create a new style with the specified background color.
    pub fn set_background(&self, color: Color) -> (r: Style)
        ensures
            r == (Style { background_color: Some(color), ..*self }),
    {
        Style { background_color: Some(color), ..*self }
    }

    /// This style's background color, if specified.
    pub fn background(&self) -> (r: Option<Color>)
        ensures
            r == self.background_color,
    {
        self.background_color
    }

    /// Create a new style with the specified bold value.
    pub fn set_bold(&self, is_bold: bool) -> (r: Style)
        ensures
            r == (Style { is_bold, ..*self }),
    {
        Style { is_bold, ..*self }
    }

    /// Whether this style is bolded.
    pub fn is_bold(&self) -> (r: bool)
        ensures
            r == self.is_bold,
    {
        self.is_bold
    }

    /// Create a new style with the specified italic value.
    pub fn set_italic(&self, is_italic: bool) -> (r: Style)
        ensures
            r == (Style { is_italic, ..*self }),
    {
        Style { is_italic, ..*self }
    }

    /// Whether this style is italicized.
    pub fn is_italic(&self) -> (r: bool)
        ensures
            r == self.is_italic,
    {
        self.is_italic
    }

    /// Create a new style with the specified underline value.
    pub fn set_underline(&self, is_underline: bool) -> (r: Style)
        ensures
            r == (Style { is_underline, ..*self }),
    {
        Style { is_underline, ..*self }
    }

    /// Whether this style is underlined.
    pub fn is_underlined(&self) -> (r: bool)
        ensures
            r == self.is_underline,
    {
        self.is_underline
    }
}

impl Default for Style {
    /// The style with no colors and all flags off.
    fn default() -> (r: Self)
        ensures
            r == plain_style(),
    {
        Style::new()
    }
}

} // verus!
