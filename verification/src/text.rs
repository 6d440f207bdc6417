use vstd::prelude::*;
use crate::format::{Color, Style};
use crate::layout::PartLayout;

verus! {

/// Parameters for rendering text to the terminal including optional metadata
/// like coloring and styling.
#[derive(Debug)]
pub struct TextParameters<'a> {
    /// The text to render.
    pub text: &'a str,
    /// The color to style text with, if any.
    pub color: Option<Color>,
    /// The styles to apply to text.
    pub styles: Vec<Style>,
}

impl<'a> TextParameters<'a> {
    /// Create text parameters with optional coloring or styling.
    pub fn new(text: &'a str, color: Option<Color>, styles: Vec<Style>) -> (r: TextParameters<
        'a,
    >)
        ensures
            r.text@ == text@,
            r.color == color,
            r.styles == styles,
    {
        TextParameters { text, color, styles }
    }

    /// The text to render.
    pub fn text(&self) -> (r: &str)
        ensures
            r@ == self.text@,
    {
        self.text
    }

    /// The color to style text with.
    pub fn color(&self) -> (r: Option<&Color>)
        ensures
            match r {
                Some(c) => self.color == Some(*c),
                None => self.color is None,
            },
    {
        self.color.as_ref()
    }

    /// The styles to apply to text.
    pub fn styles(&self) -> (r: &Vec<Style>)
        ensures
            r == &self.styles,
    {
        &self.styles
    }

    /// Create new parameters with updated render text but the same
    /// formatting.
    pub fn set_text<'b>(&self, new_text: &'b str) -> (r: TextParameters<'b>)
        ensures
            r.text@ == new_text@,
            r.color == self.color,
            r.styles@ == self.styles@,
    {
        TextParameters { text: new_text, color: self.color, styles: copy_styles(&self.styles) }
    }

    /// Determines whether this and another set of parameters have identical
    /// color and styles.
    pub fn has_same_styles(&self, other: &TextParameters) -> (r: bool)
        ensures
            r == (self.color == other.color && self.styles@ == other.styles@),
    {
        let colors_equal = match (self.color, other.color) {
            (Some(a), Some(b)) => a == b,
            (None, None) => true,
            _ => false,
        };
        colors_equal && styles_equal(&self.styles, &other.styles)
    }
}

/// An exact copy of a style list.
pub fn copy_styles(styles: &Vec<Style>) -> (r: Vec<Style>)
    ensures
        r@ == styles@,
{
    let mut r: Vec<Style> = Vec::new();
    let mut i: usize = 0;
    while i < styles.len()
        invariant
            i <= styles@.len(),
            r@ == styles@.take(i as int),
        decreases styles@.len() - i,
    {
        r.push(styles[i]);
        i += 1;
        proof {
            assert(r@ =~= styles@.take(i as int));
        }
    }
    proof {
        assert(styles@.take(styles@.len() as int) =~= styles@);
    }
    r
}

/// Decide whether two style lists are equal.
pub fn styles_equal(a: &Vec<Style>, b: &Vec<Style>) -> (r: bool)
    ensures
        r == (a@ == b@),
{
    if a.len() != b.len() {
        proof {
            assert(a@.len() != b@.len());
        }
        return false;
    }
    let mut i: usize = 0;
    while i < a.len()
        invariant
            i <= a@.len(),
            a@.len() == b@.len(),
            forall|j: int| 0 <= j < i ==> a@[j] == b@[j],
        decreases a@.len() - i,
    {
        if !(a[i] == b[i]) {
            return false;
        }
        i += 1;
    }
    proof {
        assert(a@ =~= b@);
    }
    true
}

/// Rendered text parameters with their final layout.
#[derive(Debug)]
pub struct TextParametersWithLayout<'a> {
    /// The parameters used to render.
    pub parameters: TextParameters<'a>,
    /// The parameters' rendered layout in the terminal.
    pub layout: Vec<PartLayout>,
}

impl<'a> TextParametersWithLayout<'a> {
    /// Create for the specified parameters and their layout.
    pub fn new(parameters: TextParameters<'a>, layout: Vec<PartLayout>) -> (r:
        TextParametersWithLayout<'a>)
        ensures
            r.parameters == parameters,
            r.layout == layout,
    {
        TextParametersWithLayout { parameters, layout }
    }

    /// The parameters used to render.
    pub fn parameters(&self) -> (r: &TextParameters<'a>)
        ensures
            r == &self.parameters,
    {
        &self.parameters
    }

    /// The parameters' rendered layout in the terminal.
    pub fn layout(&self) -> (r: &Vec<PartLayout>)
        ensures
            r == &self.layout,
    {
        &self.layout
    }
}

} // verus!
