use vstd::prelude::*;
use crate::format::{Color, Style};
use crate::text::{copy_styles, TextParameters};

verus! {

/// A unique segment identifier.
#[derive(Debug, Eq, PartialEq, Structural, Hash, Clone, Copy)]
pub struct SegmentId(pub usize);

impl SegmentId {
    /// Create a segment identifier from its provisioned value. Identifier
    /// values are provisioned by the owning line, monotonically.
    pub fn new(value: usize) -> (r: Self)
        ensures
            r == SegmentId(value),
    {
        SegmentId(value)
    }
}

/// The segment's text and formatting.
#[derive(Debug)]
pub struct SegmentState {
    /// This segment's text. If unspecified, the segment is not rendered.
    pub text: Option<String>,
    /// This segment's optional foreground color.
    pub color: Option<Color>,
    /// This segment's optional formats.
    pub styles: Vec<Style>,
}

/// The mathematical value of a [`SegmentState`].
pub ghost struct SegmentStateV {
    /// The text's characters, if text was set.
    pub text: Option<Seq<char>>,
    /// The optional foreground color.
    pub color: Option<Color>,
    /// The applied formats, in order.
    pub styles: Seq<Style>,
}

impl View for SegmentState {
    type V = SegmentStateV;

    open spec fn view(&self) -> SegmentStateV {
        SegmentStateV {
            text: match self.text {
                Some(t) => Some(t@),
                None => None,
            },
            color: self.color,
            styles: self.styles@,
        }
    }
}

/// An empty state with no text, color, or styles.
pub open spec fn empty_segment_state() -> SegmentStateV {
    SegmentStateV { text: None, color: None, styles: Seq::empty() }
}

impl SegmentState {
    /// An empty state with no text, color, or styles.
    pub fn empty() -> (r: SegmentState)
        ensures
            r@ == empty_segment_state(),
    {
        let r = SegmentState { text: None, color: None, styles: Vec::new() };
        proof {
            assert(r@.styles =~= Seq::<Style>::empty());
        }
        r
    }

    /// An exact copy of this state.
    pub fn duplicate(&self) -> (r: SegmentState)
        ensures
            r@ == self@,
    {
        SegmentState {
            text: match &self.text {
                Some(t) => Some(t.clone()),
                None => None,
            },
            color: self.color,
            styles: copy_styles(&self.styles),
        }
    }
}

impl Default for SegmentState {
    /// An empty state with no text, color, or styles.
    fn default() -> (r: Self)
        ensures
            r@ == empty_segment_state(),
    {
        SegmentState::empty()
    }
}

/// The mathematical value of a [`Segment`].
pub ghost struct SegmentV {
    /// The segment's immutable identifier.
    pub identifier: SegmentId,
    /// The currently-rendered state.
    pub current: SegmentStateV,
    /// The staged state, if this segment has uncommitted changes.
    pub alternate: Option<SegmentStateV>,
}

/// The most recent state of a segment: the staged alternate if one exists,
/// the current state otherwise.
pub open spec fn segment_latest(v: SegmentV) -> SegmentStateV {
    match v.alternate {
        Some(a) => a,
        None => v.current,
    }
}

/// A segment of text which may have formatting. Accumulates changes until
/// applied by its parent `Line`. May be obtained from the `Line` API.
#[derive(Debug)]
pub struct Segment {
    identifier: SegmentId,
    current: SegmentState,
    alternate: Option<SegmentState>,
}

impl View for Segment {
    type V = SegmentV;

    closed spec fn view(&self) -> SegmentV {
        SegmentV {
            identifier: self.identifier,
            current: self.current@,
            alternate: match self.alternate {
                Some(ref a) => Some(a@),
                None => None,
            },
        }
    }
}

impl Segment {
    /// Create a new segment with no content or formatting, under the given
    /// provisioned identifier.
    pub fn new(identifier: SegmentId) -> (r: Segment)
        ensures
            r@ == (SegmentV {
                identifier,
                current: empty_segment_state(),
                alternate: None,
            }),
    {
        Segment { identifier, current: SegmentState::empty(), alternate: None }
    }

    /// Create an exact clone of this segment and its states.
    pub fn clone(&self) -> (r: Segment)
        ensures
            r@ == self@,
    {
        Segment {
            identifier: self.identifier,
            current: self.current.duplicate(),
            alternate: match &self.alternate {
                Some(a) => Some(a.duplicate()),
                None => None,
            },
        }
    }

    /// This segment's unique identifier.
    pub fn identifier(&self) -> (r: SegmentId)
        ensures
            r == self@.identifier,
    {
        self.identifier
    }

    /// This segment's text. Reflects the latest state, even if staged
    /// changes have not yet been applied to the interface.
    pub fn text(&self) -> (r: Option<&String>)
        ensures
            match r {
                Some(t) => segment_latest(self@).text == Some(t@),
                None => segment_latest(self@).text is None,
            },
    {
        let latest_state = self.get_latest_state();
        latest_state.text.as_ref()
    }

    /// This segment's color. Reflects the latest state, even if staged
    /// changes have not yet been applied to the interface.
    pub fn color(&self) -> (r: Option<&Color>)
        ensures
            match r {
                Some(c) => segment_latest(self@).color == Some(*c),
                None => segment_latest(self@).color is None,
            },
    {
        let latest_state = self.get_latest_state();
        latest_state.color.as_ref()
    }

    /// This segment's styles. Reflects the latest state, even if staged
    /// changes have not yet been applied to the interface.
    pub fn styles(&self) -> (r: &Vec<Style>)
        ensures
            r@ == segment_latest(self@).styles,
    {
        let latest_state = self.get_latest_state();
        &latest_state.styles
    }

    /// Update this segment's text. The new text will be staged until applied.
    pub fn set_text(&mut self, text: &str)
        ensures
            final(self)@ == (SegmentV {
                alternate: Some(
                    SegmentStateV { text: Some(text@), ..segment_latest(old(self)@) },
                ),
                ..old(self)@
            }),
    {
        let alternate = self.get_alternate_mut();
        alternate.text = Some(text.to_owned());
    }

    /// Update this segment's color. The new color is staged until applied.
    pub fn set_color(&mut self, color: Color)
        ensures
            final(self)@ == (SegmentV {
                alternate: Some(
                    SegmentStateV { color: Some(color), ..segment_latest(old(self)@) },
                ),
                ..old(self)@
            }),
    {
        let alternate = self.get_alternate_mut();
        alternate.color = Some(color);
    }

    /// Clear this segment's color. The reset is staged until applied.
    pub fn reset_color(&mut self)
        ensures
            final(self)@ == (SegmentV {
                alternate: Some(SegmentStateV { color: None, ..segment_latest(old(self)@) }),
                ..old(self)@
            }),
    {
        let alternate = self.get_alternate_mut();
        alternate.color = None;
    }

    /// Update this segment's styles. The new styles are staged until applied.
    pub fn set_styles(&mut self, styles: Vec<Style>)
        ensures
            final(self)@ == (SegmentV {
                alternate: Some(
                    SegmentStateV { styles: styles@, ..segment_latest(old(self)@) },
                ),
                ..old(self)@
            }),
    {
        let alternate = self.get_alternate_mut();
        alternate.styles = styles;
    }

    /// Clear this segment's styles. The reset is staged until applied.
    pub fn reset_styles(&mut self)
        ensures
            final(self)@ == (SegmentV {
                alternate: Some(
                    SegmentStateV {
                        styles: Seq::<Style>::empty(),
                        ..segment_latest(old(self)@)
                    },
                ),
                ..old(self)@
            }),
    {
        let alternate = self.get_alternate_mut();
        alternate.styles = Vec::new();
        proof {
            assert(self.alternate.unwrap()@.styles =~= Seq::<Style>::empty());
        }
    }

    /// Whether this segment has any staged changes.
    pub fn has_changes(&self) -> (r: bool)
        ensures
            r == (self@.alternate is Some),
    {
        self.alternate.is_some()
    }

    /// Retrieves render parameters for the current state, if it has text.
    pub fn get_current_parameters(&self) -> (r: Option<TextParameters>)
        ensures
            match r {
                Some(p) => {
                    &&& self@.current.text == Some(p.text@)
                    &&& p.color == self@.current.color
                    &&& p.styles@ == self@.current.styles
                },
                None => self@.current.text is None,
            },
    {
        match &self.current.text {
            Some(text) => Some(
                TextParameters::new(text.as_str(), self.current.color, copy_styles(
                    &self.current.styles,
                )),
            ),
            None => None,
        }
    }

    /// Given an optional previous state, extracts as many render parameters
    /// as possible.
    pub fn get_previous_parameters<'a>(&self, previous_state: Option<&'a SegmentState>) -> (r:
        Option<TextParameters<'a>>)
        ensures
            match r {
                Some(p) => {
                    &&& previous_state matches Some(s)
                    &&& s@.text == Some(p.text@)
                    &&& p.color == s@.color
                    &&& p.styles@ == s@.styles
                },
                None => match previous_state {
                    Some(s) => s@.text is None,
                    None => true,
                },
            },
    {
        match previous_state {
            Some(state) => match &state.text {
                Some(text) => Some(
                    TextParameters::new(text.as_str(), state.color, copy_styles(&state.styles)),
                ),
                None => None,
            },
            None => None,
        }
    }

    /// Get a mutable reference to this segment's alternate state, creating
    /// it and dirtying the segment if necessary.
    pub fn get_alternate_mut(&mut self) -> (r: &mut SegmentState)
        ensures
            (*r)@ == segment_latest(old(self)@),
            final(self)@ == (SegmentV {
                alternate: Some(final(r)@),
                ..old(self)@
            }),
    {
        match &self.alternate {
            Some(_) => {},
            None => {
                self.alternate = Some(self.current.duplicate());
            },
        }
        match &mut self.alternate {
            Some(a) => a,
            None => {
                proof {
                    assert(false);
                }
                &mut self.current
            },
        }
    }

    /// Get a reference to the most-recent state, whether current or staged
    /// alternate.
    pub fn get_latest_state(&self) -> (r: &SegmentState)
        ensures
            r@ == segment_latest(self@),
    {
        match &self.alternate {
            Some(state) => state,
            None => &self.current,
        }
    }

    /// Swaps this segment's alternate state out for its current and returns
    /// the previous-current state. This segment must have an alternate for
    /// this to be called.
    pub fn swap_alternate(&mut self) -> (r: SegmentState)
        requires
            old(self)@.alternate is Some,
        ensures
            r@ == old(self)@.current,
            final(self)@ == (SegmentV {
                current: old(self)@.alternate.unwrap(),
                alternate: None,
                ..old(self)@
            }),
    {
        let taken = self.alternate.take();
        match taken {
            Some(mut alternate) => {
                core::mem::swap(&mut self.current, &mut alternate);
                alternate
            },
            None => {
                proof {
                    assert(false);
                }
                SegmentState::empty()
            },
        }
    }
}

} // verus!
