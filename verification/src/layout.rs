use vstd::prelude::*;
use crate::line::LineId;
use crate::position::{sat_add_signed, AbsolutePosition};
use crate::segment::SegmentId;

verus! {

/// A position within rendered content: a grapheme index into a segment of a
/// line, both named by identifier.
#[derive(Debug, Copy, Clone, Eq, PartialEq, Structural)]
pub struct RelativePosition {
    /// The identifier of the line this position lies in.
    pub line_id: LineId,
    /// The identifier of the segment this position lies in.
    pub segment_id: SegmentId,
    /// The grapheme index within the segment.
    pub position: u16,
}

impl RelativePosition {
    /// Create a new relative position.
    pub fn new(line_id: LineId, segment_id: SegmentId, position: u16) -> (r: Self)
        ensures
            r == (RelativePosition { line_id, segment_id, position }),
    {
        RelativePosition { line_id, segment_id, position }
    }

    /// The identifier of the line this position lies in.
    pub fn line_id(&self) -> (r: LineId)
        ensures
            r == self.line_id,
    {
        self.line_id
    }

    /// The identifier of the segment this position lies in.
    pub fn segment_id(&self) -> (r: SegmentId)
        ensures
            r == self.segment_id,
    {
        self.segment_id
    }

    /// The grapheme index within the segment.
    pub fn position(&self) -> (r: u16)
        ensures
            r == self.position,
    {
        self.position
    }
}

/// The sum of the first `n` entries of `ws` (all of them if fewer).
pub open spec fn widths_sum(ws: Seq<usize>, n: int) -> int
    decreases n,
{
    if n <= 0 || ws.len() == 0 {
        0
    } else if n > ws.len() {
        widths_sum(ws, ws.len() as int)
    } else {
        widths_sum(ws, n - 1) + ws[n - 1]
    }
}

proof fn lemma_widths_sum_mono(ws: Seq<usize>, a: int, b: int)
    requires
        a <= b,
    ensures
        widths_sum(ws, a) <= widths_sum(ws, b),
    decreases b,
{
    if b > 0 && a < b && ws.len() > 0 {
        lemma_widths_sum_mono(ws, a, b - 1);
    }
}

/// A part of a segment's layout once arranged on the screen: the segment
/// text's substring from grapheme indices `start` to `end`, inclusive and
/// exclusive respectively, starting on screen at `position`, with the given
/// per-cluster display widths.
#[derive(Debug, Clone, Eq, PartialEq)]
pub struct PartLayout {
    /// The position on screen where this part begins.
    pub position: AbsolutePosition,
    /// The inclusive start index of the covered substring.
    pub start: usize,
    /// The exclusive end index of the covered substring.
    pub end: usize,
    /// The per-cluster display widths.
    pub widths: Vec<usize>,
}

/// The mathematical value of a [`PartLayout`].
pub ghost struct PartLayoutV {
    /// The position on screen where the part begins.
    pub position: AbsolutePosition,
    /// The inclusive start index of the covered substring.
    pub start: int,
    /// The exclusive end index of the covered substring.
    pub end: int,
    /// The per-cluster display widths.
    pub widths: Seq<usize>,
}

impl View for PartLayout {
    type V = PartLayoutV;

    open spec fn view(&self) -> PartLayoutV {
        PartLayoutV {
            position: self.position,
            start: self.start as int,
            end: self.end as int,
            widths: self.widths@,
        }
    }
}

/// Whether a part is internally consistent: its range is ordered and its
/// widths sum small enough to fit a signed 16-bit column offset.
pub open spec fn part_wf(p: PartLayout) -> bool {
    &&& p.start <= p.end
    &&& widths_sum(p.widths@, p.widths@.len() as int) <= 0x7fff
}

/// Where grapheme `index` of a part lies on screen, when it falls in the
/// part's range: the part's origin shifted right by the widths of the
/// preceding clusters.
pub open spec fn part_position_at(p: PartLayout, index: int) -> Option<AbsolutePosition> {
    if p.start <= index <= p.end {
        Some(
            AbsolutePosition {
                row: p.position.row,
                column: sat_add_signed(
                    p.position.column,
                    widths_sum(p.widths@, index - p.start) as i16,
                ),
            },
        )
    } else {
        None
    }
}

impl PartLayout {
    /// Create part of a segment's layout.
    pub fn new(position: AbsolutePosition, start: usize, end: usize, widths: Vec<usize>) -> (r:
        Self)
        ensures
            r.position == position,
            r.start == start,
            r.end == end,
            r.widths == widths,
    {
        Self { position, start, end, widths }
    }

    /// The position on screen where this part of the segment begins.
    pub fn position(&self) -> (r: AbsolutePosition)
        ensures
            r == self.position,
    {
        self.position
    }

    /// The inclusive start index of the segment text substring included in
    /// this part of the layout.
    pub fn start(&self) -> (r: usize)
        ensures
            r == self.start,
    {
        self.start
    }

    /// The exclusive end index of the segment text substring included in this
    /// part of the layout.
    pub fn end(&self) -> (r: usize)
        ensures
            r == self.end,
    {
        self.end
    }

    /// The grapheme cluster widths for this part of the layout.
    pub fn widths(&self) -> (r: &Vec<usize>)
        ensures
            r == &self.widths,
    {
        &self.widths
    }

    /// The grapheme length of this part.
    pub fn length(&self) -> (r: usize)
        requires
            self.start <= self.end,
        ensures
            r == self.end - self.start,
    {
        self.end - self.start
    }

    /// Compute the position of a specific index in this layout.
    pub fn get_position(&self, index: usize) -> (r: Option<AbsolutePosition>)
        requires
            part_wf(*self),
        ensures
            r == part_position_at(*self, index as int),
    {
        if index >= self.start && index <= self.end {
            let count = if index - self.start < self.widths.len() {
                index - self.start
            } else {
                self.widths.len()
            };
            let mut sum: usize = 0;
            let mut i: usize = 0;
            proof {
                lemma_widths_sum_mono(self.widths@, 0, self.widths@.len() as int);
            }
            while i < count
                invariant
                    i <= count,
                    count <= self.widths@.len(),
                    sum == widths_sum(self.widths@, i as int),
                    widths_sum(self.widths@, self.widths@.len() as int) <= 0x7fff,
                decreases count - i,
            {
                proof {
                    lemma_widths_sum_mono(self.widths@, i + 1, self.widths@.len() as int);
                }
                sum = sum + self.widths[i];
                i += 1;
            }
            proof {
                if index - self.start >= self.widths@.len() {
                    assert(widths_sum(self.widths@, index - self.start) == widths_sum(
                        self.widths@,
                        self.widths@.len() as int,
                    ));
                }
                lemma_widths_sum_mono(self.widths@, 0, count as int);
            }
            Some(self.position.add_columns(sum as i16))
        } else {
            None
        }
    }

    /// The exclusive position on screen where this part of the segment ends.
    pub fn end_position(&self) -> (r: AbsolutePosition)
        requires
            part_wf(*self),
        ensures
            Some(r) == part_position_at(*self, self.end as int),
    {
        let r = self.get_position(self.end);
        match r {
            Some(p) => p,
            None => {
                proof {
                    assert(false);
                }
                AbsolutePosition::new(0, 0)
            },
        }
    }
}

/// Whether every part of a segment layout is internally consistent.
pub open spec fn segment_layout_wf(s: SegmentLayout) -> bool {
    forall|i: int| 0 <= i < s.parts@.len() ==> part_wf(#[trigger] s.parts@[i])
}

/// The exclusive position where a segment layout ends: its last part's end,
/// or `None` for a partless layout.
pub open spec fn segment_end_position(s: SegmentLayout) -> Option<AbsolutePosition> {
    if s.parts@.len() == 0 {
        None
    } else {
        part_position_at(s.parts@.last(), s.parts@.last().end as int)
    }
}

/// The first part (from `k` onward) that contains grapheme `index`, per the
/// search order used by [`SegmentLayout::get_absolute_position`].
pub open spec fn find_part_position(parts: Seq<PartLayout>, index: int, k: int) -> Option<
    AbsolutePosition,
>
    decreases parts.len() - k,
{
    if k < 0 || k >= parts.len() {
        None
    } else if parts[k].end > index || (parts[k].end == index && k + 1 == parts.len()) {
        part_position_at(parts[k], index)
    } else {
        find_part_position(parts, index, k + 1)
    }
}

/// A rendered segment's layout once arranged on the screen.
#[derive(Debug, Clone, Eq, PartialEq)]
pub struct SegmentLayout {
    /// The segment this layout belongs to, if attributed.
    pub segment_id: Option<SegmentId>,
    /// The rendered parts, one per occupied terminal row.
    pub parts: Vec<PartLayout>,
}

impl SegmentLayout {
    /// A layout from the specified parts.
    pub fn new(segment_id: SegmentId, parts: Vec<PartLayout>) -> (r: Self)
        ensures
            r.segment_id == Some(segment_id),
            r.parts == parts,
    {
        Self { segment_id: Some(segment_id), parts }
    }

    /// This layout's segment identifier.
    pub fn segment_id(&self) -> (r: Option<SegmentId>)
        ensures
            r == self.segment_id,
    {
        self.segment_id
    }

    /// This layout's constituent parts.
    pub fn parts(&self) -> (r: &Vec<PartLayout>)
        ensures
            r == &self.parts,
    {
        &self.parts
    }

    /// The total number of additional rendered terminal lines in this layout
    /// caused by wrapping.
    pub fn wrapped_line_count(&self) -> (r: u16)
        requires
            self.parts@.len() <= 0x10000,
        ensures
            r == (if self.parts@.len() == 0 {
                0int
            } else {
                self.parts@.len() - 1
            }),
    {
        if self.parts.len() == 0 {
            0
        } else {
            (self.parts.len() - 1) as u16
        }
    }

    /// The exclusive position on screen where this segment ends.
    pub fn end_position(&self) -> (r: Option<AbsolutePosition>)
        requires
            segment_layout_wf(*self),
        ensures
            r == segment_end_position(*self),
    {
        if self.parts.len() == 0 {
            None
        } else {
            Some(self.parts[self.parts.len() - 1].end_position())
        }
    }

    /// Computes the absolute position of the specified grapheme.
    pub fn get_absolute_position(&self, grapheme_index: usize) -> (r: Option<AbsolutePosition>)
        requires
            segment_layout_wf(*self),
        ensures
            r == find_part_position(self.parts@, grapheme_index as int, 0),
    {
        self.find_part_from(grapheme_index, 0)
    }

    /// Search the parts from `k` onward for the one containing the grapheme.
    fn find_part_from(&self, grapheme_index: usize, k: usize) -> (r: Option<AbsolutePosition>)
        requires
            segment_layout_wf(*self),
        ensures
            r == find_part_position(self.parts@, grapheme_index as int, k as int),
        decreases self.parts@.len() - k,
    {
        if k >= self.parts.len() {
            None
        } else {
            let part = &self.parts[k];
            if part.end() > grapheme_index || (part.end() == grapheme_index && k + 1
                == self.parts.len()) {
                part.get_position(grapheme_index)
            } else {
                self.find_part_from(grapheme_index, k + 1)
            }
        }
    }
}

impl Default for SegmentLayout {
    /// A default empty layout, attributed to no segment.
    fn default() -> (r: Self)
        ensures
            r.segment_id is None,
            r.parts@.len() == 0,
    {
        Self { segment_id: None, parts: Vec::new() }
    }
}

/// Whether every segment of a line layout is internally consistent.
pub open spec fn line_layout_wf(l: LineLayout) -> bool {
    forall|i: int| 0 <= i < l.segments@.len() ==> segment_layout_wf(#[trigger] l.segments@[i])
}

/// The number of rendered terminal lines a line layout occupies: one plus
/// the wrapping overflow of its segments, or none at all when empty.
pub open spec fn line_wrapped_count(l: LineLayout) -> int {
    if l.segments@.len() == 0 {
        0
    } else {
        segments_wrapped_sum(l.segments@, l.segments@.len() as int) + 1
    }
}

/// The summed wrapping overflow of the first `n` segment layouts.
pub open spec fn segments_wrapped_sum(segs: Seq<SegmentLayout>, n: int) -> int
    decreases n,
{
    if n <= 0 {
        0
    } else {
        segments_wrapped_sum(segs, n - 1) + (if segs[n - 1].parts@.len() == 0 {
            0int
        } else {
            segs[n - 1].parts@.len() - 1
        })
    }
}

/// The end position of the last segment (searching backward from `k`
/// exclusive) that has any parts.
pub open spec fn last_segment_end(segs: Seq<SegmentLayout>, k: int) -> Option<AbsolutePosition>
    decreases k,
{
    if k <= 0 {
        None
    } else if segs[k - 1].parts@.len() > 0 {
        segment_end_position(segs[k - 1])
    } else {
        last_segment_end(segs, k - 1)
    }
}

/// The first segment (from `k` onward) bearing the identifier, if any.
pub open spec fn find_segment(segs: Seq<SegmentLayout>, id: SegmentId, k: int) -> Option<int>
    decreases segs.len() - k,
{
    if k < 0 || k >= segs.len() {
        None
    } else if segs[k].segment_id == Some(id) {
        Some(k)
    } else {
        find_segment(segs, id, k + 1)
    }
}

/// A rendered line's layout once arranged on the screen.
#[derive(Debug, Clone, Eq, PartialEq)]
pub struct LineLayout {
    /// The line this layout belongs to, if attributed.
    pub line_id: Option<LineId>,
    /// The layouts of this line's segments, in order.
    pub segments: Vec<SegmentLayout>,
}

impl LineLayout {
    /// A layout from the specified segments.
    pub fn new(line_id: LineId, segments: Vec<SegmentLayout>) -> (r: Self)
        ensures
            r.line_id == Some(line_id),
            r.segments == segments,
    {
        Self { line_id: Some(line_id), segments }
    }

    /// This layout's line's identifier.
    pub fn line_id(&self) -> (r: Option<LineId>)
        ensures
            r == self.line_id,
    {
        self.line_id
    }

    /// This layout's constituent text segments.
    pub fn segments(&self) -> (r: &Vec<SegmentLayout>)
        ensures
            r == &self.segments,
    {
        &self.segments
    }

    /// Get the specified segment's layout.
    pub fn get_segment(&self, segment_id: SegmentId) -> (r: Option<&SegmentLayout>)
        ensures
            find_segment(self.segments@, segment_id, 0) matches Some(k) ==> (r matches Some(s)
                && *s == self.segments@[k]),
            find_segment(self.segments@, segment_id, 0) is None ==> r is None,
    {
        let mut i: usize = 0;
        while i < self.segments.len()
            invariant
                i <= self.segments@.len(),
                find_segment(self.segments@, segment_id, 0) == find_segment(
                    self.segments@,
                    segment_id,
                    i as int,
                ),
            decreases self.segments@.len() - i,
        {
            if segment_id_matches(&self.segments[i], segment_id) {
                return Some(&self.segments[i]);
            }
            i += 1;
        }
        None
    }

    /// Get the segment's layout preceding the specified segment: the one just
    /// before the first layout bearing the identifier, if both exist.
    pub fn get_segment_before(&self, segment_id: SegmentId) -> (r: Option<&SegmentLayout>)
        ensures
            match find_segment(self.segments@, segment_id, 0) {
                Some(k) => {
                    if k == 0 {
                        r is None
                    } else {
                        r matches Some(s) && *s == self.segments@[k - 1]
                    }
                },
                None => r is None,
            },
    {
        let mut i: usize = 0;
        while i < self.segments.len()
            invariant
                i <= self.segments@.len(),
                find_segment(self.segments@, segment_id, 0) == find_segment(
                    self.segments@,
                    segment_id,
                    i as int,
                ),
            decreases self.segments@.len() - i,
        {
            if segment_id_matches(&self.segments[i], segment_id) {
                if i == 0 {
                    return None;
                }
                return Some(&self.segments[i - 1]);
            }
            i += 1;
        }
        None
    }

    /// The total number of rendered terminal lines in this layout, after
    /// wrapping.
    pub fn wrapped_line_count(&self) -> (r: u16)
        requires
            line_wrapped_count(*self) <= 0xffff,
        ensures
            r == line_wrapped_count(*self),
    {
        if self.segments.len() == 0 {
            return 0;
        }
        let mut total: u16 = 0;
        let mut i: usize = 0;
        proof {
            lemma_segments_wrapped_sum_mono(self.segments@, 0, self.segments@.len() as int);
        }
        while i < self.segments.len()
            invariant
                i <= self.segments@.len(),
                total == segments_wrapped_sum(self.segments@, i as int),
                segments_wrapped_sum(self.segments@, self.segments@.len() as int) + 1 <= 0xffff,
            decreases self.segments@.len() - i,
        {
            proof {
                lemma_segments_wrapped_sum_mono(
                    self.segments@,
                    i + 1,
                    self.segments@.len() as int,
                );
            }
            let parts_len = self.segments[i].parts().len();
            if parts_len > 0 {
                proof {
                    lemma_segments_wrapped_sum_nonneg(self.segments@, i as int);
                }
                assert(parts_len - 1 <= 0xffff);
                total = total + ((parts_len - 1) as u16);
            }
            i += 1;
        }
        total + 1
    }

    /// The exclusive position on screen where this line ends: its last
    /// part-bearing segment's end.
    pub fn end_position(&self) -> (r: Option<AbsolutePosition>)
        requires
            line_layout_wf(*self),
        ensures
            r == last_segment_end(self.segments@, self.segments@.len() as int),
    {
        self.end_position_from(self.segments.len())
    }

    /// Search the segments backward from `k` exclusive for one with parts.
    fn end_position_from(&self, k: usize) -> (r: Option<AbsolutePosition>)
        requires
            line_layout_wf(*self),
            k <= self.segments@.len(),
        ensures
            r == last_segment_end(self.segments@, k as int),
        decreases k,
    {
        if k == 0 {
            None
        } else if self.segments[k - 1].parts().len() > 0 {
            self.segments[k - 1].end_position()
        } else {
            self.end_position_from(k - 1)
        }
    }
}

impl Default for LineLayout {
    /// A default empty layout, attributed to no line.
    fn default() -> (r: Self)
        ensures
            r.line_id is None,
            r.segments@.len() == 0,
    {
        Self { line_id: None, segments: Vec::new() }
    }
}

/// Decide whether a segment layout bears the given identifier.
fn segment_id_matches(s: &SegmentLayout, id: SegmentId) -> (r: bool)
    ensures
        r == (s.segment_id == Some(id)),
{
    match s.segment_id() {
        Some(sid) => sid.0 == id.0,
        None => false,
    }
}

proof fn lemma_segments_wrapped_sum_mono(segs: Seq<SegmentLayout>, a: int, b: int)
    requires
        0 <= a <= b,
    ensures
        segments_wrapped_sum(segs, a) <= segments_wrapped_sum(segs, b),
    decreases b,
{
    if a < b {
        lemma_segments_wrapped_sum_mono(segs, a, b - 1);
    }
}

proof fn lemma_segments_wrapped_sum_nonneg(segs: Seq<SegmentLayout>, n: int)
    ensures
        segments_wrapped_sum(segs, n) >= 0,
    decreases n,
{
    if n > 0 {
        lemma_segments_wrapped_sum_nonneg(segs, n - 1);
    }
}

/// The summed rendered-line counts of the first `n` line layouts.
pub open spec fn lines_rendered_sum(lines: Seq<LineLayout>, n: int) -> int
    decreases n,
{
    if n <= 0 {
        0
    } else {
        lines_rendered_sum(lines, n - 1) + line_wrapped_count(lines[n - 1])
    }
}

/// The end position of the last line (searching backward from `k` exclusive)
/// that has any segments.
pub open spec fn last_line_end(lines: Seq<LineLayout>, k: int) -> Option<AbsolutePosition>
    decreases k,
{
    if k <= 0 {
        None
    } else if lines[k - 1].segments@.len() > 0 {
        last_segment_end(lines[k - 1].segments@, lines[k - 1].segments@.len() as int)
    } else {
        last_line_end(lines, k - 1)
    }
}

/// The first line layout (from `k` onward) bearing the identifier, if any.
pub open spec fn find_line(lines: Seq<LineLayout>, id: LineId, k: int) -> Option<int>
    decreases lines.len() - k,
{
    if k < 0 || k >= lines.len() {
        None
    } else if lines[k].line_id == Some(id) {
        Some(k)
    } else {
        find_line(lines, id, k + 1)
    }
}

/// Whether every line of an interface layout is internally consistent.
pub open spec fn interface_layout_wf(l: InterfaceLayout) -> bool {
    forall|i: int| 0 <= i < l.lines@.len() ==> line_layout_wf(#[trigger] l.lines@[i])
}

/// One step of the backward scan that resolves a relative position within a
/// line: either a verdict (found or definitely absent), or the matched flag
/// to carry into the preceding line.
pub open spec fn scan_segments(
    segs: Seq<SegmentLayout>,
    k: int,
    matching_line: bool,
    matched: bool,
    segment_id: SegmentId,
    index: int,
) -> (Option<Option<AbsolutePosition>>, bool)
    decreases k + 1,
{
    if k < 0 {
        (None, matched)
    } else {
        let s = segs[k];
        let matching_segment = matching_line && s.segment_id == Some(segment_id);
        let matched2 = matched || matching_segment;
        if matched2 && s.parts@.len() > 0 {
            if matching_segment {
                (Some(find_part_position(s.parts@, index, 0)), matched2)
            } else if index == 0 {
                (Some(segment_end_position(s)), matched2)
            } else {
                (Some(None), matched2)
            }
        } else {
            scan_segments(segs, k - 1, matching_line, matched2, segment_id, index)
        }
    }
}

/// The backward scan over lines that resolves a relative position to an
/// absolute one.
pub open spec fn scan_lines(
    lines: Seq<LineLayout>,
    k: int,
    matched: bool,
    line_id: LineId,
    segment_id: SegmentId,
    index: int,
) -> Option<AbsolutePosition>
    decreases k + 1,
{
    if k < 0 {
        None
    } else {
        let l = lines[k];
        let matching_line = l.line_id == Some(line_id);
        let scan = scan_segments(
            l.segments@,
            l.segments@.len() - 1,
            matching_line,
            matched,
            segment_id,
            index,
        );
        match scan.0 {
            Some(answer) => answer,
            None => scan_lines(lines, k - 1, scan.1, line_id, segment_id, index),
        }
    }
}

/// A rendered layout including constituent line and segment arrangement.
pub struct InterfaceLayout {
    /// The terminal's `(columns, rows)` size when this layout was made.
    pub terminal_size: (u16, u16),
    /// The layouts of the rendered lines, in order.
    pub lines: Vec<LineLayout>,
}

impl InterfaceLayout {
    /// A layout from the specified lines.
    pub fn new(lines: Vec<LineLayout>, terminal_size: (u16, u16)) -> (r: Self)
        ensures
            r.lines == lines,
            r.terminal_size == terminal_size,
    {
        Self { lines, terminal_size }
    }

    /// The terminal size when this layout was created.
    pub fn terminal_size(&self) -> (r: (u16, u16))
        ensures
            r == self.terminal_size,
    {
        self.terminal_size
    }

    /// This layout's constituent lines.
    pub fn lines(&self) -> (r: &Vec<LineLayout>)
        ensures
            r == &self.lines,
    {
        &self.lines
    }

    /// Get the specified line's layout.
    pub fn get_line(&self, line_id: LineId) -> (r: Option<&LineLayout>)
        ensures
            find_line(self.lines@, line_id, 0) matches Some(k) ==> (r matches Some(l) && *l
                == self.lines@[k]),
            find_line(self.lines@, line_id, 0) is None ==> r is None,
    {
        let mut i: usize = 0;
        while i < self.lines.len()
            invariant
                i <= self.lines@.len(),
                find_line(self.lines@, line_id, 0) == find_line(self.lines@, line_id, i as int),
            decreases self.lines@.len() - i,
        {
            let matches_id = match self.lines[i].line_id() {
                Some(lid) => lid.0 == line_id.0,
                None => false,
            };
            if matches_id {
                return Some(&self.lines[i]);
            }
            i += 1;
        }
        None
    }

    /// The total number of rendered terminal lines in this layout, after
    /// wrapping.
    pub fn rendered_line_count(&self) -> (r: u16)
        requires
            forall|i: int| 0 <= i < self.lines@.len() ==> line_wrapped_count(
                #[trigger] self.lines@[i],
            ) <= 0xffff,
            lines_rendered_sum(self.lines@, self.lines@.len() as int) <= 0xffff,
        ensures
            r == lines_rendered_sum(self.lines@, self.lines@.len() as int),
    {
        let mut total: u16 = 0;
        let mut i: usize = 0;
        proof {
            lemma_lines_rendered_sum_mono(self.lines@, 0, self.lines@.len() as int);
        }
        while i < self.lines.len()
            invariant
                i <= self.lines@.len(),
                total == lines_rendered_sum(self.lines@, i as int),
                forall|j: int| 0 <= j < self.lines@.len() ==> line_wrapped_count(
                    #[trigger] self.lines@[j],
                ) <= 0xffff,
                lines_rendered_sum(self.lines@, self.lines@.len() as int) <= 0xffff,
            decreases self.lines@.len() - i,
        {
            proof {
                lemma_lines_rendered_sum_mono(self.lines@, i + 1, self.lines@.len() as int);
                lemma_lines_rendered_sum_nonneg(self.lines@, i as int);
            }
            let count = self.lines[i].wrapped_line_count();
            total = total + count;
            i += 1;
        }
        total
    }

    /// The exclusive position on screen where this interface ends: the end
    /// of its last line that has segments.
    pub fn end_position(&self) -> (r: Option<AbsolutePosition>)
        requires
            interface_layout_wf(*self),
        ensures
            r == last_line_end(self.lines@, self.lines@.len() as int),
    {
        self.end_position_from(self.lines.len())
    }

    /// Search the lines backward from `k` exclusive for one with segments.
    fn end_position_from(&self, k: usize) -> (r: Option<AbsolutePosition>)
        requires
            interface_layout_wf(*self),
            k <= self.lines@.len(),
        ensures
            r == last_line_end(self.lines@, k as int),
        decreases k,
    {
        if k == 0 {
            None
        } else if self.lines[k - 1].segments().len() > 0 {
            self.lines[k - 1].end_position()
        } else {
            self.end_position_from(k - 1)
        }
    }

    /// Given a relative position, derive its absolute position in this
    /// layout. Returns `None` if the relative position is invalid for this
    /// layout. The search runs backward from the most recently rendered
    /// content.
    pub fn get_absolute_position(&self, relative: RelativePosition) -> (r: Option<
        AbsolutePosition,
    >)
        requires
            interface_layout_wf(*self),
        ensures
            r == scan_lines(
                self.lines@,
                self.lines@.len() - 1,
                false,
                relative.line_id,
                relative.segment_id,
                relative.position as int,
            ),
    {
        self.scan_lines_from(self.lines.len(), false, relative)
    }

    /// Scan lines backward, `k` exclusive, carrying the matched flag.
    fn scan_lines_from(&self, k: usize, matched: bool, relative: RelativePosition) -> (r: Option<
        AbsolutePosition,
    >)
        requires
            interface_layout_wf(*self),
            k <= self.lines@.len(),
        ensures
            r == scan_lines(
                self.lines@,
                k - 1,
                matched,
                relative.line_id,
                relative.segment_id,
                relative.position as int,
            ),
        decreases k,
    {
        if k == 0 {
            return None;
        }
        let line = &self.lines[k - 1];
        let matching_line = match line.line_id() {
            Some(lid) => lid.0 == relative.line_id().0,
            None => false,
        };
        let scan = self.scan_segments_in(k - 1, line.segments().len(), matching_line, matched,
            relative);
        match scan {
            (Some(answer), _) => answer,
            (None, matched2) => self.scan_lines_from(k - 1, matched2, relative),
        }
    }

    /// Scan one line's segments backward, `k` exclusive, carrying the
    /// matched flag; the first result is a verdict if one was reached.
    fn scan_segments_in(
        &self,
        line_index: usize,
        k: usize,
        matching_line: bool,
        matched: bool,
        relative: RelativePosition,
    ) -> (r: (Option<Option<AbsolutePosition>>, bool))
        requires
            interface_layout_wf(*self),
            line_index < self.lines@.len(),
            k <= self.lines@[line_index as int].segments@.len(),
        ensures
            r == scan_segments(
                self.lines@[line_index as int].segments@,
                k - 1,
                matching_line,
                matched,
                relative.segment_id,
                relative.position as int,
            ),
        decreases k,
    {
        if k == 0 {
            return (None, matched);
        }
        let segment = &self.lines[line_index].segments()[k - 1];
        let matching_segment = matching_line && segment_id_matches(segment, relative.segment_id());
        let matched2 = matched || matching_segment;
        if matched2 && segment.parts().len() > 0 {
            if matching_segment {
                (Some(segment.get_absolute_position(relative.position() as usize)), matched2)
            } else if relative.position() == 0 {
                (Some(segment.end_position()), matched2)
            } else {
                (Some(None), matched2)
            }
        } else {
            self.scan_segments_in(line_index, k - 1, matching_line, matched2, relative)
        }
    }
}

proof fn lemma_lines_rendered_sum_mono(lines: Seq<LineLayout>, a: int, b: int)
    requires
        0 <= a <= b,
    ensures
        lines_rendered_sum(lines, a) <= lines_rendered_sum(lines, b),
    decreases b,
{
    if a < b {
        lemma_lines_rendered_sum_mono(lines, a, b - 1);
        lemma_line_wrapped_count_nonneg(lines[b - 1]);
    }
}

proof fn lemma_line_wrapped_count_nonneg(l: LineLayout)
    ensures
        line_wrapped_count(l) >= 0,
{
    lemma_segments_wrapped_sum_nonneg(l.segments@, l.segments@.len() as int);
}

proof fn lemma_lines_rendered_sum_nonneg(lines: Seq<LineLayout>, n: int)
    ensures
        lines_rendered_sum(lines, n) >= 0,
    decreases n,
{
    if n > 0 {
        lemma_lines_rendered_sum_nonneg(lines, n - 1);
        lemma_line_wrapped_count_nonneg(lines[n - 1]);
    }
}

} // verus!
