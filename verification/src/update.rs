use vstd::prelude::*;
use crate::cursor::CursorPosition;
use crate::line::Line;
use crate::segment::Segment;

verus! {

/// A particular change to be applied as part of an update batch.
#[derive(Debug)]
pub enum UpdateStep {
    /// Move the interface's cursor to a new relative position.
    SetCursor(CursorPosition),
    /// Set or insert a line at the index.
    SetLine(usize, Line),
    /// Delete the line at the index.
    DeleteLine(usize),
    /// Set or insert a segment at the index pair.
    SetSegment(usize, usize, Segment),
    /// Delete the segment at the index pair.
    DeleteSegment(usize, usize),
}

/// A batch of staged changes to be applied by the user, in order.
#[derive(Debug)]
pub struct UpdateBatch {
    /// The staged steps, applied first to last.
    pub steps: Vec<UpdateStep>,
}

impl UpdateBatch {
    /// Create an empty batch.
    pub fn new() -> (r: UpdateBatch)
        ensures
            r.steps@ == Seq::<UpdateStep>::empty(),
    {
        let r = UpdateBatch { steps: Vec::new() };
        proof {
            assert(r.steps@ =~= Seq::<UpdateStep>::empty());
        }
        r
    }

    /// Sets the cursor position, relative to the interface.
    pub fn set_cursor(&mut self, new_cursor: CursorPosition)
        ensures
            final(self).steps@ == old(self).steps@.push(UpdateStep::SetCursor(new_cursor)),
    {
        self.steps.push(UpdateStep::SetCursor(new_cursor));
    }

    /// Sets or inserts a line in the interface.
    pub fn set_line(&mut self, line_index: usize, line: Line)
        ensures
            final(self).steps@ == old(self).steps@.push(UpdateStep::SetLine(line_index, line)),
    {
        self.steps.push(UpdateStep::SetLine(line_index, line));
    }

    /// Deletes a line from the interface.
    pub fn delete_line(&mut self, line_index: usize)
        ensures
            final(self).steps@ == old(self).steps@.push(UpdateStep::DeleteLine(line_index)),
    {
        self.steps.push(UpdateStep::DeleteLine(line_index));
    }

    /// Sets or inserts a segment into the interface.
    pub fn set_segment(&mut self, line_index: usize, segment_index: usize, segment: Segment)
        ensures
            final(self).steps@ == old(self).steps@.push(
                UpdateStep::SetSegment(line_index, segment_index, segment),
            ),
    {
        self.steps.push(UpdateStep::SetSegment(line_index, segment_index, segment));
    }

    /// Deletes a segment from the specified line of the interface.
    pub fn delete_segment(&mut self, line_index: usize, segment_index: usize)
        ensures
            final(self).steps@ == old(self).steps@.push(
                UpdateStep::DeleteSegment(line_index, segment_index),
            ),
    {
        self.steps.push(UpdateStep::DeleteSegment(line_index, segment_index));
    }
}

} // verus!
