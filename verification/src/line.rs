use vstd::prelude::*;
use crate::result::Error;
use crate::segment::{Segment, SegmentId, SegmentV};

verus! {

/// A unique line identifier.
#[derive(Debug, Eq, PartialEq, Structural, Hash, Clone, Copy)]
pub struct LineId(pub usize);

impl LineId {
    /// Create a line identifier from its provisioned value. Identifier
    /// values are provisioned by the owning interface, monotonically.
    pub fn new(value: usize) -> (r: Self)
        ensures
            r == LineId(value),
    {
        LineId(value)
    }
}

/// The line's segment ordering.
#[derive(Debug)]
pub struct LineState {
    /// Segment ordering. These identifiers name values in the owning
    /// `Line`'s segment store.
    pub segments: Vec<SegmentId>,
}

impl LineState {
    /// An empty state with no segments.
    pub fn empty() -> (r: LineState)
        ensures
            r.segments@ == Seq::<SegmentId>::empty(),
    {
        let r = LineState { segments: Vec::new() };
        proof {
            assert(r.segments@ =~= Seq::<SegmentId>::empty());
        }
        r
    }

    /// An exact copy of this state.
    pub fn duplicate(&self) -> (r: LineState)
        ensures
            r.segments@ == self.segments@,
    {
        let mut segments: Vec<SegmentId> = Vec::new();
        let mut i: usize = 0;
        while i < self.segments.len()
            invariant
                i <= self.segments@.len(),
                segments@ == self.segments@.take(i as int),
            decreases self.segments@.len() - i,
        {
            segments.push(self.segments[i]);
            i += 1;
            proof {
                assert(segments@ =~= self.segments@.take(i as int));
            }
        }
        proof {
            assert(self.segments@.take(self.segments@.len() as int) =~= self.segments@);
        }
        LineState { segments }
    }
}

impl Default for LineState {
    /// An empty state with no segments.
    fn default() -> (r: Self)
        ensures
            r.segments@ == Seq::<SegmentId>::empty(),
    {
        LineState::empty()
    }
}

/// The mathematical value of a [`Line`].
pub ghost struct LineV {
    /// The line's immutable identifier.
    pub identifier: LineId,
    /// The currently-rendered segment ordering.
    pub current: Seq<SegmentId>,
    /// The staged ordering, if this line has uncommitted changes.
    pub alternate: Option<Seq<SegmentId>>,
    /// The segment value store; ordering information is in the states.
    pub segments: Seq<SegmentV>,
    /// The next segment identifier value to be provisioned.
    pub next_segment: nat,
}

/// The views of a stored segment list.
pub open spec fn seg_views(v: Seq<Segment>) -> Seq<SegmentV> {
    v.map_values(|s: Segment| s@)
}

/// The most recent ordering of a line: the staged alternate if one exists,
/// the current ordering otherwise.
pub open spec fn line_latest(v: LineV) -> Seq<SegmentId> {
    match v.alternate {
        Some(a) => a,
        None => v.current,
    }
}

/// The index of the first segment value bearing the identifier, if any.
pub open spec fn find_stored(segs: Seq<SegmentV>, id: SegmentId, k: int) -> Option<int>
    decreases segs.len() - k,
{
    if k < 0 || k >= segs.len() {
        None
    } else if segs[k].identifier == id {
        Some(k)
    } else {
        find_stored(segs, id, k + 1)
    }
}

/// The index of the first occurrence of the identifier in an ordering, if
/// any.
pub open spec fn find_ordered(ids: Seq<SegmentId>, id: SegmentId, k: int) -> Option<int>
    decreases ids.len() - k,
{
    if k < 0 || k >= ids.len() {
        None
    } else if ids[k] == id {
        Some(k)
    } else {
        find_ordered(ids, id, k + 1)
    }
}

proof fn lemma_find_stored_bounds(segs: Seq<SegmentV>, id: SegmentId, k: int)
    requires
        find_stored(segs, id, k) is Some,
    ensures
        k <= find_stored(segs, id, k).unwrap() < segs.len(),
        segs[find_stored(segs, id, k).unwrap()].identifier == id,
    decreases segs.len() - k,
{
    if !(k < 0 || k >= segs.len()) && !(segs[k].identifier == id) {
        lemma_find_stored_bounds(segs, id, k + 1);
    }
}

proof fn lemma_find_ordered_bounds(ids: Seq<SegmentId>, id: SegmentId, k: int)
    requires
        find_ordered(ids, id, k) is Some,
    ensures
        k <= find_ordered(ids, id, k).unwrap() < ids.len(),
        ids[find_ordered(ids, id, k).unwrap()] == id,
    decreases ids.len() - k,
{
    if !(k < 0 || k >= ids.len()) && !(ids[k] == id) {
        lemma_find_ordered_bounds(ids, id, k + 1);
    }
}

/// A line composed of text segments. Accumulates changes until applied by
/// its parent interface.
#[derive(Debug)]
pub struct Line {
    identifier: LineId,
    current: LineState,
    alternate: Option<LineState>,
    segments: Vec<Segment>,
    next_segment: usize,
}

impl View for Line {
    type V = LineV;

    closed spec fn view(&self) -> LineV {
        LineV {
            identifier: self.identifier,
            current: self.current.segments@,
            alternate: match self.alternate {
                Some(ref a) => Some(a.segments@),
                None => None,
            },
            segments: seg_views(self.segments@),
            next_segment: self.next_segment as nat,
        }
    }
}

impl Line {
    /// Create a new line with no text segments, under the given provisioned
    /// identifier.
    pub fn new(identifier: LineId) -> (r: Line)
        ensures
            r@.identifier == identifier,
            r@.current == Seq::<SegmentId>::empty(),
            r@.alternate is None,
            r@.segments == Seq::<SegmentV>::empty(),
            r@.next_segment == 0,
    {
        let r = Line {
            identifier,
            current: LineState::empty(),
            alternate: None,
            segments: Vec::new(),
            next_segment: 0,
        };
        proof {
            assert(r@.segments =~= Seq::<SegmentV>::empty());
        }
        r
    }

    /// This line's unique identifier.
    pub fn identifier(&self) -> (r: LineId)
        ensures
            r == self@.identifier,
    {
        self.identifier
    }

    /// This line's text segment identifiers. Reflects the latest state, even
    /// if staged changes have not yet been applied to the interface.
    pub fn segment_ids(&self) -> (r: &Vec<SegmentId>)
        ensures
            r@ == line_latest(self@),
    {
        match &self.alternate {
            Some(alternate) => &alternate.segments,
            None => &self.current.segments,
        }
    }

    /// Retrieves a segment reference by its identifier: the first stored
    /// segment bearing it, or an error when none does.
    pub fn get_segment(&self, id: &SegmentId) -> (r: Result<&Segment, Error>)
        ensures
            find_stored(self@.segments, *id, 0) matches Some(k) ==> (r matches Ok(s) && s@
                == self@.segments[k]),
            find_stored(self@.segments, *id, 0) is None ==> (r matches Err(e) && e
                == Error::SegmentIdInvalid),
    {
        let mut i: usize = 0;
        while i < self.segments.len()
            invariant
                i <= self.segments@.len(),
                find_stored(self@.segments, *id, 0) == find_stored(self@.segments, *id, i as int),
            decreases self.segments@.len() - i,
        {
            if self.segments[i].identifier().0 == id.0 {
                return Ok(&self.segments[i]);
            }
            i += 1;
        }
        Err(Error::SegmentIdInvalid)
    }

    /// Retrieves a mutable segment reference by its identifier: the first
    /// stored segment bearing it, or an error when none does. Only the
    /// returned segment can change through the borrow.
    pub fn get_segment_mut(&mut self, id: &SegmentId) -> (r: Result<&mut Segment, Error>)
        ensures
            find_stored(old(self)@.segments, *id, 0) matches Some(k) ==> (r matches Ok(s) && {
                &&& (*s)@ == old(self)@.segments[k]
                &&& final(self)@ == (LineV {
                    segments: old(self)@.segments.update(k, final(s)@),
                    ..old(self)@
                })
            }),
            find_stored(old(self)@.segments, *id, 0) is None ==> (r matches Err(e) && e
                == Error::SegmentIdInvalid && final(self)@ == old(self)@),
    {
        let mut i: usize = 0;
        while i < self.segments.len()
            invariant
                i <= self.segments@.len(),
                self@ == old(self)@,
                find_stored(self@.segments, *id, 0) == find_stored(self@.segments, *id, i as int),
            decreases self.segments@.len() - i,
        {
            if self.segments[i].identifier().0 == id.0 {
                proof {
                    let mid = self.segments@;
                    assert forall|e: Segment| #![auto] seg_views(mid.update(i as int, e))
                        =~= old(self)@.segments.update(i as int, e@) by {
                        assert(seg_views(mid) == old(self)@.segments);
                        let lhs = seg_views(mid.update(i as int, e));
                        let rhs = old(self)@.segments.update(i as int, e@);
                        assert forall|j: int| 0 <= j < lhs.len() implies lhs[j] == rhs[j] by {
                            assert(lhs[j] == mid.update(i as int, e)[j]@);
                            if j != i {
                                assert(seg_views(mid)[j] == mid[j]@);
                            }
                        }
                    }
                }
                return Ok(&mut self.segments[i]);
            }
            i += 1;
        }
        Err(Error::SegmentIdInvalid)
    }

    /// Retrieves several segment references by their identifiers; an error
    /// when any identifier is unknown.
    pub fn get_segments(&self, ids: &Vec<SegmentId>) -> (r: Result<Vec<&Segment>, Error>)
        ensures
            (forall|j: int| 0 <= j < ids@.len() ==> find_stored(
                self@.segments,
                #[trigger] ids@[j],
                0,
            ) is Some) <==> r is Ok,
            r matches Ok(v) ==> {
                &&& v@.len() == ids@.len()
                &&& forall|j: int| #![auto] 0 <= j < ids@.len() ==> v@[j]@ == self@.segments[
                    find_stored(self@.segments, ids@[j], 0).unwrap()
                ]
            },
    {
        let mut result: Vec<&Segment> = Vec::new();
        let mut i: usize = 0;
        while i < ids.len()
            invariant
                i <= ids@.len(),
                result@.len() == i,
                forall|j: int| 0 <= j < i ==> find_stored(
                    self@.segments,
                    #[trigger] ids@[j],
                    0,
                ) is Some,
                forall|j: int| #![auto] 0 <= j < i ==> result@[j]@ == self@.segments[find_stored(
                    self@.segments,
                    ids@[j],
                    0,
                ).unwrap()],
            decreases ids@.len() - i,
        {
            match self.get_segment(&ids[i]) {
                Ok(segment) => {
                    result.push(segment);
                },
                Err(e) => {
                    return Err(e);
                },
            }
            i += 1;
        }
        Ok(result)
    }

    /// This line's text segments, in their latest order. Requires every
    /// ordered identifier to resolve in the store.
    pub fn segments(&self) -> (r: Vec<&Segment>)
        requires
            forall|j: int| 0 <= j < line_latest(self@).len() ==> find_stored(
                self@.segments,
                #[trigger] line_latest(self@)[j],
                0,
            ) is Some,
        ensures
            r@.len() == line_latest(self@).len(),
            forall|j: int| #![auto] 0 <= j < r@.len() ==> r@[j]@ == self@.segments[find_stored(
                self@.segments,
                line_latest(self@)[j],
                0,
            ).unwrap()],
    {
        let ids = self.segment_ids();
        let mut result: Vec<&Segment> = Vec::new();
        let mut i: usize = 0;
        while i < ids.len()
            invariant
                i <= ids@.len(),
                ids@ == line_latest(self@),
                result@.len() == i,
                forall|j: int| 0 <= j < line_latest(self@).len() ==> find_stored(
                    self@.segments,
                    #[trigger] line_latest(self@)[j],
                    0,
                ) is Some,
                forall|j: int| #![auto] 0 <= j < i ==> result@[j]@ == self@.segments[find_stored(
                    self@.segments,
                    line_latest(self@)[j],
                    0,
                ).unwrap()],
            decreases ids@.len() - i,
        {
            match self.get_segment(&ids[i]) {
                Ok(segment) => {
                    result.push(segment);
                },
                Err(_) => {
                    proof {
                        assert(false);
                    }
                },
            }
            i += 1;
        }
        result
    }

    /// Determines the specified segment's index in this line's latest
    /// ordering.
    pub fn get_segment_index(&self, id: &SegmentId) -> (r: Result<usize, Error>)
        ensures
            find_ordered(line_latest(self@), *id, 0) matches Some(k) ==> r matches Ok(i) && i
                == k,
            find_ordered(line_latest(self@), *id, 0) is None ==> (r matches Err(e) && e
                == Error::SegmentIdInvalid),
    {
        let ids = self.segment_ids();
        let mut i: usize = 0;
        while i < ids.len()
            invariant
                i <= ids@.len(),
                ids@ == line_latest(self@),
                find_ordered(line_latest(self@), *id, 0) == find_ordered(
                    line_latest(self@),
                    *id,
                    i as int,
                ),
            decreases ids@.len() - i,
        {
            if ids[i].0 == id.0 {
                return Ok(i);
            }
            i += 1;
        }
        Err(Error::SegmentIdInvalid)
    }

    /// Whether this line or its text segments have any staged changes.
    /// Requires the current ordering to resolve in the store.
    pub fn has_changes(&self) -> (r: bool)
        requires
            forall|j: int| 0 <= j < self@.current.len() ==> find_stored(
                self@.segments,
                #[trigger] self@.current[j],
                0,
            ) is Some,
        ensures
            r == (self@.alternate is Some || exists|j: int|
                0 <= j < self@.current.len() && self@.segments[find_stored(
                    self@.segments,
                    self@.current[j],
                    0,
                ).unwrap()].alternate is Some),
    {
        if self.alternate.is_some() {
            return true;
        }
        let mut i: usize = 0;
        while i < self.current.segments.len()
            invariant
                i <= self@.current.len(),
                self@.alternate is None,
                forall|j: int| 0 <= j < self@.current.len() ==> find_stored(
                    self@.segments,
                    #[trigger] self@.current[j],
                    0,
                ) is Some,
                forall|j: int| #![auto] 0 <= j < i ==> !(self@.segments[find_stored(
                    self@.segments,
                    self@.current[j],
                    0,
                ).unwrap()].alternate is Some),
            decreases self@.current.len() - i,
        {
            match self.get_segment(&self.current.segments[i]) {
                Ok(segment) => {
                    if segment.has_changes() {
                        return true;
                    }
                },
                Err(_) => {
                    proof {
                        assert(false);
                    }
                },
            }
            i += 1;
        }
        false
    }

    /// Removes the specified text segment from this line and returns a clone
    /// of it. The removal is staged until changes are applied.
    pub fn take_segment(&mut self, segment_id: &SegmentId) -> (r: Result<Segment, Error>)
        ensures
            r matches Ok(s) ==> {
                &&& find_stored(old(self)@.segments, *segment_id, 0) matches Some(k) && s@
                    == old(self)@.segments[k]
                &&& find_ordered(line_latest(old(self)@), *segment_id, 0) matches Some(i)
                    && final(self)@ == (LineV {
                    alternate: Some(line_latest(old(self)@).remove(i)),
                    ..old(self)@
                })
            },
            r is Err ==> final(self)@.segments == old(self)@.segments
                && final(self)@.current == old(self)@.current,
    {
        let segment = match self.get_segment(segment_id) {
            Ok(s) => s.clone(),
            Err(e) => {
                return Err(e);
            },
        };
        match self.remove_segment(segment_id) {
            Ok(()) => {},
            Err(e) => {
                return Err(e);
            },
        }
        Ok(segment)
    }

    /// Appends a new text segment to this line. The addition is staged until
    /// changes are applied. The returned segment may have further changes
    /// staged against it for the same update.
    pub fn add_segment(&mut self) -> (r: &mut Segment)
        requires
            old(self)@.next_segment < usize::MAX,
        ensures
            (*r)@.identifier == SegmentId(old(self)@.next_segment as usize),
            (*r)@.current.text is None && (*r)@.current.color is None,
            (*r)@.alternate is None,
            final(self)@ == (LineV {
                segments: old(self)@.segments.push(final(r)@),
                alternate: Some(line_latest(old(self)@).push((*r)@.identifier)),
                next_segment: old(self)@.next_segment + 1,
                ..old(self)@
            }),
    {
        let segment_id = self.create_segment();
        self.ensure_alternate();
        let taken = self.alternate.take();
        match taken {
            Some(mut alternate) => {
                alternate.segments.push(segment_id);
                self.alternate = Some(alternate);
            },
            None => {
                proof {
                    assert(false);
                }
            },
        }
        let index = self.segments.len() - 1;
        proof {
            assert(self@.segments.last().identifier == segment_id);
            let mid = self.segments@;
            let idx = mid.len() - 1;
            assert forall|e: Segment| #![auto] seg_views(mid.update(idx, e))
                =~= old(self)@.segments.push(e@) by {
                assert(seg_views(mid) == old(self)@.segments.push(mid.last()@));
                let lhs = seg_views(mid.update(idx, e));
                let rhs = old(self)@.segments.push(e@);
                assert forall|j: int| 0 <= j < lhs.len() implies lhs[j] == rhs[j] by {
                    assert(lhs[j] == mid.update(idx, e)[j]@);
                    if j < idx {
                        assert(seg_views(mid)[j] == mid[j]@);
                    }
                }
            }
        }
        &mut self.segments[index]
    }

    /// Inserts a new text segment in this line at a specified index. The
    /// insertion is staged until changes are applied.
    pub fn insert_segment(&mut self, index: usize) -> (r: Result<&mut Segment, Error>)
        requires
            old(self)@.next_segment < usize::MAX,
        ensures
            index > line_latest(old(self)@).len() ==> (r matches Err(e) && e
                == Error::SegmentOutOfBounds && final(self)@ == old(self)@),
            index <= line_latest(old(self)@).len() ==> (r matches Ok(s) && {
                &&& (*s)@.identifier == SegmentId(old(self)@.next_segment as usize)
                &&& (*s)@.alternate is None
                &&& final(self)@ == (LineV {
                    segments: old(self)@.segments.push(final(s)@),
                    alternate: Some(
                        line_latest(old(self)@).insert(index as int, (*s)@.identifier),
                    ),
                    next_segment: old(self)@.next_segment + 1,
                    ..old(self)@
                })
            }),
    {
        let bound = self.segment_ids().len();
        if index > bound {
            return Err(Error::SegmentOutOfBounds);
        }

        let segment_id = self.create_segment();
        self.ensure_alternate();
        let taken = self.alternate.take();
        match taken {
            Some(mut alternate) => {
                alternate.segments.insert(index, segment_id);
                self.alternate = Some(alternate);
            },
            None => {
                proof {
                    assert(false);
                }
            },
        }
        let store_index = self.segments.len() - 1;
        proof {
            assert(self@.segments.last().identifier == segment_id);
            let mid = self.segments@;
            let idx = mid.len() - 1;
            assert forall|e: Segment| #![auto] seg_views(mid.update(idx, e))
                =~= old(self)@.segments.push(e@) by {
                assert(seg_views(mid) == old(self)@.segments.push(mid.last()@));
                let lhs = seg_views(mid.update(idx, e));
                let rhs = old(self)@.segments.push(e@);
                assert forall|j: int| 0 <= j < lhs.len() implies lhs[j] == rhs[j] by {
                    assert(lhs[j] == mid.update(idx, e)[j]@);
                    if j < idx {
                        assert(seg_views(mid)[j] == mid[j]@);
                    }
                }
            }
        }
        Ok(&mut self.segments[store_index])
    }

    /// Removes a text segment with the specified identifier from this line's
    /// ordering. The removal is staged until changes are applied.
    pub fn remove_segment(&mut self, id: &SegmentId) -> (r: Result<(), Error>)
        ensures
            find_ordered(line_latest(old(self)@), *id, 0) matches Some(i) ==> (r is Ok
                && final(self)@ == (LineV {
                alternate: Some(line_latest(old(self)@).remove(i)),
                ..old(self)@
            })),
            find_ordered(line_latest(old(self)@), *id, 0) is None ==> (r matches Err(e) && e
                == Error::SegmentIdInvalid && final(self)@ == old(self)@),
    {
        let index = match self.get_segment_index(id) {
            Ok(i) => i,
            Err(e) => {
                return Err(e);
            },
        };
        proof {
            lemma_find_ordered_bounds(line_latest(old(self)@), *id, 0);
        }

        self.ensure_alternate();
        let taken = self.alternate.take();
        match taken {
            Some(mut alternate) => {
                alternate.segments.remove(index);
                self.alternate = Some(alternate);
            },
            None => {
                proof {
                    assert(false);
                }
            },
        }
        Ok(())
    }

    /// Removes a text segment from this line at the specified index in its
    /// latest ordering. The removal is staged until changes are applied; an
    /// out-of-bounds index leaves the line untouched.
    pub fn remove_segment_at(&mut self, index: usize) -> (r: Result<SegmentId, Error>)
        ensures
            index < line_latest(old(self)@).len() ==> (r matches Ok(id) && id == line_latest(
                old(self)@,
            )[index as int] && final(self)@ == (LineV {
                alternate: Some(line_latest(old(self)@).remove(index as int)),
                ..old(self)@
            })),
            index >= line_latest(old(self)@).len() ==> (r matches Err(e) && e
                == Error::SegmentOutOfBounds && final(self)@ == old(self)@),
    {
        if index >= self.segment_ids().len() {
            return Err(Error::SegmentOutOfBounds);
        }
        self.ensure_alternate();
        let taken = self.alternate.take();
        match taken {
            Some(mut alternate) => {
                let removed = alternate.segments.remove(index);
                self.alternate = Some(alternate);
                Ok(removed)
            },
            None => {
                proof {
                    assert(false);
                }
                Err(Error::SegmentOutOfBounds)
            },
        }
    }

    /// Inserts the provided text segment's value into this line's store and
    /// appends it to the staged ordering. A stored value bearing the same
    /// identifier is replaced.
    pub fn append_given_segment(&mut self, segment: Segment) -> (r: &mut Segment)
        ensures
            (*r)@ == segment@,
            final(self)@.identifier == old(self)@.identifier,
            final(self)@.current == old(self)@.current,
            final(self)@.next_segment == old(self)@.next_segment,
            final(self)@.alternate == Some(line_latest(old(self)@).push(segment@.identifier)),
            final(self)@.segments == (match find_stored(
                old(self)@.segments,
                segment@.identifier,
                0,
            ) {
                Some(k) => old(self)@.segments.update(k, final(r)@),
                None => old(self)@.segments.push(final(r)@),
            }),
    {
        let segment_id = segment.identifier();
        self.ensure_alternate();
        let taken = self.alternate.take();
        match taken {
            Some(mut alternate) => {
                alternate.segments.push(segment_id);
                self.alternate = Some(alternate);
            },
            None => {
                proof {
                    assert(false);
                }
            },
        }

        let ghost staged = self@;
        let ghost segv = segment@;
        let mut i: usize = 0;
        while i < self.segments.len()
            invariant
                i <= self.segments@.len(),
                segment@ == segv,
                segv.identifier == segment_id,
                self@ == staged,
                staged == (LineV {
                    alternate: Some(line_latest(old(self)@).push(segment@.identifier)),
                    ..old(self)@
                }),
                find_stored(self@.segments, segment@.identifier, 0) == find_stored(
                    self@.segments,
                    segment@.identifier,
                    i as int,
                ),
            decreases self.segments@.len() - i,
        {
            if self.segments[i].identifier().0 == segment_id.0 {
                let ghost mid = self.segments@;
                self.segments[i] = segment;
                let ghost mid2 = self.segments@;
                proof {
                    assert(mid2 == mid.update(i as int, segment));
                    assert(find_stored(self@.segments, segment@.identifier, i as int) == Some(
                        i as int,
                    )) by {
                        assert(mid[i as int]@.identifier == segment@.identifier);
                    }
                    assert forall|e: Segment| #![auto] seg_views(mid2.update(i as int, e))
                        =~= old(self)@.segments.update(i as int, e@) by {
                        assert(seg_views(mid) == old(self)@.segments);
                        let lhs = seg_views(mid2.update(i as int, e));
                        let rhs = old(self)@.segments.update(i as int, e@);
                        assert forall|j: int| 0 <= j < lhs.len() implies lhs[j] == rhs[j] by {
                            assert(lhs[j] == mid2.update(i as int, e)[j]@);
                            if j != i {
                                assert(mid2[j] == mid[j]);
                                assert(seg_views(mid)[j] == mid[j]@);
                            }
                        }
                    }
                }
                return &mut self.segments[i];
            }
            proof {
                assert(self@.segments[i as int] == self.segments@[i as int]@);
                assert(segment_id == segment@.identifier);
                assert(self@.segments[i as int].identifier.0 != segment_id.0);
                assert(self@.segments[i as int].identifier != segment@.identifier);
            }
            i += 1;
        }
        self.segments.push(segment);
        let index = self.segments.len() - 1;
        proof {
            assert(self@.segments =~= old(self)@.segments.push(self@.segments.last()));
            let mid = self.segments@;
            let idx = mid.len() - 1;
            assert forall|e: Segment| #![auto] seg_views(mid.update(idx, e))
                =~= old(self)@.segments.push(e@) by {
                assert(seg_views(mid) == old(self)@.segments.push(mid.last()@));
                let lhs = seg_views(mid.update(idx, e));
                let rhs = old(self)@.segments.push(e@);
                assert forall|j: int| 0 <= j < lhs.len() implies lhs[j] == rhs[j] by {
                    assert(lhs[j] == mid.update(idx, e)[j]@);
                    if j < idx {
                        assert(seg_views(mid)[j] == mid[j]@);
                    }
                }
            }
        }
        &mut self.segments[index]
    }

    /// Create a new segment under a fresh identifier, add it to the store,
    /// and return its identifier. The identifier still needs to be ordered
    /// in a state.
    pub fn create_segment(&mut self) -> (r: SegmentId)
        requires
            old(self)@.next_segment < usize::MAX,
        ensures
            r == SegmentId(old(self)@.next_segment as usize),
            final(self)@ == (LineV {
                segments: old(self)@.segments.push(
                    SegmentV {
                        identifier: r,
                        current: crate::segment::empty_segment_state(),
                        alternate: None,
                    },
                ),
                next_segment: old(self)@.next_segment + 1,
                ..old(self)@
            }),
    {
        let segment_id = SegmentId::new(self.next_segment);
        self.next_segment = self.next_segment + 1;
        let segment = Segment::new(segment_id);
        self.segments.push(segment);
        proof {
            assert(self@.segments =~= old(self)@.segments.push(self@.segments.last()));
        }
        segment_id
    }

    /// Whether this line has an alternate state, which may contain added or
    /// removed text segments.
    pub fn has_alternate(&self) -> (r: bool)
        ensures
            r == (self@.alternate is Some),
    {
        self.alternate.is_some()
    }

    /// Ensure an alternate state exists, snapshotting the current ordering
    /// on the first staged change.
    fn ensure_alternate(&mut self)
        ensures
            final(self)@ == (LineV { alternate: Some(line_latest(old(self)@)), ..old(self)@ }),
    {
        match &self.alternate {
            Some(_) => {},
            None => {
                self.alternate = Some(self.current.duplicate());
            },
        }
    }

    /// Get a reference to this line's alternate state, creating it and
    /// dirtying the line if necessary.
    pub fn get_alternate(&mut self) -> (r: &LineState)
        ensures
            r.segments@ == line_latest(old(self)@),
            final(self)@ == (LineV { alternate: Some(line_latest(old(self)@)), ..old(self)@ }),
    {
        self.ensure_alternate();
        match &self.alternate {
            Some(alternate) => alternate,
            None => {
                proof {
                    assert(false);
                }
                &self.current
            },
        }
    }

    /// Get a mutable reference to this line's alternate state, creating it
    /// and dirtying the line if necessary.
    pub fn get_alternate_mut(&mut self) -> (r: &mut LineState)
        ensures
            (*r).segments@ == line_latest(old(self)@),
            final(self)@ == (LineV { alternate: Some(final(r).segments@), ..old(self)@ }),
    {
        self.ensure_alternate();
        match &mut self.alternate {
            Some(alternate) => alternate,
            None => {
                proof {
                    assert(false);
                }
                &mut self.current
            },
        }
    }

    /// Swaps this line's alternate state out for its current and returns the
    /// previous-current state. This line must have an alternate for this to
    /// be called.
    pub fn swap_alternate(&mut self) -> (r: LineState)
        requires
            old(self)@.alternate is Some,
        ensures
            r.segments@ == old(self)@.current,
            final(self)@ == (LineV {
                current: old(self)@.alternate.unwrap(),
                alternate: None,
                ..old(self)@
            }),
    {
        let taken = self.alternate.take();
        match taken {
            Some(mut alternate) => {
                core::mem::swap(&mut self.current, &mut alternate);
                alternate
            },
            None => {
                proof {
                    assert(false);
                }
                LineState::empty()
            },
        }
    }

    /// Prune stored segment values that the given former ordering names but
    /// the current ordering no longer includes.
    pub fn prune_segments(&mut self, segment_ids: &Vec<SegmentId>)
        ensures
            final(self)@ == (LineV {
                segments: pruned_store(old(self)@.segments, segment_ids@, old(self)@.current),
                ..old(self)@
            }),
    {
        let ghost stored0 = self@.segments;
        let mut kept: Vec<Segment> = Vec::new();
        let mut i: usize = 0;
        proof {
            assert(stored0.take(0) =~= Seq::<SegmentV>::empty());
            assert(seg_views(kept@) =~= Seq::<SegmentV>::empty());
        }
        while i < self.segments.len()
            invariant
                i <= self.segments@.len(),
                stored0 == seg_views(self.segments@),
                self@ == old(self)@,
                seg_views(kept@) == pruned_store(
                    stored0.take(i as int),
                    segment_ids@,
                    old(self)@.current,
                ),
            decreases self.segments@.len() - i,
        {
            let ghost sv = stored0[i as int];
            let in_former = contains_id(segment_ids, &self.segments[i].identifier());
            let in_current = contains_id(&self.current.segments, &self.segments[i].identifier());
            proof {
                assert(sv == self.segments@[i as int]@);
                assert(in_former == segment_ids@.contains(sv.identifier));
                assert(in_current == old(self)@.current.contains(sv.identifier));
                assert(stored0.take(i + 1).drop_last() =~= stored0.take(i as int));
                assert(stored0.take(i + 1).last() == sv);
            }
            if !(in_former && !in_current) {
                let ghost prev = kept@;
                let copy = self.segments[i].clone();
                kept.push(copy);
                proof {
                    assert(copy@ == sv);
                    assert(kept@ == prev.push(copy));
                    assert forall|j: int| 0 <= j < seg_views(kept@).len() implies seg_views(
                        kept@,
                    )[j] == seg_views(prev).push(sv)[j] by {
                        assert(seg_views(kept@)[j] == kept@[j]@);
                        if j < prev.len() {
                            assert(kept@[j] == prev[j]);
                            assert(seg_views(prev)[j] == prev[j]@);
                        }
                    }
                    assert(seg_views(kept@) =~= seg_views(prev).push(sv));
                }
            }
            i += 1;
        }
        proof {
            assert(stored0.take(stored0.len() as int) =~= stored0);
        }
        self.segments = kept;
    }
}

/// The segment store after pruning: the stored values kept are those not
/// named by `former` or still named by `current`.
pub open spec fn pruned_store(
    stored: Seq<SegmentV>,
    former: Seq<SegmentId>,
    current: Seq<SegmentId>,
) -> Seq<SegmentV>
    decreases stored.len(),
{
    if stored.len() == 0 {
        Seq::<SegmentV>::empty()
    } else {
        let rest = pruned_store(stored.drop_last(), former, current);
        if !(former.contains(stored.last().identifier) && !current.contains(
            stored.last().identifier,
        )) {
            rest.push(stored.last())
        } else {
            rest
        }
    }
}

/// Decide whether an identifier list contains the given identifier.
fn contains_id(ids: &Vec<SegmentId>, id: &SegmentId) -> (r: bool)
    ensures
        r == ids@.contains(*id),
{
    let mut i: usize = 0;
    while i < ids.len()
        invariant
            i <= ids@.len(),
            forall|j: int| 0 <= j < i ==> ids@[j] != *id,
        decreases ids@.len() - i,
    {
        if ids[i].0 == id.0 {
            assert(ids@[i as int] == *id);
            return true;
        }
        i += 1;
    }
    false
}

} // verus!