use vstd::prelude::*;
use crate::ansi;
use crate::device::Device;
use crate::grapheme::{graphemes_of, split_graphemes};
use crate::position::{pos_le, pos_lt, sat_add, Position};
use crate::result::Error;
use crate::state::{clear_sel, stage_cell, Cell, CellV, State, StateV};
use crate::style::Style;
use crate::vector::Vector;

verus! {

/// The mathematical value of an [`Interface`]: the viewport size, the
/// committed and staged grids, the cursor bookkeeping, and every byte handed
/// to the device so far.
pub ghost struct InterfaceV {
    /// The terminal's `(columns, lines)` size at construction.
    pub size: Vector,
    /// The committed state: what the device was last driven to.
    pub current: StateV,
    /// The pending state holding uncommitted changes, if any were staged.
    pub alternate: Option<StateV>,
    /// Where the cursor is to be parked on commit; `None` keeps it hidden.
    pub staged_cursor: Option<Position>,
    /// The physical cursor position as tracked by the interface.
    pub cursor: Position,
    /// Whether the interface renders relative to the buffer rather than
    /// owning the whole screen.
    pub relative: bool,
    /// Every byte this interface has handed to its device, in order.
    pub emitted: Seq<u8>,
    /// Every terminal size the device has reported, in order.
    pub reported: Seq<Vector>,
    /// Whether the device's terminal is in raw mode.
    pub raw: bool,
}

/// The state that staging operations address: the alternate if one exists,
/// else the current state (which staging will first snapshot).
pub open spec fn staged_view(v: InterfaceV) -> StateV {
    match v.alternate {
        Some(a) => a,
        None => v.current,
    }
}

/// Where a cluster headed for `(column, line)` actually lands: past the last
/// legal column it wraps to the start of the next line (the line saturating
/// at the coordinate space's bound).
pub open spec fn wrap_position(column: u16, line: u16, width: u16) -> Position {
    if column >= width {
        Position { y: sat_add(line, 1), x: 0 }
    } else {
        Position { y: line, x: column }
    }
}

/// Stage the clusters `gs` at consecutive columns beginning at
/// `(column, line)`, wrapping at `width`, each as one cell bearing `style`.
pub open spec fn place_text(
    v: StateV,
    gs: Seq<Seq<char>>,
    column: u16,
    line: u16,
    width: u16,
    style: Option<Style>,
) -> StateV
    decreases gs.len(),
{
    if gs.len() == 0 {
        v
    } else {
        let p = wrap_position(column, line, width);
        place_text(
            stage_cell(v, p, CellV { grapheme: gs[0], style }),
            gs.drop_first(),
            (p.x + 1) as u16,
            p.y,
            width,
            style,
        )
    }
}

/// The view of an optional cell.
pub open spec fn cell_opt_view(c: Option<Cell>) -> Option<CellV> {
    match c {
        Some(cell) => Some(cell@),
        None => None,
    }
}

/// Whether `entries` is the ordered dirty listing of `v`: exactly the dirty
/// positions, in strictly increasing `(y, x)` order, each paired with the
/// cell now stored there (`None` for a cleared position). Such a listing is
/// unique; see [`lemma_dirty_listing_unique`].
pub open spec fn is_dirty_listing(v: StateV, entries: Seq<(Position, Option<CellV>)>) -> bool {
    &&& forall|i: int| #![auto] 0 <= i < entries.len() ==> {
        &&& v.dirty.contains(entries[i].0)
        &&& entries[i].1 == (if v.cells.contains_key(entries[i].0) {
            Some(v.cells[entries[i].0])
        } else {
            None
        })
    }
    &&& forall|p: Position| #[trigger] v.dirty.contains(p) ==> exists|i: int|
        0 <= i < entries.len() && entries[i].0 == p
    &&& forall|i: int, j: int| 0 <= i < j < entries.len() ==> pos_lt(entries[i].0, entries[j].0)
}

/// The bytes that move the cursor from `from` to `to`: a single absolute
/// motion, or, in relative mode, column steps followed by row steps, with
/// newlines used to move down so the buffer can grow.
pub open spec fn motion_bytes(from: Position, to: Position, relative: bool) -> Seq<u8> {
    if relative {
        (if to.x > from.x {
            ansi::move_right_bytes((to.x - from.x) as u16)
        } else if to.x < from.x {
            ansi::move_left_bytes((from.x - to.x) as u16)
        } else {
            Seq::<u8>::empty()
        }) + (if to.y > from.y {
            ansi::newline_bytes((to.y - from.y) as nat)
        } else if to.y < from.y {
            ansi::move_up_bytes((from.y - to.y) as u16)
        } else {
            Seq::<u8>::empty()
        })
    } else {
        ansi::move_to_bytes(to.x, to.y)
    }
}

/// The bytes that draw one cell: a plain space for a cleared position, the
/// cluster's encoding for an unstyled cell, and for a styled cell the style's
/// prefix, the cluster, and a trailing reset.
pub open spec fn print_bytes(cell: Option<CellV>) -> Seq<u8> {
    match cell {
        None => seq![0x20u8],
        Some(c) => match c.style {
            None => utf8_of(c.grapheme),
            Some(st) => ansi::style_prefix_bytes(st) + utf8_of(c.grapheme) + ansi::sgr_reset_bytes(),
        },
    }
}

/// The cursor position after printing a cell at `p`: one column to the
/// right, saturating.
pub open spec fn advance(p: Position) -> Position {
    Position { y: p.y, x: sat_add(p.x, 1) }
}

/// The bytes that realize an ordered dirty listing: for each entry, a motion
/// when the cursor is elsewhere, then the cell's print.
pub open spec fn emit_cells(
    entries: Seq<(Position, Option<CellV>)>,
    cursor: Position,
    relative: bool,
) -> Seq<u8>
    decreases entries.len(),
{
    if entries.len() == 0 {
        Seq::<u8>::empty()
    } else {
        let motion = if cursor == entries[0].0 {
            Seq::<u8>::empty()
        } else {
            motion_bytes(cursor, entries[0].0, relative)
        };
        motion + print_bytes(entries[0].1) + emit_cells(
            entries.drop_first(),
            advance(entries[0].0),
            relative,
        )
    }
}

/// The tracked cursor position after the dirty listing has been emitted.
pub open spec fn cursor_after_cells(
    entries: Seq<(Position, Option<CellV>)>,
    cursor: Position,
) -> Position {
    if entries.len() == 0 {
        cursor
    } else {
        advance(entries.last().0)
    }
}

/// The bytes a commit ends with: a motion to the staged cursor and a
/// show-cursor when one is staged, nothing otherwise (the cursor stays
/// hidden).
pub open spec fn cursor_tail_bytes(
    cursor: Position,
    staged: Option<Position>,
    relative: bool,
) -> Seq<u8> {
    match staged {
        Some(p) => motion_bytes(cursor, p, relative) + ansi::show_bytes(),
        None => Seq::<u8>::empty(),
    }
}

/// Everything one commit hands to the device: hide the cursor, realize the
/// dirty listing in order, then park the cursor.
pub open spec fn apply_bytes(
    entries: Seq<(Position, Option<CellV>)>,
    cursor: Position,
    relative: bool,
    staged: Option<Position>,
) -> Seq<u8> {
    ansi::hide_bytes() + emit_cells(entries, cursor, relative) + cursor_tail_bytes(
        cursor_after_cells(entries, cursor),
        staged,
        relative,
    )
}

/// Whether `after` extends `before` by some prefix of `commit`: what can be
/// said of the device's byte history when handing over `commit` fails
/// partway.
pub open spec fn emitted_prefix(before: Seq<u8>, after: Seq<u8>, commit: Seq<u8>) -> bool {
    exists|k: int|
        #![trigger commit.take(k)]
        0 <= k <= commit.len() && after == before + commit.take(k)
}

/// The interface's tracked cursor after a commit.
pub open spec fn cursor_after_apply(
    entries: Seq<(Position, Option<CellV>)>,
    cursor: Position,
    staged: Option<Position>,
) -> Position {
    match staged {
        Some(p) => p,
        None => cursor_after_cells(entries, cursor),
    }
}

/// The UTF-8 encoding of a character sequence. It is a function of the
/// characters alone; its exact statement is the UTF-8 format.
pub uninterp spec fn utf8_of(s: Seq<char>) -> Seq<u8>;

/// The UTF-8 bytes of a string.
///
/// Relies on `str::as_bytes`: a string's bytes are the UTF-8 encoding of its
/// characters, a function of the characters alone.
#[verifier::external_body]
fn utf8_bytes(s: &str) -> (r: Vec<u8>)
    ensures
        r@ == utf8_of(s@),
{
    s.as_bytes().to_vec()
}

/// Append a cursor motion to `out`.
fn push_motion(out: &mut Vec<u8>, from: Position, to: Position, relative: bool)
    ensures
        final(out)@ == old(out)@ + motion_bytes(from, to, relative),
{
    if relative {
        let ghost s0 = out@;
        if to.x > from.x {
            ansi::push_move_right(out, to.x - from.x);
        } else if to.x < from.x {
            ansi::push_move_left(out, from.x - to.x);
        }
        if to.y > from.y {
            ansi::push_newlines(out, to.y - from.y);
        } else if to.y < from.y {
            ansi::push_move_up(out, from.y - to.y);
        }
        proof {
            assert(out@ =~= s0 + motion_bytes(from, to, true));
        }
    } else {
        ansi::push_move_to(out, to.x, to.y);
    }
}

/// Append one cell's print to `out`.
fn push_print(out: &mut Vec<u8>, cell: &Option<Cell>)
    ensures
        final(out)@ == old(out)@ + print_bytes(cell_opt_view(*cell)),
{
    match cell {
        None => {
            out.push(0x20);
            proof {
                assert(out@ =~= old(out)@ + print_bytes(cell_opt_view(*cell)));
            }
        },
        Some(c) => {
            match &c.style {
                Some(st) => {
                    let ghost s0 = out@;
                    ansi::push_style_prefix(out, st);
                    let text = utf8_bytes(c.grapheme.as_str());
                    out.extend_from_slice(text.as_slice());
                    ansi::push_sgr_reset(out);
                    proof {
                        assert(out@ =~= s0 + print_bytes(cell_opt_view(*cell)));
                    }
                },
                None => {
                    let ghost s0 = out@;
                    let text = utf8_bytes(c.grapheme.as_str());
                    out.extend_from_slice(text.as_slice());
                    proof {
                        assert(out@ =~= s0 + print_bytes(cell_opt_view(*cell)));
                    }
                },
            }
        },
    }
}

/// A TTY-based user-interface providing optimized update rendering.
///
/// Callers stage cell updates against an uncommitted alternate grid; `apply`
/// swaps it in and emits to the device exactly the bytes that the changed
/// cells require.
pub struct Interface<D: Device> {
    device: D,
    size: Vector,
    current: State,
    alternate: Option<State>,
    staged_cursor: Option<Position>,
    cursor: Position,
    relative: bool,
}

impl<D: Device> View for Interface<D> {
    type V = InterfaceV;

    closed spec fn view(&self) -> InterfaceV {
        InterfaceV {
            size: self.size,
            current: self.current@,
            alternate: match self.alternate {
                Some(a) => Some(a@),
                None => None,
            },
            staged_cursor: self.staged_cursor,
            cursor: self.cursor,
            relative: self.relative,
            emitted: self.device.sent(),
            reported: self.device.sizes(),
            raw: self.device.raw_mode(),
        }
    }
}

impl<D: Device> Interface<D> {
    /// Create a new interface for the specified device on the alternate
    /// screen: raw mode is enabled, the alternate screen entered and cleared,
    /// the cursor hidden and parked at the origin. If a setup step fails
    /// after raw mode was enabled, the terminal is restored best-effort --
    /// the cursor shown, the alternate screen left, raw mode released --
    /// before the error is returned.
    pub fn new_alternate(device: D) -> (r: Result<Interface<D>, Error>)
        ensures
            r matches Ok(i) ==> {
                &&& i@.current.cells == Map::<Position, CellV>::empty()
                &&& i@.current.dirty == Set::<Position>::empty()
                &&& i@.alternate is None
                &&& i@.staged_cursor is None
                &&& i@.cursor == (Position { y: 0, x: 0 })
                &&& !i@.relative
                &&& i@.reported == device.sizes().push(i@.size)
                &&& i@.raw
                &&& i@.emitted == device.sent() + ansi::enter_alternate_bytes()
                    + ansi::clear_all_bytes() + ansi::hide_bytes() + ansi::move_to_bytes(0, 0)
            },
    {
        let mut device = device;
        let size = match device.get_terminal_size() {
            Ok(s) => s,
            Err(e) => {
                return Err(e);
            },
        };
        match device.enable_raw_mode() {
            Ok(()) => {},
            Err(e) => {
                return Err(e);
            },
        }

        let mut out: Vec<u8> = Vec::new();
        ansi::push_enter_alternate(&mut out);
        ansi::push_clear_all(&mut out);
        ansi::push_hide(&mut out);
        ansi::push_move_to(&mut out, 0, 0);
        match device.write_bytes(out.as_slice()) {
            Ok(()) => {},
            Err(e) => {
                abandon_setup(&mut device);
                return Err(e);
            },
        }
        match device.flush() {
            Ok(()) => {},
            Err(e) => {
                abandon_setup(&mut device);
                return Err(e);
            },
        }

        Ok(
            Interface {
                device,
                size,
                current: State::new(),
                alternate: None,
                staged_cursor: None,
                cursor: Position::new(0, 0),
                relative: false,
            },
        )
    }

    /// Create a new interface for the specified device which renders
    /// relatively in the buffer: raw mode is enabled, nothing is cleared, and
    /// the interface's origin is wherever the cursor already is.
    pub fn new_relative(device: D) -> (r: Result<Interface<D>, Error>)
        ensures
            r matches Ok(i) ==> {
                &&& i@.current.cells == Map::<Position, CellV>::empty()
                &&& i@.current.dirty == Set::<Position>::empty()
                &&& i@.alternate is None
                &&& i@.staged_cursor is None
                &&& i@.cursor == (Position { y: 0, x: 0 })
                &&& i@.relative
                &&& i@.reported == device.sizes().push(i@.size)
                &&& i@.raw
                &&& i@.emitted == device.sent()
            },
    {
        let mut device = device;
        let size = match device.get_terminal_size() {
            Ok(s) => s,
            Err(e) => {
                return Err(e);
            },
        };
        match device.enable_raw_mode() {
            Ok(()) => {},
            Err(e) => {
                return Err(e);
            },
        }

        Ok(
            Interface {
                device,
                size,
                current: State::new(),
                alternate: None,
                staged_cursor: None,
                cursor: Position::new(0, 0),
                relative: true,
            },
        )
    }

    /// Borrow the underlying device, for inspection: only the device's own
    /// histories can change through the borrow.
    pub fn device(&mut self) -> (r: &mut D)
        ensures
            (*r).sent() == old(self)@.emitted,
            (*r).sizes() == old(self)@.reported,
            (*r).raw_mode() == old(self)@.raw,
            final(self)@ == (InterfaceV {
                emitted: final(r).sent(),
                reported: final(r).sizes(),
                raw: final(r).raw_mode(),
                ..old(self)@
            }),
    {
        &mut self.device
    }

    /// Ensure an alternate state exists, snapshotting the current state on
    /// the first staging operation after a commit.
    fn ensure_alternate(&mut self)
        ensures
            final(self)@ == (InterfaceV {
                alternate: Some(staged_view(old(self)@)),
                ..old(self)@
            }),
    {
        match &self.alternate {
            Some(_) => {},
            None => {
                self.alternate = Some(self.current.snapshot());
            },
        }
    }

    /// Update the interface's text at the specified position. Changes are
    /// staged until applied.
    pub fn set(&mut self, position: Position, text: &str)
        ensures
            final(self)@ == (InterfaceV {
                alternate: Some(
                    place_text(
                        staged_view(old(self)@),
                        graphemes_of(text@),
                        position.x,
                        position.y,
                        old(self)@.size.x,
                        None,
                    ),
                ),
                ..old(self)@
            }),
    {
        self.stage_text(position, text, None)
    }

    /// Update the interface's text at the specified position with styling.
    /// Changes are staged until applied.
    pub fn set_styled(&mut self, position: Position, text: &str, style: Style)
        ensures
            final(self)@ == (InterfaceV {
                alternate: Some(
                    place_text(
                        staged_view(old(self)@),
                        graphemes_of(text@),
                        position.x,
                        position.y,
                        old(self)@.size.x,
                        Some(style),
                    ),
                ),
                ..old(self)@
            }),
    {
        self.stage_text(position, text, Some(style))
    }

    /// Stages the specified text and optional style at a position in the
    /// terminal, splitting it into grapheme clusters, one cell each.
    fn stage_text(&mut self, position: Position, text: &str, style: Option<Style>)
        ensures
            final(self)@ == (InterfaceV {
                alternate: Some(
                    place_text(
                        staged_view(old(self)@),
                        graphemes_of(text@),
                        position.x,
                        position.y,
                        old(self)@.size.x,
                        style,
                    ),
                ),
                ..old(self)@
            }),
    {
        self.ensure_alternate();
        let taken = self.alternate.take();
        let mut alternate = match taken {
            Some(a) => a,
            None => {
                proof {
                    assert(false);
                }
                State::new()
            },
        };

        let clusters = split_graphemes(text);
        let ghost gs = graphemes_of(text@);
        let ghost v0 = alternate@;
        let width = self.size.x();

        let mut column = position.x();
        let mut line = position.y();
        proof {
            assert(gs.skip(0) =~= gs);
        }
        let mut i: usize = 0;
        while i < clusters.len()
            invariant
                clusters@.map_values(|g: String| g@) == gs,
                forall|j: int| 0 <= j < clusters@.len() ==> (#[trigger] clusters@[j])@.len() > 0,
                i <= clusters.len(),
                width == self@.size.x,
                place_text(v0, gs, position.x, position.y, width, style) == place_text(
                    alternate@,
                    gs.skip(i as int),
                    column,
                    line,
                    width,
                    style,
                ),
            decreases clusters.len() - i,
        {
            let grapheme = &clusters[i];
            let target = wrap_exec(column, line, width);
            match style {
                Some(st) => alternate.set_styled_text(target, grapheme.as_str(), st),
                None => alternate.set_text(target, grapheme.as_str()),
            }
            proof {
                assert(gs.skip(i as int)[0] == gs[i as int]);
                assert(gs.skip(i as int).drop_first() =~= gs.skip(i as int + 1));
            }
            column = if target.x() < 0xffff {
                target.x() + 1
            } else {
                0xffff
            };
            line = target.y();
            i += 1;
        }

        proof {
            assert(gs.skip(clusters@.len() as int) =~= Seq::<Seq<char>>::empty());
        }
        self.alternate = Some(alternate);
    }

    /// Clear all text on the specified line. Changes are staged until
    /// applied.
    pub fn clear_line(&mut self, line: u16)
        ensures
            final(self)@ == (InterfaceV {
                alternate: Some(
                    clear_sel(staged_view(old(self)@), (|p: Position| p.y == line)),
                ),
                ..old(self)@
            }),
    {
        self.ensure_alternate();
        let taken = self.alternate.take();
        match taken {
            Some(mut a) => {
                a.clear_line(line);
                self.alternate = Some(a);
            },
            None => {
                proof {
                    assert(false);
                }
            },
        }
    }

    /// Clear the remainder of the line from the specified position. Changes
    /// are staged until applied.
    pub fn clear_rest_of_line(&mut self, from: Position)
        ensures
            final(self)@ == (InterfaceV {
                alternate: Some(
                    clear_sel(
                        staged_view(old(self)@),
                        (|p: Position| p.y == from.y && p.x >= from.x),
                    ),
                ),
                ..old(self)@
            }),
    {
        self.ensure_alternate();
        let taken = self.alternate.take();
        match taken {
            Some(mut a) => {
                a.clear_rest_of_line(from);
                self.alternate = Some(a);
            },
            None => {
                proof {
                    assert(false);
                }
            },
        }
    }

    /// Clear the remainder of the interface from the specified position, in
    /// the `(y, x)` order. Changes are staged until applied.
    pub fn clear_rest_of_interface(&mut self, from: Position)
        ensures
            final(self)@ == (InterfaceV {
                alternate: Some(
                    clear_sel(staged_view(old(self)@), (|p: Position| pos_le(from, p))),
                ),
                ..old(self)@
            }),
    {
        self.ensure_alternate();
        let taken = self.alternate.take();
        match taken {
            Some(mut a) => {
                a.clear_rest_of_interface(from);
                self.alternate = Some(a);
            },
            None => {
                proof {
                    assert(false);
                }
            },
        }
    }

    /// Update the interface's cursor to the specified position, or hide it if
    /// unspecified. The choice takes effect on commit and persists.
    pub fn set_cursor(&mut self, position: Option<Position>)
        ensures
            final(self)@ == (InterfaceV {
                alternate: Some(staged_view(old(self)@)),
                staged_cursor: position,
                ..old(self)@
            }),
    {
        self.ensure_alternate();
        self.staged_cursor = position;
    }

    /// Applies staged changes to the terminal: the alternate state is
    /// promoted to current, and the dirty cells are emitted to the device in
    /// `(y, x)` order, with cursor motions as needed. Without staged changes
    /// this is a no-op that touches nothing and emits nothing; since a
    /// successful commit consumes the alternate, committing twice in a row
    /// hands the device no bytes the second time.
    pub fn apply(&mut self) -> (r: Result<(), Error>)
        ensures
            old(self)@.alternate is None ==> r is Ok && final(self)@ == old(self)@,
            old(self)@.alternate matches Some(alt) ==> {
                &&& final(self)@.size == old(self)@.size
                &&& final(self)@.relative == old(self)@.relative
                &&& final(self)@.staged_cursor == old(self)@.staged_cursor
                &&& final(self)@.reported == old(self)@.reported
                &&& final(self)@.raw == old(self)@.raw
                &&& final(self)@.alternate is None
                &&& exists|entries: Seq<(Position, Option<CellV>)>| {
                    &&& #[trigger] is_dirty_listing(alt, entries)
                    &&& final(self)@.cursor == cursor_after_apply(
                        entries,
                        old(self)@.cursor,
                        old(self)@.staged_cursor,
                    )
                    &&& r is Ok ==> final(self)@.emitted == old(self)@.emitted + apply_bytes(
                        entries,
                        old(self)@.cursor,
                        old(self)@.relative,
                        old(self)@.staged_cursor,
                    )
                    &&& r is Err ==> emitted_prefix(
                        old(self)@.emitted,
                        final(self)@.emitted,
                        apply_bytes(
                            entries,
                            old(self)@.cursor,
                            old(self)@.relative,
                            old(self)@.staged_cursor,
                        ),
                    )
                }
                &&& r is Ok ==> final(self)@.current == (StateV {
                    cells: alt.cells,
                    dirty: Set::<Position>::empty(),
                })
                &&& r is Err ==> final(self)@.current == alt
            },
    {
        let taken = self.alternate.take();
        let alternate = match taken {
            Some(a) => a,
            None => {
                return Ok(());
            },
        };
        let ghost alt = alternate@;
        self.current = alternate;

        let entries = self.current.dirty_iter();
        let ghost entries_v = entries@.map_values(
            |e: (Position, Option<Cell>)| (e.0, cell_opt_view(e.1)),
        );
        proof {
            assert forall|p: Position| #[trigger] alt.dirty.contains(p) implies exists|i: int|
                0 <= i < entries_v.len() && entries_v[i].0 == p by {
                let i = choose|i: int| 0 <= i < entries@.len() && entries@[i].0 == p;
                assert(entries_v[i].0 == p);
            }
            assert(is_dirty_listing(alt, entries_v));
        }

        let ghost cursor0 = self.cursor;
        let mut out: Vec<u8> = Vec::new();
        ansi::push_hide(&mut out);

        proof {
            assert(entries_v.skip(0) =~= entries_v);
            assert(entries_v.take(0) =~= Seq::<(Position, Option<CellV>)>::empty());
        }
        let mut i: usize = 0;
        while i < entries.len()
            invariant
                entries_v == entries@.map_values(
                    |e: (Position, Option<Cell>)| (e.0, cell_opt_view(e.1)),
                ),
                i <= entries.len(),
                self.size == old(self).size,
                self.relative == old(self).relative,
                self.staged_cursor == old(self).staged_cursor,
                self.alternate is None,
                self.current@ == alt,
                self.device == old(self).device,
                self.cursor == cursor_after_cells(entries_v.take(i as int), cursor0),
                ansi::hide_bytes() + emit_cells(entries_v, cursor0, self.relative) == out@
                    + emit_cells(entries_v.skip(i as int), self.cursor, self.relative),
            decreases entries.len() - i,
        {
            let position = entries[i].0;
            let ghost pre_cursor = self.cursor;
            if !positions_equal(&self.cursor, &position) {
                push_motion(&mut out, self.cursor, position, self.relative);
            }
            push_print(&mut out, &entries[i].1);
            self.cursor = position.translate(1, 0);
            proof {
                assert(entries_v.skip(i as int)[0] == entries_v[i as int]);
                assert(entries_v.skip(i as int).drop_first() =~= entries_v.skip(i as int + 1));
                assert(entries_v.take(i as int + 1).last() == entries_v[i as int]);
                assert(self.cursor == advance(position));
            }
            i += 1;
        }

        proof {
            assert(entries_v.skip(entries@.len() as int) =~= Seq::<
                (Position, Option<CellV>),
            >::empty());
            assert(entries_v.take(entries@.len() as int) =~= entries_v);
        }

        match self.staged_cursor {
            Some(p) => {
                push_motion(&mut out, self.cursor, p, self.relative);
                self.cursor = p;
                ansi::push_show(&mut out);
            },
            None => {},
        }

        proof {
            assert(out@ =~= apply_bytes(entries_v, cursor0, self.relative, self.staged_cursor));
            assert(old(self)@.alternate.unwrap() == alt);
            assert(is_dirty_listing(old(self)@.alternate.unwrap(), entries_v));
        }

        let ghost commit = apply_bytes(entries_v, cursor0, self.relative, self.staged_cursor);
        let ghost sent_before = self.device.sent();
        match self.device.write_bytes(out.as_slice()) {
            Ok(()) => {},
            Err(e) => {
                proof {
                    let k = choose|k: int|
                        0 <= k <= out@.len() && self.device.sent() == sent_before + out@.take(k);
                    assert(commit.take(k) == out@.take(k));
                    assert(self.device.sent() == sent_before + commit.take(k));
                    assert(emitted_prefix(sent_before, self.device.sent(), commit));
                }
                return Err(e);
            },
        }
        match self.device.flush() {
            Ok(()) => {},
            Err(e) => {
                proof {
                    assert(commit.take(commit.len() as int) =~= commit);
                    assert(self.device.sent() == sent_before + commit.take(commit.len() as int));
                    assert(emitted_prefix(sent_before, self.device.sent(), commit));
                }
                return Err(e);
            },
        }

        self.current.clear_dirty();
        Ok(())
    }

    /// When finished using this interface, uninitialize its terminal
    /// configuration and hand the device back: the cursor is shown again, the
    /// alternate screen left (or, in relative mode, the cursor moved below
    /// the rendered content and a fresh line begun), and raw mode released.
    pub fn exit(self) -> (r: Result<D, Error>)
        ensures
            r matches Ok(d) ==> !d.raw_mode(),
            !self@.relative ==> (r matches Ok(d) ==> d.sent() == self@.emitted + exit_bytes(
                self@.cursor,
                false,
                None,
            )),
            self@.relative ==> (r matches Ok(d) ==> exists|last: Option<Position>| {
                &&& #[trigger] is_last_position(self@.current, last)
                &&& d.sent() == self@.emitted + exit_bytes(self@.cursor, true, last)
            }),
    {
        let ghost iv = self@;
        let Interface { mut device, size: _, current, alternate: _, staged_cursor: _, cursor, relative } =
            self;

        let mut out: Vec<u8> = Vec::new();
        if !relative {
            ansi::push_show(&mut out);
            ansi::push_leave_alternate(&mut out);
            proof {
                assert(out@ =~= exit_bytes(cursor, relative, None));
            }
        } else {
            let last_position = current.get_last_position();
            match last_position {
                Some(p) => {
                    push_motion(&mut out, cursor, Position::new(0, p.y()), true);
                },
                None => {},
            }
            ansi::push_show(&mut out);
            ansi::push_newlines(&mut out, 1);
            proof {
                assert(out@ =~= exit_bytes(cursor, relative, last_position));
                assert(current@ == iv.current);
                assert(is_last_position(iv.current, last_position));
            }
        }

        match device.write_bytes(out.as_slice()) {
            Ok(()) => {},
            Err(e) => {
                return Err(e);
            },
        }
        match device.flush() {
            Ok(()) => {},
            Err(e) => {
                return Err(e);
            },
        }
        match device.disable_raw_mode() {
            Ok(()) => {},
            Err(e) => {
                return Err(e);
            },
        }

        Ok(device)
    }
}

/// Whether `last` is the `(y, x)`-greatest position holding a cell in `v`,
/// or `None` for an empty grid.
pub open spec fn is_last_position(v: StateV, last: Option<Position>) -> bool {
    match last {
        Some(p) => v.cells.contains_key(p) && forall|q: Position|
            #[trigger] v.cells.contains_key(q) ==> pos_le(q, p),
        None => forall|q: Position| !v.cells.contains_key(q),
    }
}

/// The bytes teardown hands to the device: show the cursor and leave the
/// alternate screen, or, in relative mode, move to the column 0 of the last
/// rendered row, show the cursor, and start a fresh line.
pub open spec fn exit_bytes(cursor: Position, relative: bool, last: Option<Position>) -> Seq<u8> {
    if !relative {
        ansi::show_bytes() + ansi::leave_alternate_bytes()
    } else {
        (match last {
            Some(p) => motion_bytes(cursor, Position { y: p.y, x: 0 }, true),
            None => Seq::<u8>::empty(),
        }) + ansi::show_bytes() + ansi::newline_bytes(1)
    }
}


/// Positions of the entries of a listing.
pub open spec fn listing_positions(entries: Seq<(Position, Option<CellV>)>) -> Seq<Position> {
    entries.map_values(|e: (Position, Option<CellV>)| e.0)
}

proof fn lemma_sorted_same_elements_equal(s1: Seq<Position>, s2: Seq<Position>)
    requires
        forall|i: int, j: int| 0 <= i < j < s1.len() ==> pos_lt(s1[i], s1[j]),
        forall|i: int, j: int| 0 <= i < j < s2.len() ==> pos_lt(s2[i], s2[j]),
        forall|p: Position| s1.contains(p) <==> s2.contains(p),
    ensures
        s1 == s2,
    decreases s1.len(),
{
    if s1.len() == 0 {
        if s2.len() > 0 {
            assert(s2.contains(s2[0]));
            assert(s1.contains(s2[0]));
        }
        assert(s1 =~= s2);
    } else {
        assert(s1.contains(s1[0]));
        assert(s2.contains(s1[0]));
        if s2.len() == 0 {
            assert(false);
        }
        let a = choose|a: int| 0 <= a < s2.len() && s2[a] == s1[0];
        assert(s2.contains(s2[0]));
        assert(s1.contains(s2[0]));
        let b = choose|b: int| 0 <= b < s1.len() && s1[b] == s2[0];
        if a > 0 {
            assert(pos_lt(s2[0], s2[a]));
            if b > 0 {
                assert(pos_lt(s1[0], s1[b]));
            }
            assert(false);
        }
        assert(s1[0] == s2[0]);
        let t1 = s1.drop_first();
        let t2 = s2.drop_first();
        assert forall|p: Position| t1.contains(p) <==> t2.contains(p) by {
            if t1.contains(p) {
                let i = choose|i: int| 0 <= i < t1.len() && t1[i] == p;
                assert(s1[i + 1] == p);
                assert(pos_lt(s1[0], p));
                assert(s1.contains(p));
                assert(s2.contains(p));
                let j = choose|j: int| 0 <= j < s2.len() && s2[j] == p;
                if j == 0 {
                    assert(false);
                }
                assert(t2[j - 1] == p);
                assert(t2.contains(p));
            }
            if t2.contains(p) {
                let i = choose|i: int| 0 <= i < t2.len() && t2[i] == p;
                assert(s2[i + 1] == p);
                assert(pos_lt(s2[0], p));
                assert(s2.contains(p));
                assert(s1.contains(p));
                let j = choose|j: int| 0 <= j < s1.len() && s1[j] == p;
                if j == 0 {
                    assert(false);
                }
                assert(t1[j - 1] == p);
                assert(t1.contains(p));
            }
        }
        lemma_sorted_same_elements_equal(t1, t2);
        assert forall|i: int| 0 <= i < s1.len() implies s1[i] == s2[i] by {
            if i > 0 {
                assert(t1[i - 1] == s1[i]);
                assert(t2[i - 1] == s2[i]);
                assert(t1[i - 1] == t2[i - 1]);
            }
        }
        assert(s1 =~= s2);
    }
}

/// A state's ordered dirty listing is unique: the listing's order and
/// contents are fully determined, so a commit's emission order is too.
pub proof fn lemma_dirty_listing_unique(
    v: StateV,
    e1: Seq<(Position, Option<CellV>)>,
    e2: Seq<(Position, Option<CellV>)>,
)
    requires
        is_dirty_listing(v, e1),
        is_dirty_listing(v, e2),
    ensures
        e1 == e2,
{
    let p1 = listing_positions(e1);
    let p2 = listing_positions(e2);
    assert forall|p: Position| p1.contains(p) <==> p2.contains(p) by {
        if p1.contains(p) {
            let i = choose|i: int| 0 <= i < p1.len() && p1[i] == p;
            assert(e1[i].0 == p);
            assert(v.dirty.contains(p));
            let j = choose|j: int| 0 <= j < e2.len() && e2[j].0 == p;
            assert(p2[j] == p);
        }
        if p2.contains(p) {
            let i = choose|i: int| 0 <= i < p2.len() && p2[i] == p;
            assert(e2[i].0 == p);
            assert(v.dirty.contains(p));
            let j = choose|j: int| 0 <= j < e1.len() && e1[j].0 == p;
            assert(p1[j] == p);
        }
    }
    assert forall|i: int, j: int| 0 <= i < j < p1.len() implies pos_lt(p1[i], p1[j]) by {
        assert(pos_lt(e1[i].0, e1[j].0));
    }
    assert forall|i: int, j: int| 0 <= i < j < p2.len() implies pos_lt(p2[i], p2[j]) by {
        assert(pos_lt(e2[i].0, e2[j].0));
    }
    lemma_sorted_same_elements_equal(p1, p2);
    assert forall|i: int| 0 <= i < e1.len() implies e1[i] == e2[i] by {
        assert(p1[i] == p2[i]);
        assert(e1[i].0 == e2[i].0);
    }
    assert(e1 =~= e2);
}

/// Starting a placement past the last legal column is the same as starting
/// it at the head of the next line.
pub proof fn lemma_place_text_wrap_start(
    v: StateV,
    gs: Seq<Seq<char>>,
    column: u16,
    line: u16,
    width: u16,
    style: Option<Style>,
)
    requires
        column >= width,
        width >= 1,
        line < 0xffff,
    ensures
        place_text(v, gs, column, line, width, style) == place_text(
            v,
            gs,
            0,
            (line + 1) as u16,
            width,
            style,
        ),
{
    if gs.len() > 0 {
        assert(wrap_position(column, line, width) == wrap_position(0, (line + 1) as u16, width));
    }
}

/// Placing clusters that all fit on one row: each cluster `i` lands at
/// column `x0 + i` of row `y0`, and every other position is untouched.
pub proof fn lemma_place_text_row(
    v: StateV,
    gs: Seq<Seq<char>>,
    x0: u16,
    y0: u16,
    width: u16,
    style: Option<Style>,
)
    requires
        x0 + gs.len() <= width,
    ensures
        forall|i: int| #![trigger gs[i]] 0 <= i < gs.len() ==> {
            let q = (Position { y: y0, x: (x0 + i) as u16 });
            &&& place_text(v, gs, x0, y0, width, style).cells.contains_key(q)
            &&& place_text(v, gs, x0, y0, width, style).cells[q] == (CellV {
                grapheme: gs[i],
                style,
            })
        },
        forall|q: Position|
            #![trigger place_text(v, gs, x0, y0, width, style).cells.contains_key(q)]
            !(q.y == y0 && x0 <= q.x < x0 + gs.len()) ==> {
            &&& place_text(v, gs, x0, y0, width, style).cells.contains_key(q)
                == v.cells.contains_key(q)
            &&& (v.cells.contains_key(q) ==> place_text(v, gs, x0, y0, width, style).cells[q]
                == v.cells[q])
            &&& place_text(v, gs, x0, y0, width, style).dirty.contains(q) == v.dirty.contains(q)
        },
    decreases gs.len(),
{
    if gs.len() > 0 {
        let p0 = wrap_position(x0, y0, width);
        assert(p0 == (Position { y: y0, x: x0 }));
        let c0 = CellV { grapheme: gs[0], style };
        let v1 = stage_cell(v, p0, c0);
        lemma_place_text_row(v1, gs.drop_first(), (x0 + 1) as u16, y0, width, style);
        let result = place_text(v, gs, x0, y0, width, style);
        assert(result == place_text(v1, gs.drop_first(), (x0 + 1) as u16, y0, width, style));
        assert(v1.cells.contains_key(p0) && v1.cells[p0] == c0);
        assert forall|i: int| #![trigger gs[i]] 0 <= i < gs.len() implies {
            let q = (Position { y: y0, x: (x0 + i) as u16 });
            &&& result.cells.contains_key(q)
            &&& result.cells[q] == (CellV { grapheme: gs[i], style })
        } by {
            if i == 0 {
                let q = (Position { y: y0, x: x0 });
                assert(!(q.y == y0 && x0 + 1 <= q.x < x0 + 1 + gs.drop_first().len()));
            } else {
                assert(gs.drop_first()[i - 1] == gs[i]);
            }
        }
    }
}

/// Wrapping at the end of a line: clusters written starting at the last
/// legal column place the first cluster there, and each later cluster `i` at
/// column `i - 1` of the next line down.
pub proof fn lemma_wrap_at_line_end(
    v: StateV,
    gs: Seq<Seq<char>>,
    y: u16,
    width: u16,
    style: Option<Style>,
)
    requires
        width >= 1,
        y < 0xffff,
        1 <= gs.len(),
        gs.len() <= width,
    ensures
        ({
            let result = place_text(v, gs, (width - 1) as u16, y, width, style);
            &&& result.cells.contains_key(Position { y, x: (width - 1) as u16 })
            &&& result.cells[Position { y, x: (width - 1) as u16 }] == (CellV {
                grapheme: gs[0],
                style,
            })
            &&& forall|i: int| #![trigger gs[i]] 1 <= i < gs.len() ==> {
                let q = (Position { y: (y + 1) as u16, x: (i - 1) as u16 });
                &&& result.cells.contains_key(q)
                &&& result.cells[q] == (CellV { grapheme: gs[i], style })
            }
        }),
{
    let x0 = (width - 1) as u16;
    let p0 = wrap_position(x0, y, width);
    assert(p0 == (Position { y, x: x0 }));
    let c0 = CellV { grapheme: gs[0], style };
    let v1 = stage_cell(v, p0, c0);
    let result = place_text(v, gs, x0, y, width, style);
    assert(result == place_text(v1, gs.drop_first(), width, y, width, style));
    lemma_place_text_wrap_start(v1, gs.drop_first(), width, y, width, style);
    lemma_place_text_row(v1, gs.drop_first(), 0, (y + 1) as u16, width, style);
    assert(v1.cells.contains_key(p0) && v1.cells[p0] == c0);
    assert(result.cells.contains_key(p0) && result.cells[p0] == c0) by {
        assert(!(p0.y == (y + 1) as u16 && 0 <= p0.x < 0 + gs.drop_first().len()));
    }
    assert forall|i: int| #![trigger gs[i]] 1 <= i < gs.len() implies {
        let q = (Position { y: (y + 1) as u16, x: (i - 1) as u16 });
        &&& result.cells.contains_key(q)
        &&& result.cells[q] == (CellV { grapheme: gs[i], style })
    } by {
        assert(gs.drop_first()[i - 1] == gs[i]);
    }
}

/// Best-effort teardown after a failed alternate-screen setup: ask the
/// terminal to show the cursor and leave the alternate screen, and release
/// raw mode, ignoring further failures.
fn abandon_setup<D: Device>(device: &mut D) {
    let mut out: Vec<u8> = Vec::new();
    ansi::push_show(&mut out);
    ansi::push_leave_alternate(&mut out);
    let _ = device.write_bytes(out.as_slice());
    let _ = device.flush();
    let _ = device.disable_raw_mode();
}

/// The screen position of cluster `i` when placement starts at column
/// `column` of `line`: positions advance one column per cluster, wrapping at
/// `width`, so cluster `i` sits at offset `column + i` of the run.
pub open spec fn placed_position(column: u16, line: u16, width: u16, i: int) -> Position {
    Position {
        y: (line + (column + i) / (width as int)) as u16,
        x: ((column + i) % (width as int)) as u16,
    }
}

/// Whether `q` is none of the first `n` placement positions of a run
/// starting at column `column` of `line`.
pub open spec fn avoids_placements(q: Position, column: u16, line: u16, width: u16, n: int) -> bool {
    forall|i: int|
        #![trigger placed_position(column, line, width, i)]
        0 <= i < n ==> q != placed_position(column, line, width, i)
}

proof fn lemma_placed_distinct(column: u16, line: u16, width: u16, i: int, j: int)
    requires
        1 <= width,
        0 <= i < j,
        line + (column + j) / (width as int) <= 0xffff,
    ensures
        placed_position(column, line, width, i) != placed_position(column, line, width, j),
{
    let w = width as int;
    let t1 = column + i;
    let t2 = column + j;
    vstd::arithmetic::div_mod::lemma_div_is_ordered(t1, t2, w);
    vstd::arithmetic::div_mod::lemma_div_pos_is_pos(t1, w);
    vstd::arithmetic::div_mod::lemma_mod_division_less_than_divisor(t1, w);
    vstd::arithmetic::div_mod::lemma_mod_division_less_than_divisor(t2, w);
    if t1 / w == t2 / w {
        vstd::arithmetic::div_mod::lemma_fundamental_div_mod(t1, w);
        vstd::arithmetic::div_mod::lemma_fundamental_div_mod(t2, w);
        assert(t1 % w < t2 % w);
        assert(placed_position(column, line, width, i).x != placed_position(
            column,
            line,
            width,
            j,
        ).x);
    } else {
        assert(t1 / w < t2 / w);
        assert(placed_position(column, line, width, i).y != placed_position(
            column,
            line,
            width,
            j,
        ).y);
    }
}

/// Placement characterized in full: starting at column `column` of `line`
/// (a legal column), and with every touched row inside the coordinate space,
/// cluster `i` of `gs` lands exactly at [`placed_position`] `i`, and no
/// other position -- cell or dirty flag -- is touched.
pub proof fn lemma_place_text_placement(
    v: StateV,
    gs: Seq<Seq<char>>,
    column: u16,
    line: u16,
    width: u16,
    style: Option<Style>,
)
    requires
        1 <= width,
        column < width,
        gs.len() >= 1 ==> line + (column + gs.len() - 1) / (width as int) <= 0xffff,
    ensures
        forall|i: int| #![trigger gs[i]] 0 <= i < gs.len() ==> {
            let q = placed_position(column, line, width, i);
            &&& place_text(v, gs, column, line, width, style).cells.contains_key(q)
            &&& place_text(v, gs, column, line, width, style).cells[q] == (CellV {
                grapheme: gs[i],
                style,
            })
        },
        forall|q: Position|
            #![trigger avoids_placements(q, column, line, width, gs.len() as int)]
            avoids_placements(q, column, line, width, gs.len() as int) ==> {
            &&& place_text(v, gs, column, line, width, style).cells.contains_key(q)
                == v.cells.contains_key(q)
            &&& (v.cells.contains_key(q) ==> place_text(
                v,
                gs,
                column,
                line,
                width,
                style,
            ).cells[q] == v.cells[q])
            &&& place_text(v, gs, column, line, width, style).dirty.contains(q)
                == v.dirty.contains(q)
        },
    decreases gs.len(),
{
    let w = width as int;
    if gs.len() == 0 {
        return ;
    }
    let p0 = wrap_position(column, line, width);
    assert(p0 == (Position { y: line, x: column }));
    vstd::arithmetic::div_mod::lemma_basic_div(column as int, w);
    vstd::arithmetic::div_mod::lemma_small_mod(column as nat, width as nat);
    assert(placed_position(column, line, width, 0) == p0);

    let c0 = CellV { grapheme: gs[0], style };
    let v1 = stage_cell(v, p0, c0);
    let tail = gs.drop_first();
    let result = place_text(v, gs, column, line, width, style);
    assert(result == place_text(v1, tail, (column + 1) as u16, line, width, style));

    if tail.len() == 0 {
        assert(result == v1);
        assert(v1.cells.contains_key(p0) && v1.cells[p0] == c0);
        return ;
    }

    // Every touched row stays representable: the run's last offset bounds
    // them all.
    assert(line + (column + 1) / w <= 0xffff) by {
        vstd::arithmetic::div_mod::lemma_div_is_ordered(column + 1, column + gs.len() - 1, w);
    }

    // The continuation point: the column and line the tail is placed from.
    let ghost c2: u16 = if column + 1 < width {
        (column + 1) as u16
    } else {
        0u16
    };
    let ghost r2: u16 = if column + 1 < width {
        line
    } else if line < 0xffff {
        (line + 1) as u16
    } else {
        0xffff
    };

    if column + 1 >= width {
        // The next cluster wraps to the head of the following line.
        assert(line < 0xffff) by {
            vstd::arithmetic::div_mod::lemma_div_by_self(w);
            vstd::arithmetic::div_mod::lemma_div_is_ordered(w, column + gs.len() - 1, w);
        }
        lemma_place_text_wrap_start(v1, tail, width, line, width, style);
    }
    assert(r2 + (c2 + tail.len() - 1) / w <= 0xffff) by {
        if column + 1 < width {
            assert(c2 + tail.len() - 1 == column + gs.len() - 1);
        } else {
            vstd::arithmetic::div_mod::lemma_div_plus_one(tail.len() - 1, w);
            assert(column + gs.len() - 1 == w + (tail.len() - 1));
        }
    }
    lemma_place_text_placement(v1, tail, c2, r2, width, style);
    let ghost pt = place_text(v1, tail, c2, r2, width, style);
    assert(result == pt);

    // Tail positions, re-expressed from the original starting point.
    assert forall|j: int|
        #![trigger placed_position(c2, r2, width, j)]
        0 <= j < tail.len() implies placed_position(c2, r2, width, j) == placed_position(
        column,
        line,
        width,
        j + 1,
    ) by {
        if column + 1 < width {
            assert(c2 + j == column + (j + 1));
        } else {
            vstd::arithmetic::div_mod::lemma_div_plus_one(j, w);
            vstd::arithmetic::div_mod::lemma_mod_add_multiples_vanish(j, w);
            assert(column + (j + 1) == w + j);
            assert((w + j) / w == 1 + j / w);
            assert((w + j) % w == j % w);
        }
    }

    // The tail leaves the head cell alone: its positions all differ from the
    // head's.
    assert forall|j: int|
        #![trigger placed_position(c2, r2, width, j)]
        0 <= j < tail.len() implies p0 != placed_position(c2, r2, width, j) by {
        assert(placed_position(c2, r2, width, j) == placed_position(column, line, width, j + 1));
        vstd::arithmetic::div_mod::lemma_div_is_ordered(column + (j + 1), column + gs.len() - 1, w);
        lemma_placed_distinct(column, line, width, 0, j + 1);
    }
    assert(avoids_placements(p0, c2, r2, width, tail.len() as int));
    assert(place_text(v1, tail, c2, r2, width, style).cells.contains_key(p0)
        == v1.cells.contains_key(p0) && (v1.cells.contains_key(p0) ==> place_text(
        v1,
        tail,
        c2,
        r2,
        width,
        style,
    ).cells[p0] == v1.cells[p0]));
    assert(result.cells.contains_key(p0) && result.cells[p0] == c0);

    assert forall|i: int| #![trigger gs[i]] 0 <= i < gs.len() implies {
        let q = placed_position(column, line, width, i);
        &&& result.cells.contains_key(q)
        &&& result.cells[q] == (CellV { grapheme: gs[i], style })
    } by {
        if i >= 1 {
            assert(tail[i - 1] == gs[i]);
            assert(placed_position(c2, r2, width, i - 1) == placed_position(
                column,
                line,
                width,
                i,
            ));
        }
    }

    assert forall|q: Position|
        #![trigger avoids_placements(q, column, line, width, gs.len() as int)]
        avoids_placements(q, column, line, width, gs.len() as int) implies {
        &&& result.cells.contains_key(q) == v.cells.contains_key(q)
        &&& (v.cells.contains_key(q) ==> result.cells[q] == v.cells[q])
        &&& result.dirty.contains(q) == v.dirty.contains(q)
    } by {
        assert(q != p0) by {
            assert(q != placed_position(column, line, width, 0));
        }
        assert forall|j: int|
            #![trigger placed_position(c2, r2, width, j)]
            0 <= j < tail.len() implies q != placed_position(c2, r2, width, j) by {
            assert(placed_position(c2, r2, width, j) == placed_position(
                column,
                line,
                width,
                j + 1,
            ));
        }
        assert(avoids_placements(q, c2, r2, width, tail.len() as int));
        assert(place_text(v1, tail, c2, r2, width, style).cells.contains_key(q)
            == v1.cells.contains_key(q));
    }
}

/// Writing `n` clusters starting at the last legal column: the first cluster
/// lands at that cell, and each later cluster `i` at column `(i-1) % width`
/// of row `y + 1 + (i-1) / width`.
pub proof fn lemma_wrap_all_rows(
    v: StateV,
    gs: Seq<Seq<char>>,
    y: u16,
    width: u16,
    style: Option<Style>,
)
    requires
        1 <= width,
        1 <= gs.len(),
        gs.len() >= 2 ==> y + 1 + (gs.len() - 2) / (width as int) <= 0xffff,
    ensures
        ({
            let result = place_text(v, gs, (width - 1) as u16, y, width, style);
            &&& result.cells.contains_key(Position { y, x: (width - 1) as u16 })
            &&& result.cells[Position { y, x: (width - 1) as u16 }] == (CellV {
                grapheme: gs[0],
                style,
            })
            &&& forall|i: int| #![trigger gs[i]] 1 <= i < gs.len() ==> {
                let q = (Position {
                    y: (y + 1 + (i - 1) / (width as int)) as u16,
                    x: ((i - 1) % (width as int)) as u16,
                });
                &&& result.cells.contains_key(q)
                &&& result.cells[q] == (CellV { grapheme: gs[i], style })
            }
        }),
{
    let w = width as int;
    let column = (width - 1) as u16;
    assert(gs.len() >= 1 ==> y + (column + gs.len() - 1) / w <= 0xffff) by {
        if gs.len() == 1 {
            vstd::arithmetic::div_mod::lemma_basic_div(column as int, w);
        } else {
            vstd::arithmetic::div_mod::lemma_div_plus_one(gs.len() - 2, w);
            assert(column + gs.len() - 1 == w + (gs.len() - 2));
        }
    }
    lemma_place_text_placement(v, gs, column, y, width, style);
    vstd::arithmetic::div_mod::lemma_basic_div(column as int, w);
    vstd::arithmetic::div_mod::lemma_small_mod(column as nat, width as nat);
    assert(placed_position(column, y, width, 0) == (Position { y, x: column }));
    assert forall|i: int| #![trigger gs[i]] 1 <= i < gs.len() implies placed_position(
        column,
        y,
        width,
        i,
    ) == (Position {
        y: (y + 1 + (i - 1) / w) as u16,
        x: ((i - 1) % w) as u16,
    }) by {
        vstd::arithmetic::div_mod::lemma_div_plus_one(i - 1, w);
        vstd::arithmetic::div_mod::lemma_mod_add_multiples_vanish(i - 1, w);
        assert(column + i == w + (i - 1));
        assert((w + (i - 1)) / w == 1 + (i - 1) / w);
        assert((w + (i - 1)) % w == (i - 1) % w);
    }
}

/// Decide whether two positions are equal.
fn positions_equal(a: &Position, b: &Position) -> (r: bool)
    ensures
        r == (*a == *b),
{
    a.x == b.x && a.y == b.y
}

/// The column a cluster lands in, after wrapping.
fn wrap_exec(column: u16, line: u16, width: u16) -> (r: Position)
    ensures
        r == wrap_position(column, line, width),
{
    if column >= width {
        Position::new(0, if line < 0xffff {
            line + 1
        } else {
            0xffff
        })
    } else {
        Position::new(column, line)
    }
}

} // verus!
