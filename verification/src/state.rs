use std::collections::BTreeMap;
use std::collections::BTreeSet;
use vstd::prelude::*;
use vstd::laws_cmp::obeys_cmp;
use vstd::std_specs::btree::increasing_seq;
use vstd::std_specs::btree::spec_btree_keys_iter;
use vstd::std_specs::btree::spec_keys_iter;
use vstd::std_specs::cmp::OrdSpec;
use vstd::std_specs::iter::IteratorSpec;
use crate::position::{pos_le, pos_lt, Position};
use crate::style::Style;

verus! {

broadcast use {vstd::laws_cmp::group_laws_cmp, vstd::seq_lib::group_seq_properties};

/// A cell in the terminal's column/line grid composed of text and optional
/// style. The text is a single user-perceived character: an extended grapheme
/// cluster. The grid's update operations only ever store non-empty clusters.
#[derive(Debug, Clone, Eq, PartialEq)]
pub struct Cell {
    /// This cell's text content: one grapheme cluster.
    pub grapheme: String,
    /// If available, this cell's styling.
    pub style: Option<Style>,
}

/// The mathematical value of a [`Cell`]: its character sequence and style.
pub ghost struct CellV {
    /// The grapheme cluster's characters.
    pub grapheme: Seq<char>,
    /// The cell's styling, if any.
    pub style: Option<Style>,
}

impl View for Cell {
    type V = CellV;

    open spec fn view(&self) -> CellV {
        CellV { grapheme: self.grapheme@, style: self.style }
    }
}

impl Cell {
    /// This cell's text content.
    pub fn grapheme(&self) -> (r: &str)
        ensures
            r@ == self@.grapheme,
    {
        self.grapheme.as_str()
    }

    /// If available, this cell's styling.
    pub fn style(&self) -> (r: Option<&Style>)
        ensures
            match r {
                Some(s) => self@.style == Some(*s),
                None => self@.style is None,
            },
    {
        self.style.as_ref()
    }

    /// An exact copy of this cell.
    pub fn duplicate(&self) -> (r: Cell)
        ensures
            r@ == self@,
    {
        Cell { grapheme: self.grapheme.clone(), style: self.style }
    }
}

/// Decide whether two cells hold the same text and style.
pub fn cells_equal(a: &Cell, b: &Cell) -> (r: bool)
    ensures
        r == (a@ == b@),
{
    let text_equal = a.grapheme == b.grapheme;
    let style_equal = match (a.style, b.style) {
        (Some(x), Some(y)) => x == y,
        (None, None) => true,
        _ => false,
    };
    text_equal && style_equal
}

/// The mathematical value of a [`State`]: a partial map from positions to
/// cells, and the set of positions owed an emission on the next commit.
pub ghost struct StateV {
    /// The sparse grid: positions not in the map's domain are blank.
    pub cells: Map<Position, CellV>,
    /// The dirty positions: those whose value changed since the last flush.
    pub dirty: Set<Position>,
}

/// Store `cell` at `position`: if an identical cell is already there, nothing
/// changes (and in particular the position is not dirtied); otherwise the cell
/// is stored and the position dirtied.
pub open spec fn stage_cell(v: StateV, position: Position, cell: CellV) -> StateV {
    if v.cells.contains_key(position) && v.cells[position] == cell {
        v
    } else {
        StateV { cells: v.cells.insert(position, cell), dirty: v.dirty.insert(position) }
    }
}

/// Staging a cell equal to the one already stored changes nothing: the grid
/// is untouched and, in particular, a position that was clean stays clean, so
/// the next commit owes it no emission.
pub proof fn lemma_equal_cell_suppresses_dirty(v: StateV, position: Position, cell: CellV)
    requires
        v.cells.contains_key(position),
        v.cells[position] == cell,
    ensures
        stage_cell(v, position, cell) == v,
        !v.dirty.contains(position) ==> !stage_cell(v, position, cell).dirty.contains(position),
{
}

/// Remove every cell whose position satisfies `sel`, dirtying each position
/// that actually held a cell. Other positions are untouched.
pub open spec fn clear_sel(v: StateV, sel: spec_fn(Position) -> bool) -> StateV {
    StateV {
        cells: Map::new(
            |p: Position| v.cells.contains_key(p) && !sel(p),
            |p: Position| v.cells[p],
        ),
        dirty: Set::new(|p: Position| v.dirty.contains(p) || (v.cells.contains_key(p) && sel(p))),
    }
}

/// The grid's key encoding: positions are stored under `y * 2^16 + x`, whose
/// natural integer order coincides with the `(y, x)` lexicographic order.
pub open spec fn key_of(p: Position) -> u32 {
    (p.y * 0x10000 + p.x) as u32
}

/// The inverse of [`key_of`].
pub open spec fn pos_of_key(k: u32) -> Position {
    Position { y: (k / 0x10000) as u16, x: (k % 0x10000) as u16 }
}

proof fn lemma_key_inverse(p: Position)
    ensures
        pos_of_key(key_of(p)) == p,
{
    let y = p.y as int;
    let x = p.x as int;
    assert((y * 0x10000 + x) / 0x10000 == y && (y * 0x10000 + x) % 0x10000 == x)
        by (nonlinear_arith)
        requires
            0 <= x < 0x10000,
            0 <= y < 0x10000,
    ;
}

proof fn lemma_key_surjective(k: u32)
    ensures
        key_of(pos_of_key(k)) == k,
{
    vstd::arithmetic::div_mod::lemma_fundamental_div_mod(k as int, 0x10000);
}

proof fn lemma_key_order(a: Position, b: Position)
    ensures
        key_of(a) < key_of(b) <==> pos_lt(a, b),
        key_of(a) == key_of(b) <==> a == b,
{
    lemma_key_inverse(a);
    lemma_key_inverse(b);
    assert((a.y as int) * 0x10000 + (a.x as int) < (b.y as int) * 0x10000 + (b.x as int)
        <==> pos_lt(a, b)) by (nonlinear_arith)
        requires
            0 <= a.x < 0x10000 && 0 <= a.y < 0x10000,
            0 <= b.x < 0x10000 && 0 <= b.y < 0x10000,
            pos_lt(a, b) == (a.y < b.y || (a.y == b.y && a.x < b.x)),
    ;
}

fn key_of_exec(p: Position) -> (k: u32)
    ensures
        k == key_of(p),
{
    (p.y as u32) * 0x10000 + (p.x as u32)
}

fn pos_of_key_exec(k: u32) -> (p: Position)
    ensures
        p == pos_of_key(k),
{
    Position { y: (k / 0x10000) as u16, x: (k % 0x10000) as u16 }
}

/// The terminal interface's contents with comparison capabilities: a sparse
/// cell grid plus the set of positions whose value changed since the last
/// flush.
#[derive(Debug)]
pub struct State {
    cells: BTreeMap<u32, Cell>,
    dirty: BTreeSet<u32>,
}

impl View for State {
    type V = StateV;

    closed spec fn view(&self) -> StateV {
        StateV {
            cells: Map::new(
                |p: Position| self.cells@.contains_key(key_of(p)),
                |p: Position| self.cells@[key_of(p)]@,
            ),
            dirty: Set::new(|p: Position| self.dirty@.contains(key_of(p))),
        }
    }
}

impl State {
    /// Initialize a new, empty terminal state.
    pub fn new() -> (r: State)
        ensures
            r@.cells == Map::<Position, CellV>::empty(),
            r@.dirty == Set::<Position>::empty(),
    {
        let r = State { cells: BTreeMap::new(), dirty: BTreeSet::new() };
        proof {
            assert(r@.cells =~= Map::<Position, CellV>::empty());
            assert(r@.dirty =~= Set::<Position>::empty());
        }
        r
    }

    /// An exact copy of this state.
    pub fn snapshot(&self) -> (r: State)
        ensures
            r@ == self@,
    {
        State { cells: self.cells.clone(), dirty: self.dirty.clone() }
    }

    /// Update a particular cell's grapheme.
    pub fn set_text(&mut self, position: Position, grapheme: &str)
        requires
            grapheme@.len() > 0,
        ensures
            final(self)@ == stage_cell(
                old(self)@,
                position,
                CellV { grapheme: grapheme@, style: None },
            ),
    {
        self.handle_cell_update(position, grapheme, None)
    }

    /// Update a particular cell's grapheme and styling.
    pub fn set_styled_text(&mut self, position: Position, grapheme: &str, style: Style)
        requires
            grapheme@.len() > 0,
        ensures
            final(self)@ == stage_cell(
                old(self)@,
                position,
                CellV { grapheme: grapheme@, style: Some(style) },
            ),
    {
        self.handle_cell_update(position, grapheme, Some(style))
    }

    /// Updates state and queues dirtied positions, if they've changed.
    fn handle_cell_update(&mut self, position: Position, grapheme: &str, style: Option<Style>)
        requires
            grapheme@.len() > 0,
        ensures
            final(self)@ == stage_cell(
                old(self)@,
                position,
                CellV { grapheme: grapheme@, style },
            ),
    {
        let new_cell = Cell { grapheme: grapheme.to_owned(), style };
        let key = key_of_exec(position);

        // If this cell is unchanged, do not mark it dirty.
        let unchanged = match self.cells.get(&key) {
            Some(existing) => cells_equal(existing, &new_cell),
            None => false,
        };
        if unchanged {
            proof {
                assert(old(self)@.cells.contains_key(position));
                assert(old(self)@.cells[position] == new_cell@);
            }
            return ;
        }

        self.dirty.insert(key);
        self.cells.insert(key, new_cell);

        proof {
            let target = stage_cell(
                old(self)@,
                position,
                CellV { grapheme: grapheme@, style },
            );
            assert forall|q: Position| q != position implies key_of(q) != key by {
                lemma_key_order(q, position);
            }
            assert(self@.cells =~= target.cells);
            assert(self@.dirty =~= target.dirty);
        }
    }

    /// Clears all cells in the specified line.
    pub fn clear_line(&mut self, line: u16)
        ensures
            final(self)@ == clear_sel(old(self)@, (|p: Position| p.y == line)),
    {
        let lo = key_of_exec(Position { y: line, x: 0 });
        let hi = key_of_exec(Position { y: line, x: 0xffff });
        self.clear_key_range(lo, hi);
        proof {
            let sel_range = |p: Position| key_of(Position { y: line, x: 0 }) <= key_of(p)
                <= key_of(Position { y: line, x: 0xffff });
            let sel_line = |p: Position| p.y == line;
            assert forall|p: Position| #[trigger] sel_range(p) == sel_line(p) by {
                lemma_key_order(Position { y: line, x: 0 }, p);
                lemma_key_order(p, Position { y: line, x: 0xffff });
                lemma_key_order(Position { y: line, x: 0 }, Position { y: line, x: 0xffff });
            }
            let a = clear_sel(old(self)@, sel_range);
            let b = clear_sel(old(self)@, sel_line);
            assert(a.cells =~= b.cells);
            assert(a.dirty =~= b.dirty);
        }
    }

    /// Clears cells in the line from the specified position.
    pub fn clear_rest_of_line(&mut self, from: Position)
        ensures
            final(self)@ == clear_sel(
                old(self)@,
                (|p: Position| p.y == from.y && p.x >= from.x),
            ),
    {
        let lo = key_of_exec(from);
        let hi = key_of_exec(Position { y: from.y, x: 0xffff });
        self.clear_key_range(lo, hi);
        proof {
            let sel_range = |p: Position| key_of(from) <= key_of(p)
                <= key_of(Position { y: from.y, x: 0xffff });
            let sel_rest = |p: Position| p.y == from.y && p.x >= from.x;
            assert forall|p: Position| #[trigger] sel_range(p) == sel_rest(p) by {
                lemma_key_order(from, p);
                lemma_key_order(p, Position { y: from.y, x: 0xffff });
                lemma_key_order(from, Position { y: from.y, x: 0xffff });
            }
            let a = clear_sel(old(self)@, sel_range);
            let b = clear_sel(old(self)@, sel_rest);
            assert(a.cells =~= b.cells);
            assert(a.dirty =~= b.dirty);
        }
    }

    /// Clears cells in the interface from the specified position onward, in
    /// the `(y, x)` order.
    pub fn clear_rest_of_interface(&mut self, from: Position)
        ensures
            final(self)@ == clear_sel(old(self)@, (|p: Position| pos_le(from, p))),
    {
        let lo = key_of_exec(from);
        self.clear_key_range(lo, 0xffff_ffff);
        proof {
            let sel_range = |p: Position| key_of(from) <= key_of(p) <= 0xffff_ffff_u32;
            let sel_rest = |p: Position| pos_le(from, p);
            assert forall|p: Position| #[trigger] sel_range(p) == sel_rest(p) by {
                lemma_key_order(from, p);
            }
            let a = clear_sel(old(self)@, sel_range);
            let b = clear_sel(old(self)@, sel_rest);
            assert(a.cells =~= b.cells);
            assert(a.dirty =~= b.dirty);
        }
    }

    /// Clears cells whose keys fall in `lo ..= hi`, marking them dirtied for
    /// re-render.
    fn clear_key_range(&mut self, lo: u32, hi: u32)
        ensures
            final(self)@ == clear_sel(
                old(self)@,
                (|p: Position| lo <= key_of(p) <= hi),
            ),
    {
        let ghost key_seq = spec_keys_iter(&self.cells).remaining().unref();
        let mut removed: Vec<u32> = Vec::new();
        for k in it: self.cells.keys()
            invariant
                it.seq().unref() == key_seq,
                forall|x: u32| #[trigger] removed@.contains(x) <==> (key_seq.subrange(
                    0,
                    it.index(),
                ).contains(x) && lo <= x <= hi),
        {
            proof {
                let idx = it.index();
                assert(it.seq().unref()[idx] == *k);
                assert forall|x: u32| key_seq.subrange(0, idx + 1).contains(x) <==> (key_seq
                    .subrange(0, idx).contains(x) || x == *k) by {
                    if key_seq.subrange(0, idx + 1).contains(x) {
                        let j = choose|j: int| 0 <= j < idx + 1 && #[trigger] key_seq.subrange(
                            0,
                            idx + 1,
                        )[j] == x;
                        if j < idx {
                            assert(key_seq.subrange(0, idx)[j] == x);
                        }
                    }
                    if key_seq.subrange(0, idx).contains(x) {
                        let j = choose|j: int| 0 <= j < idx && #[trigger] key_seq.subrange(
                            0,
                            idx,
                        )[j] == x;
                        assert(key_seq.subrange(0, idx + 1)[j] == x);
                    }
                    if x == *k {
                        assert(key_seq.subrange(0, idx + 1)[idx] == x);
                    }
                }
            }
            if lo <= *k && *k <= hi {
                removed.push(*k);
            }
        }

        proof {
            broadcast use vstd::std_specs::btree::group_btree_axioms;

            assert(key_seq.subrange(0, key_seq.len() as int) =~= key_seq);
            assert forall|x: u32| #[trigger] removed@.contains(x) <==> (self.cells@.contains_key(x)
                && lo <= x <= hi) by {
                assert(key_seq.to_set() == self.cells@.dom());
                if key_seq.contains(x) {
                    assert(key_seq.to_set().contains(x));
                }
                if self.cells@.contains_key(x) {
                    assert(key_seq.to_set().contains(x));
                    assert(key_seq.contains(x));
                }
            }
        }

        let ghost cells0 = self.cells@;
        let ghost dirty0 = self.dirty@;
        let ghost mut processed = Set::<u32>::empty();

        proof {
            assert(cells0.remove_keys(processed) =~= cells0);
            assert(dirty0.union(processed) =~= dirty0);
        }

        let mut i: usize = 0;
        while i < removed.len()
            invariant
                i <= removed.len(),
                forall|x: u32| #[trigger] processed.contains(x) ==> removed@.contains(x),
                forall|j: int| 0 <= j < i ==> processed.contains(#[trigger] removed@[j]),
                self.cells@ == cells0.remove_keys(processed),
                self.dirty@ == dirty0.union(processed),
                forall|x: u32| #[trigger] removed@.contains(x) <==> (cells0.contains_key(x) && lo
                    <= x <= hi),
            decreases removed.len() - i,
        {
            let k = removed[i];
            let ghost cells_before = self.cells@;
            let ghost dirty_before = self.dirty@;
            self.cells.remove(&k);
            self.dirty.insert(k);
            proof {
                assert(removed@[i as int] == k);
                assert(removed@.contains(k));
                processed = processed.insert(k);
                assert(self.cells@ == cells_before.remove(k));
                assert(self.dirty@ == dirty_before.insert(k));
                assert(self.cells@ =~= cells0.remove_keys(processed));
                assert(self.dirty@ =~= dirty0.union(processed));
            }
            i += 1;
        }

        proof {
            assert forall|x: u32| #[trigger] removed@.contains(x) implies processed.contains(
                x,
            ) by {
                let j = choose|j: int| 0 <= j < removed@.len() && removed@[j] == x;
                assert(processed.contains(removed@[j]));
            }
            let target = clear_sel(old(self)@, (|p: Position| lo <= key_of(p) <= hi));
            assert forall|p: Position|
                #![trigger self@.cells.contains_key(p)]
                #![trigger target.cells.contains_key(p)]
                self@.cells.contains_key(p) <==> target.cells.contains_key(p) by {
                let x = key_of(p);
                assert(removed@.contains(x) <==> (cells0.contains_key(x) && lo <= x <= hi));
                assert(processed.contains(x) ==> removed@.contains(x));
            }
            assert forall|p: Position| #[trigger] self@.cells.contains_key(p) implies
                self@.cells[p] == target.cells[p] by {
            }
            assert forall|p: Position|
                #![trigger self@.dirty.contains(p)]
                #![trigger target.dirty.contains(p)]
                self@.dirty.contains(p) <==> target.dirty.contains(p) by {
                let x = key_of(p);
                assert(removed@.contains(x) <==> (cells0.contains_key(x) && lo <= x <= hi));
                assert(processed.contains(x) ==> removed@.contains(x));
            }
            assert(self@.cells =~= target.cells);
            assert(self@.dirty =~= target.dirty);
        }
    }

    /// Marks any dirty cells as clean.
    pub fn clear_dirty(&mut self)
        ensures
            final(self)@.cells == old(self)@.cells,
            final(self)@.dirty == Set::<Position>::empty(),
    {
        self.dirty.clear();
        proof {
            assert(self@.cells =~= old(self)@.cells);
            assert(self@.dirty =~= Set::<Position>::empty());
        }
    }

    /// The cell stored at the specified position, if any.
    pub fn get_cell(&self, position: Position) -> (r: Option<&Cell>)
        ensures
            match r {
                Some(c) => self@.cells.contains_key(position) && c@ == self@.cells[position],
                None => !self@.cells.contains_key(position),
            },
    {
        let key = key_of_exec(position);
        self.cells.get(&key)
    }

    /// How many cells the grid currently holds.
    pub fn cell_count(&self) -> (r: usize)
        ensures
            r == self@.cells.dom().len(),
    {
        let r = self.cells.len();
        proof {
            broadcast use vstd::std_specs::btree::group_btree_axioms;

            let raw = self.cells@.dom();
            let viewed = self@.cells.dom();
            assert forall|k: u32| raw.contains(k) implies viewed.contains(pos_of_key(k)) by {
                lemma_key_surjective(k);
            }
            assert forall|p: Position| viewed.contains(p) implies raw.contains(key_of(p)) by {
                lemma_key_inverse(p);
            }
            assert(raw.map(|k: u32| pos_of_key(k)) =~= viewed) by {
                assert forall|p: Position| #[trigger] viewed.contains(p) implies raw.map(
                    |k: u32| pos_of_key(k),
                ).contains(p) by {
                    lemma_key_inverse(p);
                    assert(raw.contains(key_of(p)));
                }
            }
            vstd::set_lib::lemma_map_size(
                raw,
                viewed,
                |k: u32| pos_of_key(k),
            );
        }
        r
    }

    /// Create an ordered list of this state's dirty cells: each dirty
    /// position, in `(y, x)` order, paired with the cell now stored there, or
    /// `None` if the position has been cleared.
    pub fn dirty_iter(&self) -> (r: Vec<(Position, Option<Cell>)>)
        ensures
            forall|i: int| #![auto] 0 <= i < r@.len() ==> {
                &&& self@.dirty.contains(r@[i].0)
                &&& (r@[i].1 is Some <==> self@.cells.contains_key(r@[i].0))
                &&& (r@[i].1 matches Some(c) ==> c@ == self@.cells[r@[i].0])
            },
            forall|p: Position| #[trigger] self@.dirty.contains(p) ==> exists|i: int|
                0 <= i < r@.len() && r@[i].0 == p,
            forall|i: int, j: int| 0 <= i < j < r@.len() ==> pos_lt(r@[i].0, r@[j].0),
    {
        let ghost s = spec_btree_keys_iter(&self.dirty).remaining().unref();
        let mut r: Vec<(Position, Option<Cell>)> = Vec::new();
        for k in it: self.dirty.iter()
            invariant
                it.seq().unref() == s,
                r@.len() == it.index(),
                forall|i: int| #![auto] 0 <= i < r@.len() ==> {
                    &&& r@[i].0 == pos_of_key(s[i])
                    &&& (r@[i].1 is Some <==> self.cells@.contains_key(s[i]))
                    &&& (r@[i].1 matches Some(c) ==> c@ == self.cells@[s[i]]@)
                },
        {
            proof {
                assert(it.seq().unref()[it.index()] == *k);
            }
            let key = *k;
            let cell = match self.cells.get(&key) {
                Some(c) => Some(c.duplicate()),
                None => None,
            };
            r.push((pos_of_key_exec(key), cell));
        }

        proof {
            broadcast use vstd::std_specs::btree::group_btree_axioms;

            assert(s.len() == r@.len());
            assert forall|i: int| #![auto] 0 <= i < r@.len() implies {
                &&& self@.dirty.contains(r@[i].0)
                &&& (r@[i].1 is Some <==> self@.cells.contains_key(r@[i].0))
                &&& (r@[i].1 matches Some(c) ==> c@ == self@.cells[r@[i].0])
            } by {
                let k = s[i];
                lemma_key_surjective(k);
                assert(s.to_set().contains(k)) by {
                    assert(s.contains(k));
                }
                assert(self.dirty@.contains(k));
            }
            assert forall|p: Position| #[trigger] self@.dirty.contains(p) implies exists|i: int|
                0 <= i < r@.len() && r@[i].0 == p by {
                assert(self.dirty@.contains(key_of(p)));
                assert(s.to_set().contains(key_of(p)));
                assert(s.contains(key_of(p)));
                let i = choose|i: int| 0 <= i < s.len() && s[i] == key_of(p);
                lemma_key_inverse(p);
                assert(r@[i].0 == p);
            }
            assert forall|i: int, j: int| 0 <= i < j < r@.len() implies pos_lt(
                r@[i].0,
                r@[j].0,
            ) by {
                assert(s[i] < s[j]) by {
                    let rs = spec_btree_keys_iter(&self.dirty).remaining();
                    assert(obeys_cmp::<u32>());
                    assert(obeys_cmp::<&u32>());
                    assert(increasing_seq(rs));
                    vstd::std_specs::btree::axiom_increasing_seq_meaning::<&u32>(rs);
                    assert(<&u32 as OrdSpec>::cmp_spec(&rs[i], &rs[j]) is Less);
                    assert(rs.unref()[i] == *rs[i]);
                    assert(rs.unref()[j] == *rs[j]);
                }
                lemma_key_surjective(s[i]);
                lemma_key_surjective(s[j]);
                lemma_key_order(pos_of_key(s[i]), pos_of_key(s[j]));
            }
        }
        r
    }

    /// Get the last cell's position: the `(y, x)`-greatest position holding a
    /// cell, or `None` if the grid is empty.
    pub fn get_last_position(&self) -> (r: Option<Position>)
        ensures
            match r {
                Some(p) => self@.cells.contains_key(p) && forall|q: Position|
                    #[trigger] self@.cells.contains_key(q) ==> pos_le(q, p),
                None => self@.cells.dom() == Set::<Position>::empty(),
            },
    {
        let ghost s = spec_keys_iter(&self.cells).remaining().unref();
        let mut last: Option<u32> = None;
        for k in it: self.cells.keys()
            invariant
                it.seq().unref() == s,
                it.index() == 0 ==> last is None,
                it.index() > 0 ==> last == Some(s[it.index() - 1]),
        {
            proof {
                assert(it.seq().unref()[it.index()] == *k);
            }
            last = Some(*k);
        }

        proof {
            broadcast use vstd::std_specs::btree::group_btree_axioms;

            assert(s.len() == 0 ==> last is None);
            assert(s.len() > 0 ==> last == Some(s[s.len() - 1]));
        }
        match last {
            Some(k) => {
                let p = pos_of_key_exec(k);
                proof {
                    let n = s.len() as int;
                    assert(n > 0 && k == s[n - 1]) by {
                        if s.len() == 0 {
                            assert(last is None);
                        }
                    }
                    lemma_key_surjective(k);
                    assert(s.contains(k));
                    assert(s.to_set().contains(k));
                    assert(self.cells@.contains_key(k));
                    assert forall|q: Position| #[trigger] self@.cells.contains_key(q) implies
                        pos_le(q, p) by {
                        assert(self.cells@.contains_key(key_of(q)));
                        assert(s.to_set().contains(key_of(q)));
                        assert(s.contains(key_of(q)));
                        let i = choose|i: int| 0 <= i < s.len() && s[i] == key_of(q);
                        if i < n - 1 {
                            let rs = spec_keys_iter(&self.cells).remaining();
                            assert(obeys_cmp::<u32>());
                            assert(obeys_cmp::<&u32>());
                            assert(increasing_seq(rs));
                            vstd::std_specs::btree::axiom_increasing_seq_meaning::<&u32>(rs);
                            assert(<&u32 as OrdSpec>::cmp_spec(&rs[i], &rs[n - 1]) is Less);
                            assert(rs.unref()[i] == *rs[i]);
                            assert(rs.unref()[n - 1] == *rs[n - 1]);
                            assert(s[i] < s[n - 1]);
                        }
                        lemma_key_inverse(q);
                        lemma_key_order(q, p);
                        lemma_key_order(p, q);
                    }
                }
                Some(p)
            },
            None => {
                proof {
                    assert(s.len() == 0) by {
                        if s.len() > 0 {
                            assert(last is Some);
                        }
                    }
                    assert forall|q: Position| !self@.cells.contains_key(q) by {
                        if self.cells@.contains_key(key_of(q)) {
                            assert(s.to_set().contains(key_of(q)));
                            assert(s.contains(key_of(q)));
                        }
                    }
                    assert(self@.cells.dom() =~= Set::<Position>::empty());
                }
                None
            },
        }
    }
}



} // verus!
