use vstd::prelude::*;
use crate::grapheme::{graphemes_of, split_graphemes};
use crate::layout::{part_position_at, part_wf, PartLayout, PartLayoutV};
use crate::position::AbsolutePosition;
use crate::result::Error;
use crate::text::TextParametersWithLayout;

verus! {

/// A run of identically-unmeasured clusters within a render: the cluster
/// text and the grapheme indices it occupies.
#[derive(Clone, Debug)]
pub struct UnknownParameters {
    /// The cluster whose display width is not yet known.
    pub grapheme: String,
    /// The grapheme indices at which the cluster occurs.
    pub indices: Vec<usize>,
}

/// Computes the potential render width for a render in progress: the starting
/// column, the measured width so far, and one assumed cell for each
/// unmeasured cluster.
pub fn get_potential_width(
    position: AbsolutePosition,
    known_width: u16,
    unknown: Option<&UnknownParameters>,
) -> (r: u16)
    requires
        position.column + known_width + (match unknown {
            Some(u) => u.indices@.len(),
            None => 0,
        }) <= u16::MAX,
    ensures
        r == position.column + known_width + (match unknown {
            Some(u) => u.indices@.len(),
            None => 0,
        }),
{
    let mut potential_width = position.column() + known_width;

    if let Some(unknown) = unknown {
        potential_width += unknown.indices.len() as u16;
    }

    potential_width
}

/// The bounds scan over a previous layout's parts, front to back: the start
/// accumulator takes the position of `start_index` in every part whose range
/// begins at or before it, and the scan stops at the first part whose range
/// reaches `end_index`.
pub open spec fn previous_bounds_scan(
    parts: Seq<PartLayout>,
    k: int,
    start_index: int,
    end_index: int,
    start_acc: Option<AbsolutePosition>,
) -> (Option<AbsolutePosition>, Option<AbsolutePosition>)
    decreases parts.len() - k,
{
    if k < 0 || k >= parts.len() {
        (start_acc, None)
    } else {
        let next_acc = if parts[k].start <= start_index {
            part_position_at(parts[k], start_index)
        } else {
            start_acc
        };
        if parts[k].end >= end_index {
            (next_acc, part_position_at(parts[k], end_index))
        } else {
            previous_bounds_scan(parts, k + 1, start_index, end_index, next_acc)
        }
    }
}

/// Get a chunk's previous start and end positions in the terminal, from the
/// previously rendered layout.
pub fn get_previous_bounds(
    start_index: usize,
    end_index: usize,
    previous_parameters: Option<&TextParametersWithLayout>,
) -> (r: (Option<AbsolutePosition>, Option<AbsolutePosition>))
    requires
        previous_parameters matches Some(p) ==> forall|i: int|
            0 <= i < p.layout@.len() ==> part_wf(#[trigger] p.layout@[i]),
    ensures
        r == (match previous_parameters {
            Some(p) => previous_bounds_scan(
                p.layout@,
                0,
                start_index as int,
                end_index as int,
                None,
            ),
            None => (None::<AbsolutePosition>, None::<AbsolutePosition>),
        }),
{
    match previous_parameters {
        Some(previous) => bounds_scan_from(previous, 0, start_index, end_index, None),
        None => (None, None),
    }
}

/// One step of the bounds scan, from part `k` onward.
fn bounds_scan_from(
    previous: &TextParametersWithLayout,
    k: usize,
    start_index: usize,
    end_index: usize,
    start_acc: Option<AbsolutePosition>,
) -> (r: (Option<AbsolutePosition>, Option<AbsolutePosition>))
    requires
        forall|i: int| 0 <= i < previous.layout@.len() ==> part_wf(
            #[trigger] previous.layout@[i],
        ),
        k <= previous.layout@.len(),
    ensures
        r == previous_bounds_scan(
            previous.layout@,
            k as int,
            start_index as int,
            end_index as int,
            start_acc,
        ),
    decreases previous.layout@.len() - k,
{
    if k >= previous.layout.len() {
        (start_acc, None)
    } else {
        let part = &previous.layout[k];
        let next_acc = if part.start() <= start_index {
            part.get_position(start_index)
        } else {
            start_acc
        };
        if part.end() >= end_index {
            (next_acc, part.get_position(end_index))
        } else {
            bounds_scan_from(previous, k + 1, start_index, end_index, next_acc)
        }
    }
}

/// Whether cluster `i` of `current` needs re-rendering against `previous`:
/// it does when `previous` is too short to compare, or the clusters differ.
pub open spec fn cluster_differs(current: Seq<Seq<char>>, previous: Seq<Seq<char>>, i: int) -> bool {
    i >= previous.len() || current[i] != previous[i]
}

/// Whether some chunk of the list covers cluster index `i`.
pub open spec fn chunk_covers(chunks: Seq<(usize, usize)>, i: int) -> bool {
    exists|j: int| #![trigger chunks[j]] 0 <= j < chunks.len() && chunks[j].0 <= i < chunks[j].1
}

/// Identify the chunks of `text` that need to be rendered by comparing its
/// grapheme clusters against `previous_text`'s: the maximal runs of differing
/// cluster indices, in order.
#[verifier::rlimit(60)]
pub fn get_chunks(text: &str, previous_text: &str) -> (r: Result<Vec<(usize, usize)>, Error>)
    ensures
        r matches Ok(chunks) && {
            let current = graphemes_of(text@);
            let previous = graphemes_of(previous_text@);
            &&& forall|j: int| #![auto] 0 <= j < chunks@.len() ==> {
                &&& 0 <= chunks@[j].0 < chunks@[j].1 <= current.len()
                &&& (forall|i: int| chunks@[j].0 <= i < chunks@[j].1 ==> cluster_differs(
                    current,
                    previous,
                    i,
                ))
                &&& (chunks@[j].0 == 0 || !cluster_differs(current, previous, chunks@[j].0 - 1))
                &&& (chunks@[j].1 == current.len() || !cluster_differs(
                    current,
                    previous,
                    chunks@[j].1 as int,
                ))
            }
            &&& forall|j: int, l: int| 0 <= j < l < chunks@.len() ==> chunks@[j].1 < chunks@[l].0
            &&& forall|i: int| 0 <= i < current.len() && #[trigger] cluster_differs(
                current,
                previous,
                i,
            ) ==> chunk_covers(chunks@, i)
        },
{
    let current = split_graphemes(text);
    let previous = split_graphemes(previous_text);
    let ghost ga = graphemes_of(text@);
    let ghost gb = graphemes_of(previous_text@);

    let mut slices: Vec<(usize, usize)> = Vec::new();
    let mut slice_start: Option<usize> = None;
    let mut index: usize = 0;

    while index < current.len()
        invariant
            index <= current@.len(),
            ga == graphemes_of(text@),
            gb == graphemes_of(previous_text@),
            current@.map_values(|g: String| g@) == ga,
            previous@.map_values(|g: String| g@) == gb,
            forall|j: int| #![auto] 0 <= j < slices@.len() ==> {
                &&& 0 <= slices@[j].0 < slices@[j].1 <= index
                &&& (forall|i: int| slices@[j].0 <= i < slices@[j].1 ==> cluster_differs(
                    ga,
                    gb,
                    i,
                ))
                &&& (slices@[j].0 == 0 || !cluster_differs(ga, gb, slices@[j].0 - 1))
                &&& !cluster_differs(ga, gb, slices@[j].1 as int)
            },
            forall|j: int, l: int| 0 <= j < l < slices@.len() ==> slices@[j].1 < slices@[l].0,
            match slice_start {
                Some(s) => {
                    &&& s < index
                    &&& (forall|i: int| s <= i < index ==> cluster_differs(ga, gb, i))
                    &&& (s == 0 || !cluster_differs(ga, gb, s - 1))
                    &&& (forall|j: int| #![auto] 0 <= j < slices@.len() ==> slices@[j].1 < s)
                },
                None => index > 0 ==> !cluster_differs(ga, gb, index - 1),
            },
            forall|i: int| 0 <= i < index && #[trigger] cluster_differs(ga, gb, i)
                ==> (chunk_covers(slices@, i) || (slice_start matches Some(s) && s <= i)),
        decreases current@.len() - index,
    {
        let differs = if index >= previous.len() {
            true
        } else {
            !(current[index] == previous[index])
        };
        proof {
            assert(current@[index as int]@ == ga[index as int]);
            if (index as int) < gb.len() {
                assert(previous@[index as int]@ == gb[index as int]);
            }
            assert(differs == cluster_differs(ga, gb, index as int));
        }

        if differs {
            if slice_start.is_none() {
                slice_start = Some(index);
                proof {
                    assert forall|j: int| #![auto] 0 <= j < slices@.len() implies slices@[j].1
                        < index as int by {
                        if slices@[j].1 == index as int {
                            assert(!cluster_differs(ga, gb, index as int));
                        }
                    }
                }
            }
        } else {
            match slice_start {
                Some(start) => {
                    let ghost before = slices@;
                    slices.push((start, index));
                    slice_start = None;
                    proof {
                        let last = slices@.len() - 1;
                        assert(slices@[last] == (start, index));
                        assert forall|i: int|
                            0 <= i < index + 1 && #[trigger] cluster_differs(ga, gb, i) implies
                            chunk_covers(slices@, i) by {
                            if i == index as int {
                                assert(false);
                            } else if start <= i < index as int {
                                assert(slices@[last].0 <= i < slices@[last].1);
                            } else {
                                let j = choose|j: int|
                                    #![trigger before[j]]
                                    0 <= j < before.len() && before[j].0 <= i < before[j].1;
                                assert(slices@[j] == before[j]);
                                assert(slices@[j].0 <= i < slices@[j].1);
                            }
                        }
                    }
                },
                None => {},
            }
        }

        index += 1;
    }

    proof {
        assert(index == ga.len());
    }
    if let Some(start) = slice_start {
        let ghost before = slices@;
        slices.push((start, index));
        proof {
            let last = slices@.len() - 1;
            assert(slices@[last] == (start, index));
            assert forall|i: int| 0 <= i < ga.len() && #[trigger] cluster_differs(
                ga,
                gb,
                i,
            ) implies chunk_covers(slices@, i) by {
                if start <= i < index as int {
                    assert(slices@[last].0 <= i < slices@[last].1);
                } else {
                    let j = choose|j: int|
                        #![trigger before[j]]
                        0 <= j < before.len() && before[j].0 <= i < before[j].1;
                    assert(slices@[j] == before[j]);
                    assert(slices@[j].0 <= i < slices@[j].1);
                }
            }
        }
    }

    Ok(slices)
}

/// Whether a part covers grapheme range `[start, end)` with one recorded
/// width per cluster.
pub open spec fn part_sized(p: PartLayout) -> bool {
    &&& p.start <= p.end
    &&& p.widths@.len() == p.end - p.start
}

/// The part list after trimming `count` graphemes off its tail: whole parts
/// are dropped while they are no longer than the remaining count, and a last
/// partially-covered part is shortened, its trailing widths discarded.
pub open spec fn trimmed_parts(parts: Seq<PartLayout>, count: int) -> Seq<PartLayout>
    decreases parts.len(),
{
    if count <= 0 || parts.len() == 0 {
        parts
    } else {
        let last = parts.last();
        if last.end - last.start > count {
            parts.update(
                parts.len() - 1,
                PartLayout {
                    position: last.position,
                    start: last.start,
                    end: (last.end - count) as usize,
                    widths: last.widths,
                },
            )
        } else {
            trimmed_parts(parts.drop_last(), count - (last.end - last.start))
        }
    }
}

/// If a segment shrank, trims the specified number of graphemes from the
/// tail of its layout.
pub fn trim_part_layouts(part_layouts: &mut Vec<PartLayout>, grapheme_count: usize)
    requires
        forall|i: int| 0 <= i < old(part_layouts)@.len() ==> part_sized(
            #[trigger] old(part_layouts)@[i],
        ),
    ensures
        final(part_layouts)@.len() == trimmed_parts(
            old(part_layouts)@,
            grapheme_count as int,
        ).len(),
        forall|i: int| #![trigger final(part_layouts)@[i]] 0 <= i < final(part_layouts)@.len()
            ==> {
            let spec_part = trimmed_parts(old(part_layouts)@, grapheme_count as int)[i];
            let real_part = final(part_layouts)@[i];
            &&& real_part.position == spec_part.position
            &&& real_part.start == spec_part.start
            &&& real_part.end == spec_part.end
            &&& real_part.widths@ == spec_part.widths@.take(real_part.end - real_part.start)
        },
{
    let mut remaining = grapheme_count;
    let ghost parts0 = part_layouts@;

    loop
        invariant
            parts0 == old(part_layouts)@,
            forall|i: int| 0 <= i < part_layouts@.len() ==> part_sized(
                #[trigger] part_layouts@[i],
            ),
            trimmed_parts(part_layouts@, remaining as int) == trimmed_parts(
                parts0,
                grapheme_count as int,
            ),
        decreases part_layouts@.len() + remaining,
    {
        if remaining == 0 || part_layouts.len() == 0 {
            proof {
                assert(trimmed_parts(part_layouts@, remaining as int) == part_layouts@);
                assert forall|i: int| #![trigger part_layouts@[i]] 0 <= i < part_layouts@.len()
                    implies part_layouts@[i].widths@ == part_layouts@[i].widths@.take(
                    part_layouts@[i].end - part_layouts@[i].start,
                ) by {
                    assert(part_layouts@[i].widths@.take(
                        part_layouts@[i].end - part_layouts@[i].start,
                    ) =~= part_layouts@[i].widths@);
                }
            }
            return ;
        }

        let last_index = part_layouts.len() - 1;
        let last_length = part_layouts[last_index].end() - part_layouts[last_index].start();

        if last_length > remaining {
            let ghost before = part_layouts@;
            let last = match part_layouts.pop() {
                Some(p) => p,
                None => {
                    proof {
                        assert(false);
                    }
                    PartLayout::new(AbsolutePosition::new(0, 0), 0, 0, Vec::new())
                },
            };
            let new_end = last.end() - remaining;
            let mut kept_widths: Vec<usize> = Vec::new();
            let keep = last.widths().len() - remaining;
            let mut i: usize = 0;
            while i < keep
                invariant
                    i <= keep,
                    keep <= last.widths@.len(),
                    kept_widths@ == last.widths@.take(i as int),
                decreases keep - i,
            {
                kept_widths.push(last.widths[i]);
                i += 1;
                proof {
                    assert(kept_widths@ =~= last.widths@.take(i as int));
                }
            }
            let trimmed = PartLayout::new(last.position(), last.start(), new_end, kept_widths);
            part_layouts.push(trimmed);
            proof {
                let target = trimmed_parts(before, remaining as int);
                assert(part_layouts@ =~= before.update(
                    before.len() - 1,
                    PartLayout {
                        position: last.position,
                        start: last.start,
                        end: new_end,
                        widths: last.widths,
                    },
                ).update(before.len() - 1, part_layouts@.last()));
                assert(part_layouts@.len() == target.len());
                assert forall|j: int| #![trigger part_layouts@[j]] 0 <= j < part_layouts@.len()
                    implies {
                    let spec_part = target[j];
                    let real_part = part_layouts@[j];
                    &&& real_part.position == spec_part.position
                    &&& real_part.start == spec_part.start
                    &&& real_part.end == spec_part.end
                    &&& real_part.widths@ == spec_part.widths@.take(
                        real_part.end - real_part.start,
                    )
                } by {
                    if j < part_layouts@.len() - 1 {
                        assert(part_layouts@[j] == before[j]);
                        assert(target[j] == before[j]);
                        assert(before[j].widths@.take(before[j].end - before[j].start) =~= before[
                            j
                        ].widths@);
                    } else {
                        assert(target[j].widths@ == last.widths@);
                        assert(target[j].widths@.take(new_end - last.start) =~= kept_widths@);
                    }
                }
            }
            return ;
        } else {
            let ghost before = part_layouts@;
            let _ = part_layouts.pop();
            proof {
                assert(part_layouts@ =~= before.drop_last());
            }
            remaining = remaining - last_length;
        }
    }
}


/// The views of a part list.
pub open spec fn part_views(v: Seq<PartLayout>) -> Seq<PartLayoutV> {
    v.map_values(|p: PartLayout| p@)
}

/// The widths of a merged part: the retained left widths of the old part,
/// the update's widths, and the retained right widths of the old part.
pub open spec fn merged_widths(
    part: PartLayoutV,
    update: PartLayoutV,
    merge_left: bool,
    merge_right: bool,
) -> Seq<usize> {
    (if merge_left && update.start > part.start {
        part.widths.take(cap_len(update.start - part.start, part.widths.len() as int))
    } else {
        Seq::<usize>::empty()
    }) + update.widths + (if merge_right && update.end < part.end {
        part.widths.skip(cap_len(update.end - part.start, part.widths.len() as int))
    } else {
        Seq::<usize>::empty()
    })
}

/// `n`, capped at `len`.
pub open spec fn cap_len(n: int, len: int) -> int {
    if n <= len {
        n
    } else {
        len
    }
}

/// The first index at or after `k` whose part sits on `row` or below it on
/// screen.
pub open spec fn advance_row(parts: Seq<PartLayoutV>, k: int, row: u16) -> int
    decreases parts.len() - k,
{
    if k < 0 || k >= parts.len() {
        k
    } else if parts[k].position.row < row {
        advance_row(parts, k + 1, row)
    } else {
        k
    }
}

/// Merge a single update into the part list, resuming the row scan at `k0`:
/// the update lands past the end, merges into a part on its row, or is
/// inserted before the first part below its row. `start` and `end` are the
/// whole update run's bounds, which decide which sides of an overlapped part
/// survive.
pub open spec fn merge_step(
    parts: Seq<PartLayoutV>,
    k0: int,
    update: PartLayoutV,
    start: int,
    end: int,
) -> (Seq<PartLayoutV>, int) {
    let k = advance_row(parts, k0, update.position.row);
    if k >= parts.len() {
        (parts.push(update), k)
    } else {
        let part = parts[k];
        if part.position.row == update.position.row {
            if update.start == start && update.end == end {
                (
                    parts.update(
                        k,
                        PartLayoutV {
                            position: part.position,
                            start: part.start,
                            end: if part.end >= update.end {
                                part.end
                            } else {
                                update.end
                            },
                            widths: merged_widths(part, update, true, true),
                        },
                    ),
                    k,
                )
            } else if update.start == start {
                (
                    parts.update(
                        k,
                        PartLayoutV {
                            position: part.position,
                            start: part.start,
                            end: update.end,
                            widths: merged_widths(part, update, true, false),
                        },
                    ),
                    k,
                )
            } else if update.end != end {
                (
                    parts.update(
                        k,
                        PartLayoutV {
                            position: update.position,
                            start: update.start,
                            end: part.end,
                            widths: merged_widths(part, update, false, true),
                        },
                    ),
                    k,
                )
            } else {
                (parts.update(k, update), k)
            }
        } else {
            (parts.insert(k, update), k)
        }
    }
}

/// Merge every update in order, threading the part list and scan index.
pub open spec fn merge_fold(
    parts: Seq<PartLayoutV>,
    k: int,
    updates: Seq<PartLayoutV>,
    start: int,
    end: int,
) -> Seq<PartLayoutV>
    decreases updates.len(),
{
    if updates.len() == 0 {
        parts
    } else {
        let step = merge_step(parts, k, updates[0], start, end);
        merge_fold(step.0, step.1, updates.drop_first(), start, end)
    }
}

/// The part list after merging a newer run of rendered parts into it.
pub open spec fn merged_part_layouts(
    parts: Seq<PartLayoutV>,
    updates: Seq<PartLayoutV>,
) -> Seq<PartLayoutV> {
    if updates.len() == 0 {
        parts
    } else {
        merge_fold(parts, 0, updates, updates[0].start, updates.last().end)
    }
}


proof fn lemma_advance_row_fixed(parts: Seq<PartLayoutV>, k: int, row: u16)
    ensures
        advance_row(parts, advance_row(parts, k, row), row) == advance_row(parts, k, row),
    decreases parts.len() - k,
{
    if !(k < 0 || k >= parts.len()) && parts[k].position.row < row {
        lemma_advance_row_fixed(parts, k + 1, row);
    }
}

/// An exact copy of a part.
fn part_duplicate(p: &PartLayout) -> (r: PartLayout)
    ensures
        r@ == p@,
{
    let mut widths: Vec<usize> = Vec::new();
    let mut i: usize = 0;
    while i < p.widths.len()
        invariant
            i <= p.widths@.len(),
            widths@ == p.widths@.take(i as int),
        decreases p.widths@.len() - i,
    {
        widths.push(p.widths[i]);
        i += 1;
        proof {
            assert(widths@ =~= p.widths@.take(i as int));
        }
    }
    proof {
        assert(p.widths@.take(p.widths@.len() as int) =~= p.widths@);
    }
    PartLayout::new(p.position(), p.start(), p.end(), widths)
}

/// The first index at or after `k` whose part does not sit above `row`.
fn advance_to_row(parts: &Vec<PartLayout>, k: usize, row: u16) -> (r: usize)
    requires
        k <= parts@.len(),
    ensures
        k <= r <= parts@.len(),
        r == advance_row(part_views(parts@), k as int, row),
    decreases parts@.len() - k,
{
    if k >= parts.len() {
        k
    } else if parts[k].position().row < row {
        proof {
            assert(part_views(parts@)[k as int] == parts@[k as int]@);
        }
        advance_to_row(parts, k + 1, row)
    } else {
        proof {
            assert(part_views(parts@)[k as int] == parts@[k as int]@);
        }
        k
    }
}

/// Build the widths of a merged part.
fn merged_widths_exec(
    part: &PartLayout,
    update: &PartLayout,
    merge_left: bool,
    merge_right: bool,
) -> (r: Vec<usize>)
    requires
        merge_right && update.end < part.end ==> update.end >= part.start,
    ensures
        r@ == merged_widths(part@, update@, merge_left, merge_right),
{
    let mut merged: Vec<usize> = Vec::new();

    let left_count = if merge_left && update.start > part.start {
        let n = update.start - part.start;
        if n <= part.widths.len() {
            n
        } else {
            part.widths.len()
        }
    } else {
        0
    };
    let ghost left = if merge_left && update.start@ > part.start@ {
        part.widths@.take(cap_len(update@.start - part@.start, part.widths@.len() as int))
    } else {
        Seq::<usize>::empty()
    };
    let mut i: usize = 0;
    while i < left_count
        invariant
            i <= left_count,
            left_count <= part.widths@.len(),
            merged@ == part.widths@.take(i as int),
        decreases left_count - i,
    {
        merged.push(part.widths[i]);
        i += 1;
        proof {
            assert(merged@ =~= part.widths@.take(i as int));
        }
    }
    proof {
        assert(merged@ =~= left);
    }

    let ghost after_left = merged@;
    let mut j: usize = 0;
    while j < update.widths.len()
        invariant
            j <= update.widths@.len(),
            merged@ == after_left + update.widths@.take(j as int),
        decreases update.widths@.len() - j,
    {
        merged.push(update.widths[j]);
        j += 1;
        proof {
            assert(merged@ =~= after_left + update.widths@.take(j as int));
        }
    }
    proof {
        assert(update.widths@.take(update.widths@.len() as int) =~= update.widths@);
    }

    let ghost after_update = merged@;
    if merge_right && update.end < part.end {
        let from = if update.end - part.start <= part.widths.len() {
            update.end - part.start
        } else {
            part.widths.len()
        };
        let mut k: usize = from;
        while k < part.widths.len()
            invariant
                from <= k <= part.widths@.len(),
                merged@ == after_update + part.widths@.subrange(from as int, k as int),
            decreases part.widths@.len() - k,
        {
            merged.push(part.widths[k]);
            k += 1;
            proof {
                assert(merged@ =~= after_update + part.widths@.subrange(from as int, k as int));
            }
        }
        proof {
            assert(part.widths@.subrange(from as int, part.widths@.len() as int) =~= part.widths@
                .skip(from as int));
        }
    }

    proof {
        assert(merged@ =~= merged_widths(part@, update@, merge_left, merge_right));
    }
    merged
}


proof fn lemma_part_views_push(v: Seq<PartLayout>, e: PartLayout)
    ensures
        part_views(v.push(e)) == part_views(v).push(e@),
{
    assert forall|j: int| 0 <= j < part_views(v.push(e)).len() implies part_views(v.push(e))[j]
        == part_views(v).push(e@)[j] by {
        assert(part_views(v.push(e))[j] == v.push(e)[j]@);
        if j < v.len() {
            assert(part_views(v)[j] == v[j]@);
        }
    }
    assert(part_views(v.push(e)) =~= part_views(v).push(e@));
}

proof fn lemma_part_views_update(v: Seq<PartLayout>, k: int, e: PartLayout)
    requires
        0 <= k < v.len(),
    ensures
        part_views(v.update(k, e)) == part_views(v).update(k, e@),
{
    assert forall|j: int| 0 <= j < part_views(v.update(k, e)).len() implies part_views(
        v.update(k, e),
    )[j] == part_views(v).update(k, e@)[j] by {
        assert(part_views(v.update(k, e))[j] == v.update(k, e)[j]@);
        if j != k {
            assert(part_views(v)[j] == v[j]@);
        }
    }
    assert(part_views(v.update(k, e)) =~= part_views(v).update(k, e@));
}

proof fn lemma_part_views_insert(v: Seq<PartLayout>, k: int, e: PartLayout)
    requires
        0 <= k <= v.len(),
    ensures
        part_views(v.insert(k, e)) == part_views(v).insert(k, e@),
{
    broadcast use vstd::seq_lib::group_seq_properties;

    assert forall|j: int| 0 <= j < part_views(v.insert(k, e)).len() implies part_views(
        v.insert(k, e),
    )[j] == part_views(v).insert(k, e@)[j] by {
        assert(part_views(v.insert(k, e))[j] == v.insert(k, e)[j]@);
        if j < k {
            assert(v.insert(k, e)[j] == v[j]);
            assert(part_views(v)[j] == v[j]@);
        } else if j == k {
            assert(v.insert(k, e)[j] == e);
        } else {
            assert(v.insert(k, e)[j] == v[j - 1]);
            assert(part_views(v)[j - 1] == v[j - 1]@);
        }
    }
    assert(part_views(v.insert(k, e)) =~= part_views(v).insert(k, e@));
}

/// Merges existing part layouts with a newer run of rendered parts: updates
/// past the known rows are appended, an update on an existing part's row is
/// merged into it (the sides of the old part outside the newly rendered run
/// survive), and an update above an existing row is inserted in row order.
pub fn merge_part_layouts(parts: &mut Vec<PartLayout>, updates: Vec<PartLayout>)
    requires
        forall|a: int, b: int| #![auto] 0 <= a < old(parts)@.len() && 0 <= b < updates@.len()
            && old(parts)@[a].position.row == updates@[b].position.row ==> updates@[b].end
            >= old(parts)@[a].start,
        forall|a: int, b: int| #![auto] 0 <= a < b < updates@.len()
            && updates@[a].position.row == updates@[b].position.row ==> updates@[b].end
            >= updates@[a].start,
    ensures
        part_views(final(parts)@) == merged_part_layouts(
            part_views(old(parts)@),
            part_views(updates@),
        ),
{
    let ghost parts0v = part_views(parts@);
    let ghost uv = part_views(updates@);

    if updates.len() == 0 {
        return ;
    }

    let start = updates[0].start();
    let end = updates[updates.len() - 1].end();
    let ghost start0 = uv[0].start;
    let ghost end0 = uv.last().end;
    proof {
        assert(uv[0] == updates@[0]@);
        assert(uv.last() == updates@[updates@.len() - 1]@);
        assert(uv.skip(0) =~= uv);
    }

    let mut part_index: usize = 0;
    let mut i: usize = 0;
    while i < updates.len()
        invariant
            i <= updates@.len(),
            0 < updates@.len(),
            uv == part_views(updates@),
            parts0v == part_views(old(parts)@),
            start0 == uv[0].start,
            end0 == uv.last().end,
            start == start0,
            end == end0,
            part_index <= parts@.len(),
            merge_fold(part_views(parts@), part_index as int, uv.skip(i as int), start0, end0)
                == merged_part_layouts(parts0v, uv),
            forall|a: int, b: int| #![auto] 0 <= a < parts@.len() && i <= b < updates@.len()
                && parts@[a]@.position.row == updates@[b]@.position.row ==> updates@[b]@.end
                >= parts@[a]@.start,
            forall|a: int, b: int| #![auto] 0 <= a < b < updates@.len()
                && updates@[a].position.row == updates@[b].position.row ==> updates@[b].end
                >= updates@[a].start,
        decreases updates@.len() - i,
    {
        let row = updates[i].position().row;
        proof {
            assert(uv[i as int] == updates@[i as int]@);
        }
        let ghost k_before = part_index as int;
        part_index = advance_to_row(parts, part_index, row);
        let ghost views_pre = part_views(parts@);
        let ghost vec_pre = parts@;
        proof {
            lemma_advance_row_fixed(views_pre, k_before, row);
            assert(uv.skip(i as int)[0] == uv[i as int]);
            assert(uv.skip(i as int).drop_first() =~= uv.skip(i as int + 1));
        }
        let ghost stepped = merge_step(views_pre, k_before, uv[i as int], start0, end0);
        proof {
            assert(stepped == merge_step(views_pre, part_index as int, uv[i as int], start0, end0));
            assert(stepped.1 == part_index as int);
        }

        if part_index == parts.len() {
            let fresh = part_duplicate(&updates[i]);
            parts.push(fresh);
            proof {
                lemma_part_views_push(vec_pre, fresh);
                assert(part_views(parts@) == stepped.0);
                assert forall|a: int, b: int| #![auto] 0 <= a < parts@.len() && i + 1 <= b
                    < updates@.len() && parts@[a]@.position.row == updates@[b]@.position.row
                    implies updates@[b]@.end >= parts@[a]@.start by {
                    if a < vec_pre.len() {
                        assert(parts@[a] == vec_pre[a]);
                    } else {
                        assert(parts@[a]@ == uv[i as int]);
                        assert(updates@[i as int]@ == uv[i as int]);
                    }
                }
            }
        } else {
            let rows_equal = parts[part_index].position().row == row;
            if rows_equal {
                let merged_part: PartLayout;
                if updates[i].start() == start && updates[i].end() == end {
                    let new_end = if parts[part_index].end() >= updates[i].end() {
                        parts[part_index].end()
                    } else {
                        updates[i].end()
                    };
                    let widths = merged_widths_exec(&parts[part_index], &updates[i], true, true);
                    merged_part = PartLayout::new(
                        parts[part_index].position(),
                        parts[part_index].start(),
                        new_end,
                        widths,
                    );
                } else if updates[i].start() == start {
                    let widths = merged_widths_exec(&parts[part_index], &updates[i], true, false);
                    merged_part = PartLayout::new(
                        parts[part_index].position(),
                        parts[part_index].start(),
                        updates[i].end(),
                        widths,
                    );
                } else if updates[i].end() != end {
                    let widths = merged_widths_exec(&parts[part_index], &updates[i], false, true);
                    merged_part = PartLayout::new(
                        updates[i].position(),
                        updates[i].start(),
                        parts[part_index].end(),
                        widths,
                    );
                } else {
                    merged_part = part_duplicate(&updates[i]);
                }
                parts[part_index] = merged_part;
                proof {
                    lemma_part_views_update(vec_pre, part_index as int, parts@[part_index as int]);
                    assert(parts@ == vec_pre.update(part_index as int, parts@[part_index as int]));
                    assert(part_views(parts@) == stepped.0);
                    assert forall|a: int, b: int| #![auto] 0 <= a < parts@.len() && i + 1 <= b
                        < updates@.len() && parts@[a]@.position.row == updates@[b]@.position.row
                        implies updates@[b]@.end >= parts@[a]@.start by {
                        if a != part_index as int {
                            assert(parts@[a] == vec_pre[a]);
                        } else {
                            assert(parts@[a]@.position.row == vec_pre[a]@.position.row);
                            assert(parts@[a]@.start == vec_pre[a]@.start || parts@[a]@.start
                                == uv[i as int].start);
                            assert(updates@[i as int]@ == uv[i as int]);
                        }
                    }
                }
            } else {
                let fresh = part_duplicate(&updates[i]);
                parts.insert(part_index, fresh);
                proof {
                    lemma_part_views_insert(vec_pre, part_index as int, fresh);
                    assert(part_views(parts@) == stepped.0);
                    assert forall|a: int, b: int| #![auto] 0 <= a < parts@.len() && i + 1 <= b
                        < updates@.len() && parts@[a]@.position.row == updates@[b]@.position.row
                        implies updates@[b]@.end >= parts@[a]@.start by {
                        broadcast use vstd::seq_lib::group_seq_properties;

                        if a < part_index as int {
                            assert(parts@[a] == vec_pre[a]);
                        } else if a == part_index as int {
                            assert(parts@[a]@ == uv[i as int]);
                            assert(updates@[i as int]@ == uv[i as int]);
                        } else {
                            assert(parts@[a] == vec_pre[a - 1]);
                        }
                    }
                }
            }
        }
        i += 1;
    }

    proof {
        assert(uv.skip(updates@.len() as int) =~= Seq::<PartLayoutV>::empty());
    }
}

} // verus!
