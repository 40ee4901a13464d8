//! A falling-sand simulation: a fixed grid of cells, each empty or holding one
//! particle, advanced tick by tick through sleep, gravity, reactions and
//! motion with collisions.

use vstd::prelude::*;

pub mod bands;
pub mod catalog;
mod chance;
pub mod chunk_view;
pub mod conway;
pub mod dirt;
pub mod element;
pub mod eraser;
pub mod fire;
pub mod gas;
pub mod glass;
pub mod glue;
pub mod lava;
pub mod menu;
pub mod metal;
pub mod motion;
pub mod oil;
pub mod pens;
pub mod periodic;
pub mod sand;
pub mod schedule;
pub mod simple_elements;
pub mod snow;
pub mod template_element;
pub mod tile;
pub mod util;
pub mod water;
pub mod world;
pub mod world_view;

pub use motion::{apply_velocity, integrate_positions};
pub use pens::{DeletePen, ElementPen};

verus! {

/// Number of columns of the grid.
pub const WORLD_WIDTH: i32 = 200;

/// Number of rows of the grid.
pub const WORLD_HEIGHT: i32 = 200;

/// Number of cells of the grid.
pub const WORLD_SIZE: i32 = 40000;

/// Number of cells of the grid, as a length.
pub const WORLD_CELLS: usize = 40000;

/// Gravity acts once in this many ticks.
pub const GRAVITY_PERIOD: i32 = 5;

/// Periodic reactions run once in this many ticks.
pub const REACTION_PERIOD: i32 = 3;

/// A tile that moves no faster than this on either axis may fall asleep.
pub const PAUSE_VELOCITY: i8 = 3;

/// Ticks that one frame advances.
pub const UPDATES_PER_FRAME: i32 = 20;

/// Whether column `x` and row `y` name a cell of the grid.
pub open spec fn spec_in_bounds(x: int, y: int) -> bool {
    0 <= x < WORLD_WIDTH && 0 <= y < WORLD_HEIGHT
}

/// The index of the cell in column `x` and row `y`.
pub open spec fn spec_point(x: int, y: int) -> int {
    x + y * WORLD_WIDTH
}

/// Column and row of the cell with index `i`.
pub open spec fn spec_coords(i: int) -> (int, int) {
    (i % (WORLD_WIDTH as int), i / (WORLD_WIDTH as int))
}

/// The index one row down, unless that leaves the grid.
pub open spec fn spec_below(position: usize) -> Option<usize> {
    if position + WORLD_WIDTH < WORLD_SIZE {
        Some((position + WORLD_WIDTH) as usize)
    } else {
        None
    }
}

/// The index one row up, unless that leaves the grid.
pub open spec fn spec_above(position: usize) -> Option<usize> {
    if position >= WORLD_WIDTH && position - WORLD_WIDTH < WORLD_SIZE {
        Some((position - WORLD_WIDTH) as usize)
    } else {
        None
    }
}

/// The index one column to the left in the same row: none for a cell in
/// the first column, and none outside the grid.
pub open spec fn spec_left(position: usize) -> Option<usize> {
    if position < WORLD_SIZE && position as int % WORLD_WIDTH as int != 0 {
        Some((position - 1) as usize)
    } else {
        None
    }
}

/// The index one column to the right in the same row: none for a cell in
/// the last column, and none outside the grid.
pub open spec fn spec_right(position: usize) -> Option<usize> {
    if position < WORLD_SIZE && position as int % WORLD_WIDTH as int != WORLD_WIDTH - 1 {
        Some((position + 1) as usize)
    } else {
        None
    }
}

/// Whether `position2` lies directly to the left or right of `position1`,
/// in the same row.
pub open spec fn spec_adjacent_x(position1: usize, position2: usize) -> bool {
    spec_left(position1) == Some(position2) || spec_right(position1) == Some(position2)
}

/// Whether `position2` lies directly above or below `position1`.
pub open spec fn spec_adjacent_y(position1: usize, position2: usize) -> bool {
    spec_above(position1) == Some(position2) || spec_below(position1) == Some(position2)
}

/// The eight steps to the cells around a cell, as (columns, rows), in the
/// order in which neighbours are listed: column by column, top to bottom.
pub open spec fn neighbor_offsets() -> Seq<(int, int)> {
    seq![
        (-1int, -1int),
        (-1int, 0int),
        (-1int, 1int),
        (0int, -1int),
        (0int, 1int),
        (1int, -1int),
        (1int, 0int),
        (1int, 1int),
    ]
}

/// The index that the step `offset` leads to from `index`.
pub open spec fn step_from(index: int, offset: (int, int)) -> int {
    index + offset.0 + offset.1 * WORLD_WIDTH
}

/// Whether the step `offset` from `index` stays within the grid's columns
/// and rows.
pub open spec fn step_in_bounds(index: int, offset: (int, int)) -> bool {
    spec_in_bounds(spec_coords(index).0 + offset.0, spec_coords(index).1 + offset.1)
}

/// All eight indices around `index`, whether or not they lie in the grid.
pub open spec fn spec_raw_neighbors(index: int) -> Seq<int> {
    neighbor_offsets().map_values(|offset: (int, int)| step_from(index, offset))
}

/// The indices around `index` that lie in the grid.
pub open spec fn spec_neighbors(index: int) -> Seq<int> {
    neighbor_offsets().filter(|offset: (int, int)| step_in_bounds(index, offset)).map_values(
        |offset: (int, int)| step_from(index, offset),
    )
}

/// Whether `index` has a full row and one more cell on both sides within a
/// buffer of `len` cells, so that all eight indices around it lie in the
/// buffer.
pub open spec fn has_margin(index: int, len: int) -> bool {
    WORLD_WIDTH + 1 <= index && index + WORLD_WIDTH + 1 < len
}

pub fn in_bounds(x: i32, y: i32) -> (inside: bool)
    ensures
        inside == spec_in_bounds(x as int, y as int),
{
    x >= 0 && x < WORLD_WIDTH && y >= 0 && y < WORLD_HEIGHT
}

pub fn below(position: usize) -> (found: Option<usize>)
    ensures
        found == spec_below(position),
{
    if position < WORLD_CELLS - WORLD_WIDTH as usize {
        Some(position + WORLD_WIDTH as usize)
    } else {
        None
    }
}

pub fn above(position: usize) -> (found: Option<usize>)
    ensures
        found == spec_above(position),
{
    if position >= WORLD_WIDTH as usize && position - (WORLD_WIDTH as usize) < WORLD_CELLS {
        Some(position - WORLD_WIDTH as usize)
    } else {
        None
    }
}

pub fn left(position: usize) -> (found: Option<usize>)
    ensures
        found == spec_left(position),
{
    if position < WORLD_CELLS && position % (WORLD_WIDTH as usize) != 0 {
        assert(position != 0) by {
            assert(0int % 200 == 0);
        }
        Some(position - 1)
    } else {
        None
    }
}

pub fn right(position: usize) -> (found: Option<usize>)
    ensures
        found == spec_right(position),
{
    if position < WORLD_CELLS && position % (WORLD_WIDTH as usize) != WORLD_WIDTH as usize - 1 {
        Some(position + 1)
    } else {
        None
    }
}

pub fn adjacent_x(position1: usize, position2: usize) -> (adjacent: bool)
    ensures
        adjacent == spec_adjacent_x(position1, position2),
{
    let is_left = match left(position1) {
        None => false,
        Some(x) => x == position2,
    };
    let is_right = match right(position1) {
        None => false,
        Some(x) => x == position2,
    };
    is_left || is_right
}

pub fn adjacent_y(position1: usize, position2: usize) -> (adjacent: bool)
    ensures
        adjacent == spec_adjacent_y(position1, position2),
{
    let is_above = match above(position1) {
        None => false,
        Some(x) => x == position2,
    };
    let is_below = match below(position1) {
        None => false,
        Some(x) => x == position2,
    };
    is_above || is_below
}

/// Column and row of the cell with index `i`.
pub fn coords(i: usize) -> (at: (i32, i32))
    requires
        i <= i32::MAX,
    ensures
        (at.0 as int, at.1 as int) == spec_coords(i as int),
        0 <= at.0 < WORLD_WIDTH,
        0 <= at.1,
        i < WORLD_SIZE ==> spec_in_bounds(at.0 as int, at.1 as int),
        spec_point(at.0 as int, at.1 as int) == i,
{
    let column = i % (WORLD_WIDTH as usize);
    let row = i / (WORLD_WIDTH as usize);
    assert(i < 40000 ==> i / 200 < 200);
    (column as i32, row as i32)
}

/// The index of the cell in column `x` and row `y`.
pub fn point(x: i32, y: i32) -> (index: usize)
    requires
        spec_in_bounds(x as int, y as int),
    ensures
        index == spec_point(x as int, y as int),
        index < WORLD_SIZE,
        spec_coords(index as int) == (x as int, y as int),
{
    (x + y * WORLD_WIDTH) as usize
}

/// The step with number `k` of `neighbor_offsets`.
fn offset_at(k: usize) -> (offset: (i32, i32))
    requires
        k < 8,
    ensures
        (offset.0 as int, offset.1 as int) == neighbor_offsets()[k as int],
        -1 <= offset.0 <= 1,
        -1 <= offset.1 <= 1,
{
    if k == 0 {
        (-1, -1)
    } else if k == 1 {
        (-1, 0)
    } else if k == 2 {
        (-1, 1)
    } else if k == 3 {
        (0, -1)
    } else if k == 4 {
        (0, 1)
    } else if k == 5 {
        (1, -1)
    } else if k == 6 {
        (1, 0)
    } else {
        (1, 1)
    }
}

/// Filtering one more item keeps it or drops it, and leaves the rest alone.
pub proof fn lemma_filter_next<A>(s: Seq<A>, pred: spec_fn(A) -> bool, k: int)
    requires
        0 <= k < s.len(),
    ensures
        s.take(k + 1).filter(pred) == if pred(s[k]) {
            s.take(k).filter(pred).push(s[k])
        } else {
            s.take(k).filter(pred)
        },
{
    reveal(Seq::filter);
    assert(s.take(k + 1).drop_last() =~= s.take(k));
    assert(s.take(k + 1).last() == s[k]);
}

/// The indices as mathematical integers.
pub open spec fn as_ints(indices: Seq<usize>) -> Seq<int> {
    indices.map_values(|i: usize| i as int)
}

/// The in-grid cells around `index`, at most eight, without `index` itself.
pub fn neighbors(index: usize) -> (found: Vec<usize>)
    requires
        index <= i32::MAX,
    ensures
        as_ints(found@) == spec_neighbors(index as int),
        found@.len() <= 8,
        forall|k: int| 0 <= k < found@.len() ==> #[trigger] found@[k] < WORLD_SIZE && found@[k] != index,
{
    let x = (index % (WORLD_WIDTH as usize)) as i32;
    let y = (index / (WORLD_WIDTH as usize)) as i32;
    let mut found: Vec<usize> = Vec::new();
    let ghost offsets = neighbor_offsets();
    let ghost kept = |offset: (int, int)| step_in_bounds(index as int, offset);
    let ghost reach = |offset: (int, int)| step_from(index as int, offset);
    let mut k: usize = 0;
    proof {
        assert(offsets.take(0).filter(kept) =~= Seq::<(int, int)>::empty()) by {
            reveal(Seq::filter);
        }
        assert(as_ints(found@) =~= offsets.take(0).filter(kept).map_values(reach));
    }
    while k < 8
        invariant
            k <= 8,
            index <= i32::MAX,
            x == spec_coords(index as int).0,
            y == spec_coords(index as int).1,
            offsets == neighbor_offsets(),
            kept == |offset: (int, int)| step_in_bounds(index as int, offset),
            reach == |offset: (int, int)| step_from(index as int, offset),
            as_ints(found@) == offsets.take(k as int).filter(kept).map_values(reach),
            found@.len() <= k,
            forall|j: int| 0 <= j < found@.len() ==> #[trigger] found@[j] < WORLD_SIZE && found@[j] != index,
        decreases 8 - k,
    {
        let (dx, dy) = offset_at(k);
        proof {
            lemma_filter_next(offsets, kept, k as int);
        }
        if in_bounds(x + dx, y + dy) {
            let cell = point(x + dx, y + dy);
            let ghost before = found@;
            found.push(cell);
            proof {
                let offset = offsets[k as int];
                assert(kept(offset));
                assert(cell as int == reach(offset)) by {
                    assert(spec_point(x as int, y as int) == index);
                    assert((x + dx) + (y + dy) * 200 == x + y * 200 + dx + dy * 200);
                }
                assert(cell != index);
                assert(as_ints(found@) =~= as_ints(before).push(cell as int));
                assert(offsets.take(k as int).filter(kept).push(offset).map_values(reach)
                    =~= offsets.take(k as int).filter(kept).map_values(reach).push(reach(offset)));
            }
        } else {
            proof {
                assert(!kept(offsets[k as int]));
            }
        }
        k += 1;
    }
    proof {
        assert(offsets.take(8) =~= offsets);
    }
    found
}

/// All eight indices around `index`. The cells exist only where `index` has a
/// margin of a full row and one cell on both sides.
pub fn raw_neighbors(index: usize) -> (found: Vec<usize>)
    requires
        WORLD_WIDTH + 1 <= index,
        index + WORLD_WIDTH + 1 <= i32::MAX,
    ensures
        as_ints(found@) == spec_raw_neighbors(index as int),
        found@.len() == 8,
{
    let mut found: Vec<usize> = Vec::new();
    let mut k: usize = 0;
    while k < 8
        invariant
            k <= 8,
            WORLD_WIDTH + 1 <= index,
            index + WORLD_WIDTH + 1 <= i32::MAX,
            found@.len() == k,
            forall|j: int| 0 <= j < k ==> #[trigger] found@[j] as int == step_from(index as int, neighbor_offsets()[j]),
        decreases 8 - k,
    {
        let (dx, dy) = offset_at(k);
        let cell = (index as i32 + dx + dy * WORLD_WIDTH) as usize;
        found.push(cell);
        k += 1;
    }
    proof {
        assert(as_ints(found@) =~= spec_raw_neighbors(index as int));
    }
    found
}

/// The number of items of `verdicts` that are true.
pub open spec fn count_true(verdicts: Seq<bool>) -> nat
    decreases verdicts.len(),
{
    if verdicts.len() == 0 {
        0
    } else {
        count_true(verdicts.drop_last()) + if verdicts.last() {
            1nat
        } else {
            0nat
        }
    }
}

/// Counts the cells around `index` that `predicate` accepts.
pub fn neighbor_count<F: Fn(usize) -> bool>(index: usize, predicate: F) -> (count: usize)
    requires
        index <= i32::MAX,
        forall|cell: usize| cell < WORLD_SIZE ==> call_requires(predicate, (cell,)),
    ensures
        exists|verdicts: Seq<bool>|
            {
                &&& verdicts.len() == spec_neighbors(index as int).len()
                &&& forall|k: int|
                    0 <= k < verdicts.len() ==> call_ensures(
                        predicate,
                        (spec_neighbors(index as int)[k] as usize,),
                        #[trigger] verdicts[k],
                    )
                &&& count == count_true(verdicts)
            },
        count <= 8,
{
    let cells = neighbors(index);
    let mut count: usize = 0;
    let ghost mut verdicts: Seq<bool> = Seq::empty();
    let mut k: usize = 0;
    while k < cells.len()
        invariant
            k <= cells@.len() <= 8,
            as_ints(cells@) == spec_neighbors(index as int),
            forall|j: int| 0 <= j < cells@.len() ==> #[trigger] cells@[j] < WORLD_SIZE,
            forall|cell: usize| cell < WORLD_SIZE ==> call_requires(predicate, (cell,)),
            verdicts.len() == k,
            forall|j: int|
                0 <= j < k ==> call_ensures(predicate, (cells@[j],), #[trigger] verdicts[j]),
            count == count_true(verdicts),
            count <= k,
        decreases cells@.len() - k,
    {
        let accepted = predicate(cells[k]);
        proof {
            let grown = verdicts.push(accepted);
            assert(grown.drop_last() =~= verdicts);
            verdicts = grown;
        }
        if accepted {
            count += 1;
        }
        k += 1;
    }
    proof {
        assert forall|j: int| 0 <= j < verdicts.len() implies call_ensures(
            predicate,
            (spec_neighbors(index as int)[j] as usize,),
            #[trigger] verdicts[j],
        ) by {
            assert(as_ints(cells@)[j] == cells@[j] as int);
        }
    }
    count
}

/// Whether the cell `index` of the grid lies on no edge of the grid.
pub open spec fn is_inner_cell(index: int) -> bool {
    0 <= index < WORLD_SIZE && 1 <= spec_coords(index).0 <= WORLD_WIDTH - 2 && 1 <= spec_coords(
        index,
    ).1 <= WORLD_HEIGHT - 2
}

/// A cell that lies on no edge of the grid has all eight cells around it in
/// the grid: for such a cell the unfiltered list of neighbours is the
/// filtered one, and no index of it needs a bounds test.
pub proof fn lemma_inner_cells_have_margin(index: int)
    requires
        is_inner_cell(index),
    ensures
        has_margin(index, WORLD_SIZE as int),
        spec_neighbors(index) == spec_raw_neighbors(index),
        forall|k: int| 0 <= k < 8 ==> 0 <= #[trigger] spec_raw_neighbors(index)[k] < WORLD_SIZE,
{
    let offsets = neighbor_offsets();
    let kept = |offset: (int, int)| step_in_bounds(index, offset);
    assert(index == spec_coords(index).0 + spec_coords(index).1 * 200);
    assert forall|k: int| 0 <= k < 8 implies kept(#[trigger] offsets[k]) by {}
    assert(offsets.filter(kept) == offsets) by {
        lemma_filter_keeps_all(offsets, kept, 8);
        assert(offsets.take(8) =~= offsets);
    }
}

/// A filter that every one of the first `k` items passes keeps them all.
proof fn lemma_filter_keeps_all<A>(s: Seq<A>, pred: spec_fn(A) -> bool, k: int)
    requires
        0 <= k <= s.len(),
        forall|j: int| 0 <= j < k ==> pred(#[trigger] s[j]),
    ensures
        s.take(k).filter(pred) == s.take(k),
    decreases k,
{
    if k == 0 {
        reveal(Seq::filter);
        assert(s.take(0).filter(pred) =~= s.take(0));
    } else {
        lemma_filter_keeps_all(s, pred, k - 1);
        lemma_filter_next(s, pred, k - 1);
        assert(s.take(k - 1).push(s[k - 1]) =~= s.take(k));
    }
}

} // verus!
