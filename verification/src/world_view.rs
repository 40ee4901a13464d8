//! Views that a reaction gets of the grid: one cell's surroundings, or the
//! surroundings of the two cells of a collision.

use vstd::prelude::*;
use crate::{as_ints, has_margin, raw_neighbors, spec_raw_neighbors, WORLD_WIDTH};

verus! {

/// The index of a cell, as a view hands it out.
#[derive(Clone, Copy, Debug)]
pub struct NeighborhoodIndex(pub usize);

impl NeighborhoodIndex {
    pub fn new(index: usize) -> (wrapped: NeighborhoodIndex)
        ensures
            wrapped.0 == index,
    {
        NeighborhoodIndex(index)
    }
}

/// Whether `k` numbers one of the eight steps to a neighbour.
pub open spec fn is_step(k: int) -> bool {
    0 <= k < 8
}

/// Whether `cell` is one of the eight indices around `center`.
pub open spec fn is_around(center: int, cell: int) -> bool {
    spec_raw_neighbors(center).contains(cell)
}

/// The eight indices around a cell with a margin are eight different cells
/// of the buffer, none of them the cell itself.
pub proof fn lemma_raw_neighbors_are_distinct_cells(center: int, len: int)
    requires
        has_margin(center, len),
    ensures
        spec_raw_neighbors(center).len() == 8,
        forall|k: int|
            0 <= k < 8 ==> 0 <= #[trigger] spec_raw_neighbors(center)[k] < len && spec_raw_neighbors(
                center,
            )[k] != center,
        forall|j: int, k: int|
            0 <= j < k < 8 ==> spec_raw_neighbors(center)[j] != spec_raw_neighbors(center)[k],
{
}

/// Applies `f` once to each of the eight cells around `center`, in the order
/// of `raw_neighbors`, but leaves out the cell `excluded`.
pub fn for_each_around<T, F: FnMut(&mut T)>(slice: &mut [T], center: usize, excluded: Option<usize>, f: F)
    requires
        has_margin(center as int, old(slice)@.len() as int),
        center + WORLD_WIDTH + 1 <= i32::MAX,
        forall|k: int, cell: &mut T|
            #[trigger] is_step(k) && Some(spec_raw_neighbors(center as int)[k] as usize) != excluded
                && *cell == old(slice)@[spec_raw_neighbors(center as int)[k]]
                ==> #[trigger] call_requires(f, (cell,)),
    ensures
        final(slice)@.len() == old(slice)@.len(),
        forall|j: int|
            0 <= j < old(slice)@.len() && (!is_around(center as int, j) || Some(j as usize)
                == excluded) ==> #[trigger] final(slice)@[j] == old(slice)@[j],
        forall|k: int|
            #[trigger] is_step(k) && Some(spec_raw_neighbors(center as int)[k] as usize) != excluded
                ==> exists|cell: &mut T|
                *cell == old(slice)@[spec_raw_neighbors(center as int)[k]]
                    && *final(cell) == final(slice)@[spec_raw_neighbors(center as int)[k]]
                    && call_ensures(f, (cell,), ()),
{
    let mut f = f;
    let around = raw_neighbors(center);
    proof {
        lemma_raw_neighbors_are_distinct_cells(center as int, slice@.len() as int);
        assert forall|k: int| 0 <= k < 8 implies around@[k] as int == spec_raw_neighbors(
            center as int,
        )[k] by {
            assert(as_ints(around@)[k] == around@[k] as int);
        }
    }
    proof {
        assert(is_step(0) && is_step(1) && is_step(2) && is_step(3));
        assert(is_step(4) && is_step(5) && is_step(6) && is_step(7));
    }
    if Some(around[0]) != excluded {
        f(&mut slice[around[0]]);
    }
    if Some(around[1]) != excluded {
        f(&mut slice[around[1]]);
    }
    if Some(around[2]) != excluded {
        f(&mut slice[around[2]]);
    }
    if Some(around[3]) != excluded {
        f(&mut slice[around[3]]);
    }
    if Some(around[4]) != excluded {
        f(&mut slice[around[4]]);
    }
    if Some(around[5]) != excluded {
        f(&mut slice[around[5]]);
    }
    if Some(around[6]) != excluded {
        f(&mut slice[around[6]]);
    }
    if Some(around[7]) != excluded {
        f(&mut slice[around[7]]);
    }
}

/// Wraps each index for handing out.
fn wrap_indices(cells: Vec<usize>) -> (wrapped: Vec<NeighborhoodIndex>)
    ensures
        wrapped@.len() == cells@.len(),
        forall|k: int| 0 <= k < cells@.len() ==> (#[trigger] wrapped@[k]).0 == cells@[k],
{
    let mut wrapped: Vec<NeighborhoodIndex> = Vec::new();
    let mut k: usize = 0;
    while k < cells.len()
        invariant
            k <= cells@.len(),
            wrapped@.len() == k,
            forall|j: int| 0 <= j < k ==> (#[trigger] wrapped@[j]).0 == cells@[j],
        decreases cells@.len() - k,
    {
        wrapped.push(NeighborhoodIndex(cells[k]));
        k += 1;
    }
    wrapped
}

/// One cell's surroundings: the whole buffer, seen from the cell `index`.
pub struct NeighborhoodView<'a, T> {
    pub slice: &'a mut [T],
    pub index: usize,
}

impl<'a, T> NeighborhoodView<'a, T> {
    /// The cells of the buffer as they are now.
    pub open spec fn cells(&self) -> Seq<T> {
        self.slice@
    }

    /// Whether all eight cells around the viewed cell exist.
    pub open spec fn has_margin(&self) -> bool {
        has_margin(self.index as int, self.slice@.len() as int)
    }

    pub fn new(slice: &'a mut [T], index: usize) -> (view: Self)
        ensures
            view.index == index,
            view.slice@ == old(slice)@,
            final(view.slice)@ == final(slice)@,
    {
        NeighborhoodView { slice, index }
    }

    /// Whether all eight cells around the viewed cell exist, so that the
    /// view can reach them.
    pub fn surrounded(&self) -> (inside: bool)
        ensures
            inside == (self.has_margin() && self.index + WORLD_WIDTH + 1 <= i32::MAX),
    {
        self.index >= WORLD_WIDTH as usize + 1 && self.index <= i32::MAX as usize
            - WORLD_WIDTH as usize - 1 && self.index + WORLD_WIDTH as usize + 1 < self.slice.len()
    }

    /// The eight indices around the viewed cell.
    pub fn neighbors(&self) -> (around: Vec<NeighborhoodIndex>)
        requires
            WORLD_WIDTH + 1 <= self.index,
            self.index + WORLD_WIDTH + 1 <= i32::MAX,
        ensures
            around@.len() == 8,
            forall|k: int|
                0 <= k < 8 ==> (#[trigger] around@[k]).0 == spec_raw_neighbors(self.index as int)[k],
            self.has_margin() ==> forall|k: int| 0 <= k < 8 ==> (#[trigger] around@[k]).0 < self.cells().len(),
    {
        let cells = raw_neighbors(self.index);
        proof {
            lemma_raw_neighbors_are_distinct_cells(self.index as int, self.slice@.len() as int + self.index + 1000);
            assert forall|k: int| 0 <= k < 8 implies cells@[k] as int == spec_raw_neighbors(
                self.index as int,
            )[k] by {
                assert(as_ints(cells@)[k] == cells@[k] as int);
            }
            if self.has_margin() {
                lemma_raw_neighbors_are_distinct_cells(self.index as int, self.slice@.len() as int);
            }
        }
        wrap_indices(cells)
    }

    /// The cell one row above the viewed cell.
    pub fn above(&mut self) -> (cell: &mut T)
        requires
            WORLD_WIDTH <= old(self).index < old(self).slice@.len() + WORLD_WIDTH,
        ensures
            *cell == old(self).slice@[old(self).index - WORLD_WIDTH],
            final(self).index == old(self).index,
            final(self).slice@ == old(self).slice@.update(old(self).index - WORLD_WIDTH, *final(cell)),
            final(final(self).slice)@ == final(old(self).slice)@,
    {
        &mut self.slice[self.index - WORLD_WIDTH as usize]
    }

    /// The cell one row below the viewed cell.
    pub fn below(&mut self) -> (cell: &mut T)
        requires
            old(self).index + WORLD_WIDTH < old(self).slice@.len(),
        ensures
            *cell == old(self).slice@[old(self).index + WORLD_WIDTH],
            final(self).index == old(self).index,
            final(self).slice@ == old(self).slice@.update(old(self).index + WORLD_WIDTH, *final(cell)),
            final(final(self).slice)@ == final(old(self).slice)@,
    {
        proof {
            vstd::slice::axiom_spec_len(self.slice);
        }
        &mut self.slice[self.index + WORLD_WIDTH as usize]
    }

    /// The cell that `index` names.
    pub fn index(&self, index: NeighborhoodIndex) -> (cell: &T)
        requires
            index.0 < self.cells().len(),
        ensures
            *cell == self.cells()[index.0 as int],
    {
        &self.slice[index.0]
    }

    /// The cell that `index` names, open to change.
    pub fn index_mut(&mut self, index: NeighborhoodIndex) -> (cell: &mut T)
        requires
            index.0 < old(self).slice@.len(),
        ensures
            *cell == old(self).slice@[index.0 as int],
            final(self).index == old(self).index,
            final(self).slice@ == old(self).slice@.update(index.0 as int, *final(cell)),
            final(final(self).slice)@ == final(old(self).slice)@,
    {
        &mut self.slice[index.0]
    }

    /// Applies `f` once to each of the eight cells around the viewed cell.
    pub fn for_each_neighbor<F: FnMut(&mut T)>(&mut self, f: F)
        requires
            old(self).has_margin(),
            old(self).index + WORLD_WIDTH + 1 <= i32::MAX,
            forall|k: int, cell: &mut T|
                #[trigger] is_step(k) && *cell == old(self).slice@[spec_raw_neighbors(old(self).index as int)[k]]
                    ==> #[trigger] call_requires(f, (cell,)),
        ensures
            final(self).index == old(self).index,
            final(final(self).slice)@ == final(old(self).slice)@,
            final(self).slice@.len() == old(self).slice@.len(),
            forall|j: int|
                0 <= j < old(self).slice@.len() && !is_around(old(self).index as int, j)
                    ==> #[trigger] final(self).slice@[j] == old(self).slice@[j],
            forall|k: int|
                #[trigger] is_step(k) ==> exists|cell: &mut T|
                    *cell == old(self).slice@[spec_raw_neighbors(old(self).index as int)[k]]
                        && *final(cell) == final(self).slice@[spec_raw_neighbors(old(self).index as int)[k]]
                        && call_ensures(f, (cell,), ()),
    {
        for_each_around(self.slice, self.index, None, f)
    }
}

/// The surroundings of the two cells of a collision.
pub struct CollisionView<'a, T> {
    pub slice: &'a mut [T],
    /// Index of whichever particle has the lower element id.
    pub first_index: usize,
    /// Index of whichever particle has the higher element id.
    pub second_index: usize,
}

impl<'a, T> CollisionView<'a, T> {
    /// The cells of the buffer as they are now.
    pub open spec fn cells(&self) -> Seq<T> {
        self.slice@
    }

    pub fn new(slice: &'a mut [T], first_index: usize, second_index: usize) -> (view: Self)
        ensures
            view.first_index == first_index,
            view.second_index == second_index,
            view.slice@ == old(slice)@,
            final(view.slice)@ == final(slice)@,
    {
        CollisionView { slice, first_index, second_index }
    }

    /// A view of the first particle's surroundings.
    pub fn first(&mut self) -> (view: NeighborhoodView<'_, T>)
        ensures
            view.index == old(self).first_index,
            view.slice@ == old(self).slice@,
            final(self).slice@ == final(view.slice)@,
            final(self).first_index == old(self).first_index,
            final(self).second_index == old(self).second_index,
            final(final(self).slice)@ == final(old(self).slice)@,
    {
        NeighborhoodView::new(self.slice, self.first_index)
    }

    /// A view of the second particle's surroundings.
    pub fn second(&mut self) -> (view: NeighborhoodView<'_, T>)
        ensures
            view.index == old(self).second_index,
            view.slice@ == old(self).slice@,
            final(self).slice@ == final(view.slice)@,
            final(self).first_index == old(self).first_index,
            final(self).second_index == old(self).second_index,
            final(final(self).slice)@ == final(old(self).slice)@,
    {
        NeighborhoodView::new(self.slice, self.second_index)
    }

    /// The cell that `index` names.
    pub fn index(&self, index: NeighborhoodIndex) -> (cell: &T)
        requires
            index.0 < self.cells().len(),
        ensures
            *cell == self.cells()[index.0 as int],
    {
        &self.slice[index.0]
    }

    /// The cell that `index` names, open to change.
    pub fn index_mut(&mut self, index: NeighborhoodIndex) -> (cell: &mut T)
        requires
            index.0 < old(self).slice@.len(),
        ensures
            *cell == old(self).slice@[index.0 as int],
            final(self).first_index == old(self).first_index,
            final(self).second_index == old(self).second_index,
            final(self).slice@ == old(self).slice@.update(index.0 as int, *final(cell)),
            final(final(self).slice)@ == final(old(self).slice)@,
    {
        &mut self.slice[index.0]
    }

    /// Applies `f` once to each cell around the first particle, but not to
    /// the second particle.
    pub fn for_neighbors_of_first<F: FnMut(&mut T)>(&mut self, f: F)
        requires
            has_margin(old(self).first_index as int, old(self).slice@.len() as int),
            old(self).first_index + WORLD_WIDTH + 1 <= i32::MAX,
            forall|k: int, cell: &mut T|
                #[trigger] is_step(k) && spec_raw_neighbors(old(self).first_index as int)[k] != old(self).second_index
                    && *cell == old(self).slice@[spec_raw_neighbors(old(self).first_index as int)[k]]
                    ==> #[trigger] call_requires(f, (cell,)),
        ensures
            final(self).first_index == old(self).first_index,
            final(self).second_index == old(self).second_index,
            final(final(self).slice)@ == final(old(self).slice)@,
            final(self).slice@.len() == old(self).slice@.len(),
            forall|j: int|
                0 <= j < old(self).slice@.len() && (!is_around(old(self).first_index as int, j) || j
                    == old(self).second_index) ==> #[trigger] final(self).slice@[j] == old(self).slice@[j],
            forall|k: int|
                #[trigger] is_step(k) && spec_raw_neighbors(old(self).first_index as int)[k] != old(self).second_index
                    ==> exists|cell: &mut T|
                    *cell == old(self).slice@[spec_raw_neighbors(old(self).first_index as int)[k]]
                        && *final(cell) == final(self).slice@[spec_raw_neighbors(old(self).first_index as int)[k]]
                        && call_ensures(f, (cell,), ()),
    {
        for_each_around(self.slice, self.first_index, Some(self.second_index), f)
    }

    /// Applies `f` once to each cell around the second particle, but not to
    /// the first particle.
    pub fn for_neighbors_of_second<F: FnMut(&mut T)>(&mut self, f: F)
        requires
            has_margin(old(self).second_index as int, old(self).slice@.len() as int),
            old(self).second_index + WORLD_WIDTH + 1 <= i32::MAX,
            forall|k: int, cell: &mut T|
                #[trigger] is_step(k) && spec_raw_neighbors(old(self).second_index as int)[k] != old(self).first_index
                    && *cell == old(self).slice@[spec_raw_neighbors(old(self).second_index as int)[k]]
                    ==> #[trigger] call_requires(f, (cell,)),
        ensures
            final(self).first_index == old(self).first_index,
            final(self).second_index == old(self).second_index,
            final(final(self).slice)@ == final(old(self).slice)@,
            final(self).slice@.len() == old(self).slice@.len(),
            forall|j: int|
                0 <= j < old(self).slice@.len() && (!is_around(old(self).second_index as int, j) || j
                    == old(self).first_index) ==> #[trigger] final(self).slice@[j] == old(self).slice@[j],
            forall|k: int|
                #[trigger] is_step(k) && spec_raw_neighbors(old(self).second_index as int)[k] != old(self).first_index
                    ==> exists|cell: &mut T|
                    *cell == old(self).slice@[spec_raw_neighbors(old(self).second_index as int)[k]]
                        && *final(cell) == final(self).slice@[spec_raw_neighbors(old(self).second_index as int)[k]]
                        && call_ensures(f, (cell,), ()),
    {
        for_each_around(self.slice, self.second_index, Some(self.first_index), f)
    }
}

} // verus!
