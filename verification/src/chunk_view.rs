//! Bands of the grid that can be worked on apart from one another, and the
//! views that reactions get of a band.

use vstd::prelude::*;
use std::collections::HashMap;
use crate::chance::random_in_range;
use crate::element::{FIXED, FLUID};
use crate::tile::Tile;
use crate::world::{
    after_bounce, collision_key, exchanged, first_of, first_tile_of, is_collision, replaced,
    second_of, second_tile_of, wake_cells, wake_stack, Cells, PairwiseMutate,
};
use crate::world_view::{for_each_around, is_around, is_step};
use crate::{
    above, adjacent_x, as_ints, has_margin, neighbors, spec_above, spec_adjacent_x, spec_neighbors,
    spec_raw_neighbors, WORLD_WIDTH,
};

verus! {

/// The index of a cell within a band.
#[derive(Clone, Copy, Debug)]
pub struct ChunkIndex(pub usize);

impl ChunkIndex {
    pub fn new(index: usize) -> (wrapped: ChunkIndex)
        ensures
            wrapped.0 == index,
    {
        ChunkIndex(index)
    }
}

/// Wraps each index for handing out.
fn wrap_indices(cells: Vec<usize>) -> (wrapped: Vec<ChunkIndex>)
    ensures
        wrapped@.len() == cells@.len(),
        forall|k: int| 0 <= k < cells@.len() ==> (#[trigger] wrapped@[k]).0 == cells@[k],
{
    let mut wrapped: Vec<ChunkIndex> = Vec::new();
    let mut k: usize = 0;
    while k < cells.len()
        invariant
            k <= cells@.len(),
            wrapped@.len() == k,
            forall|j: int| 0 <= j < k ==> (#[trigger] wrapped@[j]).0 == cells@[j],
        decreases cells@.len() - k,
    {
        wrapped.push(ChunkIndex(cells[k]));
        k += 1;
    }
    wrapped
}

/// One cell's surroundings within a band.
pub struct ChunkView<'a, T> {
    pub chunk: &'a mut [T],
    pub index: usize,
}

impl<'a, T> ChunkView<'a, T> {
    /// The cells of the band as they are now.
    pub open spec fn cells(&self) -> Seq<T> {
        self.chunk@
    }

    /// Whether all eight cells around the viewed cell lie in the band.
    pub open spec fn has_margin(&self) -> bool {
        has_margin(self.index as int, self.chunk@.len() as int)
    }

    pub fn new(chunk: &'a mut [T], index: usize) -> (view: Self)
        ensures
            view.index == index,
            view.chunk@ == old(chunk)@,
            final(view.chunk)@ == final(chunk)@,
    {
        ChunkView { chunk, index }
    }

    /// The indices around the viewed cell that lie in the grid.
    pub fn neighbors(&self) -> (around: Vec<ChunkIndex>)
        requires
            self.index <= i32::MAX,
        ensures
            around@.len() == spec_neighbors(self.index as int).len(),
            forall|k: int|
                0 <= k < around@.len() ==> (#[trigger] around@[k]).0 == spec_neighbors(
                    self.index as int,
                )[k],
    {
        let cells = neighbors(self.index);
        proof {
            assert forall|k: int| 0 <= k < cells@.len() implies cells@[k] as int == spec_neighbors(
                self.index as int,
            )[k] by {
                assert(as_ints(cells@)[k] == cells@[k] as int);
            }
            assert(as_ints(cells@).len() == cells@.len());
        }
        wrap_indices(cells)
    }

    /// The cell one row above the viewed cell.
    pub fn above(&mut self) -> (cell: &mut T)
        requires
            WORLD_WIDTH <= old(self).index < old(self).chunk@.len() + WORLD_WIDTH,
        ensures
            *cell == old(self).chunk@[old(self).index - WORLD_WIDTH],
            final(self).index == old(self).index,
            final(self).chunk@ == old(self).chunk@.update(old(self).index - WORLD_WIDTH, *final(cell)),
            final(final(self).chunk)@ == final(old(self).chunk)@,
    {
        &mut self.chunk[self.index - WORLD_WIDTH as usize]
    }

    /// The cell one row below the viewed cell.
    pub fn below(&mut self) -> (cell: &mut T)
        requires
            old(self).index + WORLD_WIDTH < old(self).chunk@.len(),
        ensures
            *cell == old(self).chunk@[old(self).index + WORLD_WIDTH],
            final(self).index == old(self).index,
            final(self).chunk@ == old(self).chunk@.update(old(self).index + WORLD_WIDTH, *final(cell)),
            final(final(self).chunk)@ == final(old(self).chunk)@,
    {
        proof {
            vstd::slice::axiom_spec_len(self.chunk);
        }
        &mut self.chunk[self.index + WORLD_WIDTH as usize]
    }

    /// The cell that `index` names.
    pub fn index(&self, index: ChunkIndex) -> (cell: &T)
        requires
            index.0 < self.cells().len(),
        ensures
            *cell == self.cells()[index.0 as int],
    {
        &self.chunk[index.0]
    }

    /// The cell that `index` names, open to change.
    pub fn index_mut(&mut self, index: ChunkIndex) -> (cell: &mut T)
        requires
            index.0 < old(self).chunk@.len(),
        ensures
            *cell == old(self).chunk@[index.0 as int],
            final(self).index == old(self).index,
            final(self).chunk@ == old(self).chunk@.update(index.0 as int, *final(cell)),
            final(final(self).chunk)@ == final(old(self).chunk)@,
    {
        &mut self.chunk[index.0]
    }

    /// Applies `f` once to each of the eight cells around the viewed cell.
    pub fn for_each_neighbor<F: FnMut(&mut T)>(&mut self, f: F)
        requires
            old(self).has_margin(),
            old(self).index + WORLD_WIDTH + 1 <= i32::MAX,
            forall|k: int, cell: &mut T|
                #[trigger] is_step(k) && *cell == old(self).chunk@[spec_raw_neighbors(old(self).index as int)[k]]
                    ==> #[trigger] call_requires(f, (cell,)),
        ensures
            final(self).index == old(self).index,
            final(final(self).chunk)@ == final(old(self).chunk)@,
            final(self).chunk@.len() == old(self).chunk@.len(),
            forall|j: int|
                0 <= j < old(self).chunk@.len() && !is_around(old(self).index as int, j)
                    ==> #[trigger] final(self).chunk@[j] == old(self).chunk@[j],
            forall|k: int|
                #[trigger] is_step(k) ==> exists|cell: &mut T|
                    *cell == old(self).chunk@[spec_raw_neighbors(old(self).index as int)[k]]
                        && *final(cell) == final(self).chunk@[spec_raw_neighbors(old(self).index as int)[k]]
                        && call_ensures(f, (cell,), ()),
    {
        for_each_around(self.chunk, self.index, None, f)
    }
}

/// The surroundings, within a band, of the two cells of a collision.
pub struct CollisionChunkView<'a, T> {
    pub chunk: &'a mut [T],
    /// Index of whichever particle has the lower element id.
    pub first_index: usize,
    /// Index of whichever particle has the higher element id.
    pub second_index: usize,
}

impl<'a, T> CollisionChunkView<'a, T> {
    /// The cells of the band as they are now.
    pub open spec fn cells(&self) -> Seq<T> {
        self.chunk@
    }

    pub fn new(chunk: &'a mut [T], first_index: usize, second_index: usize) -> (view: Self)
        ensures
            view.first_index == first_index,
            view.second_index == second_index,
            view.chunk@ == old(chunk)@,
            final(view.chunk)@ == final(chunk)@,
    {
        CollisionChunkView { chunk, first_index, second_index }
    }

    /// A view of the first particle's surroundings.
    pub fn first(&mut self) -> (view: ChunkView<'_, T>)
        ensures
            view.index == old(self).first_index,
            view.chunk@ == old(self).chunk@,
            final(self).chunk@ == final(view.chunk)@,
            final(self).first_index == old(self).first_index,
            final(self).second_index == old(self).second_index,
            final(final(self).chunk)@ == final(old(self).chunk)@,
    {
        ChunkView::new(self.chunk, self.first_index)
    }

    /// A view of the second particle's surroundings.
    pub fn second(&mut self) -> (view: ChunkView<'_, T>)
        ensures
            view.index == old(self).second_index,
            view.chunk@ == old(self).chunk@,
            final(self).chunk@ == final(view.chunk)@,
            final(self).first_index == old(self).first_index,
            final(self).second_index == old(self).second_index,
            final(final(self).chunk)@ == final(old(self).chunk)@,
    {
        ChunkView::new(self.chunk, self.second_index)
    }

    /// The cell that `index` names.
    pub fn index(&self, index: ChunkIndex) -> (cell: &T)
        requires
            index.0 < self.cells().len(),
        ensures
            *cell == self.cells()[index.0 as int],
    {
        &self.chunk[index.0]
    }

    /// The cell that `index` names, open to change.
    pub fn index_mut(&mut self, index: ChunkIndex) -> (cell: &mut T)
        requires
            index.0 < old(self).chunk@.len(),
        ensures
            *cell == old(self).chunk@[index.0 as int],
            final(self).first_index == old(self).first_index,
            final(self).second_index == old(self).second_index,
            final(self).chunk@ == old(self).chunk@.update(index.0 as int, *final(cell)),
            final(final(self).chunk)@ == final(old(self).chunk)@,
    {
        &mut self.chunk[index.0]
    }

    /// Applies `f` once to each cell around the first particle, but not to
    /// the second particle.
    pub fn for_neighbors_of_first<F: FnMut(&mut T)>(&mut self, f: F)
        requires
            has_margin(old(self).first_index as int, old(self).chunk@.len() as int),
            old(self).first_index + WORLD_WIDTH + 1 <= i32::MAX,
            forall|k: int, cell: &mut T|
                #[trigger] is_step(k) && spec_raw_neighbors(old(self).first_index as int)[k] != old(self).second_index
                    && *cell == old(self).chunk@[spec_raw_neighbors(old(self).first_index as int)[k]]
                    ==> #[trigger] call_requires(f, (cell,)),
        ensures
            final(self).first_index == old(self).first_index,
            final(self).second_index == old(self).second_index,
            final(final(self).chunk)@ == final(old(self).chunk)@,
            final(self).chunk@.len() == old(self).chunk@.len(),
            forall|j: int|
                0 <= j < old(self).chunk@.len() && (!is_around(old(self).first_index as int, j) || j
                    == old(self).second_index) ==> #[trigger] final(self).chunk@[j] == old(self).chunk@[j],
            forall|k: int|
                #[trigger] is_step(k) && spec_raw_neighbors(old(self).first_index as int)[k] != old(self).second_index
                    ==> exists|cell: &mut T|
                    *cell == old(self).chunk@[spec_raw_neighbors(old(self).first_index as int)[k]]
                        && *final(cell) == final(self).chunk@[spec_raw_neighbors(old(self).first_index as int)[k]]
                        && call_ensures(f, (cell,), ()),
    {
        for_each_around(self.chunk, self.first_index, Some(self.second_index), f)
    }

    /// Applies `f` once to each cell around the second particle, but not to
    /// the first particle.
    pub fn for_neighbors_of_second<F: FnMut(&mut T)>(&mut self, f: F)
        requires
            has_margin(old(self).second_index as int, old(self).chunk@.len() as int),
            old(self).second_index + WORLD_WIDTH + 1 <= i32::MAX,
            forall|k: int, cell: &mut T|
                #[trigger] is_step(k) && spec_raw_neighbors(old(self).second_index as int)[k] != old(self).first_index
                    && *cell == old(self).chunk@[spec_raw_neighbors(old(self).second_index as int)[k]]
                    ==> #[trigger] call_requires(f, (cell,)),
        ensures
            final(self).first_index == old(self).first_index,
            final(self).second_index == old(self).second_index,
            final(final(self).chunk)@ == final(old(self).chunk)@,
            final(self).chunk@.len() == old(self).chunk@.len(),
            forall|j: int|
                0 <= j < old(self).chunk@.len() && (!is_around(old(self).second_index as int, j) || j
                    == old(self).first_index) ==> #[trigger] final(self).chunk@[j] == old(self).chunk@[j],
            forall|k: int|
                #[trigger] is_step(k) && spec_raw_neighbors(old(self).second_index as int)[k] != old(self).first_index
                    ==> exists|cell: &mut T|
                    *cell == old(self).chunk@[spec_raw_neighbors(old(self).second_index as int)[k]]
                        && *final(cell) == final(self).chunk@[spec_raw_neighbors(old(self).second_index as int)[k]]
                        && call_ensures(f, (cell,), ()),
    {
        for_each_around(self.chunk, self.second_index, Some(self.first_index), f)
    }
}

/// The side effects of collisions, by the key of their ordered pair of
/// elements.
pub type CollisionSideEffectTable<S> = HashMap<u16, S>;

/// The reactions of collisions, by the key of their ordered pair of
/// elements.
pub type CollisionReactionTable<R> = HashMap<u16, R>;

/// The rules by which a collision within a band triggers a reaction.
#[derive(Clone, Copy, PartialEq, Eq, Debug, Structural)]
pub enum ChunkRule {
    /// The side effect registered for the ordered pair of elements.
    SideEffect,
    /// The reaction registered for the ordered pair of elements.
    Reaction,
    /// No reaction: the collision is physical only.
    Nothing,
}

/// A band of the grid together with the reactions that collisions in it
/// trigger.
pub struct Chunk<'a, R, S> {
    pub slice: &'a mut [Option<Tile>],
    pub side_effects: &'a CollisionSideEffectTable<S>,
    pub collision_reactions: &'a CollisionReactionTable<R>,
}

/// The cells with `first` stored in the cell `first_index` and then `second`
/// in the cell `second_index`, each where the cells reach that far.
pub open spec fn stored(
    cells: Cells,
    first_index: usize,
    second_index: usize,
    first: Option<Tile>,
    second: Option<Tile>,
) -> Cells {
    let one = if first_index < cells.len() {
        cells.update(first_index as int, first)
    } else {
        cells
    };
    if second_index < one.len() {
        one.update(second_index as int, second)
    } else {
        one
    }
}

/// Where both cells lie in the cells, both values are stored.
pub proof fn lemma_stored_in_reach(
    cells: Cells,
    first_index: usize,
    second_index: usize,
    first: Option<Tile>,
    second: Option<Tile>,
)
    requires
        first_index < cells.len(),
        second_index < cells.len(),
    ensures
        stored(cells, first_index, second_index, first, second) == replaced(
            cells,
            first_index,
            second_index,
            first,
            second,
        ),
{
}

/// The band after the tile at `source` has tried to move to `destination`,
/// before any reaction.
///
/// Nothing happens without a tile at `source`. Into an empty cell the tile
/// moves, and the pile above `source` wakes. Else the first tile bounces off
/// the second; where the second is fluid and `push_through` is set, they
/// then change places all the same, and the pile above `source` wakes.
pub open spec fn after_chunk_contact(cells: Cells, source: usize, destination: usize, push_through: bool) -> Cells {
    if cells[source as int].is_none() {
        cells
    } else if cells[destination as int].is_none() {
        wake_stack(exchanged(cells, source as int, destination as int), spec_above(source))
    } else {
        let (s, d) = after_bounce(
            cells[source as int].unwrap(),
            cells[destination as int].unwrap(),
            spec_adjacent_x(source, destination),
        );
        let hit = cells.update(source as int, Some(s)).update(destination as int, Some(d));
        if d.flagged(FLUID) && push_through {
            wake_stack(exchanged(hit, source as int, destination as int), spec_above(source))
        } else {
            hit
        }
    }
}

/// The index that lies `delta_x` columns and `delta_y` rows from `source`,
/// each taken by its sign only.
pub open spec fn stepped(source: usize, delta_x: i8, delta_y: i8) -> int {
    source + (if delta_x < 0 {
        -1int
    } else if delta_x > 0 {
        1int
    } else {
        0int
    }) + (if delta_y < 0 {
        -(WORLD_WIDTH as int)
    } else if delta_y > 0 {
        WORLD_WIDTH as int
    } else {
        0int
    })
}

impl<
    'a,
    R: Fn(Tile, Tile) -> (Option<Tile>, Option<Tile>),
    S: for <'b>Fn(Tile, Tile, CollisionChunkView<'b, Option<Tile>>) -> (Option<Tile>, Option<Tile>),
> Chunk<'a, R, S> {
    /// The cells of the band as they are now.
    pub open spec fn cells(&self) -> Cells {
        self.slice@
    }

    /// Every reaction accepts every pair of tiles, and every side effect
    /// accepts every pair of tiles together with any view of a band of this
    /// length.
    pub open spec fn wf(&self) -> bool {
        &&& forall|key: u16, first: Tile, second: Tile|
            self.collision_reactions@.contains_key(key) ==> #[trigger] call_requires(
                self.collision_reactions@[key],
                (first, second),
            )
        &&& forall|key: u16, first: Tile, second: Tile, view: CollisionChunkView<'_, Option<Tile>>|
            self.side_effects@.contains_key(key) && view.cells().len() == self.slice@.len()
                && view.first_index < self.slice@.len() && view.second_index < self.slice@.len()
                ==> #[trigger] call_requires(self.side_effects@[key], (first, second, view))
    }

    /// The rule that decides what a collision of the tiles at `source` and
    /// `destination` of `cells` triggers: the side effect of the pair before
    /// its reaction.
    pub open spec fn rule_on(&self, cells: Cells, source: usize, destination: usize) -> ChunkRule {
        let key = collision_key(cells, source, destination);
        if self.side_effects@.contains_key(key) {
            ChunkRule::SideEffect
        } else if self.collision_reactions@.contains_key(key) {
            ChunkRule::Reaction
        } else {
            ChunkRule::Nothing
        }
    }

    /// Whether this band has the tables of `before`.
    pub open spec fn keeps_tables(&self, before: &Self) -> bool {
        &&& self.side_effects == before.side_effects
        &&& self.collision_reactions == before.collision_reactions
        &&& self.slice@.len() == before.slice@.len()
    }

    pub fn new(
        slice: &'a mut [Option<Tile>],
        side_effects: &'a CollisionSideEffectTable<S>,
        collision_reactions: &'a CollisionReactionTable<R>,
    ) -> (chunk: Chunk<'a, R, S>)
        ensures
            chunk.slice@ == old(slice)@,
            final(chunk.slice)@ == final(slice)@,
            chunk.side_effects == side_effects,
            chunk.collision_reactions == collision_reactions,
    {
        Chunk { slice, side_effects, collision_reactions }
    }

    /// Exchanges the cells `i` and `j`, then wakes the pile above `i`, which
    /// may have lost its support.
    pub fn swap(&mut self, i: usize, j: usize)
        requires
            i < old(self).slice@.len(),
            j < old(self).slice@.len(),
        ensures
            final(self).slice@ == wake_stack(
                exchanged(old(self).slice@, i as int, j as int),
                spec_above(i),
            ),
            final(self).keeps_tables(old(self)),
            final(final(self).slice)@ == final(old(self).slice)@,
    {
        let at_i = self.slice[i];
        let at_j = self.slice[j];
        self.slice[i] = at_j;
        self.slice[j] = at_i;
        wake_cells(self.slice, above(i));
        proof {
            crate::world::lemma_wake_stack_keeps_tiles(
                exchanged(old(self).slice@, i as int, j as int),
                spec_above(i),
            );
        }
    }

    /// The cell that `index` names.
    pub fn index(&self, index: ChunkIndex) -> (cell: &Option<Tile>)
        requires
            index.0 < self.cells().len(),
        ensures
            *cell == self.cells()[index.0 as int],
    {
        &self.slice[index.0]
    }

    /// The cell that `index` names, open to change.
    pub fn index_mut(&mut self, index: ChunkIndex) -> (cell: &mut Option<Tile>)
        requires
            index.0 < old(self).slice@.len(),
        ensures
            *cell == old(self).slice@[index.0 as int],
            final(self).slice@ == old(self).slice@.update(index.0 as int, *final(cell)),
            final(self).keeps_tables(old(self)),
            final(final(self).slice)@ == final(old(self).slice)@,
    {
        &mut self.slice[index.0]
    }

    /// A view of the surroundings of the cell `index`.
    pub fn create_view(&mut self, index: ChunkIndex) -> (view: ChunkView<'_, Option<Tile>>)
        ensures
            view.index == index.0,
            view.chunk@ == old(self).slice@,
            final(self).slice@ == final(view.chunk)@,
            final(self).side_effects == old(self).side_effects,
            final(self).collision_reactions == old(self).collision_reactions,
            final(final(self).slice)@ == final(old(self).slice)@,
    {
        ChunkView::new(self.slice, index.0)
    }

    /// Lets the registered reaction of the two tiles at `source` and
    /// `destination` replace them, and tells whether there was one.
    ///
    /// The tile of the lower element is the first of the pair, the source
    /// where both are of one element. The side effect of the pair, which
    /// also gets a view of the band, comes before the reaction of the pair.
    /// What a side effect returns is stored in the two cells of the band as
    /// the side effect left it.
    pub fn trigger_collision_side_effects(&mut self, source: ChunkIndex, destination: ChunkIndex) -> (reacted: bool)
        requires
            old(self).wf(),
            source.0 < old(self).slice@.len(),
            destination.0 < old(self).slice@.len(),
            old(self).slice@[source.0 as int].is_some(),
            old(self).slice@[destination.0 as int].is_some(),
        ensures
            final(self).side_effects == old(self).side_effects,
            final(self).collision_reactions == old(self).collision_reactions,
            final(final(self).slice)@ == final(old(self).slice)@,
            reacted == (old(self).rule_on(old(self).slice@, source.0, destination.0) != ChunkRule::Nothing),
            old(self).rule_on(old(self).slice@, source.0, destination.0) == ChunkRule::SideEffect
                ==> exists|view: CollisionChunkView<'_, Option<Tile>>, out: (Option<Tile>, Option<Tile>)|
                view.cells() == old(self).slice@ && view.first_index == first_of(
                    old(self).slice@,
                    source.0,
                    destination.0,
                ) && view.second_index == second_of(old(self).slice@, source.0, destination.0)
                    && call_ensures(
                    old(self).side_effects@[collision_key(old(self).slice@, source.0, destination.0)],
                    (
                        first_tile_of(old(self).slice@, source.0, destination.0),
                        second_tile_of(old(self).slice@, source.0, destination.0),
                        view,
                    ),
                    out,
                ) && final(self).slice@ == stored(
                    final(view.chunk)@,
                    first_of(old(self).slice@, source.0, destination.0),
                    second_of(old(self).slice@, source.0, destination.0),
                    out.0,
                    out.1,
                ),
            old(self).rule_on(old(self).slice@, source.0, destination.0) == ChunkRule::Reaction
                ==> exists|out: (Option<Tile>, Option<Tile>)|
                call_ensures(
                    old(self).collision_reactions@[collision_key(
                        old(self).slice@,
                        source.0,
                        destination.0,
                    )],
                    (
                        first_tile_of(old(self).slice@, source.0, destination.0),
                        second_tile_of(old(self).slice@, source.0, destination.0),
                    ),
                    out,
                ) && final(self).slice@ == replaced(
                    old(self).slice@,
                    first_of(old(self).slice@, source.0, destination.0),
                    second_of(old(self).slice@, source.0, destination.0),
                    out.0,
                    out.1,
                ),
            old(self).rule_on(old(self).slice@, source.0, destination.0) == ChunkRule::Nothing
                ==> final(self).slice@ == old(self).slice@,
    {
        let source_tile = self.slice[source.0].unwrap();
        let destination_tile = self.slice[destination.0].unwrap();
        let source_first = source_tile.element_id() <= destination_tile.element_id();
        let (first_tile, second_tile, first_index, second_index) = if source_first {
            (source_tile, destination_tile, source, destination)
        } else {
            (destination_tile, source_tile, destination, source)
        };
        let key = crate::world::pair_key(first_tile.element_id(), second_tile.element_id());
        let ghost cells = self.slice@;
        assert(first_index.0 == first_of(cells, source.0, destination.0));
        assert(second_index.0 == second_of(cells, source.0, destination.0));
        assert(first_tile == first_tile_of(cells, source.0, destination.0));
        assert(second_tile == second_tile_of(cells, source.0, destination.0));
        assert(key == collision_key(cells, source.0, destination.0));
        if let Some(reaction) = self.side_effects.get(&key) {
            let view = CollisionChunkView::new(self.slice, first_index.0, second_index.0);
            let ghost shown = view;
            let (first_after, second_after) = reaction(first_tile, second_tile, view);
            if first_index.0 < self.slice.len() {
                self.slice[first_index.0] = first_after;
            }
            if second_index.0 < self.slice.len() {
                self.slice[second_index.0] = second_after;
            }
            assert(shown.cells() == cells && call_ensures(
                old(self).side_effects@[key],
                (first_tile, second_tile, shown),
                (first_after, second_after),
            ) && self.slice@ == stored(
                final(shown.chunk)@,
                first_index.0,
                second_index.0,
                first_after,
                second_after,
            ));
            return true;
        }
        if let Some(reaction) = self.collision_reactions.get(&key) {
            let (first_after, second_after) = reaction(first_tile, second_tile);
            self.slice[first_index.0] = first_after;
            self.slice[second_index.0] = second_after;
            assert(call_ensures(
                old(self).collision_reactions@[key],
                (first_tile, second_tile),
                (first_after, second_after),
            ) && self.slice@ == replaced(
                cells,
                first_index.0,
                second_index.0,
                first_after,
                second_after,
            ));
            return true;
        }
        false
    }
}

impl<
    'a,
    R: Fn(Tile, Tile) -> (Option<Tile>, Option<Tile>),
    S: for <'b>Fn(Tile, Tile, CollisionChunkView<'b, Option<Tile>>) -> (Option<Tile>, Option<Tile>),
> Chunk<'a, R, S> {
    /// Tries to move the tile at `source` to `destination`, which pushes
    /// through a fluid if `push_through` is set.
    ///
    /// Without a collision the band ends as `after_chunk_contact` says.
    /// After a collision the reaction of the two tiles, if one is
    /// registered, is let loose on what `after_chunk_contact` says, as
    /// `trigger_collision_side_effects` does.
    pub fn resolve_move(&mut self, source: usize, destination: usize, push_through: bool)
        requires
            old(self).wf(),
            source != destination,
            source < old(self).slice@.len(),
            destination < old(self).slice@.len(),
        ensures
            final(self).side_effects == old(self).side_effects,
            final(self).collision_reactions == old(self).collision_reactions,
            final(final(self).slice)@ == final(old(self).slice)@,
            !is_collision(old(self).slice@, source, destination) ==> final(self).slice@
                == after_chunk_contact(old(self).slice@, source, destination, push_through),
            is_collision(old(self).slice@, source, destination) ==> ({
                let hit = after_chunk_contact(old(self).slice@, source, destination, push_through);
                let rule = old(self).rule_on(hit, source, destination);
                let first_index = first_of(hit, source, destination);
                let second_index = second_of(hit, source, destination);
                let first = first_tile_of(hit, source, destination);
                let second = second_tile_of(hit, source, destination);
                let key = collision_key(hit, source, destination);
                &&& rule == ChunkRule::SideEffect ==> exists|
                    view: CollisionChunkView<'_, Option<Tile>>,
                    out: (Option<Tile>, Option<Tile>),
                |
                    view.cells() == hit && view.first_index == first_index && view.second_index
                        == second_index && call_ensures(
                        old(self).side_effects@[key],
                        (first, second, view),
                        out,
                    ) && final(self).slice@ == stored(
                        final(view.chunk)@,
                        first_index,
                        second_index,
                        out.0,
                        out.1,
                    )
                &&& rule == ChunkRule::Reaction ==> exists|out: (Option<Tile>, Option<Tile>)|
                    call_ensures(old(self).collision_reactions@[key], (first, second), out)
                        && final(self).slice@ == replaced(hit, first_index, second_index, out.0, out.1)
                &&& rule == ChunkRule::Nothing ==> final(self).slice@ == hit
            }),
    {
        let ghost cells = self.slice@;
        let (source_cell, destination_cell) = self.slice.mutate_pair(source, destination);
        if source_cell.is_none() {
            // The tile has moved for some other reason: nothing to do.
            assert(self.slice@ =~= cells);
            return ;
        }
        if destination_cell.is_none() {
            assert(self.slice@ =~= cells);
            self.swap(source, destination);
            return ;
        }
        let mut s = source_cell.unwrap();
        let mut d = destination_cell.unwrap();
        if adjacent_x(source, destination) {
            if d.has_flag(FIXED) {
                s.reflect_velocity_x();
            } else {
                s.elastic_collide_x(&mut d);
            }
        } else if d.has_flag(FIXED) {
            s.reflect_velocity_y();
        } else {
            s.elastic_collide_y(&mut d);
        }
        d.paused = false;
        *source_cell = Some(s);
        *destination_cell = Some(d);
        if d.has_flag(FLUID) && push_through {
            // Fluids don't collide, they just push through.
            self.swap(source, destination);
        }
        proof {
            assert(self.slice@ == after_chunk_contact(cells, source, destination, push_through));
            let swapped = exchanged(
                cells.update(source as int, Some(s)).update(destination as int, Some(d)),
                source as int,
                destination as int,
            );
            crate::world::lemma_wake_stack_keeps_tiles(swapped, spec_above(source));
        }
        self.trigger_collision_side_effects(ChunkIndex(source), ChunkIndex(destination));
    }

    /// Whether a move from `source` to `destination` would run into a fluid
    /// tile.
    fn meets_fluid(&self, source: usize, destination: usize) -> (fluid: bool)
        requires
            source < self.cells().len(),
            destination < self.cells().len(),
        ensures
            fluid == (is_collision(self.cells(), source, destination)
                && self.cells()[destination as int].unwrap().flagged(FLUID)),
    {
        match (&self.slice[source], &self.slice[destination]) {
            (Some(_), Some(d)) => d.has_flag(FLUID),
            _ => false,
        }
    }

    /// Tries to move the tile at `source` by one cell along each axis on
    /// which the step is not zero. Where the tile runs into a fluid, chance
    /// decides whether it pushes through: the band ends as `resolve_move`
    /// leaves it for one of the two outcomes, and for the outcome without a
    /// push where no fluid is met.
    pub fn move_particle(&mut self, source: ChunkIndex, delta_x: i8, delta_y: i8)
        requires
            old(self).wf(),
            delta_x != 0 || delta_y != 0,
            source.0 < old(self).slice@.len(),
            delta_x < 0 ==> source.0 >= 1,
            0 <= stepped(source.0, delta_x, delta_y) < old(self).slice@.len(),
        ensures
            final(self).side_effects == old(self).side_effects,
            final(self).collision_reactions == old(self).collision_reactions,
            final(final(self).slice)@ == final(old(self).slice)@,
            exists|push_through: bool|
                {
                    let hit = #[trigger] after_chunk_contact(
                        old(self).slice@,
                        source.0,
                        stepped(source.0, delta_x, delta_y) as usize,
                        push_through,
                    );
                    let destination = stepped(source.0, delta_x, delta_y) as usize;
                    let rule = old(self).rule_on(hit, source.0, destination);
                    let first_index = first_of(hit, source.0, destination);
                    let second_index = second_of(hit, source.0, destination);
                    let first = first_tile_of(hit, source.0, destination);
                    let second = second_tile_of(hit, source.0, destination);
                    let key = collision_key(hit, source.0, destination);
                    &&& push_through ==> is_collision(old(self).slice@, source.0, destination)
                        && old(self).slice@[destination as int].unwrap().flagged(FLUID)
                    &&& !is_collision(old(self).slice@, source.0, destination) ==> final(self).slice@ == hit
                    &&& is_collision(old(self).slice@, source.0, destination) ==> {
                        &&& rule == ChunkRule::SideEffect ==> exists|
                            view: CollisionChunkView<'_, Option<Tile>>,
                            out: (Option<Tile>, Option<Tile>),
                        |
                            view.cells() == hit && view.first_index == first_index
                                && view.second_index == second_index && call_ensures(
                                old(self).side_effects@[key],
                                (first, second, view),
                                out,
                            ) && final(self).slice@ == stored(
                                final(view.chunk)@,
                                first_index,
                                second_index,
                                out.0,
                                out.1,
                            )
                        &&& rule == ChunkRule::Reaction ==> exists|out: (Option<Tile>, Option<Tile>)|
                            call_ensures(old(self).collision_reactions@[key], (first, second), out)
                                && final(self).slice@ == replaced(
                                hit,
                                first_index,
                                second_index,
                                out.0,
                                out.1,
                            )
                        &&& rule == ChunkRule::Nothing ==> final(self).slice@ == hit
                    }
                },
    {
        let source = source.0;
        let mut destination = source;
        proof {
            vstd::slice::axiom_spec_len(self.slice);
        }
        if delta_x < 0 {
            destination -= 1;
        } else if delta_x > 0 {
            destination += 1;
        }
        if delta_y < 0 {
            destination -= WORLD_WIDTH as usize;
        } else if delta_y > 0 {
            destination += WORLD_WIDTH as usize;
        }
        let push_through = if self.meets_fluid(source, destination) {
            random_in_range(0, 2) == 0
        } else {
            false
        };
        assert(destination == stepped(source, delta_x, delta_y));
        self.resolve_move(source, destination, push_through);
    }
}

} // verus!
