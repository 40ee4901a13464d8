//! The grid, its reaction tables, and the primitives that hand out several
//! cells of one buffer at once.

use vstd::prelude::*;
use std::collections::HashMap;
use crate::element::{EFlag, Element, PeriodicReaction, FIXED, FLUID, GRAVITY, PAUSE_EXEMPT};
use crate::periodic::{
    committed_grid, decayed, may_pass, may_react, may_react_in_order, may_react_in_turn, rarity_of,
    is_chain, react_in, run_hook, takes_turn,
};
use crate::chance::random_in_range;
use crate::tile::{clamp_velocity, saturating_add, trunc_div, ElementState, Tile, Vector};
use crate::world_view::{CollisionView, NeighborhoodView};
use crate::{
    above, adjacent_x, as_ints, below, count_true, neighbors, spec_above, spec_adjacent_x,
    spec_below, spec_neighbors, PAUSE_VELOCITY, WORLD_CELLS, WORLD_SIZE, WORLD_WIDTH,
};

verus! {

/// The reactions that one element has with every element that carries
/// certain flags.
pub struct TableRow<T> {
    union_flags: EFlag,
    entries: Vec<(EFlag, T)>,
}

/// The position of the first entry from `from` on whose flags are all among
/// `flags`.
pub open spec fn first_match<T>(entries: Seq<(EFlag, T)>, flags: EFlag, from: int) -> Option<int>
    decreases entries.len() - from,
{
    if from < 0 || from >= entries.len() {
        None
    } else if entries[from].0 & flags == entries[from].0 {
        Some(from)
    } else {
        first_match(entries, flags, from + 1)
    }
}

/// A match lies among the entries from `from` on and asks for nothing but
/// bits of `flags`; no entry before it does.
pub proof fn lemma_first_match<T>(entries: Seq<(EFlag, T)>, flags: EFlag, from: int)
    requires
        0 <= from,
    ensures
        match first_match(entries, flags, from) {
            Some(k) => from <= k < entries.len() && entries[k].0 & flags == entries[k].0 && forall|j: int|
                from <= j < k ==> (#[trigger] entries[j]).0 & flags != entries[j].0,
            None => forall|j: int|
                from <= j < entries.len() ==> (#[trigger] entries[j]).0 & flags != entries[j].0,
        },
    decreases entries.len() - from,
{
    if from < entries.len() && entries[from].0 & flags != entries[from].0 {
        lemma_first_match(entries, flags, from + 1);
    }
}

impl<T> TableRow<T> {
    /// The entries in the order of their insertion, each with the flags it
    /// asks for.
    pub closed spec fn entries(&self) -> Seq<(EFlag, T)> {
        self.entries@
    }

    /// Every flag that some entry asks for.
    pub closed spec fn union_flags(&self) -> EFlag {
        self.union_flags
    }

    /// The entry that answers to an element with `flags`: none if `flags`
    /// shares no bit with the row's flags, else the first entry that asks
    /// for nothing but bits of `flags`.
    pub open spec fn lookup(&self, flags: EFlag) -> Option<T> {
        if self.union_flags() & flags == 0 {
            None
        } else {
            match first_match(self.entries(), flags, 0) {
                Some(k) => Some(self.entries()[k].1),
                None => None,
            }
        }
    }

    pub fn new() -> (row: TableRow<T>)
        ensures
            row.entries() == Seq::<(EFlag, T)>::empty(),
            row.union_flags() == 0,
    {
        TableRow { union_flags: 0, entries: Vec::new() }
    }

    pub fn insert_entry(&mut self, entry: T, flags: EFlag)
        ensures
            final(self).entries() == old(self).entries().push((flags, entry)),
            final(self).union_flags() == old(self).union_flags() | flags,
    {
        self.union_flags |= flags;
        self.entries.push((flags, entry));
    }

    pub fn retrieve_entry(&self, flags: EFlag) -> (found: Option<&T>)
        ensures
            match found {
                Some(entry) => self.lookup(flags) == Some(*entry),
                None => self.lookup(flags).is_none(),
            },
    {
        if self.union_flags & flags == 0 {
            return None;
        }
        let mut k: usize = 0;
        while k < self.entries.len()
            invariant
                k <= self.entries@.len(),
                self.union_flags & flags != 0,
                first_match(self.entries@, flags, 0) == first_match(self.entries@, flags, k as int),
            decreases self.entries@.len() - k,
        {
            if self.entries[k].0 & flags == self.entries[k].0 {
                assert(first_match(self.entries@, flags, k as int) == Some(k as int));
                return Some(&self.entries[k].1);
            }
            assert(first_match(self.entries@, flags, k as int) == first_match(
                self.entries@,
                flags,
                k + 1,
            ));
            k += 1;
        }
        None
    }
}

/// For each element, the reactions it has with every element that carries
/// certain flags.
pub struct ElementAndFlagTable<T> {
    content: Vec<TableRow<T>>,
}

impl<T> ElementAndFlagTable<T> {
    /// The rows, one for each element identifier below the element count.
    pub closed spec fn rows(&self) -> Seq<TableRow<T>> {
        self.content@
    }

    /// The entry that answers to `element` meeting an element with `flags`.
    pub open spec fn lookup(&self, flags: EFlag, element: u8) -> Option<T> {
        if element < self.rows().len() {
            self.rows()[element as int].lookup(flags)
        } else {
            None
        }
    }

    /// A table with an empty row for each of `element_count` elements.
    pub fn new(element_count: usize) -> (table: Self)
        ensures
            table.rows().len() == element_count,
            forall|k: int|
                0 <= k < element_count ==> (#[trigger] table.rows()[k]).entries() == Seq::<
                    (EFlag, T),
                >::empty() && table.rows()[k].union_flags() == 0,
    {
        let mut content: Vec<TableRow<T>> = Vec::new();
        while element_count > content.len()
            invariant
                content@.len() <= element_count,
                forall|k: int|
                    0 <= k < content@.len() ==> (#[trigger] content@[k]).entries() == Seq::<
                        (EFlag, T),
                    >::empty() && content@[k].union_flags() == 0,
            decreases element_count - content@.len(),
        {
            content.push(TableRow::new())
        }
        ElementAndFlagTable { content }
    }

    /// Adds `entry` as the reaction of `element` with every element that
    /// carries all of `flags`.
    pub fn insert_entry(&mut self, entry: T, flags: EFlag, element: &Element)
        requires
            element.id < old(self).rows().len(),
        ensures
            final(self).rows().len() == old(self).rows().len(),
            final(self).rows()[element.id as int].entries() == old(self).rows()[element.id as int].entries().push(
                (flags, entry),
            ),
            final(self).rows()[element.id as int].union_flags() == old(self).rows()[element.id as int].union_flags()
                | flags,
            forall|k: int|
                0 <= k < old(self).rows().len() && k != element.id ==> final(self).rows()[k] == old(self).rows()[k],
    {
        let row_for_element = &mut self.content[element.id as usize];
        row_for_element.insert_entry(entry, flags);
    }

    /// The reaction of `element` with an element that carries `flags`;
    /// none for an element without a row.
    pub fn retrieve_entry(&self, flags: EFlag, element: &Element) -> (found: Option<&T>)
        ensures
            match found {
                Some(entry) => self.lookup(flags, element.id) == Some(*entry),
                None => self.lookup(flags, element.id).is_none(),
            },
    {
        if element.id as usize >= self.content.len() {
            return None;
        }
        let row_for_element = &self.content[element.id as usize];
        row_for_element.retrieve_entry(flags)
    }
}

/// The cells before and after one cell of a buffer, through which the
/// eight cells around that cell can be changed while the cell itself is
/// held apart.
pub struct Neighborhood<'a, T> {
    pub before_slice: &'a mut [T],
    pub after_slice: &'a mut [T],
}

/// Whether position `k` among the `len` cells before a held-apart cell is
/// one of the four around it: the three above, and the one to the left.
pub open spec fn around_before(k: int, len: int, width: int) -> bool {
    len - width - 1 <= k <= len - width + 1 || k == len - 1
}

/// Whether position `k` among the cells after a held-apart cell is one of
/// the four around it: the one to the right, and the three below.
pub open spec fn around_after(k: int, width: int) -> bool {
    k == 0 || width - 2 <= k <= width
}

impl<'a, T> Neighborhood<'a, T> {
    pub fn new(before_slice: &'a mut [T], after_slice: &'a mut [T]) -> (hood: Neighborhood<'a, T>)
        ensures
            hood.before_slice@ == old(before_slice)@,
            hood.after_slice@ == old(after_slice)@,
            final(before_slice)@ == final(hood.before_slice)@,
            final(after_slice)@ == final(hood.after_slice)@,
    {
        Neighborhood { before_slice, after_slice }
    }

    /// Applies `action` once to each of the eight cells around the held-apart
    /// cell of the grid: row by row, left to right.
    pub fn for_each<F: FnMut(&mut T)>(&mut self, action: F)
        requires
            WORLD_WIDTH + 1 <= old(self).before_slice@.len(),
            WORLD_WIDTH < old(self).after_slice@.len(),
            forall|k: int, cell: &mut T|
                around_before(k, old(self).before_slice@.len() as int, WORLD_WIDTH as int) && *cell
                    == old(self).before_slice@[k] ==> call_requires(action, (cell,)),
            forall|k: int, cell: &mut T|
                around_after(k, WORLD_WIDTH as int) && *cell == old(self).after_slice@[k]
                    ==> call_requires(action, (cell,)),
        ensures
            final(final(self).before_slice)@ == final(old(self).before_slice)@,
            final(final(self).after_slice)@ == final(old(self).after_slice)@,
            final(self).before_slice@.len() == old(self).before_slice@.len(),
            final(self).after_slice@.len() == old(self).after_slice@.len(),
            forall|k: int|
                0 <= k < old(self).before_slice@.len() && !around_before(
                    k,
                    old(self).before_slice@.len() as int,
                    WORLD_WIDTH as int,
                ) ==> final(self).before_slice@[k] == old(self).before_slice@[k],
            forall|k: int|
                0 <= k < old(self).after_slice@.len() && !around_after(k, WORLD_WIDTH as int)
                    ==> final(self).after_slice@[k] == old(self).after_slice@[k],
            forall|k: int|
                around_before(k, old(self).before_slice@.len() as int, WORLD_WIDTH as int)
                    ==> exists|cell: &mut T|
                    *cell == old(self).before_slice@[k] && *final(cell) == final(self).before_slice@[k]
                        && call_ensures(action, (cell,), ()),
            forall|k: int|
                around_after(k, WORLD_WIDTH as int) ==> exists|cell: &mut T|
                    *cell == old(self).after_slice@[k] && *final(cell) == final(self).after_slice@[k]
                        && call_ensures(action, (cell,), ()),
    {
        self.for_each_impl(action, WORLD_WIDTH as usize)
    }

    /// Applies `action` once to each of the eight cells around the held-apart
    /// cell of a buffer whose rows are `width` cells long: row by row, left
    /// to right. Every other cell stays as it is.
    pub fn for_each_impl<F: FnMut(&mut T)>(&mut self, action: F, width: usize)
        requires
            3 <= width,
            width + 1 <= old(self).before_slice@.len(),
            width < old(self).after_slice@.len(),
            forall|k: int, cell: &mut T|
                around_before(k, old(self).before_slice@.len() as int, width as int) && *cell == old(self).before_slice@[k] ==> call_requires(action, (cell,)),
            forall|k: int, cell: &mut T|
                around_after(k, width as int) && *cell == old(self).after_slice@[k] ==> call_requires(
                    action,
                    (cell,),
                ),
        ensures
            final(final(self).before_slice)@ == final(old(self).before_slice)@,
            final(final(self).after_slice)@ == final(old(self).after_slice)@,
            final(self).before_slice@.len() == old(self).before_slice@.len(),
            final(self).after_slice@.len() == old(self).after_slice@.len(),
            forall|k: int|
                0 <= k < old(self).before_slice@.len() && !around_before(
                    k,
                    old(self).before_slice@.len() as int,
                    width as int,
                ) ==> final(self).before_slice@[k] == old(self).before_slice@[k],
            forall|k: int|
                0 <= k < old(self).after_slice@.len() && !around_after(k, width as int) ==> final(self).after_slice@[k]
                    == old(self).after_slice@[k],
            forall|k: int|
                around_before(k, old(self).before_slice@.len() as int, width as int) ==> exists|
                    cell: &mut T,
                |
                    *cell == old(self).before_slice@[k] && *final(cell) == final(self).before_slice@[k]
                        && call_ensures(action, (cell,), ()),
            forall|k: int|
                around_after(k, width as int) ==> exists|cell: &mut T|
                    *cell == old(self).after_slice@[k] && *final(cell) == final(self).after_slice@[k]
                        && call_ensures(action, (cell,), ()),
    {
        let mut action = action;
        let i = self.before_slice.len();
        action(&mut self.before_slice[i - width - 1]);
        action(&mut self.before_slice[i - width]);
        action(&mut self.before_slice[i - width + 1]);
        action(&mut self.before_slice[i - 1]);
        assert(around_after(0, width as int));
        action(&mut self.after_slice[0]);
        assert(around_after(width - 2, width as int));
        action(&mut self.after_slice[width - 2]);
        assert(around_after(width - 1, width as int));
        action(&mut self.after_slice[width - 1]);
        assert(around_after(width as int, width as int));
        action(&mut self.after_slice[width]);
    }
}

/// Splits a buffer around the cell `index`: the cell itself, and the cells
/// before and after it, all three open to change at once.
pub fn mutate_neighborhood<T>(slice: &mut [T], index: usize) -> (parts: (&mut T, Neighborhood<'_, T>))
    requires
        index < old(slice)@.len(),
    ensures
        *parts.0 == old(slice)@[index as int],
        parts.1.before_slice@ == old(slice)@.subrange(0, index as int),
        parts.1.after_slice@ == old(slice)@.subrange(index + 1, old(slice)@.len() as int),
        final(slice)@ == final(parts.1.before_slice)@.push(*final(parts.0)) + final(parts.1.after_slice)@,
{
    let (before, center_and_after) = slice.split_at_mut(index);
    let (center, after) = center_and_after.split_at_mut(1);
    (&mut center[0], Neighborhood::new(before, after))
}

/// Buffers that can hand out two of their cells at once.
pub trait PairwiseMutate {
    type T;

    /// The cells of the buffer.
    spec fn cells(&self) -> Seq<Self::T>;

    /// Two distinct cells of the buffer, both open to change at once: a
    /// write through one reference changes that cell and no other.
    fn mutate_pair(&mut self, first: usize, second: usize) -> (pair: (&mut Self::T, &mut Self::T))
        requires
            first != second,
            first < old(self).cells().len(),
            second < old(self).cells().len(),
        ensures
            *pair.0 == old(self).cells()[first as int],
            *pair.1 == old(self).cells()[second as int],
            final(self).cells() == old(self).cells().update(first as int, *final(pair.0)).update(
                second as int,
                *final(pair.1),
            ),
    ;
}

impl<U> PairwiseMutate for [U] {
    type T = U;

    open spec fn cells(&self) -> Seq<U> {
        self@
    }

    fn mutate_pair(&mut self, first: usize, second: usize) -> (pair: (&mut U, &mut U)) {
        let swapped = second < first;
        let minimum = if !swapped {
            first
        } else {
            second
        };
        let maximum = if !swapped {
            second
        } else {
            first
        };
        let (head, tail) = self.split_at_mut(minimum + 1);
        if !swapped {
            (&mut head[minimum], &mut tail[maximum - minimum - 1])
        } else {
            (&mut tail[maximum - minimum - 1], &mut head[minimum])
        }
    }
}

/// Two cells of the buffer, both open to change at once, where `first` and
/// `second` name two different cells of it; and nothing, with the buffer
/// as it was, where they name one cell or a cell outside the buffer.
pub fn try_mutate_pair<T>(cells: &mut [T], first: usize, second: usize) -> (pair: Option<(&mut T, &mut T)>)
    ensures
        pair.is_some() == (first != second && first < old(cells)@.len() && second < old(cells)@.len()),
        match pair {
            Some((one, two)) => *one == old(cells)@[first as int] && *two == old(cells)@[second as int]
                && final(cells)@ == old(cells)@.update(first as int, *final(one)).update(
                second as int,
                *final(two),
            ),
            None => final(cells)@ == old(cells)@,
        },
{
    if first == second || first >= cells.len() || second >= cells.len() {
        None
    } else {
        Some(cells.mutate_pair(first, second))
    }
}

/// Writes through the two references of `mutate_pair` do not meet: after
/// `a` has been written to the cell `first` and `b` to another cell
/// `second`, the one holds `a` and the other `b`, in whichever order they
/// were written, and every other cell is as it was. So what is written
/// through one reference cannot be read through the other.
pub proof fn lemma_pair_writes_are_independent<T>(cells: Seq<T>, first: int, second: int, a: T, b: T)
    requires
        0 <= first < cells.len(),
        0 <= second < cells.len(),
        first != second,
    ensures
        cells.update(first, a).update(second, b) == cells.update(second, b).update(first, a),
        cells.update(first, a).update(second, b)[first] == a,
        cells.update(first, a).update(second, b)[second] == b,
        cells.update(first, a).update(second, b).len() == cells.len(),
        cells.update(first, a)[second] == cells[second],
        cells.update(second, b)[first] == cells[first],
        forall|k: int|
            0 <= k < cells.len() && k != first && k != second ==> #[trigger] cells.update(first, a).update(
                second,
                b,
            )[k] == cells[k],
{
    assert(cells.update(first, a).update(second, b) =~= cells.update(second, b).update(first, a));
}

/// The grid as a reaction sees it.
pub type Cells = Seq<Option<Tile>>;

/// The key under which the reaction of the ordered pair of elements
/// (`first`, `second`) is kept.
pub open spec fn spec_pair_key(first: u8, second: u8) -> u16 {
    (first * 256 + second) as u16
}

/// The key under which the reaction of the ordered pair of elements
/// (`first`, `second`) is kept.
pub fn pair_key(first: u8, second: u8) -> (key: u16)
    ensures
        key == spec_pair_key(first, second),
{
    first as u16 * 256 + second as u16
}

/// Different pairs have different keys.
pub proof fn lemma_pair_key_is_injective(a: u8, b: u8, c: u8, d: u8)
    ensures
        spec_pair_key(a, b) == spec_pair_key(c, d) <==> a == c && b == d,
{
}

/// The tile put to sleep: paused and at rest.
pub open spec fn rested(tile: Tile) -> Tile {
    Tile { paused: true, velocity: Vector { x: 0, y: 0 }, ..tile }
}

/// Whether the cell below `position` holds the cell up: the grid ends
/// there, or a fixed or sleeping tile lies there.
pub open spec fn stable_floor(cells: Cells, position: usize) -> bool {
    match spec_below(position) {
        Some(floor) => match cells[floor as int] {
            Some(tile) => tile.flagged(FIXED) || tile.paused,
            None => false,
        },
        None => true,
    }
}

/// Whether `v` is slow enough for sleep.
pub open spec fn is_slow(v: i8) -> bool {
    -PAUSE_VELOCITY <= v <= PAUSE_VELOCITY
}

/// Whether the tile at `position` meets every condition of sleep: it is not
/// exempt, it is slow on both axes, and its floor is stable.
pub open spec fn falls_asleep(cells: Cells, position: usize) -> bool {
    match cells[position as int] {
        Some(tile) => !tile.flagged(PAUSE_EXEMPT) && is_slow(tile.velocity.x) && is_slow(
            tile.velocity.y,
        ) && stable_floor(cells, position),
        None => false,
    }
}

/// The cell at `position` after the sleep pass: a tile that meets every
/// condition of sleep is asleep and at rest, and any other tile is awake.
pub open spec fn after_pause(cells: Cells, position: usize) -> Option<Tile> {
    if falls_asleep(cells, position) {
        Some(rested(cells[position as int].unwrap()))
    } else {
        match cells[position as int] {
            Some(tile) => Some(tile.with_paused(false)),
            None => None,
        }
    }
}

/// The cell after gravity has acted: an awake tile that is not fixed and
/// carries the gravity flag gains one unit of downward velocity,
/// saturating.
pub open spec fn after_gravity(cell: Option<Tile>) -> Option<Tile> {
    match cell {
        Some(tile) => if !tile.paused && tile.flagged(GRAVITY) && !tile.flagged(FIXED) {
            Some(
                tile.with_velocity(
                    Vector { x: tile.velocity.x, y: clamp_velocity(tile.velocity.y + 1) },
                ),
            )
        } else {
            cell
        },
        None => None,
    }
}

/// The grid with cells `i` and `j` exchanged.
pub open spec fn exchanged(cells: Cells, i: int, j: int) -> Cells {
    cells.update(i, cells[j]).update(j, cells[i])
}

/// The grid after the pile that starts at `position` and goes upward has
/// been woken: each sleeping tile is woken and the walk goes on with the
/// cell above; it ends at the first cell that is empty or awake, and at the
/// top of the grid.
pub open spec fn wake_stack(cells: Cells, position: Option<usize>) -> Cells
    decreases
        match position {
            Some(p) => p + 1,
            None => 0,
        },
{
    match position {
        Some(p) => if p < cells.len() && cells[p as int].is_some() && cells[p as int].unwrap().paused {
            wake_stack(
                cells.update(p as int, Some(cells[p as int].unwrap().with_paused(false))),
                spec_above(p),
            )
        } else {
            cells
        },
        None => cells,
    }
}

/// Wakes the pile that starts at `position` of the buffer and goes upward.
pub fn wake_cells(cells: &mut [Option<Tile>], position: Option<usize>)
    ensures
        final(cells)@ == wake_stack(old(cells)@, position),
{
    let mut next = position;
    loop
        invariant
            wake_stack(cells@, next) == wake_stack(old(cells)@, position),
        ensures
            cells@ == wake_stack(old(cells)@, position),
        decreases
            match next {
                Some(p) => p + 1,
                None => 0,
            },
    {
        match next {
            None => {
                break ;
            },
            Some(p) => {
                if p >= cells.len() {
                    break ;
                }
                match cells[p] {
                    Some(tile) => {
                        if !tile.paused {
                            break ;
                        }
                        let mut woken = tile;
                        woken.paused = false;
                        cells[p] = Some(woken);
                        next = above(p);
                    },
                    None => {
                        break ;
                    },
                }
            },
        }
    }
}

/// The grid: one slot for each cell, and the tables of reactions that
/// collisions trigger.
///
/// `R` is the type of a collision reaction: it gets the two tiles of a
/// collision, the tile of the lower element first, and gives what replaces
/// them. `S` is the type of a collision side effect, which also gets a view
/// of the grid around the two tiles.
pub struct World<R, S> {
    grid: Box<[Option<Tile>; WORLD_CELLS]>,
    collision_side_effects: HashMap<u16, S>,
    collision_reactions: HashMap<u16, R>,
    collision_reactions_by_flags: ElementAndFlagTable<R>,
}

impl<R, S> World<R, S> {
    /// The cells of the grid, row by row.
    pub closed spec fn cells(&self) -> Cells {
        self.grid@
    }

    /// The side effects, by the key of their ordered pair of elements.
    pub closed spec fn side_effects(&self) -> Map<u16, S> {
        self.collision_side_effects@
    }

    /// The reactions, by the key of their ordered pair of elements.
    pub closed spec fn reactions(&self) -> Map<u16, R> {
        self.collision_reactions@
    }

    /// The reactions of an element with every element that carries given
    /// flags.
    pub closed spec fn flag_reactions(&self) -> ElementAndFlagTable<R> {
        self.collision_reactions_by_flags
    }

    /// The grid always has as many cells as the world.
    pub proof fn lemma_cell_count(&self)
        ensures
            self.cells().len() == WORLD_CELLS,
    {
    }
}

/// Whether a view shows the whole grid and names two of its cells.
pub open spec fn shows_the_world(view: CollisionView<'_, Option<Tile>>) -> bool {
    view.cells().len() == WORLD_CELLS && view.first_index < WORLD_CELLS && view.second_index
        < WORLD_CELLS
}

impl<
    R: Fn(Tile, Tile) -> (Option<Tile>, Option<Tile>),
    S: for <'a>Fn(Tile, Tile, CollisionView<'a, Option<Tile>>) -> (Option<Tile>, Option<Tile>),
> World<R, S> {
    /// Every registered reaction accepts every pair of tiles, and every
    /// registered side effect accepts every pair of tiles together with any
    /// view of the whole grid.
    pub closed spec fn wf(&self) -> bool {
        &&& forall|key: u16, first: Tile, second: Tile|
            self.collision_reactions@.contains_key(key) ==> #[trigger] call_requires(
                self.collision_reactions@[key],
                (first, second),
            )
        &&& forall|row: int, entry: int, first: Tile, second: Tile|
            0 <= row < self.collision_reactions_by_flags.rows().len() && 0 <= entry
                < self.collision_reactions_by_flags.rows()[row].entries().len()
                ==> #[trigger] call_requires(
                self.collision_reactions_by_flags.rows()[row].entries()[entry].1,
                (first, second),
            )
        &&& forall|key: u16, first: Tile, second: Tile, view: CollisionView<'_, Option<Tile>>|
            self.collision_side_effects@.contains_key(key) && shows_the_world(view)
                ==> #[trigger] call_requires(self.collision_side_effects@[key], (first, second, view))
    }

    /// An empty grid without reactions, ready for `elem_count` elements.
    pub fn new(elem_count: usize) -> (world: World<R, S>)
        ensures
            world.wf(),
            world.cells() == Seq::new(WORLD_CELLS as nat, |i: int| None::<Tile>),
            world.reactions() == Map::<u16, R>::empty(),
            world.side_effects() == Map::<u16, S>::empty(),
            world.flag_reactions().rows().len() == elem_count,
            forall|k: int|
                0 <= k < elem_count ==> (#[trigger] world.flag_reactions().rows()[k]).entries()
                    == Seq::<(EFlag, R)>::empty() && world.flag_reactions().rows()[k].union_flags() == 0,
    {
        let world = World {
            grid: Box::new([None;WORLD_CELLS]),
            collision_side_effects: HashMap::new(),
            collision_reactions: HashMap::new(),
            collision_reactions_by_flags: ElementAndFlagTable::new(elem_count),
        };
        assert(world.cells() =~= Seq::new(WORLD_CELLS as nat, |i: int| None::<Tile>));
        world
    }

    /// The cell with index `i`.
    pub fn index(&self, i: usize) -> (cell: &Option<Tile>)
        requires
            i < WORLD_CELLS,
        ensures
            *cell == self.cells()[i as int],
    {
        &self.grid[i]
    }

    /// The cell with index `i`, open to change.
    pub fn index_mut(&mut self, i: usize) -> (cell: &mut Option<Tile>)
        requires
            i < WORLD_CELLS,
        ensures
            *cell == old(self).cells()[i as int],
            final(self).cells() == old(self).cells().update(i as int, *final(cell)),
            final(self).keeps_tables(old(self)),
    {
        &mut self.grid[i]
    }

    /// Whether this world has the reactions of `before`, all of them still
    /// fit to be called.
    pub open spec fn keeps_tables(&self, before: &Self) -> bool {
        &&& self.reactions() == before.reactions()
        &&& self.side_effects() == before.side_effects()
        &&& self.flag_reactions() == before.flag_reactions()
        &&& before.wf() ==> self.wf()
    }

    /// Wakes the pile that starts at `position` and goes upward.
    pub fn wake(&mut self, position: Option<usize>)
        ensures
            final(self).cells() == wake_stack(old(self).cells(), position),
            final(self).keeps_tables(old(self)),
    {
        let grid: &mut [Option<Tile>; WORLD_CELLS] = &mut *self.grid;
        wake_cells(grid, position);
    }

    /// Exchanges the cells `i` and `j`, then wakes the pile above `i`, which
    /// may have lost its support.
    pub fn swap(&mut self, i: usize, j: usize)
        requires
            i < WORLD_CELLS,
            j < WORLD_CELLS,
        ensures
            final(self).cells() == wake_stack(
                exchanged(old(self).cells(), i as int, j as int),
                spec_above(i),
            ),
            final(self).keeps_tables(old(self)),
    {
        let at_i = self.grid[i];
        let at_j = self.grid[j];
        self.grid[i] = at_j;
        self.grid[j] = at_i;
        self.wake(above(i));
    }

    /// Counts the tiles around the cell `i` that `predicate` accepts. An
    /// empty cell counts for nothing.
    pub fn neighbor_count<F: Fn(&Tile) -> bool>(&self, i: usize, predicate: F) -> (count: usize)
        requires
            i <= i32::MAX,
            forall|tile: &Tile| call_requires(predicate, (tile,)),
        ensures
            exists|verdicts: Seq<bool>|
                {
                    &&& verdicts.len() == spec_neighbors(i as int).len()
                    &&& forall|k: int|
                        0 <= k < verdicts.len() ==> match self.cells()[spec_neighbors(i as int)[k]] {
                            Some(tile) => call_ensures(predicate, (&tile,), #[trigger] verdicts[k]),
                            None => !verdicts[k],
                        }
                    &&& count == count_true(verdicts)
                },
            count <= 8,
    {
        let around = neighbors(i);
        let mut count: usize = 0;
        let ghost mut verdicts: Seq<bool> = Seq::empty();
        let mut k: usize = 0;
        while k < around.len()
            invariant
                k <= around@.len() <= 8,
                as_ints(around@) == spec_neighbors(i as int),
                forall|j: int| 0 <= j < around@.len() ==> #[trigger] around@[j] < WORLD_SIZE,
                forall|tile: &Tile| call_requires(predicate, (tile,)),
                verdicts.len() == k,
                forall|j: int|
                    0 <= j < k ==> match self.cells()[around@[j] as int] {
                        Some(tile) => call_ensures(predicate, (&tile,), #[trigger] verdicts[j]),
                        None => !verdicts[j],
                    },
                count == count_true(verdicts),
                count <= k,
            decreases around@.len() - k,
        {
            let accepted = match &self.grid[around[k]] {
                None => false,
                Some(tile) => predicate(tile),
            };
            proof {
                let grown = verdicts.push(accepted);
                assert(grown.drop_last() =~= verdicts);
                verdicts = grown;
            }
            if accepted {
                count += 1;
            }
            k += 1;
        }
        proof {
            assert forall|j: int| 0 <= j < verdicts.len() implies match self.cells()[spec_neighbors(
                i as int,
            )[j]] {
                Some(tile) => call_ensures(predicate, (&tile,), #[trigger] verdicts[j]),
                None => !verdicts[j],
            } by {
                assert(as_ints(around@)[j] == around@[j] as int);
            }
        }
        count
    }

    /// The state that readers see of the tile at `i`, if there is one.
    pub fn state_at(&self, i: usize) -> (state: Option<&ElementState>)
        requires
            i < WORLD_CELLS,
        ensures
            match state {
                Some(seen) => self.cells()[i as int].is_some() && *seen
                    == self.cells()[i as int].unwrap().element_data.current,
                None => self.cells()[i as int].is_none(),
            },
    {
        match &self.grid[i] {
            Some(tile) => Some(tile.get_state()),
            None => None,
        }
    }

    /// Whether the cell below `position` holds the cell up.
    pub fn has_stable_floor(&self, position: usize) -> (stable: bool)
        ensures
            stable == stable_floor(self.cells(), position),
    {
        match below(position) {
            Some(floor_position) => match &self.grid[floor_position] {
                Some(tile) => tile.has_flag(FIXED) || tile.paused,
                None => false,
            },
            None => true,
        }
    }

    /// Puts to sleep every tile that meets the conditions of sleep, and wakes
    /// every tile that does not: a sleeper whose floor has gone wakes here.
    /// A tile is judged by the grid as it was before the pass.
    pub fn pause_particles(&mut self)
        ensures
            forall|i: int|
                0 <= i < WORLD_CELLS ==> #[trigger] final(self).cells()[i] == after_pause(
                    old(self).cells(),
                    i as usize,
                ),
            final(self).keeps_tables(old(self)),
    {
        let mut i: usize = 0;
        while i < WORLD_CELLS
            invariant
                i <= WORLD_CELLS,
                self.keeps_tables(old(self)),
                forall|k: int|
                    0 <= k < i ==> #[trigger] self.cells()[k] == after_pause(
                        old(self).cells(),
                        k as usize,
                    ),
                forall|k: int| i <= k < WORLD_CELLS ==> #[trigger] self.cells()[k] == old(self).cells()[k],
            decreases WORLD_CELLS - i,
        {
            let sleeps = match &self.grid[i] {
                None => false,
                Some(tile) => !tile.has_flag(PAUSE_EXEMPT) && -PAUSE_VELOCITY <= tile.velocity.x
                    && tile.velocity.x <= PAUSE_VELOCITY && -PAUSE_VELOCITY <= tile.velocity.y
                    && tile.velocity.y <= PAUSE_VELOCITY && self.has_stable_floor(i),
            };
            if sleeps {
                let mut tile = self.grid[i].unwrap();
                tile.paused = true;
                tile.velocity.x = 0;
                tile.velocity.y = 0;
                self.grid[i] = Some(tile);
            } else if let Some(tile) = self.grid[i] {
                let mut woken = tile;
                woken.paused = false;
                self.grid[i] = Some(woken);
            }
            i += 1;
        }
    }

    /// Lets gravity act once on every tile.
    pub fn apply_gravity(&mut self)
        ensures
            forall|i: int|
                0 <= i < WORLD_CELLS ==> #[trigger] final(self).cells()[i] == after_gravity(
                    old(self).cells()[i],
                ),
            final(self).keeps_tables(old(self)),
    {
        let mut i: usize = 0;
        while i < WORLD_CELLS
            invariant
                i <= WORLD_CELLS,
                self.keeps_tables(old(self)),
                forall|k: int|
                    0 <= k < i ==> #[trigger] self.cells()[k] == after_gravity(old(self).cells()[k]),
                forall|k: int| i <= k < WORLD_CELLS ==> #[trigger] self.cells()[k] == old(self).cells()[k],
            decreases WORLD_CELLS - i,
        {
            let cell = self.grid[i];
            assert(cell == self.cells()[i as int]);
            match cell {
                Some(tile) => {
                    if !tile.paused && tile.has_flag(GRAVITY) && !tile.has_flag(FIXED) {
                        let mut pulled = tile;
                        pulled.velocity.y = saturating_add(tile.velocity.y, 1);
                        self.grid[i] = Some(pulled);
                    }
                },
                None => {},
            }
            i += 1;
        }
    }

    /// The `len` cells from `start` on, open to change apart from the rest of
    /// the grid.
    pub fn band_mut(&mut self, start: usize, len: usize) -> (band: &mut [Option<Tile>])
        requires
            start + len <= WORLD_CELLS,
        ensures
            band@ == old(self).cells().subrange(start as int, start + len),
            final(band)@.len() == len,
            final(self).cells() == old(self).cells().subrange(0, start as int) + final(band)@
                + old(self).cells().subrange(start + len, WORLD_CELLS as int),
            final(self).keeps_tables(old(self)),
    {
        let grid: &mut [Option<Tile>; WORLD_CELLS] = &mut *self.grid;
        let ghost whole = grid;
        let cells: &mut [Option<Tile>] = grid;
        let (head, rest) = cells.split_at_mut(start);
        let (band, tail) = rest.split_at_mut(len);
        proof {
            assert(final(whole)@.len() == WORLD_CELLS);
            assert(final(head)@.len() == start);
            assert(final(tail)@.len() == WORLD_CELLS - start - len);
            assert(final(whole)@ == final(head)@ + (final(band)@ + final(tail)@));
        }
        band
    }

    /// Two distinct cells, both open to change at once.
    pub fn mutate_pair(&mut self, first: usize, second: usize) -> (pair: (
        &mut Option<Tile>,
        &mut Option<Tile>,
    ))
        requires
            first != second,
            first < WORLD_CELLS,
            second < WORLD_CELLS,
        ensures
            *pair.0 == old(self).cells()[first as int],
            *pair.1 == old(self).cells()[second as int],
            final(self).cells() == old(self).cells().update(first as int, *final(pair.0)).update(
                second as int,
                *final(pair.1),
            ),
            final(self).keeps_tables(old(self)),
    {
        let grid: &mut [Option<Tile>; WORLD_CELLS] = &mut *self.grid;
        let cells: &mut [Option<Tile>] = grid;
        cells.mutate_pair(first, second)
    }

    /// The tile at `index`, and the cells before and after it, all open to
    /// change at once.
    pub fn mutate_neighbors(&mut self, index: usize) -> (parts: (&mut Tile, Neighborhood<'_, Option<Tile>>))
        requires
            index < WORLD_CELLS,
            old(self).cells()[index as int].is_some(),
        ensures
            *parts.0 == old(self).cells()[index as int].unwrap(),
            parts.1.before_slice@ == old(self).cells().subrange(0, index as int),
            parts.1.after_slice@ == old(self).cells().subrange(index + 1, WORLD_CELLS as int),
            final(self).cells() == final(parts.1.before_slice)@.push(Some(*final(parts.0)))
                + final(parts.1.after_slice)@,
            final(self).keeps_tables(old(self)),
    {
        let grid: &mut [Option<Tile>; WORLD_CELLS] = &mut *self.grid;
        let cells: &mut [Option<Tile>] = grid;
        let (center, nhood) = mutate_neighborhood(cells, index);
        match center {
            Some(mut_ref_tile) => (mut_ref_tile, nhood),
            None => vstd::pervasive::unreached(),
        }
    }
}

/// The temperature that two tiles share after a collision: the mean of
/// both, rounded toward zero.
pub open spec fn mean_temperature(a: i16, b: i16) -> i16 {
    trunc_div(a + b, 2) as i16
}

/// The tiles `source` and `destination` after the first has bounced off the
/// second, along the x axis if `horizontal` and else along the y axis.
///
/// A fixed destination stays as it is and the source bounces off it; else
/// the two exchange velocity elastically. The destination is awake
/// afterwards.
pub open spec fn after_bounce(s: Tile, d: Tile, horizontal: bool) -> (Tile, Tile) {
    if d.flagged(FIXED) {
        (
            if horizontal {
                s.after_reflect_x()
            } else {
                s.after_reflect_y()
            },
            d.with_paused(false),
        )
    } else if horizontal {
        (s.after_elastic_x(d), d.after_elastic_x(s).with_paused(false))
    } else {
        (s.after_elastic_y(d), d.after_elastic_y(s).with_paused(false))
    }
}

/// The tiles `source` and `destination` after the first has run into the
/// second: both take the mean of their temperatures, then the first
/// bounces off the second.
pub open spec fn after_impact(source: Tile, destination: Tile, horizontal: bool) -> (Tile, Tile) {
    let shared = mean_temperature(source.temperature, destination.temperature);
    after_bounce(
        Tile { temperature: shared, ..source },
        Tile { temperature: shared, ..destination },
        horizontal,
    )
}

/// Whether a move from `source` to `destination` is a collision: both cells
/// hold a tile.
pub open spec fn is_collision(cells: Cells, source: usize, destination: usize) -> bool {
    cells[source as int].is_some() && cells[destination as int].is_some()
}

/// The grid after the tile at `source` has tried to move to `destination`,
/// before any reaction.
///
/// Nothing happens without a tile at `source`. Into an empty cell the tile
/// moves, and the pile above `source` wakes. Else the two tiles collide;
/// where the destination is fluid and `push_through` is set, they then
/// change places all the same, and the pile above `source` wakes.
pub open spec fn after_contact(cells: Cells, source: usize, destination: usize, push_through: bool) -> Cells {
    if cells[source as int].is_none() {
        cells
    } else if cells[destination as int].is_none() {
        wake_stack(exchanged(cells, source as int, destination as int), spec_above(source))
    } else {
        let (s, d) = after_impact(
            cells[source as int].unwrap(),
            cells[destination as int].unwrap(),
            spec_adjacent_x(source, destination),
        );
        let hit = cells.update(source as int, Some(s)).update(destination as int, Some(d));
        if d.flagged(FLUID) && push_through {
            wake_stack(exchanged(hit, source as int, destination as int), spec_above(source))
        } else {
            hit
        }
    }
}

/// Waking a pile changes no tile but for its paused flag, which it clears
/// or leaves alone.
pub proof fn lemma_wake_stack_keeps_tiles(cells: Cells, position: Option<usize>)
    ensures
        wake_stack(cells, position).len() == cells.len(),
        forall|i: int|
            0 <= i < cells.len() ==> (#[trigger] wake_stack(cells, position)[i] == cells[i] || (
            cells[i].is_some() && cells[i].unwrap().paused && wake_stack(cells, position)[i] == Some(
                cells[i].unwrap().with_paused(false),
            ))),
    decreases
        match position {
            Some(p) => p + 1,
            None => 0,
        },
{
    match position {
        Some(p) => {
            if p < cells.len() && cells[p as int].is_some() && cells[p as int].unwrap().paused {
                let woken = cells.update(p as int, Some(cells[p as int].unwrap().with_paused(false)));
                lemma_wake_stack_keeps_tiles(woken, spec_above(p));
                assert forall|i: int| 0 <= i < cells.len() implies (#[trigger] wake_stack(
                    cells,
                    position,
                )[i] == cells[i] || (cells[i].is_some() && cells[i].unwrap().paused && wake_stack(
                    cells,
                    position,
                )[i] == Some(cells[i].unwrap().with_paused(false)))) by {
                    assert(wake_stack(cells, position)[i] == wake_stack(woken, spec_above(p))[i]);
                    if i == p {
                    } else {
                        assert(woken[i] == cells[i]);
                    }
                }
            }
        },
        None => {},
    }
}

/// A tile that is woken at the start of a pile is awake afterwards.
pub proof fn lemma_wake_stack_wakes_its_start(cells: Cells, position: usize)
    requires
        position < cells.len(),
        cells[position as int].is_some(),
    ensures
        wake_stack(cells, Some(position))[position as int].is_some(),
        !wake_stack(cells, Some(position))[position as int].unwrap().paused,
{
    lemma_wake_stack_keeps_tiles(cells, Some(position));
    if cells[position as int].unwrap().paused {
        let woken = cells.update(
            position as int,
            Some(cells[position as int].unwrap().with_paused(false)),
        );
        lemma_wake_stack_keeps_tiles(woken, spec_above(position));
    }
}

/// The sleep and wake rule of a move, before any reaction.
///
/// After a collision the tile that was hit is awake, in whichever of the two
/// cells it ends. After a move into an empty cell the tile directly above
/// the cell that was left, if there is one, is awake.
pub proof fn lemma_contact_wakes(cells: Cells, source: usize, destination: usize, push_through: bool)
    requires
        cells.len() == WORLD_CELLS,
        source < WORLD_CELLS,
        destination < WORLD_CELLS,
        source != destination,
        cells[source as int].is_some(),
    ensures
        after_contact(cells, source, destination, push_through).len() == WORLD_CELLS,
        is_collision(cells, source, destination) ==> is_collision(
            after_contact(cells, source, destination, push_through),
            source,
            destination,
        ),
        is_collision(cells, source, destination) && !(cells[destination as int].unwrap().flagged(FLUID)
            && push_through) ==> !after_contact(
            cells,
            source,
            destination,
            push_through,
        )[destination as int].unwrap().paused,
        is_collision(cells, source, destination) && cells[destination as int].unwrap().flagged(FLUID)
            && push_through ==> !after_contact(
            cells,
            source,
            destination,
            push_through,
        )[source as int].unwrap().paused,
        !is_collision(cells, source, destination) ==> match spec_above(source) {
            Some(over) => over != destination && cells[over as int].is_some() ==> after_contact(
                cells,
                source,
                destination,
                push_through,
            )[over as int].is_some() && !after_contact(
                cells,
                source,
                destination,
                push_through,
            )[over as int].unwrap().paused,
            None => true,
        },
{
    let moved = exchanged(cells, source as int, destination as int);
    if cells[destination as int].is_none() {
        lemma_wake_stack_keeps_tiles(moved, spec_above(source));
        match spec_above(source) {
            Some(over) => {
                if over != destination && cells[over as int].is_some() {
                    lemma_wake_stack_wakes_its_start(moved, over);
                }
            },
            None => {},
        }
    } else {
        let (s, d) = after_impact(
            cells[source as int].unwrap(),
            cells[destination as int].unwrap(),
            spec_adjacent_x(source, destination),
        );
        let hit = cells.update(source as int, Some(s)).update(destination as int, Some(d));
        assert(!d.paused);
        assert(d.flagged(FLUID) == cells[destination as int].unwrap().flagged(FLUID));
        if d.flagged(FLUID) && push_through {
            lemma_wake_stack_keeps_tiles(
                exchanged(hit, source as int, destination as int),
                spec_above(source),
            );
        }
    }
}

/// The cell whose tile, if any, has its staged state made visible.
pub open spec fn commit_cell(cell: Option<Tile>) -> Option<Tile> {
    match cell {
        Some(tile) => Some(tile.committed()),
        None => None,
    }
}

/// Why a reaction of a pair of elements was not registered.
#[derive(Clone, Copy, PartialEq, Eq, Debug, Structural)]
pub enum RegistrationError {
    /// The elements did not come in ascending order of id.
    OutOfOrder,
    /// The pair of elements has its reaction already.
    Taken,
}

/// What becomes of a registration for the pair of elements `first` and
/// `second` where `taken` tells whether the pair has its reaction already.
pub open spec fn registration(first: u8, second: u8, taken: bool) -> Result<(), RegistrationError> {
    if first > second {
        Err(RegistrationError::OutOfOrder)
    } else if taken {
        Err(RegistrationError::Taken)
    } else {
        Ok(())
    }
}

/// The rules by which a collision triggers a reaction.
#[derive(Clone, Copy, PartialEq, Eq, Debug, Structural)]
pub enum Rule {
    /// The side effect registered for the ordered pair of elements.
    SideEffect,
    /// The reaction registered for the ordered pair of elements.
    Reaction,
    /// The reaction of the second element with the flags of the first tile.
    SecondWithFlags,
    /// The reaction of the first element with the flags of the second tile.
    FirstWithFlags,
    /// No reaction: the collision is physical only.
    Nothing,
}

/// The index of the tile that comes first for a reaction.
pub open spec fn first_of(cells: Cells, source: usize, destination: usize) -> usize {
    if source_comes_first(cells, source as int, destination as int) {
        source
    } else {
        destination
    }
}

/// The index of the tile that comes second for a reaction.
pub open spec fn second_of(cells: Cells, source: usize, destination: usize) -> usize {
    if source_comes_first(cells, source as int, destination as int) {
        destination
    } else {
        source
    }
}

/// The tile that comes first for a reaction.
pub open spec fn first_tile_of(cells: Cells, source: usize, destination: usize) -> Tile {
    cells[first_of(cells, source, destination) as int].unwrap()
}

/// The tile that comes second for a reaction.
pub open spec fn second_tile_of(cells: Cells, source: usize, destination: usize) -> Tile {
    cells[second_of(cells, source, destination) as int].unwrap()
}

/// The key of the ordered pair of elements of a collision.
pub open spec fn collision_key(cells: Cells, source: usize, destination: usize) -> u16 {
    spec_pair_key(
        first_tile_of(cells, source, destination).id(),
        second_tile_of(cells, source, destination).id(),
    )
}

/// The grid with the cell `first` replaced by `first_cell`, then the cell
/// `second` by `second_cell`.
pub open spec fn replaced(
    cells: Cells,
    first: usize,
    second: usize,
    first_cell: Option<Tile>,
    second_cell: Option<Tile>,
) -> Cells {
    cells.update(first as int, first_cell).update(second as int, second_cell)
}

/// Whether the tile at `source` comes first when a collision of the tiles
/// at `source` and `destination` is handed to a reaction: the tile of the
/// lower element comes first, and the source where both are the same.
pub open spec fn source_comes_first(cells: Cells, source: int, destination: int) -> bool {
    cells[source].unwrap().id() <= cells[destination].unwrap().id()
}

impl<
    R: Fn(Tile, Tile) -> (Option<Tile>, Option<Tile>),
    S: for <'a>Fn(Tile, Tile, CollisionView<'a, Option<Tile>>) -> (Option<Tile>, Option<Tile>),
> World<R, S> {
    /// Whether a reaction is registered for the ordered pair of elements.
    pub fn has_collision_reaction(&self, first_id: u8, second_id: u8) -> (registered: bool)
        ensures
            registered == self.reactions().contains_key(spec_pair_key(first_id, second_id)),
    {
        self.collision_reactions.contains_key(&pair_key(first_id, second_id))
    }

    /// Whether a side effect is registered for the ordered pair of elements.
    pub fn has_collision_side_effect(&self, first_id: u8, second_id: u8) -> (registered: bool)
        ensures
            registered == self.side_effects().contains_key(spec_pair_key(first_id, second_id)),
    {
        self.collision_side_effects.contains_key(&pair_key(first_id, second_id))
    }

    /// The number of elements that can have reactions by flags.
    pub fn element_count(&self) -> (count: usize)
        ensures
            count == self.flag_reactions().rows().len(),
    {
        self.collision_reactions_by_flags.content.len()
    }

    /// Registers `reaction` for collisions of a tile of `element` with a
    /// tile of any element that carries all of `flags`. The tile of
    /// `element` is handed to the reaction first.
    pub fn register_flag_collision_reaction(&mut self, element: &Element, flags: EFlag, reaction: R)
        requires
            old(self).wf(),
            element.id < old(self).flag_reactions().rows().len(),
            forall|first: Tile, second: Tile| call_requires(reaction, (first, second)),
        ensures
            final(self).wf(),
            final(self).cells() == old(self).cells(),
            final(self).reactions() == old(self).reactions(),
            final(self).side_effects() == old(self).side_effects(),
            final(self).flag_reactions().rows().len() == old(self).flag_reactions().rows().len(),
            final(self).flag_reactions().rows()[element.id as int].entries() == old(self).flag_reactions().rows()[element.id as int].entries().push((flags, reaction)),
            final(self).flag_reactions().rows()[element.id as int].union_flags() == old(self).flag_reactions().rows()[element.id as int].union_flags() | flags,
            forall|k: int|
                0 <= k < old(self).flag_reactions().rows().len() && k != element.id ==> final(self).flag_reactions().rows()[k] == old(self).flag_reactions().rows()[k],
    {
        self.collision_reactions_by_flags.insert_entry(reaction, flags, element);
        proof {
            let before = old(self).collision_reactions_by_flags.rows();
            let after = self.collision_reactions_by_flags.rows();
            assert forall|row: int, entry: int, first: Tile, second: Tile|
                0 <= row < after.len() && 0 <= entry < after[row].entries().len() implies #[trigger] call_requires(
                after[row].entries()[entry].1,
                (first, second),
            ) by {
                if row == element.id {
                    if entry < before[row].entries().len() {
                        assert(after[row].entries()[entry] == before[row].entries()[entry]);
                        assert(call_requires(before[row].entries()[entry].1, (first, second)));
                    }
                } else {
                    assert(after[row] == before[row]);
                    assert(call_requires(before[row].entries()[entry].1, (first, second)));
                }
            }
        }
    }

    /// Registers `reaction` for collisions of a tile of `element1` with a
    /// tile of `element2`. The elements come in ascending order of id, and
    /// a pair takes one reaction only.
    pub fn register_collision_reaction(&mut self, element1: &Element, element2: &Element, reaction: R)
        requires
            old(self).wf(),
            element1.id <= element2.id,
            !old(self).reactions().contains_key(spec_pair_key(element1.id, element2.id)),
            forall|first: Tile, second: Tile| call_requires(reaction, (first, second)),
        ensures
            final(self).wf(),
            final(self).cells() == old(self).cells(),
            final(self).reactions() == old(self).reactions().insert(
                spec_pair_key(element1.id, element2.id),
                reaction,
            ),
            final(self).side_effects() == old(self).side_effects(),
            final(self).flag_reactions() == old(self).flag_reactions(),
    {
        let reagent_ids = pair_key(element1.id, element2.id);
        self.collision_reactions.insert(reagent_ids, reaction);
    }

    /// Registers `reaction` for collisions of a tile of `element1` with a
    /// tile of `element2`, unless the elements come in descending order of
    /// id or the pair has a reaction already: then the world stays as it is,
    /// and the reaction that the pair has is never replaced.
    pub fn try_register_collision_reaction(
        &mut self,
        element1: &Element,
        element2: &Element,
        reaction: R,
    ) -> (done: Result<(), RegistrationError>)
        requires
            old(self).wf(),
            forall|first: Tile, second: Tile| call_requires(reaction, (first, second)),
        ensures
            final(self).wf(),
            done == registration(
                element1.id,
                element2.id,
                old(self).reactions().contains_key(spec_pair_key(element1.id, element2.id)),
            ),
            final(self).cells() == old(self).cells(),
            final(self).side_effects() == old(self).side_effects(),
            final(self).flag_reactions() == old(self).flag_reactions(),
            final(self).reactions() == if done.is_ok() {
                old(self).reactions().insert(spec_pair_key(element1.id, element2.id), reaction)
            } else {
                old(self).reactions()
            },
    {
        if element1.id > element2.id {
            Err(RegistrationError::OutOfOrder)
        } else if self.has_collision_reaction(element1.id, element2.id) {
            Err(RegistrationError::Taken)
        } else {
            self.register_collision_reaction(element1, element2, reaction);
            Ok(())
        }
    }

    /// Registers `side_effect` for collisions of a tile of `element1` with a
    /// tile of `element2`, unless the elements come in descending order of
    /// id or the pair has a side effect already: then the world stays as it
    /// is, and the side effect that the pair has is never replaced.
    pub fn try_register_collision_side_effect(
        &mut self,
        element1: &Element,
        element2: &Element,
        side_effect: S,
    ) -> (done: Result<(), RegistrationError>)
        requires
            old(self).wf(),
            forall|first: Tile, second: Tile, view: CollisionView<'_, Option<Tile>>|
                shows_the_world(view) ==> call_requires(side_effect, (first, second, view)),
        ensures
            final(self).wf(),
            done == registration(
                element1.id,
                element2.id,
                old(self).side_effects().contains_key(spec_pair_key(element1.id, element2.id)),
            ),
            final(self).cells() == old(self).cells(),
            final(self).reactions() == old(self).reactions(),
            final(self).flag_reactions() == old(self).flag_reactions(),
            final(self).side_effects() == if done.is_ok() {
                old(self).side_effects().insert(spec_pair_key(element1.id, element2.id), side_effect)
            } else {
                old(self).side_effects()
            },
    {
        if element1.id > element2.id {
            Err(RegistrationError::OutOfOrder)
        } else if self.has_collision_side_effect(element1.id, element2.id) {
            Err(RegistrationError::Taken)
        } else {
            self.register_collision_side_effect(element1, element2, side_effect);
            Ok(())
        }
    }

    /// Registers `side_effect` for collisions of a tile of `element1` with a
    /// tile of `element2`. The elements come in ascending order of id, and
    /// a pair takes one side effect only.
    pub fn register_collision_side_effect(&mut self, element1: &Element, element2: &Element, side_effect: S)
        requires
            old(self).wf(),
            element1.id <= element2.id,
            !old(self).side_effects().contains_key(spec_pair_key(element1.id, element2.id)),
            forall|first: Tile, second: Tile, view: CollisionView<'_, Option<Tile>>|
                shows_the_world(view) ==> call_requires(side_effect, (first, second, view)),
        ensures
            final(self).wf(),
            final(self).cells() == old(self).cells(),
            final(self).reactions() == old(self).reactions(),
            final(self).side_effects() == old(self).side_effects().insert(
                spec_pair_key(element1.id, element2.id),
                side_effect,
            ),
            final(self).flag_reactions() == old(self).flag_reactions(),
    {
        let reagent_ids = pair_key(element1.id, element2.id);
        self.collision_side_effects.insert(reagent_ids, side_effect);
    }
}

impl<
    R: Fn(Tile, Tile) -> (Option<Tile>, Option<Tile>),
    S: for <'a>Fn(Tile, Tile, CollisionView<'a, Option<Tile>>) -> (Option<Tile>, Option<Tile>),
> World<R, S> {
    /// Lets the registered reaction of the two tiles at `source` and
    /// `destination` replace them, and tells whether there was one.
    ///
    /// The tile of the lower element is the first of the pair, the source
    /// where both are of one element. The first rule that fits decides:
    /// the side effect of the pair, which also gets a view of the grid;
    /// the reaction of the pair; the reaction that the second element has
    /// with the first tile's flags, which gets the second tile first; the
    /// reaction that the first element has with the second tile's flags.
    /// What a side effect or a reaction of the pair returns is committed
    /// before it is stored.
    pub fn trigger_collision_effects(&mut self, source: usize, destination: usize) -> (reacted: bool)
        requires
            old(self).wf(),
            source < WORLD_CELLS,
            destination < WORLD_CELLS,
            old(self).cells()[source as int].is_some(),
            old(self).cells()[destination as int].is_some(),
        ensures
            final(self).keeps_tables(old(self)),
            reacted == (old(self).rule_for(source, destination) != Rule::Nothing),
            old(self).rule_for(source, destination) == Rule::SideEffect ==> exists|
                view: CollisionView<'_, Option<Tile>>,
                out: (Option<Tile>, Option<Tile>),
            |
                view.cells() == old(self).cells() && view.first_index == first_of(
                    old(self).cells(),
                    source,
                    destination,
                ) && view.second_index == second_of(old(self).cells(), source, destination)
                    && call_ensures(
                    old(self).side_effects()[collision_key(old(self).cells(), source, destination)],
                    (
                        first_tile_of(old(self).cells(), source, destination),
                        second_tile_of(old(self).cells(), source, destination),
                        view,
                    ),
                    out,
                ) && final(self).cells() == replaced(
                    final(view.slice)@,
                    first_of(old(self).cells(), source, destination),
                    second_of(old(self).cells(), source, destination),
                    commit_cell(out.0),
                    commit_cell(out.1),
                ),
            old(self).rule_for(source, destination) == Rule::Reaction ==> exists|
                out: (Option<Tile>, Option<Tile>),
            |
                call_ensures(
                    old(self).reactions()[collision_key(old(self).cells(), source, destination)],
                    (
                        first_tile_of(old(self).cells(), source, destination),
                        second_tile_of(old(self).cells(), source, destination),
                    ),
                    out,
                ) && final(self).cells() == replaced(
                    old(self).cells(),
                    first_of(old(self).cells(), source, destination),
                    second_of(old(self).cells(), source, destination),
                    commit_cell(out.0),
                    commit_cell(out.1),
                ),
            old(self).rule_for(source, destination) == Rule::SecondWithFlags ==> exists|
                out: (Option<Tile>, Option<Tile>),
            |
                call_ensures(
                    old(self).flag_reactions().lookup(
                        first_tile_of(old(self).cells(), source, destination).element().flags,
                        second_tile_of(old(self).cells(), source, destination).element().id,
                    ).unwrap(),
                    (
                        second_tile_of(old(self).cells(), source, destination),
                        first_tile_of(old(self).cells(), source, destination),
                    ),
                    out,
                ) && final(self).cells() == replaced(
                    old(self).cells(),
                    first_of(old(self).cells(), source, destination),
                    second_of(old(self).cells(), source, destination),
                    out.1,
                    out.0,
                ),
            old(self).rule_for(source, destination) == Rule::FirstWithFlags ==> exists|
                out: (Option<Tile>, Option<Tile>),
            |
                call_ensures(
                    old(self).flag_reactions().lookup(
                        second_tile_of(old(self).cells(), source, destination).element().flags,
                        first_tile_of(old(self).cells(), source, destination).element().id,
                    ).unwrap(),
                    (
                        first_tile_of(old(self).cells(), source, destination),
                        second_tile_of(old(self).cells(), source, destination),
                    ),
                    out,
                ) && final(self).cells() == replaced(
                    old(self).cells(),
                    first_of(old(self).cells(), source, destination),
                    second_of(old(self).cells(), source, destination),
                    out.0,
                    out.1,
                ),
            old(self).rule_for(source, destination) == Rule::Nothing ==> final(self).cells() == old(self).cells(),
    {
        let source_tile = self.grid[source].unwrap();
        let destination_tile = self.grid[destination].unwrap();
        let source_element_id = source_tile.element_id();
        let destination_element_id = destination_tile.element_id();
        let source_first = source_element_id <= destination_element_id;
        let (first_tile, second_tile, first_index, second_index) = if source_first {
            (source_tile, destination_tile, source, destination)
        } else {
            (destination_tile, source_tile, destination, source)
        };
        let key = pair_key(first_tile.element_id(), second_tile.element_id());
        let ghost cells = self.cells();
        assert(first_index == first_of(cells, source, destination));
        assert(second_index == second_of(cells, source, destination));
        assert(first_tile == first_tile_of(cells, source, destination));
        assert(second_tile == second_tile_of(cells, source, destination));
        assert(key == collision_key(cells, source, destination));

        if let Some(reaction) = self.collision_side_effects.get(&key) {
            assert(old(self).rule_for(source, destination) == Rule::SideEffect);
            let grid: &mut [Option<Tile>; WORLD_CELLS] = &mut *self.grid;
            let view = CollisionView::new(grid, first_index, second_index);
            let ghost shown = view;
            assert(shows_the_world(view));
            let (mut first_after, mut second_after) = reaction(first_tile, second_tile, view);
            let ghost out = (first_after, second_after);
            // The tiles stage their changes, so what comes back is committed here.
            if let Some(ref mut tile) = first_after {
                tile.save_state();
            }
            if let Some(ref mut tile) = second_after {
                tile.save_state();
            }
            self.grid[first_index] = first_after;
            self.grid[second_index] = second_after;
            assert(shown.cells() == cells && call_ensures(
                old(self).side_effects()[key],
                (first_tile, second_tile, shown),
                out,
            ) && self.cells() == replaced(
                final(shown.slice)@,
                first_index,
                second_index,
                commit_cell(out.0),
                commit_cell(out.1),
            ));
            return true;
        }
        if let Some(reaction) = self.collision_reactions.get(&key) {
            assert(old(self).rule_for(source, destination) == Rule::Reaction);
            let (mut first_after, mut second_after) = reaction(first_tile, second_tile);
            let ghost out = (first_after, second_after);
            if let Some(ref mut tile) = first_after {
                tile.save_state();
            }
            if let Some(ref mut tile) = second_after {
                tile.save_state();
            }
            self.grid[first_index] = first_after;
            self.grid[second_index] = second_after;
            assert(call_ensures(old(self).reactions()[key], (first_tile, second_tile), out)
                && self.cells() == replaced(
                cells,
                first_index,
                second_index,
                commit_cell(out.0),
                commit_cell(out.1),
            ));
            return true;
        }
        let first_element = first_tile.get_element();
        let second_element = second_tile.get_element();
        if let Some(reaction) = self.collision_reactions_by_flags.retrieve_entry(
            first_element.flags,
            &second_element,
        ) {
            assert(old(self).rule_for(source, destination) == Rule::SecondWithFlags);
            proof {
                self.lemma_flag_reaction_is_callable(first_element.flags, second_element.id);
            }
            assert(*reaction == self.flag_reactions().lookup(
                first_element.flags,
                second_element.id,
            ).unwrap());
            assert(call_requires(*reaction, (second_tile, first_tile)));
            let swapped_output_tiles = reaction(second_tile, first_tile);
            self.grid[first_index] = swapped_output_tiles.1;
            self.grid[second_index] = swapped_output_tiles.0;
            assert(call_ensures(
                old(self).flag_reactions().lookup(first_element.flags, second_element.id).unwrap(),
                (second_tile, first_tile),
                swapped_output_tiles,
            ) && self.cells() == replaced(
                cells,
                first_index,
                second_index,
                swapped_output_tiles.1,
                swapped_output_tiles.0,
            ));
            return true;
        }
        if let Some(reaction) = self.collision_reactions_by_flags.retrieve_entry(
            second_element.flags,
            &first_element,
        ) {
            assert(old(self).rule_for(source, destination) == Rule::FirstWithFlags);
            proof {
                self.lemma_flag_reaction_is_callable(second_element.flags, first_element.id);
            }
            assert(*reaction == self.flag_reactions().lookup(
                second_element.flags,
                first_element.id,
            ).unwrap());
            assert(call_requires(*reaction, (first_tile, second_tile)));
            let output_tiles = reaction(first_tile, second_tile);
            self.grid[first_index] = output_tiles.0;
            self.grid[second_index] = output_tiles.1;
            assert(call_ensures(
                old(self).flag_reactions().lookup(second_element.flags, first_element.id).unwrap(),
                (first_tile, second_tile),
                output_tiles,
            ) && self.cells() == replaced(
                cells,
                first_index,
                second_index,
                output_tiles.0,
                output_tiles.1,
            ));
            return true;
        }
        assert(old(self).rule_for(source, destination) == Rule::Nothing);
        false
    }

    /// The rule that decides what a collision of the tiles at `source` and
    /// `destination` of `cells` triggers: the first of the four that is
    /// registered.
    pub open spec fn rule_on(&self, cells: Cells, source: usize, destination: usize) -> Rule {
        let first = first_tile_of(cells, source, destination);
        let second = second_tile_of(cells, source, destination);
        let key = collision_key(cells, source, destination);
        if self.side_effects().contains_key(key) {
            Rule::SideEffect
        } else if self.reactions().contains_key(key) {
            Rule::Reaction
        } else if self.flag_reactions().lookup(first.element().flags, second.element().id).is_some() {
            Rule::SecondWithFlags
        } else if self.flag_reactions().lookup(second.element().flags, first.element().id).is_some() {
            Rule::FirstWithFlags
        } else {
            Rule::Nothing
        }
    }

    /// The rule that decides what a collision of the tiles at `source` and
    /// `destination` triggers.
    pub open spec fn rule_for(&self, source: usize, destination: usize) -> Rule {
        self.rule_on(self.cells(), source, destination)
    }

    /// Whether a move from `source` to `destination` may turn the grid
    /// `before` into the grid `after`.
    ///
    /// Chance decides whether a tile that runs into a fluid pushes through.
    /// Without a collision, and after a collision that triggers nothing,
    /// the grid is what `after_contact` says. A reaction of the pair or by
    /// flags replaces the two tiles by one of its outcomes. Of a side effect
    /// only this is said here, that the grid keeps its length: what it
    /// does to the grid is for its own contract to say.
    pub open spec fn may_follow(&self, before: Cells, source: usize, destination: usize, after: Cells) -> bool {
        exists|push_through: bool|
            {
                let hit = #[trigger] after_contact(before, source, destination, push_through);
                let rule = self.rule_on(hit, source, destination);
                let first_index = first_of(hit, source, destination);
                let second_index = second_of(hit, source, destination);
                let first = first_tile_of(hit, source, destination);
                let second = second_tile_of(hit, source, destination);
                let key = collision_key(hit, source, destination);
                let table = self.flag_reactions();
                &&& push_through ==> is_collision(before, source, destination)
                    && before[destination as int].unwrap().flagged(FLUID)
                &&& !is_collision(before, source, destination) ==> after == hit
                &&& is_collision(before, source, destination) ==> {
                    &&& rule == Rule::SideEffect ==> after.len() == before.len()
                    &&& rule == Rule::Reaction ==> exists|out: (Option<Tile>, Option<Tile>)|
                        #[trigger] call_ensures(self.reactions()[key], (first, second), out) && after
                            == replaced(
                            hit,
                            first_index,
                            second_index,
                            commit_cell(out.0),
                            commit_cell(out.1),
                        )
                    &&& rule == Rule::SecondWithFlags ==> exists|out: (Option<Tile>, Option<Tile>)|
                        #[trigger] call_ensures(
                            table.lookup(first.element().flags, second.element().id).unwrap(),
                            (second, first),
                            out,
                        ) && after == replaced(hit, first_index, second_index, out.1, out.0)
                    &&& rule == Rule::FirstWithFlags ==> exists|out: (Option<Tile>, Option<Tile>)|
                        #[trigger] call_ensures(
                            table.lookup(second.element().flags, first.element().id).unwrap(),
                            (first, second),
                            out,
                        ) && after == replaced(hit, first_index, second_index, out.0, out.1)
                    &&& rule == Rule::Nothing ==> after == hit
                }
            }
    }

    /// A reaction that the table of flags gives out accepts every pair of
    /// tiles.
    proof fn lemma_flag_reaction_is_callable(&self, flags: EFlag, element: u8)
        requires
            self.wf(),
            self.flag_reactions().lookup(flags, element).is_some(),
        ensures
            forall|first: Tile, second: Tile|
                call_requires(self.flag_reactions().lookup(flags, element).unwrap(), (first, second)),
    {
        let row = self.collision_reactions_by_flags.rows()[element as int];
        lemma_first_match(row.entries(), flags, 0);
        let k = first_match(row.entries(), flags, 0).unwrap();
        assert forall|first: Tile, second: Tile|
            call_requires(self.flag_reactions().lookup(flags, element).unwrap(), (first, second)) by {
            assert(call_requires(
                self.collision_reactions_by_flags.rows()[element as int].entries()[k].1,
                (first, second),
            ));
        }
    }
}

impl<
    R: Fn(Tile, Tile) -> (Option<Tile>, Option<Tile>),
    S: for <'a>Fn(Tile, Tile, CollisionView<'a, Option<Tile>>) -> (Option<Tile>, Option<Tile>),
> World<R, S> {
    /// Tries to move the tile at `source` to `destination`, which pushes
    /// through a fluid if `push_through` is set.
    ///
    /// Without a collision the grid ends as `after_contact` says. After a
    /// collision the reaction of the two tiles, if one is registered, is let
    /// loose on what `after_contact` says, as `trigger_collision_effects`
    /// does.
    pub fn resolve_move(&mut self, source: usize, destination: usize, push_through: bool)
        requires
            old(self).wf(),
            source != destination,
            source < WORLD_CELLS,
            destination < WORLD_CELLS,
        ensures
            final(self).keeps_tables(old(self)),
            !is_collision(old(self).cells(), source, destination) ==> final(self).cells()
                == after_contact(old(self).cells(), source, destination, push_through),
            is_collision(old(self).cells(), source, destination) ==> ({
                let hit = after_contact(old(self).cells(), source, destination, push_through);
                let rule = old(self).rule_on(hit, source, destination);
                let first_index = first_of(hit, source, destination);
                let second_index = second_of(hit, source, destination);
                let first = first_tile_of(hit, source, destination);
                let second = second_tile_of(hit, source, destination);
                let key = collision_key(hit, source, destination);
                let table = old(self).flag_reactions();
                &&& rule == Rule::SideEffect ==> exists|
                    view: CollisionView<'_, Option<Tile>>,
                    out: (Option<Tile>, Option<Tile>),
                |
                    view.cells() == hit && view.first_index == first_index && view.second_index
                        == second_index && call_ensures(
                        old(self).side_effects()[key],
                        (first, second, view),
                        out,
                    ) && final(self).cells() == replaced(
                        final(view.slice)@,
                        first_index,
                        second_index,
                        commit_cell(out.0),
                        commit_cell(out.1),
                    )
                &&& rule == Rule::Reaction ==> exists|out: (Option<Tile>, Option<Tile>)|
                    call_ensures(old(self).reactions()[key], (first, second), out) && final(self).cells()
                        == replaced(
                        hit,
                        first_index,
                        second_index,
                        commit_cell(out.0),
                        commit_cell(out.1),
                    )
                &&& rule == Rule::SecondWithFlags ==> exists|out: (Option<Tile>, Option<Tile>)|
                    call_ensures(
                        table.lookup(first.element().flags, second.element().id).unwrap(),
                        (second, first),
                        out,
                    ) && final(self).cells() == replaced(hit, first_index, second_index, out.1, out.0)
                &&& rule == Rule::FirstWithFlags ==> exists|out: (Option<Tile>, Option<Tile>)|
                    call_ensures(
                        table.lookup(second.element().flags, first.element().id).unwrap(),
                        (first, second),
                        out,
                    ) && final(self).cells() == replaced(hit, first_index, second_index, out.0, out.1)
                &&& rule == Rule::Nothing ==> final(self).cells() == hit
            }),
    {
        let ghost cells = self.cells();
        let (source_cell, destination_cell) = self.mutate_pair(source, destination);
        if source_cell.is_none() {
            // The tile has moved for some other reason: nothing to do.
            assert(self.cells() =~= cells);
            return ;
        }
        if destination_cell.is_none() {
            assert(self.cells() =~= cells);
            self.swap(source, destination);
            return ;
        }
        let mut s = source_cell.unwrap();
        let mut d = destination_cell.unwrap();
        let new_temperature = ((s.temperature as i32 + d.temperature as i32) / 2) as i16;
        s.temperature = new_temperature;
        d.temperature = new_temperature;
        if adjacent_x(source, destination) {
            if d.has_flag(FIXED) {
                s.reflect_velocity_x();
            } else {
                s.elastic_collide_x(&mut d);
            }
        } else if d.has_flag(FIXED) {
            s.reflect_velocity_y();
        } else {
            s.elastic_collide_y(&mut d);
        }
        d.paused = false;
        *source_cell = Some(s);
        *destination_cell = Some(d);
        if d.has_flag(FLUID) && push_through {
            // Fluids don't collide, they just push through.
            self.swap(source, destination);
        }
        proof {
            assert(self.cells() == after_contact(cells, source, destination, push_through));
            lemma_contact_wakes(cells, source, destination, push_through);
            assert(self.rule_for(source, destination) == old(self).rule_on(
                self.cells(),
                source,
                destination,
            ));
        }
        self.trigger_collision_effects(source, destination);
    }

    /// Whether a move from `source` to `destination` would run into a fluid
    /// tile.
    fn meets_fluid(&self, source: usize, destination: usize) -> (fluid: bool)
        requires
            source < WORLD_CELLS,
            destination < WORLD_CELLS,
        ensures
            fluid == (is_collision(self.cells(), source, destination)
                && self.cells()[destination as int].unwrap().flagged(FLUID)),
    {
        match (&self.grid[source], &self.grid[destination]) {
            (Some(_), Some(d)) => d.has_flag(FLUID),
            _ => false,
        }
    }

    /// Tries to move the tile at `source` to `destination`. Where the tile
    /// runs into a fluid, chance decides whether it pushes through: the grid
    /// ends as `resolve_move` leaves it for one of the two outcomes, and for
    /// the outcome without a push where no fluid is met.
    pub fn move_particle(&mut self, source: usize, destination: usize)
        requires
            old(self).wf(),
            source != destination,
            source < WORLD_CELLS,
            destination < WORLD_CELLS,
        ensures
            final(self).keeps_tables(old(self)),
            old(self).may_follow(old(self).cells(), source, destination, final(self).cells()),
            exists|push_through: bool|
                {
                    let hit = #[trigger] after_contact(
                        old(self).cells(),
                        source,
                        destination,
                        push_through,
                    );
                    let rule = old(self).rule_on(hit, source, destination);
                    let first_index = first_of(hit, source, destination);
                    let second_index = second_of(hit, source, destination);
                    let first = first_tile_of(hit, source, destination);
                    let second = second_tile_of(hit, source, destination);
                    let key = collision_key(hit, source, destination);
                    let table = old(self).flag_reactions();
                    &&& push_through ==> is_collision(old(self).cells(), source, destination)
                        && old(self).cells()[destination as int].unwrap().flagged(FLUID)
                    &&& !is_collision(old(self).cells(), source, destination) ==> final(self).cells() == hit
                    &&& is_collision(old(self).cells(), source, destination) ==> {
                        &&& rule == Rule::SideEffect ==> exists|
                            view: CollisionView<'_, Option<Tile>>,
                            out: (Option<Tile>, Option<Tile>),
                        |
                            view.cells() == hit && view.first_index == first_index
                                && view.second_index == second_index && call_ensures(
                                old(self).side_effects()[key],
                                (first, second, view),
                                out,
                            ) && final(self).cells() == replaced(
                                final(view.slice)@,
                                first_index,
                                second_index,
                                commit_cell(out.0),
                                commit_cell(out.1),
                            )
                        &&& rule == Rule::Reaction ==> exists|out: (Option<Tile>, Option<Tile>)|
                            call_ensures(old(self).reactions()[key], (first, second), out)
                                && final(self).cells() == replaced(
                                hit,
                                first_index,
                                second_index,
                                commit_cell(out.0),
                                commit_cell(out.1),
                            )
                        &&& rule == Rule::SecondWithFlags ==> exists|out: (Option<Tile>, Option<Tile>)|
                            call_ensures(
                                table.lookup(first.element().flags, second.element().id).unwrap(),
                                (second, first),
                                out,
                            ) && final(self).cells() == replaced(
                                hit,
                                first_index,
                                second_index,
                                out.1,
                                out.0,
                            )
                        &&& rule == Rule::FirstWithFlags ==> exists|out: (Option<Tile>, Option<Tile>)|
                            call_ensures(
                                table.lookup(second.element().flags, first.element().id).unwrap(),
                                (first, second),
                                out,
                            ) && final(self).cells() == replaced(
                                hit,
                                first_index,
                                second_index,
                                out.0,
                                out.1,
                            )
                        &&& rule == Rule::Nothing ==> final(self).cells() == hit
                    }
                },
    {
        let push_through = if self.meets_fluid(source, destination) {
            random_in_range(0, 2) == 0
        } else {
            false
        };
        self.resolve_move(source, destination, push_through);
        proof {
            old(self).lemma_cell_count();
            self.lemma_cell_count();
            let hit = after_contact(old(self).cells(), source, destination, push_through);
            assert(old(self).may_follow(old(self).cells(), source, destination, self.cells()));
        }
    }
}

/// A tile that meets every condition of sleep is asleep after the sleep
/// pass, and at rest.
pub proof fn lemma_sleeper_rests(cells: Cells, position: usize)
    requires
        falls_asleep(cells, position),
    ensures
        after_pause(cells, position).is_some(),
        after_pause(cells, position).unwrap().paused,
        after_pause(cells, position).unwrap().velocity == (Vector { x: 0, y: 0 }),
{
}

/// After the sleep pass a tile is asleep exactly if it met every condition
/// of sleep, and a tile that is awake has kept its velocity.
pub proof fn lemma_sleep_pass_decides(cells: Cells, position: usize)
    requires
        position < cells.len(),
        cells[position as int].is_some(),
    ensures
        after_pause(cells, position).is_some(),
        after_pause(cells, position).unwrap().paused == falls_asleep(cells, position),
        !falls_asleep(cells, position) ==> after_pause(cells, position).unwrap().velocity
            == cells[position as int].unwrap().velocity,
{
}

/// Which tile is handed to a reaction first does not depend on which of the
/// two ran into the other: of two tiles of different elements the one of
/// the lower element comes first, whichever is the source.
pub proof fn lemma_dispatch_ignores_direction(cells: Cells, a: usize, b: usize)
    requires
        a < cells.len(),
        b < cells.len(),
        cells[a as int].is_some(),
        cells[b as int].is_some(),
        cells[a as int].unwrap().id() != cells[b as int].unwrap().id(),
    ensures
        first_of(cells, a, b) == first_of(cells, b, a),
        second_of(cells, a, b) == second_of(cells, b, a),
        first_tile_of(cells, a, b).id() < second_tile_of(cells, a, b).id(),
        collision_key(cells, a, b) == collision_key(cells, b, a),
{
}

impl<
    R: Fn(Tile, Tile) -> (Option<Tile>, Option<Tile>),
    S: for <'a>Fn(Tile, Tile, CollisionView<'a, Option<Tile>>) -> (Option<Tile>, Option<Tile>),
> World<R, S> {
    /// A reaction that is registered for the pair of elements `low` and
    /// `high`, with `low` below `high`, is the rule of every collision of a
    /// tile of `low` with a tile of `high`, whichever of the two is the
    /// source, unless a side effect is registered for the pair; and the
    /// tile of `low` is the first that it gets.
    pub proof fn lemma_registered_reaction_decides(&self, cells: Cells, a: usize, b: usize, low: u8, high: u8)
        requires
            a < cells.len(),
            b < cells.len(),
            cells[a as int].is_some(),
            cells[b as int].is_some(),
            low < high,
            cells[a as int].unwrap().id() == low,
            cells[b as int].unwrap().id() == high,
            self.reactions().contains_key(spec_pair_key(low, high)),
            !self.side_effects().contains_key(spec_pair_key(low, high)),
        ensures
            self.rule_on(cells, a, b) == Rule::Reaction,
            self.rule_on(cells, b, a) == Rule::Reaction,
            collision_key(cells, a, b) == spec_pair_key(low, high),
            collision_key(cells, b, a) == spec_pair_key(low, high),
            first_tile_of(cells, a, b) == cells[a as int].unwrap(),
            first_tile_of(cells, b, a) == cells[a as int].unwrap(),
            second_tile_of(cells, a, b) == cells[b as int].unwrap(),
            second_tile_of(cells, b, a) == cells[b as int].unwrap(),
    {
    }

    /// Once `reaction` has been registered for the pair of elements `low`
    /// and `high`, with `low` below `high`, the pair is taken, so that no
    /// second reaction can be registered for it; and while the pair has no
    /// side effect, every collision of a tile of `low` with a tile of
    /// `high` hands its two tiles to `reaction`, the tile of `low` first,
    /// whichever of the two is the source.
    pub proof fn lemma_registration_decides(
        &self,
        before: &Self,
        reaction: R,
        cells: Cells,
        a: usize,
        b: usize,
        low: u8,
        high: u8,
    )
        requires
            a < cells.len(),
            b < cells.len(),
            cells[a as int].is_some(),
            cells[b as int].is_some(),
            low < high,
            cells[a as int].unwrap().id() == low,
            cells[b as int].unwrap().id() == high,
            self.reactions() == before.reactions().insert(spec_pair_key(low, high), reaction),
            !self.side_effects().contains_key(spec_pair_key(low, high)),
        ensures
            self.reactions().contains_key(spec_pair_key(low, high)),
            self.rule_on(cells, a, b) == Rule::Reaction,
            self.rule_on(cells, b, a) == Rule::Reaction,
            self.reactions()[collision_key(cells, a, b)] == reaction,
            self.reactions()[collision_key(cells, b, a)] == reaction,
            first_tile_of(cells, a, b) == cells[a as int].unwrap(),
            first_tile_of(cells, b, a) == cells[a as int].unwrap(),
            second_tile_of(cells, a, b) == cells[b as int].unwrap(),
            second_tile_of(cells, b, a) == cells[b as int].unwrap(),
            forall|other: u16|
                other != spec_pair_key(low, high) && before.reactions().contains_key(other)
                    ==> self.reactions().contains_key(other) && self.reactions()[other]
                    == #[trigger] before.reactions()[other],
    {
        self.lemma_registered_reaction_decides(cells, a, b, low, high);
    }
}

/// Whether the cell holds no tile with a staged state that differs from its
/// visible state.
pub open spec fn is_settled(cell: Option<Tile>) -> bool {
    match cell {
        Some(tile) => tile.element_data.current == tile.element_data.staged,
        None => true,
    }
}

impl<
    R: Fn(Tile, Tile) -> (Option<Tile>, Option<Tile>),
    S: for <'a>Fn(Tile, Tile, CollisionView<'a, Option<Tile>>) -> (Option<Tile>, Option<Tile>),
> World<R, S> {
    /// Runs the periodic reaction of the tile at `i`, if there is one.
    ///
    /// An inert tile and an empty cell change nothing. A decaying tile is
    /// replaced by what `decayed` says for some roll below its rarity. Any
    /// other tile is replaced by what its behaviour gives, which may also
    /// have changed the grid through its view.
    pub fn react_at(&mut self, i: usize)
        requires
            i < WORLD_CELLS,
        ensures
            final(self).keeps_tables(old(self)),
            may_react(old(self).cells(), i, final(self).cells()),
            match old(self).cells()[i as int] {
                None => final(self).cells() == old(self).cells(),
                Some(tile) => match tile.element().periodic_reaction {
                    PeriodicReaction::Inert => final(self).cells() == old(self).cells(),
                    PeriodicReaction::Custom(hook) => exists|
                        view: NeighborhoodView<'_, Option<Tile>>,
                        out: Option<Tile>,
                    |
                        view.cells() == old(self).cells() && view.index == i && call_ensures(
                            run_hook,
                            (hook, tile, view),
                            out,
                        ) && final(self).cells() == final(view.slice)@.update(i as int, out),
                    _ => exists|roll: int|
                        0 <= roll < rarity_of(tile.element().periodic_reaction) && final(self).cells()
                            == old(self).cells().update(
                            i as int,
                            #[trigger] decayed(tile, tile.element().periodic_reaction, roll),
                        ),
                },
            },
    {
        let grid: &mut [Option<Tile>; WORLD_CELLS] = &mut *self.grid;
        react_in(grid, i);
    }

    /// Makes the staged state of every tile visible.
    pub fn commit_states(&mut self)
        ensures
            forall|i: int|
                0 <= i < WORLD_CELLS ==> #[trigger] final(self).cells()[i] == commit_cell(
                    old(self).cells()[i],
                ),
            final(self).keeps_tables(old(self)),
    {
        let mut i: usize = 0;
        while i < WORLD_CELLS
            invariant
                i <= WORLD_CELLS,
                self.keeps_tables(old(self)),
                forall|k: int|
                    0 <= k < i ==> #[trigger] self.cells()[k] == commit_cell(old(self).cells()[k]),
                forall|k: int| i <= k < WORLD_CELLS ==> #[trigger] self.cells()[k] == old(self).cells()[k],
            decreases WORLD_CELLS - i,
        {
            let cell = self.grid[i];
            assert(cell == self.cells()[i as int]);
            if let Some(tile) = cell {
                let mut saved = tile;
                saved.save_state();
                self.grid[i] = Some(saved);
            }
            i += 1;
        }
    }

    /// Runs the periodic reaction of every tile, cell by cell in the order
    /// of the cells, and then makes the staged state of every tile
    /// visible. While the reactions run, a tile's element and info are read
    /// as they were before the pass; afterwards no tile holds a staged state
    /// that is not visible.
    ///
    /// There is a grid before each cell's turn. An empty cell leaves its
    /// grid as it is; an inert or decaying tile changes it as `may_react`
    /// says; a tile with a behaviour of its own is handed a view of the
    /// grid, and the next grid is what the behaviour left through the view,
    /// with the tile replaced by what the behaviour returned.
    pub fn apply_periodic_reactions(&mut self)
        ensures
            final(self).keeps_tables(old(self)),
            may_pass(old(self).cells(), final(self).cells()),
            forall|i: int| 0 <= i < WORLD_CELLS ==> is_settled(#[trigger] final(self).cells()[i]),
            exists|grids: Seq<Cells>|
                #[trigger] is_chain(grids, old(self).cells(), WORLD_CELLS as int) && final(self).cells()
                    == committed_grid(grids[WORLD_CELLS as int]) && forall|k: int|
                    #[trigger] takes_turn(k, WORLD_CELLS as int) ==> match grids[k][k] {
                        Some(tile) => match tile.element().periodic_reaction {
                            PeriodicReaction::Custom(hook) => exists|
                                view: NeighborhoodView<'_, Option<Tile>>,
                                out: Option<Tile>,
                            |
                                view.cells() == grids[k] && view.index == k && call_ensures(
                                    run_hook,
                                    (hook, tile, view),
                                    out,
                                ) && grids[k + 1] == final(view.slice)@.update(k, out),
                            _ => may_react(grids[k], k as usize, grids[k + 1]),
                        },
                        None => grids[k + 1] == grids[k],
                    },
    {
        let ghost mut grids: Seq<Cells> = seq![self.cells()];
        let ghost order = Seq::new(WORLD_CELLS as nat, |i: int| i as usize);
        let mut i: usize = 0;
        while i < WORLD_CELLS
            invariant
                i <= WORLD_CELLS,
                self.keeps_tables(old(self)),
                order == Seq::new(WORLD_CELLS as nat, |i: int| i as usize),
                grids.len() == i + 1,
                grids[0] == old(self).cells(),
                grids[i as int] == self.cells(),
                forall|k: int| 0 <= k < i ==> may_react(#[trigger] grids[k], order[k], grids[k + 1]),
                forall|k: int|
                    #[trigger] takes_turn(k, i as int) ==> match grids[k][k] {
                        Some(tile) => match tile.element().periodic_reaction {
                            PeriodicReaction::Custom(hook) => exists|
                                view: NeighborhoodView<'_, Option<Tile>>,
                                out: Option<Tile>,
                            |
                                view.cells() == grids[k] && view.index == k && call_ensures(
                                    run_hook,
                                    (hook, tile, view),
                                    out,
                                ) && grids[k + 1] == final(view.slice)@.update(k, out),
                            _ => may_react(grids[k], k as usize, grids[k + 1]),
                        },
                        None => grids[k + 1] == grids[k],
                    },
            decreases WORLD_CELLS - i,
        {
            let ghost earlier = grids;
            self.react_at(i);
            proof {
                grids = earlier.push(self.cells());
                assert(grids[i as int] == earlier[i as int]);
                assert(grids[i + 1] == self.cells());
                assert forall|k: int| 0 <= k < i + 1 implies may_react(
                    #[trigger] grids[k],
                    order[k],
                    grids[k + 1],
                ) by {
                    if k < i {
                        assert(grids[k] == earlier[k]);
                        assert(grids[k + 1] == earlier[k + 1]);
                    }
                }
                assert forall|k: int| #[trigger] takes_turn(k, i + 1) implies match grids[k][k] {
                        Some(tile) => match tile.element().periodic_reaction {
                            PeriodicReaction::Custom(hook) => exists|
                                view: NeighborhoodView<'_, Option<Tile>>,
                                out: Option<Tile>,
                            |
                                view.cells() == grids[k] && view.index == k && call_ensures(
                                    run_hook,
                                    (hook, tile, view),
                                    out,
                                ) && grids[k + 1] == final(view.slice)@.update(k, out),
                            _ => may_react(grids[k], k as usize, grids[k + 1]),
                        },
                        None => grids[k + 1] == grids[k],
                    } by {
                    if k < i {
                        assert(takes_turn(k, i as int));
                        assert(grids[k] == earlier[k]);
                        assert(grids[k + 1] == earlier[k + 1]);
                    }
                }
            }
            i += 1;
        }
        let ghost reacted = self.cells();
        proof {
            assert(may_react_in_order(old(self).cells(), order, reacted));
            assert(may_react_in_turn(old(self).cells(), WORLD_CELLS as nat, reacted));
        }
        self.commit_states();
        proof {
            self.lemma_cell_count();
            assert(self.cells() =~= committed_grid(reacted));
            assert(is_chain(grids, old(self).cells(), WORLD_CELLS as int));
            assert(grids[WORLD_CELLS as int] == reacted);
        }
    }
}

} // verus!
