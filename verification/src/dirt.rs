//! Dirt, which soaks up water and passes moisture on.

use vstd::prelude::*;
use crate::catalog::{spec_element, DIRT_ID, WATER_ID};
use crate::element::{Element, ElementId};
use crate::tile::{clamp_info, ElementState, Tile};
use crate::water::water;
use crate::world::{spec_pair_key, Cells, World};
use crate::world_view::{is_around, is_step, CollisionView, NeighborhoodView};
use crate::{spec_raw_neighbors, WORLD_WIDTH};

verus! {

/// Dirt that is wetter than this takes no more water.
pub const SOAKED: u8 = 192;

/// The moisture that a tile of water adds to dirt.
pub const GULP: i16 = 64;

/// Moisture moves to a tile from one that is wetter by more than this.
pub const MOISTURE_STEP: u8 = 5;

pub fn dirt() -> (e: Element)
    ensures
        e == spec_element(DIRT_ID),
{
    ElementId(DIRT_ID).get_element()
}

/// The moisture of a tile: its info if it is dirt, else none.
pub open spec fn moisture(tile: Tile) -> u8 {
    if tile.id() == DIRT_ID {
        tile.info()
    } else {
        0
    }
}

pub fn dirt_moisture(tile: &Tile) -> (wet: u8)
    ensures
        wet == moisture(*tile),
{
    if tile.element_id() == DIRT_ID {
        tile.special_info()
    } else {
        0
    }
}

/// The moisture above which a neighbour gives moisture to `tile`.
pub open spec fn moisture_bar(tile: Tile) -> int {
    if moisture(tile) + MOISTURE_STEP > 255 {
        255
    } else {
        moisture(tile) + MOISTURE_STEP
    }
}

/// Whether the cell holds a tile that gives moisture to a tile with the
/// given bar.
pub open spec fn gives_moisture(cell: Option<Tile>, bar: int) -> bool {
    cell.is_some() && moisture(cell.unwrap()) > bar
}

/// The cell after it has given moisture, if it does, to a tile with the
/// given bar: its staged info is one less, and it is awake.
pub open spec fn drained(cell: Option<Tile>, bar: int) -> Option<Tile> {
    if gives_moisture(cell, bar) {
        Some(
            cell.unwrap().with_staged(
                ElementState::spec_new(
                    cell.unwrap().element_data.staged.element_id,
                    clamp_info(cell.unwrap().element_data.staged.special_info@ - 1),
                ),
            ).with_paused(false),
        )
    } else {
        cell
    }
}

/// The number of cells among the first `k` around `index` that give
/// moisture to a tile with the given bar.
pub open spec fn givers_around(cells: Cells, index: int, bar: int, k: int) -> int
    decreases k,
{
    if k <= 0 {
        0
    } else {
        givers_around(cells, index, bar, k - 1) + if gives_moisture(
            cells[spec_raw_neighbors(index)[k - 1]],
            bar,
        ) {
            1int
        } else {
            0int
        }
    }
}

/// The tile after `gained` neighbours have each given it moisture: its
/// staged info is that much more, saturating.
pub open spec fn moistened(tile: Tile, gained: int) -> Tile {
    if gained <= 0 {
        tile
    } else {
        tile.with_staged(
            ElementState::spec_new(
                tile.element_data.staged.element_id,
                clamp_info(tile.element_data.staged.special_info@ + gained),
            ),
        )
    }
}

/// The periodic reaction of dirt: every wetter tile around it, by more than
/// the step, stages the loss of one unit of moisture, and the dirt stages
/// the gain of as many. At the edge of the buffer, where not all eight
/// cells exist, nothing happens.
pub fn dirt_reaction(this: Tile, mut view: NeighborhoodView<'_, Option<Tile>>) -> (out: Option<Tile>)
    ensures
        final(view.slice)@.len() == view.cells().len(),
        !(view.has_margin() && view.index + WORLD_WIDTH + 1 <= i32::MAX) ==> out == Some(this)
            && final(view.slice)@ == view.cells(),
        view.has_margin() && view.index + WORLD_WIDTH + 1 <= i32::MAX ==> {
            &&& out == Some(
                moistened(
                    this,
                    givers_around(view.cells(), view.index as int, moisture_bar(this), 8),
                ),
            )
            &&& forall|j: int|
                0 <= j < view.cells().len() ==> #[trigger] final(view.slice)@[j] == if is_around(
                    view.index as int,
                    j,
                ) {
                    drained(view.cells()[j], moisture_bar(this))
                } else {
                    view.cells()[j]
                }
        },
{
    let mut me = this;
    let ghost cells = view.cells();
    let ghost index = view.index as int;
    if !view.surrounded() {
        return Some(me);
    }
    let bar: u8 = if dirt_moisture(&this) > 255 - MOISTURE_STEP {
        255
    } else {
        dirt_moisture(&this) + MOISTURE_STEP
    };
    let around = view.neighbors();
    let mut gained: u8 = 0;
    let mut k: usize = 0;
    while k < 8
        invariant
            k <= 8,
            around@.len() == 8,
            view.has_margin(),
            view.cells() == cells,
            view.index == index,
            bar == moisture_bar(this),
            forall|j: int|
                0 <= j < 8 ==> (#[trigger] around@[j]).0 == spec_raw_neighbors(index)[j] && around@[j].0
                    < cells.len(),
            gained == givers_around(cells, index, bar as int, k as int),
            gained <= k,
        decreases 8 - k,
    {
        if let Some(tile) = view.index(around[k]) {
            if dirt_moisture(tile) > bar {
                gained += 1;
            }
        }
        k += 1;
    }
    let drain = |cell: &mut Option<Tile>|
        ensures
            *final(cell) == drained(*old(cell), bar as int),
        {
            if let Some(tile) = cell {
                if dirt_moisture(tile) > bar {
                    tile.adjust_info(-1);
                    tile.paused = false;
                }
            }
        };
    view.for_each_neighbor(drain);
    proof {
        assert forall|j: int| 0 <= j < cells.len() && is_around(index, j) implies view.cells()[j]
            == drained(cells[j], bar as int) by {
            let k = choose|k: int|
                0 <= k < spec_raw_neighbors(index).len() && spec_raw_neighbors(index)[k] == j;
            assert(is_step(k));
        }
    }
    if gained > 0 {
        me.adjust_info(gained as i16);
    }
    Some(me)
}

/// What happens where water meets dirt: dirt that is not soaked takes the
/// water up and stages a gain of moisture; soaked dirt leaves both as they
/// are.
pub open spec fn soak_outcome(water: Tile, dirt: Tile) -> (Option<Tile>, Option<Tile>) {
    if dirt.info() <= SOAKED {
        (
            None,
            Some(
                dirt.with_staged(
                    ElementState::spec_new(
                        dirt.element_data.staged.element_id,
                        clamp_info(dirt.element_data.staged.special_info@ + GULP),
                    ),
                ),
            ),
        )
    } else {
        (Some(water), Some(dirt))
    }
}

/// The reaction of water with dirt.
pub fn soak(water: Tile, dirt: Tile) -> (out: (Option<Tile>, Option<Tile>))
    ensures
        out == soak_outcome(water, dirt),
{
    let mut dirt = dirt;
    if dirt.special_info() <= SOAKED {
        // The water is absorbed.
        dirt.adjust_info(GULP);
        (None, Some(dirt))
    } else {
        (Some(water), Some(dirt))
    }
}

/// Dirt's place in the catalog.
pub struct DirtSetup;

impl DirtSetup {
    /// Registers `soaking` as the reaction of water with dirt.
    pub fn register_reactions<
        R: Fn(Tile, Tile) -> (Option<Tile>, Option<Tile>),
        S: for <'a>Fn(Tile, Tile, CollisionView<'a, Option<Tile>>) -> (Option<Tile>, Option<Tile>),
    >(&self, world: &mut World<R, S>, soaking: R)
        requires
            old(world).wf(),
            !old(world).reactions().contains_key(spec_pair_key(WATER_ID, DIRT_ID)),
            forall|first: Tile, second: Tile| call_requires(soaking, (first, second)),
        ensures
            final(world).wf(),
            final(world).cells() == old(world).cells(),
            final(world).reactions() == old(world).reactions().insert(
                spec_pair_key(WATER_ID, DIRT_ID),
                soaking,
            ),
            final(world).side_effects() == old(world).side_effects(),
            final(world).flag_reactions() == old(world).flag_reactions(),
    {
        world.register_collision_reaction(&water(), &dirt(), soaking);
    }

    pub fn build_element(&self) -> (e: Element)
        ensures
            e == spec_element(DIRT_ID),
    {
        dirt()
    }

    pub fn get_id(&self) -> (id: ElementId)
        ensures
            id == ElementId(DIRT_ID),
    {
        ElementId(DIRT_ID)
    }
}

} // verus!
