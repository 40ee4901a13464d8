//! The eraser, which clears the cells around it and then itself.

use vstd::prelude::*;
use crate::catalog::WALL_ID;
use crate::element::{Element, ElementId, PeriodicHook, PeriodicReaction, NO_FLAGS};
use crate::tile::Tile;
use crate::world_view::{is_around, is_step, NeighborhoodView};
use crate::{spec_raw_neighbors, WORLD_WIDTH};

verus! {

/// Identifier of the eraser. The catalog does not list it.
pub const ERASER_ID: u8 = 13;

/// The descriptor of the eraser.
pub open spec fn spec_eraser() -> Element {
    Element {
        flags: NO_FLAGS,
        mass: 0,
        id: ERASER_ID,
        periodic_reaction: PeriodicReaction::Custom(PeriodicHook::Eraser),
        default_temperature: 20,
    }
}

pub fn eraser() -> (e: Element)
    ensures
        e == spec_eraser(),
{
    Element {
        flags: NO_FLAGS,
        mass: 0,
        id: ERASER_ID,
        periodic_reaction: PeriodicReaction::Custom(PeriodicHook::Eraser),
        default_temperature: 20,
    }
}

/// The cell after an eraser next to it has acted: only a wall stays.
pub open spec fn erased(cell: Option<Tile>) -> Option<Tile> {
    match cell {
        Some(tile) => if tile.id() == WALL_ID {
            cell
        } else {
            None
        },
        None => None,
    }
}

/// Clears the cell unless it holds a wall.
fn erase(cell: &mut Option<Tile>)
    ensures
        *final(cell) == erased(*old(cell)),
{
    let keep = match cell {
        Some(tile) => tile.element_id() == WALL_ID,
        None => false,
    };
    if !keep {
        *cell = None;
    }
}

/// The periodic reaction of the eraser: it clears the eight cells around
/// it, walls excepted, and then deletes itself. At the edge of the buffer,
/// where not all eight cells exist, it only deletes itself.
pub fn eraser_reaction(this: Tile, mut view: NeighborhoodView<'_, Option<Tile>>) -> (out: Option<Tile>)
    ensures
        out.is_none(),
        final(view.slice)@.len() == view.cells().len(),
        forall|j: int|
            0 <= j < view.cells().len() ==> #[trigger] final(view.slice)@[j] == if view.has_margin()
                && view.index + WORLD_WIDTH + 1 <= i32::MAX && is_around(view.index as int, j) {
                erased(view.cells()[j])
            } else {
                view.cells()[j]
            },
{
    let ghost cells = view.cells();
    let ghost index = view.index as int;
    if view.surrounded() {
        view.for_each_neighbor(erase);
        proof {
            assert forall|j: int| 0 <= j < cells.len() && is_around(index, j) implies view.cells()[j]
                == erased(cells[j]) by {
                let k = choose|k: int|
                    0 <= k < spec_raw_neighbors(index).len() && spec_raw_neighbors(index)[k] == j;
                assert(is_step(k));
            }
        }
    }
    None
}

/// The eraser's place in the catalog.
pub struct EraserSetup;

impl EraserSetup {
    pub fn build_element(&self) -> (e: Element)
        ensures
            e == spec_eraser(),
    {
        eraser()
    }

    pub fn get_id(&self) -> (id: ElementId)
        ensures
            id == ElementId(ERASER_ID),
    {
        ElementId(ERASER_ID)
    }
}

} // verus!
