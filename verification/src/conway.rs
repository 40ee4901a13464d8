//! Cells of the game of life, which charged metal brings to life and which
//! charge metal when they die of overcrowding.

use vstd::prelude::*;
use crate::catalog::{spec_element, CONWAY_ID, METAL_ID};
use crate::element::{Element, ElementId};
use crate::metal::{holds_charge, CHARGED_HEAD, NEUTRAL};
use crate::tile::{ElementState, Tile};
use crate::world::Cells;
use crate::world_view::{is_around, NeighborhoodView};
use crate::{spec_raw_neighbors, WORLD_WIDTH};

verus! {

/// Info of a dead cell.
pub const DEAD: u8 = 1;

/// Info of a living cell.
pub const ALIVE: u8 = 2;

pub fn conway() -> (e: Element)
    ensures
        e == spec_element(CONWAY_ID),
{
    ElementId(CONWAY_ID).get_element()
}

/// Whether the cell holds a living cell of the game.
pub open spec fn holds_life(cell: Option<Tile>) -> bool {
    cell.is_some() && cell.unwrap().id() == CONWAY_ID && cell.unwrap().info() == ALIVE
}

/// Whether one of the first `k` cells around `index` holds charged metal.
pub open spec fn charge_around(cells: Cells, index: int, k: int) -> bool {
    exists|j: int| 0 <= j < k && holds_charge(#[trigger] cells[spec_raw_neighbors(index)[j]])
}

/// The number of living cells among the first `k` cells around `index`.
pub open spec fn life_around(cells: Cells, index: int, k: int) -> int
    decreases k,
{
    if k <= 0 {
        0
    } else {
        life_around(cells, index, k - 1) + if holds_life(cells[spec_raw_neighbors(index)[k - 1]]) {
            1int
        } else {
            0int
        }
    }
}

/// Whether a cell of the game with `alive` living cells around it dies of
/// overcrowding.
pub open spec fn overcrowded(tile: Tile, charged: bool, alive: int) -> bool {
    !charged && alive != 3 && tile.info() == ALIVE && alive > 3
}

/// A cell of the game after a reaction tick, with `alive` living cells
/// around it, and with charged metal around it if `charged`.
///
/// Charged metal brings it to life. Else three living cells around it bring
/// it to life, and a living cell dies with more than three or fewer than
/// two.
pub open spec fn conway_after(tile: Tile, charged: bool, alive: int) -> Tile {
    if charged || alive == 3 {
        tile.with_staged(ElementState::spec_new(ElementId(CONWAY_ID), ALIVE))
    } else if tile.info() == ALIVE && (alive > 3 || alive < 2) {
        tile.with_staged(ElementState::spec_new(ElementId(CONWAY_ID), DEAD))
    } else {
        tile
    }
}

/// The cell after a cell of the game next to it has died of overcrowding:
/// neutral metal is staged to carry a fresh charge, and is awake.
pub open spec fn shocked(cell: Option<Tile>) -> Option<Tile> {
    match cell {
        Some(tile) => if tile.id() == METAL_ID && tile.info() == NEUTRAL {
            Some(
                tile.with_staged(
                    ElementState::spec_new(ElementId(METAL_ID), CHARGED_HEAD),
                ).with_paused(false),
            )
        } else {
            cell
        },
        None => None,
    }
}

/// The periodic reaction of the game of life. It reads the cells around the
/// tile; where the tile dies of overcrowding it stages a charge in the
/// neutral metal around it, and else it leaves the grid alone. At the edge
/// of the buffer, where not all eight cells exist, nothing is seen around
/// the tile.
pub fn conway_reaction(this: Tile, mut view: NeighborhoodView<'_, Option<Tile>>) -> (out: Option<Tile>)
    ensures
        final(view.slice)@.len() == view.cells().len(),
        !(view.has_margin() && view.index + WORLD_WIDTH + 1 <= i32::MAX) ==> out == Some(
            conway_after(this, false, 0),
        ) && final(view.slice)@ == view.cells(),
        view.has_margin() && view.index + WORLD_WIDTH + 1 <= i32::MAX ==> {
            let charged = charge_around(view.cells(), view.index as int, 8);
            let alive = life_around(view.cells(), view.index as int, 8);
            &&& out == Some(conway_after(this, charged, alive))
            &&& !overcrowded(this, charged, alive) ==> final(view.slice)@ == view.cells()
            &&& overcrowded(this, charged, alive) ==> forall|j: int|
                0 <= j < view.cells().len() ==> #[trigger] final(view.slice)@[j] == if is_around(
                    view.index as int,
                    j,
                ) {
                    shocked(view.cells()[j])
                } else {
                    view.cells()[j]
                }
        },
{
    let mut me = this;
    let ghost cells = view.cells();
    let ghost index = view.index as int;
    let ghost shown = view;
    let mut alive_neighbors: u8 = 0;
    if !view.surrounded() {
        if me.special_info() == ALIVE {
            // Death by loneliness.
            me.edit_state(ElementId(CONWAY_ID), DEAD);
        }
        return Some(me);
    }
    let around = view.neighbors();
    proof {
        crate::world_view::lemma_raw_neighbors_are_distinct_cells(index, cells.len() as int);
    }
    let mut k: usize = 0;
    while k < 8
        invariant
            k <= 8,
            me == this,
            around@.len() == 8,
            view.has_margin(),
            index + WORLD_WIDTH + 1 <= i32::MAX,
            view.cells() == cells,
            view.index == index,
            final(view.slice)@ == final(shown.slice)@,
            forall|j: int|
                0 <= j < 8 ==> (#[trigger] around@[j]).0 == spec_raw_neighbors(index)[j] && around@[j].0
                    < cells.len(),
            !charge_around(cells, index, k as int),
            alive_neighbors == life_around(cells, index, k as int),
            alive_neighbors <= k,
        decreases 8 - k,
    {
        if let Some(tile) = view.index(around[k]) {
            if tile.is_charged_metal() {
                // Charged metal next to the cell brings it to life.
                assert(holds_charge(cells[spec_raw_neighbors(index)[k as int]]));
                assert(charge_around(cells, index, 8));
                me.edit_state(ElementId(CONWAY_ID), ALIVE);
                return Some(me);
            }
            if tile.has_state(ElementId(CONWAY_ID), ALIVE) {
                alive_neighbors += 1;
            }
        }
        assert(!charge_around(cells, index, k + 1)) by {
            if charge_around(cells, index, k + 1) {
                let j = choose|j: int|
                    0 <= j < k + 1 && holds_charge(#[trigger] cells[spec_raw_neighbors(index)[j]]);
                if j < k {
                    assert(charge_around(cells, index, k as int));
                }
            }
        }
        k += 1;
    }
    if alive_neighbors == 3 {
        me.edit_state(ElementId(CONWAY_ID), ALIVE);
    } else if me.special_info() == ALIVE {
        if alive_neighbors > 3 {
            // Death by overcrowding.
            me.edit_state(ElementId(CONWAY_ID), DEAD);
            let ghost staged = me;
            let mut k: usize = 0;
            while k < 8
                invariant
                    k <= 8,
                    me == staged,
                    around@.len() == 8,
                    view.index == index,
                    view.cells().len() == cells.len(),
                    crate::has_margin(index, cells.len() as int),
                    final(view.slice)@ == final(shown.slice)@,
                    forall|j: int|
                        0 <= j < 8 ==> (#[trigger] around@[j]).0 == spec_raw_neighbors(index)[j]
                            && around@[j].0 < cells.len(),
                    forall|j: int, i: int|
                        0 <= j < i < 8 ==> spec_raw_neighbors(index)[j] != spec_raw_neighbors(index)[i],
                    forall|j: int|
                        0 <= j < cells.len() ==> #[trigger] view.cells()[j] == if exists|i: int|
                            0 <= i < k && spec_raw_neighbors(index)[i] == j {
                            shocked(cells[j])
                        } else {
                            cells[j]
                        },
                decreases 8 - k,
            {
                let ghost before = view.cells();
                let at = around[k];
                let cell = view.index_mut(at);
                if let Some(tile) = cell {
                    if tile.has_state(ElementId(METAL_ID), NEUTRAL) {
                        tile.edit_state(ElementId(METAL_ID), CHARGED_HEAD);
                        tile.paused = false;
                    }
                }
                proof {
                    assert(view.cells() == before.update(at.0 as int, shocked(before[at.0 as int])));
                    assert forall|j: int| 0 <= j < cells.len() implies #[trigger] view.cells()[j]
                        == if exists|i: int| 0 <= i < k + 1 && spec_raw_neighbors(index)[i] == j {
                        shocked(cells[j])
                    } else {
                        cells[j]
                    } by {
                        if j == at.0 {
                            assert(spec_raw_neighbors(index)[k as int] == j);
                            if exists|i: int| 0 <= i < k && spec_raw_neighbors(index)[i] == j {
                                let i = choose|i: int| 0 <= i < k && spec_raw_neighbors(index)[i] == j;
                                assert(false);
                            }
                        } else {
                            if exists|i: int| 0 <= i < k + 1 && spec_raw_neighbors(index)[i] == j {
                                let i = choose|i: int|
                                    0 <= i < k + 1 && spec_raw_neighbors(index)[i] == j;
                                assert(i < k);
                            }
                        }
                    }
                }
                k += 1;
            }
            proof {
                assert forall|j: int| 0 <= j < cells.len() implies #[trigger] view.cells()[j]
                    == if is_around(index, j) {
                    shocked(cells[j])
                } else {
                    cells[j]
                } by {
                    if is_around(index, j) {
                        let i = choose|i: int|
                            0 <= i < spec_raw_neighbors(index).len() && spec_raw_neighbors(index)[i]
                                == j;
                        assert(0 <= i < 8 && spec_raw_neighbors(index)[i] == j);
                    } else {
                        if exists|i: int| 0 <= i < 8 && spec_raw_neighbors(index)[i] == j {
                            let i = choose|i: int| 0 <= i < 8 && spec_raw_neighbors(index)[i] == j;
                            assert(spec_raw_neighbors(index).contains(j));
                        }
                    }
                }
            }
        } else if alive_neighbors < 2 {
            // Death by loneliness.
            me.edit_state(ElementId(CONWAY_ID), DEAD);
        }
    }
    Some(me)
}

} // verus!
