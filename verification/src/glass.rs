//! Glass, which looks different at its edge and in its middle.

use vstd::prelude::*;
use crate::catalog::{spec_element, GLASS_ID};
use crate::element::{Element, ElementId};
use crate::tile::{ElementState, Tile};
use crate::world::Cells;
use crate::world_view::NeighborhoodView;
use crate::spec_raw_neighbors;

verus! {

/// Info of glass next to something that is not glass.
pub const GLASS_EDGE: u8 = 1;

/// Info of glass with glass all around it.
pub const GLASS_INNER: u8 = 2;

pub fn glass() -> (e: Element)
    ensures
        e == spec_element(GLASS_ID),
{
    ElementId(GLASS_ID).get_element()
}

/// Whether the cell holds glass.
pub open spec fn holds_glass(cell: Option<Tile>) -> bool {
    cell.is_some() && cell.unwrap().id() == GLASS_ID
}

/// Whether each of the first `k` cells around `index` holds glass.
pub open spec fn glass_around(cells: Cells, index: int, k: int) -> bool {
    forall|j: int| 0 <= j < k ==> holds_glass(#[trigger] cells[spec_raw_neighbors(index)[j]])
}

/// Glass after a reaction tick: staged as inner glass if `enclosed`, else
/// as glass at an edge.
pub open spec fn glass_after(tile: Tile, enclosed: bool) -> Tile {
    tile.with_staged(
        ElementState::spec_new(
            ElementId(GLASS_ID),
            if enclosed {
                GLASS_INNER
            } else {
                GLASS_EDGE
            },
        ),
    )
}

/// The periodic reaction of glass. It reads the cells around the tile and
/// leaves the grid alone. At the edge of the buffer, where not all eight
/// cells exist, the glass is at an edge.
pub fn glass_reaction(this: Tile, view: NeighborhoodView<'_, Option<Tile>>) -> (out: Option<Tile>)
    ensures
        out == Some(
            glass_after(
                this,
                view.has_margin() && view.index + crate::WORLD_WIDTH + 1 <= i32::MAX && glass_around(
                    view.cells(),
                    view.index as int,
                    8,
                ),
            ),
        ),
        final(view.slice)@ == view.cells(),
{
    let mut me = this;
    if !view.surrounded() {
        me.edit_state(ElementId(GLASS_ID), GLASS_EDGE);
        return Some(me);
    }
    let around = view.neighbors();
    let mut k: usize = 0;
    while k < 8
        invariant
            k <= 8,
            me == this,
            around@.len() == 8,
            view.has_margin(),
            view.index + crate::WORLD_WIDTH + 1 <= i32::MAX,
            forall|j: int|
                0 <= j < 8 ==> (#[trigger] around@[j]).0 == spec_raw_neighbors(view.index as int)[j]
                    && around@[j].0 < view.cells().len(),
            glass_around(view.cells(), view.index as int, k as int),
        decreases 8 - k,
    {
        let is_glass = match view.index(around[k]) {
            Some(tile) => tile.element_id() == GLASS_ID,
            None => false,
        };
        if !is_glass {
            // Some neighbouring cell is empty or holds no glass.
            assert(!holds_glass(view.cells()[spec_raw_neighbors(view.index as int)[k as int]]));
            assert(!glass_around(view.cells(), view.index as int, 8));
            me.edit_state(ElementId(GLASS_ID), GLASS_EDGE);
            return Some(me);
        }
        k += 1;
    }
    me.edit_state(ElementId(GLASS_ID), GLASS_INNER);
    Some(me)
}

} // verus!
