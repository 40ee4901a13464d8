//! Oil, which lets what lies on it slide and which burns fiercely.

use vstd::prelude::*;
use crate::catalog::{spec_element, FIRE_ID, OIL_ID};
use crate::chance::random_in_range;
use crate::element::{Element, ElementId};
use crate::fire::BURNS_CLEAN;
use crate::tile::{clamp_velocity, saturating_add, ElementState, Tile, Vector};
use crate::water::{draw_jiggle, is_jiggle};
use crate::world::Cells;
use crate::world_view::NeighborhoodView;
use crate::WORLD_WIDTH;

verus! {

/// Temperature above which oil catches fire.
pub const OIL_BURN_TEMPERATURE: i16 = 280;

/// The heat that burning adds to oil.
pub const OIL_BURN_HEAT: i16 = 1000;

/// The velocity that catching fire adds to oil, one way or the other.
pub const OIL_KICK: i8 = 50;

pub fn oil() -> (e: Element)
    ensures
        e == spec_element(OIL_ID),
{
    ElementId(OIL_ID).get_element()
}

/// The cell after the oil below it has pushed its tile sideways by
/// `jiggle`: the tile is awake afterwards.
pub open spec fn nudged(cell: Option<Tile>, jiggle: int) -> Option<Tile> {
    match cell {
        Some(tile) => Some(
            tile.with_velocity(
                Vector { x: clamp_velocity(tile.velocity.x + jiggle), y: tile.velocity.y },
            ).with_paused(false),
        ),
        None => None,
    }
}

/// `temperature` raised by the heat of burning, held to the range of a
/// temperature.
pub open spec fn heated(temperature: i16) -> i16 {
    if temperature + OIL_BURN_HEAT > i16::MAX {
        i16::MAX
    } else {
        (temperature + OIL_BURN_HEAT) as i16
    }
}

/// Whether `kick` is a velocity that catching fire may add.
pub open spec fn is_kick(kick: int) -> bool {
    kick == OIL_KICK || kick == -OIL_KICK
}

/// Oil after a reaction tick. Above its burning temperature it is staged to
/// become clean fire, grows hotter, and is kicked by `kick` along the x
/// axis if `along_x`, else along the y axis.
pub open spec fn oil_after(tile: Tile, along_x: bool, kick: int) -> Tile {
    if tile.temperature > OIL_BURN_TEMPERATURE {
        Tile {
            temperature: heated(tile.temperature),
            velocity: if along_x {
                Vector { x: clamp_velocity(tile.velocity.x + kick), y: tile.velocity.y }
            } else {
                Vector { x: tile.velocity.x, y: clamp_velocity(tile.velocity.y + kick) }
            },
            ..tile.with_staged(ElementState::spec_new(ElementId(FIRE_ID), BURNS_CLEAN))
        }
    } else {
        tile
    }
}

/// One reaction tick of the oil itself, with the draws of chance given.
pub fn oil_step(this: Tile, along_x: bool, forward: bool) -> (out: Tile)
    ensures
        out == oil_after(
            this,
            along_x,
            if forward {
                OIL_KICK as int
            } else {
                -OIL_KICK as int
            },
        ),
{
    let mut this = this;
    if this.temperature > OIL_BURN_TEMPERATURE {
        this.edit_state(ElementId(FIRE_ID), BURNS_CLEAN);
        this.temperature = if this.temperature > i16::MAX - OIL_BURN_HEAT {
            i16::MAX
        } else {
            this.temperature + OIL_BURN_HEAT
        };
        let kick = if forward {
            OIL_KICK
        } else {
            -OIL_KICK
        };
        if along_x {
            this.velocity.x = saturating_add(this.velocity.x, kick);
        } else {
            this.velocity.y = saturating_add(this.velocity.y, kick);
        }
    }
    this
}

/// Whether a buffer of `len` cells holds the cell one row above `index`.
pub open spec fn has_above(index: int, len: int) -> bool {
    WORLD_WIDTH <= index < len + WORLD_WIDTH
}

/// The grid after oil at `index` has pushed the tile above it sideways by
/// `jiggle`.
pub open spec fn after_slide(cells: Cells, index: int, jiggle: int) -> Cells {
    if has_above(index, cells.len() as int) {
        cells.update(index - WORLD_WIDTH, nudged(cells[index - WORLD_WIDTH], jiggle))
    } else {
        cells
    }
}

/// The periodic reaction of oil: the tile above it, if there is one, slides
/// sideways by chance, and hot oil catches fire.
pub fn oil_reaction(this: Tile, mut view: NeighborhoodView<'_, Option<Tile>>) -> (out: Option<Tile>)
    ensures
        exists|jiggle: int, along_x: bool, kick: int|
            is_jiggle(jiggle) && is_kick(kick) && out == Some(#[trigger] oil_after(this, along_x, kick))
                && final(view.slice)@ == #[trigger] after_slide(view.cells(), view.index as int, jiggle),
{
    let ghost cells = view.cells();
    let ghost index = view.index as int;
    let mut jiggle: i8 = 0;
    if view.index >= WORLD_WIDTH as usize && view.index - (WORLD_WIDTH as usize) < view.slice.len() {
        let lifted = view.above();
        if let Some(tile) = lifted {
            // A tile on top of oil tries to slide off.
            jiggle = draw_jiggle();
            tile.velocity.x = saturating_add(tile.velocity.x, jiggle);
            tile.paused = false;
        }
    }
    let burns = this.temperature > OIL_BURN_TEMPERATURE;
    let along_x = burns && random_in_range(0, 2) == 0;
    let forward = burns && random_in_range(0, 2) == 0;
    let out = oil_step(this, along_x, forward);
    proof {
        let kick = if forward {
            OIL_KICK as int
        } else {
            -OIL_KICK as int
        };
        assert(is_kick(kick));
        assert(view.cells() =~= after_slide(cells, index, jiggle as int));
        assert(out == oil_after(this, along_x, kick));
    }
    Some(out)
}

} // verus!
