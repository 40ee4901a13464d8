//! Metal that carries charge, its melt, and the electron that charges it.

use vstd::prelude::*;
use crate::catalog::{
    spec_element, ELECTRON_ID, LIQUID_METAL_ID, METAL_ID, METAL_MELT_TEMPERATURE,
};
use crate::element::{Element, ElementId};
use crate::tile::{ElementState, Tile};
use crate::world::{spec_pair_key, Cells, World};
use crate::world_view::{CollisionView, NeighborhoodView};
use crate::spec_raw_neighbors;

verus! {

/// Info of metal without charge.
pub const NEUTRAL: u8 = 1;

/// Info of metal that a charge has just left.
pub const CHARGED_TAIL: u8 = 2;

/// Info of metal with a fresh charge. A charge weakens by one with each
/// cell it travels.
pub const CHARGED_HEAD: u8 = 255;

pub fn metal() -> (e: Element)
    ensures
        e == spec_element(METAL_ID),
{
    ElementId(METAL_ID).get_element()
}

pub fn liquid_metal() -> (e: Element)
    ensures
        e == spec_element(LIQUID_METAL_ID),
{
    ElementId(LIQUID_METAL_ID).get_element()
}

pub fn electron() -> (e: Element)
    ensures
        e == spec_element(ELECTRON_ID),
{
    ElementId(ELECTRON_ID).get_element()
}

impl Tile {
    /// Whether the tile is metal that carries a charge.
    pub open spec fn charged(&self) -> bool {
        self.id() == METAL_ID && self.info() > CHARGED_TAIL
    }

    pub fn is_charged_metal(&self) -> (charged: bool)
        ensures
            charged == self.charged(),
    {
        self.element_id() == METAL_ID && self.special_info() > CHARGED_TAIL
    }
}

/// Whether the cell holds charged metal.
pub open spec fn holds_charge(cell: Option<Tile>) -> bool {
    cell.is_some() && cell.unwrap().charged()
}

/// The number of charged cells among the first `k` cells around `index`.
pub open spec fn heads_around(cells: Cells, index: int, k: int) -> int
    decreases k,
{
    if k <= 0 {
        0
    } else {
        heads_around(cells, index, k - 1) + if holds_charge(
            cells[spec_raw_neighbors(index)[k - 1]],
        ) {
            1int
        } else {
            0int
        }
    }
}

/// The weakest charge, less one, among the first `k` cells around `index`;
/// 255 where none is charged.
pub open spec fn weakest_around(cells: Cells, index: int, k: int) -> int
    decreases k,
{
    if k <= 0 {
        255
    } else {
        let earlier = weakest_around(cells, index, k - 1);
        let cell = cells[spec_raw_neighbors(index)[k - 1]];
        if holds_charge(cell) && cell.unwrap().info() - 1 < earlier {
            cell.unwrap().info() - 1
        } else {
            earlier
        }
    }
}

/// Metal after a reaction tick, next to `heads` charged cells of which the
/// weakest, less one, is `weakest`.
///
/// Metal above its melting temperature is staged to melt. Then the charge
/// moves on, which replaces what was staged: a tail becomes neutral; a
/// charge becomes a tail; neutral metal next to one charge, or next to two
/// of which the weaker is more than a tail, takes the weakened charge.
pub open spec fn metal_after(tile: Tile, heads: int, weakest: int) -> Tile {
    let melting = if tile.temperature > METAL_MELT_TEMPERATURE {
        tile.with_staged(ElementState::spec_new(ElementId(LIQUID_METAL_ID), 1))
    } else {
        tile
    };
    if tile.info() == CHARGED_TAIL {
        melting.with_staged(ElementState::spec_new(ElementId(METAL_ID), NEUTRAL))
    } else if tile.info() == NEUTRAL {
        if heads == 1 || (heads == 2 && weakest > CHARGED_TAIL) {
            melting.with_staged(ElementState::spec_new(ElementId(METAL_ID), weakest as u8))
        } else {
            melting
        }
    } else {
        melting.with_staged(ElementState::spec_new(ElementId(METAL_ID), CHARGED_TAIL))
    }
}

/// The periodic reaction of metal. It reads the cells around the tile and
/// leaves the grid alone. At the edge of the buffer, where not all eight
/// cells exist, no charge is seen.
pub fn metal_reaction(this: Tile, view: NeighborhoodView<'_, Option<Tile>>) -> (out: Option<Tile>)
    ensures
        out == Some(
            if view.has_margin() && view.index + crate::WORLD_WIDTH + 1 <= i32::MAX {
                metal_after(
                    this,
                    heads_around(view.cells(), view.index as int, 8),
                    weakest_around(view.cells(), view.index as int, 8),
                )
            } else {
                metal_after(this, 0, 255)
            },
        ),
        final(view.slice)@ == view.cells(),
{
    let mut this = this;
    let info = this.special_info();
    if this.temperature > METAL_MELT_TEMPERATURE {
        this.set_element(ElementId(LIQUID_METAL_ID));
    }
    if info == CHARGED_TAIL {
        this.edit_state(ElementId(METAL_ID), NEUTRAL);
    } else if info == NEUTRAL {
        let mut adjacent_heads: u8 = 0;
        let mut min_charge: u8 = 255;
        if view.surrounded() {
            let around = view.neighbors();
            let mut k: usize = 0;
            while k < 8
                invariant
                    k <= 8,
                    around@.len() == 8,
                    view.has_margin(),
                    forall|j: int|
                        0 <= j < 8 ==> (#[trigger] around@[j]).0 == spec_raw_neighbors(
                            view.index as int,
                        )[j] && around@[j].0 < view.cells().len(),
                    adjacent_heads == heads_around(view.cells(), view.index as int, k as int),
                    min_charge == weakest_around(view.cells(), view.index as int, k as int),
                    adjacent_heads <= k,
                    2 <= min_charge,
                decreases 8 - k,
            {
                if let Some(tile) = view.index(around[k]) {
                    if tile.is_charged_metal() {
                        adjacent_heads += 1;
                        let charge = tile.special_info() - 1;
                        if charge < min_charge {
                            min_charge = charge;
                        }
                    }
                }
                k += 1;
            }
        }
        if adjacent_heads == 1 || (adjacent_heads == 2 && min_charge > CHARGED_TAIL) {
            this.edit_state(ElementId(METAL_ID), min_charge);
        }
    } else {
        this.edit_state(ElementId(METAL_ID), CHARGED_TAIL);
    }
    Some(this)
}

/// Liquid metal after a reaction tick: below its melting temperature it is
/// staged to set.
pub open spec fn liquid_metal_after(tile: Tile) -> Tile {
    if tile.temperature < METAL_MELT_TEMPERATURE - 1 {
        tile.with_staged(ElementState::spec_new(ElementId(METAL_ID), 1))
    } else {
        tile
    }
}

/// The periodic reaction of liquid metal. It leaves the grid alone.
pub fn liquid_metal_reaction(this: Tile, view: NeighborhoodView<'_, Option<Tile>>) -> (out: Option<Tile>)
    ensures
        out == Some(liquid_metal_after(this)),
        final(view.slice)@ == view.cells(),
{
    let mut this = this;
    if this.temperature < METAL_MELT_TEMPERATURE - 1 {
        this.set_element(ElementId(METAL_ID));
    }
    Some(this)
}

/// What an electron does to the metal that it hits: the metal is staged to
/// carry a fresh charge, and the electron is used up. The grid around
/// them stays as it is.
pub fn charge_metal(metal: Tile, electron: Tile, view: CollisionView<'_, Option<Tile>>) -> (out: (
    Option<Tile>,
    Option<Tile>,
))
    ensures
        out.0 == Some(metal.with_staged(ElementState::spec_new(ElementId(METAL_ID), CHARGED_HEAD))),
        out.1.is_none(),
        final(view.slice)@ == view.cells(),
{
    let mut metal = metal;
    metal.edit_state(ElementId(METAL_ID), CHARGED_HEAD);
    (Some(metal), None)
}

/// The electron's place in the catalog.
pub struct ElectronSetup;

impl ElectronSetup {
    /// Registers `charging` as the side effect of metal meeting an
    /// electron.
    pub fn register_reactions<
        R: Fn(Tile, Tile) -> (Option<Tile>, Option<Tile>),
        S: for <'a>Fn(Tile, Tile, CollisionView<'a, Option<Tile>>) -> (Option<Tile>, Option<Tile>),
    >(&self, world: &mut World<R, S>, charging: S)
        requires
            old(world).wf(),
            !old(world).side_effects().contains_key(spec_pair_key(METAL_ID, ELECTRON_ID)),
            forall|first: Tile, second: Tile, view: CollisionView<'_, Option<Tile>>|
                crate::world::shows_the_world(view) ==> call_requires(charging, (first, second, view)),
        ensures
            final(world).wf(),
            final(world).cells() == old(world).cells(),
            final(world).reactions() == old(world).reactions(),
            final(world).side_effects() == old(world).side_effects().insert(
                spec_pair_key(METAL_ID, ELECTRON_ID),
                charging,
            ),
            final(world).flag_reactions() == old(world).flag_reactions(),
    {
        world.register_collision_side_effect(&metal(), &electron(), charging);
    }

    pub fn build_element(&self) -> (e: Element)
        ensures
            e == spec_element(ELECTRON_ID),
    {
        electron()
    }

    pub fn get_id(&self) -> (id: ElementId)
        ensures
            id == ElementId(ELECTRON_ID),
    {
        ElementId(ELECTRON_ID)
    }
}

} // verus!
