//! What tiles do by themselves on a reaction tick.

use vstd::prelude::*;
use crate::catalog::spec_element;
use crate::conway::conway_reaction;
use crate::dirt::dirt_reaction;
use crate::element::{ElementId, PeriodicHook, PeriodicReaction};
use crate::eraser::eraser_reaction;
use crate::fire::fire_reaction;
use crate::glass::glass_reaction;
use crate::lava::lava_reaction;
use crate::metal::{liquid_metal_reaction, metal_reaction};
use crate::oil::oil_reaction;
use crate::simple_elements::sand_reaction;
use crate::chance::random_in_range;
use crate::tile::{ElementState, Tile};
use crate::world::{commit_cell, Cells};
use crate::water::{steam_reaction, water_reaction};
use crate::world_view::{is_around, NeighborhoodView};
use crate::WORLD_CELLS;

verus! {

/// Whether `after` shows readers the element and info that `before` shows:
/// whatever has changed is staged, and stays out of sight until the next
/// commit.
pub open spec fn keeps_visible_state(before: Tile, after: Tile) -> bool {
    after.element_data.current == before.element_data.current
}

/// Runs the named behaviour on `tile`, which lies at the cell that `view`
/// is centred on, and gives what replaces the tile. Each behaviour says in
/// its own contract what it returns and what it does to the grid.
///
/// Whatever the behaviour, it changes no cell but the eight around the
/// tile, and it leaves the visible element and info of every tile as they
/// were: a reaction never sees what another reaction of the same pass has
/// staged.
pub fn run_hook(hook: PeriodicHook, tile: Tile, view: NeighborhoodView<'_, Option<Tile>>) -> (out: Option<Tile>)
    ensures
        match hook {
            PeriodicHook::Sand => call_ensures(sand_reaction, (tile, view), out),
            PeriodicHook::Water => call_ensures(water_reaction, (tile, view), out),
            PeriodicHook::Steam => call_ensures(steam_reaction, (tile, view), out),
            PeriodicHook::Fire => call_ensures(fire_reaction, (tile, view), out),
            PeriodicHook::Glass => call_ensures(glass_reaction, (tile, view), out),
            PeriodicHook::Lava => call_ensures(lava_reaction, (tile, view), out),
            PeriodicHook::Metal => call_ensures(metal_reaction, (tile, view), out),
            PeriodicHook::LiquidMetal => call_ensures(liquid_metal_reaction, (tile, view), out),
            PeriodicHook::Oil => call_ensures(oil_reaction, (tile, view), out),
            PeriodicHook::Conway => call_ensures(conway_reaction, (tile, view), out),
            PeriodicHook::Dirt => call_ensures(dirt_reaction, (tile, view), out),
            PeriodicHook::Eraser => call_ensures(eraser_reaction, (tile, view), out),
        },
        final(view.slice)@.len() == view.cells().len(),
        forall|j: int|
            0 <= j < view.cells().len() && !is_around(view.index as int, j) ==> final(view.slice)@[j]
                == #[trigger] view.cells()[j],
        out.is_some() ==> keeps_visible_state(tile, out.unwrap()),
        forall|j: int|
            0 <= j < view.cells().len() && (#[trigger] view.cells()[j]).is_some() && final(view.slice)@[j].is_some() ==> keeps_visible_state(
                view.cells()[j].unwrap(),
                final(view.slice)@[j].unwrap(),
            ),
{
    proof {
        if crate::has_margin(view.index as int, view.cells().len() as int) {
            crate::world_view::lemma_raw_neighbors_are_distinct_cells(
                view.index as int,
                view.cells().len() as int,
            );
            assert(crate::spec_raw_neighbors(view.index as int)[3] == view.index - crate::WORLD_WIDTH);
        }
        if crate::oil::has_above(view.index as int, view.cells().len() as int) {
            assert(crate::spec_raw_neighbors(view.index as int)[3] == view.index - crate::WORLD_WIDTH);
            assert(is_around(view.index as int, view.index - crate::WORLD_WIDTH));
        }
    }
    match hook {
        PeriodicHook::Sand => sand_reaction(tile, view),
        PeriodicHook::Water => water_reaction(tile, view),
        PeriodicHook::Steam => steam_reaction(tile, view),
        PeriodicHook::Fire => fire_reaction(tile, view),
        PeriodicHook::Glass => glass_reaction(tile, view),
        PeriodicHook::Lava => lava_reaction(tile, view),
        PeriodicHook::Metal => metal_reaction(tile, view),
        PeriodicHook::LiquidMetal => liquid_metal_reaction(tile, view),
        PeriodicHook::Oil => oil_reaction(tile, view),
        PeriodicHook::Conway => conway_reaction(tile, view),
        PeriodicHook::Dirt => dirt_reaction(tile, view),
        PeriodicHook::Eraser => eraser_reaction(tile, view),
    }
}

/// The visible info of the tile plus one, saturating.
pub open spec fn next_info(tile: Tile) -> u8 {
    if tile.info() == u8::MAX {
        u8::MAX
    } else {
        (tile.info() + 1) as u8
    }
}

/// The tile with its staged state one tick older: its own element, and its
/// visible info plus one, saturating.
pub open spec fn aged(tile: Tile) -> Tile {
    tile.with_staged(ElementState::spec_new(ElementId(tile.element().id), next_info(tile)))
}

/// What a decaying tile becomes on a reaction tick on which chance drew
/// `roll`.
///
/// Only a roll of zero ages the tile. A tile whose info, so raised, reaches
/// the lifetime ends at once: it is staged to become a fresh tile of the
/// element it decays into, or it disappears.
pub open spec fn decayed(tile: Tile, reaction: PeriodicReaction, roll: int) -> Option<Tile> {
    match reaction {
        PeriodicReaction::DecayInto { element_id, lifetime, rarity } => if roll == 0 {
            if next_info(tile) == lifetime {
                Some(aged(tile).with_staged(ElementState::spec_new(element_id, 1)))
            } else {
                Some(aged(tile))
            }
        } else {
            Some(tile)
        },
        PeriodicReaction::DecayToNothing { lifetime, rarity } => if roll == 0 {
            if next_info(tile) == lifetime {
                None
            } else {
                Some(aged(tile))
            }
        } else {
            Some(tile)
        },
        _ => Some(tile),
    }
}

/// One reaction tick of a decaying tile, with the draw of chance given.
pub fn decay(tile: Tile, reaction: PeriodicReaction, roll: i32) -> (out: Option<Tile>)
    ensures
        out == decayed(tile, reaction, roll as int),
{
    match reaction {
        PeriodicReaction::DecayInto { element_id, lifetime, rarity } => {
            if roll == 0 {
                let mut new_tile = tile;
                let info = tile.special_info();
                let next: u8 = if info == u8::MAX {
                    u8::MAX
                } else {
                    info + 1
                };
                new_tile.edit_state(tile.get_element().id(), next);
                if next == lifetime {
                    new_tile.set_element(element_id);
                }
                Some(new_tile)
            } else {
                Some(tile)
            }
        },
        PeriodicReaction::DecayToNothing { lifetime, rarity } => {
            if roll == 0 {
                let mut new_tile = tile;
                let info = tile.special_info();
                let next: u8 = if info == u8::MAX {
                    u8::MAX
                } else {
                    info + 1
                };
                new_tile.edit_state(tile.get_element().id(), next);
                if next == lifetime {
                    None
                } else {
                    Some(new_tile)
                }
            } else {
                Some(tile)
            }
        },
        _ => Some(tile),
    }
}

/// The number of rolls among which a decaying element ages on one: its
/// rarity; 1 for an element that does not decay.
pub open spec fn rarity_of(reaction: PeriodicReaction) -> int {
    match reaction {
        PeriodicReaction::DecayInto { element_id, lifetime, rarity } => rarity as int,
        PeriodicReaction::DecayToNothing { lifetime, rarity } => rarity as int,
        _ => 1,
    }
}

/// Every element of the catalog that decays does so with a rarity above
/// zero.
pub proof fn lemma_catalog_rarities_are_positive(id: u8)
    ensures
        rarity_of(spec_element(id).periodic_reaction) > 0,
{
}

/// Whether the periodic reaction of the tile at `i` may turn the grid
/// `before` into the grid `after`.
///
/// No reaction changes a cell other than `i` and the eight around it, and
/// no tile that is there before and after shows another element or info.
/// An empty cell and an inert tile change nothing. A decaying tile is
/// replaced by what `decayed` says for some roll below its rarity. Of a
/// built-in behaviour no more is said here: what it returns and does to
/// the grid is for its own contract to say.
#[verifier::opaque]
pub open spec fn may_react(before: Cells, i: usize, after: Cells) -> bool {
    &&& after.len() == before.len()
    &&& forall|j: int|
        0 <= j < before.len() && j != i && !is_around(i as int, j) ==> after[j] == #[trigger] before[j]
    &&& forall|j: int|
        0 <= j < before.len() && (#[trigger] before[j]).is_some() && after[j].is_some()
            ==> keeps_visible_state(before[j].unwrap(), after[j].unwrap())
    &&& match before[i as int] {
        None => after == before,
        Some(tile) => match tile.element().periodic_reaction {
            PeriodicReaction::Inert => after == before,
            PeriodicReaction::Custom(hook) => true,
            _ => exists|roll: int|
                0 <= roll < rarity_of(tile.element().periodic_reaction) && after == before.update(
                    i as int,
                    #[trigger] decayed(tile, tile.element().periodic_reaction, roll),
                ),
        },
    }
}

/// Whether `grids` holds the grid `first` and after it one grid for each of
/// `count` steps.
pub open spec fn is_chain(grids: Seq<Cells>, first: Cells, count: int) -> bool {
    grids.len() == count + 1 && grids[0] == first
}

/// Whether the turn `k` is one of the `count` first turns of a pass.
pub open spec fn takes_turn(k: int, count: int) -> bool {
    0 <= k < count
}

/// The grid with the staged state of every tile made visible.
pub open spec fn committed_grid(cells: Cells) -> Cells {
    Seq::new(cells.len(), |i: int| commit_cell(cells[i]))
}

/// Whether the periodic reactions of the cells of `order`, one after the
/// other, may turn the grid `before` into the grid `after`: there is a grid
/// after each reaction that the reaction may have made of the one before
/// it.
pub open spec fn may_react_in_order(before: Cells, order: Seq<usize>, after: Cells) -> bool {
    exists|grids: Seq<Cells>|
        {
            &&& grids.len() == order.len() + 1
            &&& grids[0] == before
            &&& grids[order.len() as int] == after
            &&& forall|k: int|
                0 <= k < order.len() ==> may_react(#[trigger] grids[k], order[k], grids[k + 1])
        }
}

/// While reactions follow one another, a cell that holds a tile before
/// every turn shows before each turn the element and info that it showed
/// before the first: what a reaction reads of a neighbour is the state of
/// the neighbour from before the pass, whichever of the two took its turn
/// first.
pub proof fn lemma_reactions_read_the_state_before_the_pass(
    grids: Seq<Cells>,
    order: Seq<usize>,
    turn: int,
    cell: int,
)
    requires
        grids.len() == order.len() + 1,
        0 <= turn <= order.len(),
        forall|k: int| 0 <= k < order.len() ==> may_react(#[trigger] grids[k], order[k], grids[k + 1]),
        0 <= cell < grids[0].len(),
        forall|k: int| 0 <= k <= turn ==> (#[trigger] grids[k])[cell].is_some(),
    ensures
        keeps_visible_state(grids[0][cell].unwrap(), grids[turn][cell].unwrap()),
        grids[turn].len() == grids[0].len(),
    decreases turn,
{
    reveal(may_react);
    if turn > 0 {
        lemma_reactions_read_the_state_before_the_pass(grids, order, turn - 1, cell);
        assert(may_react(grids[turn - 1], order[turn - 1], grids[turn - 1 + 1]));
        assert(grids[turn - 1][cell].is_some());
        assert(grids[turn][cell].is_some());
    }
}

/// Whether a pass of periodic reactions over the `count` first cells, in
/// the order of their indices, may turn the grid `before` into the grid
/// `after`.
pub open spec fn may_react_in_turn(before: Cells, count: nat, after: Cells) -> bool {
    may_react_in_order(before, Seq::new(count, |i: int| i as usize), after)
}

/// Whether the periodic reactions of all tiles, followed by the commit, may
/// turn the grid `before` into the grid `after`.
pub open spec fn may_pass(before: Cells, after: Cells) -> bool {
    exists|reacted: Cells|
        may_react_in_turn(before, WORLD_CELLS as nat, reacted) && after == #[trigger] committed_grid(
            reacted,
        )
}


/// Runs the periodic reaction of the tile at `i` of the buffer, if there is
/// one.
///
/// An inert tile and an empty cell change nothing. A decaying tile is
/// replaced by what `decayed` says for some roll below its rarity. Any
/// other tile is replaced by what its behaviour gives, which may also
/// have changed the buffer through its view.
pub fn react_in(cells: &mut [Option<Tile>], i: usize)
    requires
        i < old(cells)@.len(),
    ensures
        may_react(old(cells)@, i, final(cells)@),
        match old(cells)@[i as int] {
            None => final(cells)@ == old(cells)@,
            Some(tile) => match tile.element().periodic_reaction {
                PeriodicReaction::Inert => final(cells)@ == old(cells)@,
                PeriodicReaction::Custom(hook) => exists|
                    view: NeighborhoodView<'_, Option<Tile>>,
                    out: Option<Tile>,
                |
                    view.cells() == old(cells)@ && view.index == i && call_ensures(
                        run_hook,
                        (hook, tile, view),
                        out,
                    ) && final(cells)@ == final(view.slice)@.update(i as int, out),
                _ => exists|roll: int|
                    0 <= roll < rarity_of(tile.element().periodic_reaction) && final(cells)@ == old(cells)@.update(
                        i as int,
                        #[trigger] decayed(tile, tile.element().periodic_reaction, roll),
                    ),
            },
        },
{
    reveal(may_react);
    let cell = cells[i];
    if let Some(tile) = cell {
        let reaction = tile.get_element().periodic_reaction;
        match reaction {
            PeriodicReaction::Custom(hook) => {
                let view = NeighborhoodView::new(cells, i);
                let ghost shown = view;
                let out = run_hook(hook, tile, view);
                cells[i] = out;
                assert(shown.cells() == old(cells)@ && shown.index == i && call_ensures(
                    run_hook,
                    (hook, tile, shown),
                    out,
                ) && cells@ == final(shown.slice)@.update(i as int, out));
            },
            PeriodicReaction::Inert => {},
            PeriodicReaction::DecayInto { element_id, lifetime, rarity } => {
                proof {
                    lemma_catalog_rarities_are_positive(tile.id());
                }
                let roll = random_in_range(0, rarity);
                cells[i] = decay(tile, reaction, roll);
                assert(cells@ == old(cells)@.update(i as int, decayed(tile, reaction, roll as int)));
            },
            PeriodicReaction::DecayToNothing { lifetime, rarity } => {
                proof {
                    lemma_catalog_rarities_are_positive(tile.id());
                }
                let roll = random_in_range(0, rarity);
                cells[i] = decay(tile, reaction, roll);
                assert(cells@ == old(cells)@.update(i as int, decayed(tile, reaction, roll as int)));
            },
        }
    }
}

} // verus!
