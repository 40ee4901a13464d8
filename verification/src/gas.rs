//! Gas, which explodes where it meets fire.

use vstd::prelude::*;
use crate::catalog::{spec_element, FIRE_ID, GAS_ID};
use crate::element::{Element, ElementId};
use crate::fire::fire;
use crate::tile::{clamp_velocity, saturating_add, ElementData, ElementState, Tile, Vector};
use crate::world::{mean_temperature, spec_pair_key, Cells, World};
use crate::world_view::CollisionView;
use crate::{has_margin, spec_raw_neighbors, WORLD_WIDTH};

verus! {

/// The velocity that an explosion adds straight along an axis.
pub const ADJ_VEL: i8 = 50;

/// The velocity that an explosion adds along each axis of a diagonal.
pub const DIAG_VEL: i8 = 35;

pub fn gas() -> (e: Element)
    ensures
        e == spec_element(GAS_ID),
{
    ElementId(GAS_ID).get_element()
}

/// The velocity that the explosion adds to the cell with number `k` around
/// it.
pub open spec fn explosion_vector(k: int) -> (i8, i8) {
    if k == 0 {
        ((-DIAG_VEL) as i8, (-DIAG_VEL) as i8)
    } else if k == 1 {
        (0i8, (-ADJ_VEL) as i8)
    } else if k == 2 {
        (DIAG_VEL, (-DIAG_VEL) as i8)
    } else if k == 3 {
        ((-ADJ_VEL) as i8, 0i8)
    } else if k == 4 {
        (ADJ_VEL, 0i8)
    } else if k == 5 {
        ((-DIAG_VEL) as i8, DIAG_VEL)
    } else if k == 6 {
        (0i8, ADJ_VEL)
    } else {
        (DIAG_VEL, DIAG_VEL)
    }
}

/// The velocity that the explosion adds to the cell with number `k`.
fn explosion_vector_at(k: usize) -> (delta: (i8, i8))
    requires
        k < 8,
    ensures
        delta == explosion_vector(k as int),
{
    if k == 0 {
        (-DIAG_VEL, -DIAG_VEL)
    } else if k == 1 {
        (0, -ADJ_VEL)
    } else if k == 2 {
        (DIAG_VEL, -DIAG_VEL)
    } else if k == 3 {
        (-ADJ_VEL, 0)
    } else if k == 4 {
        (ADJ_VEL, 0)
    } else if k == 5 {
        (-DIAG_VEL, DIAG_VEL)
    } else if k == 6 {
        (0, ADJ_VEL)
    } else {
        (DIAG_VEL, DIAG_VEL)
    }
}

/// A tile of fire at rest with the given temperature.
pub open spec fn flame(temperature: i16) -> Tile {
    Tile {
        paused: false,
        velocity: Vector { x: 0, y: 0 },
        position: Vector { x: 0, y: 0 },
        temperature,
        element_data: ElementData {
            current: ElementState::spec_new(ElementId(FIRE_ID), 1),
            staged: ElementState::spec_new(ElementId(FIRE_ID), 1),
        },
    }
}

/// The cell with number `k` around an explosion, afterwards: an empty cell
/// holds a flame of the given temperature; the tile is pushed sideways by
/// the explosion's vector, its downward velocity is its new sideways
/// velocity pushed by the vector, and it is awake.
pub open spec fn blasted(cell: Option<Tile>, k: int, temperature: i16) -> Option<Tile> {
    let tile = match cell {
        Some(existing) => existing,
        None => flame(temperature),
    };
    let pushed = clamp_velocity(tile.velocity.x + explosion_vector(k).0);
    Some(
        tile.with_velocity(
            Vector { x: pushed, y: clamp_velocity(pushed + explosion_vector(k).1) },
        ).with_paused(false),
    )
}

/// The grid after an explosion around `center`, which has a margin.
pub open spec fn after_explosion(cells: Cells, center: int, temperature: i16, k: int) -> Cells
    decreases k,
{
    if k <= 0 {
        cells
    } else {
        let earlier = after_explosion(cells, center, temperature, k - 1);
        earlier.update(
            spec_raw_neighbors(center)[k - 1],
            blasted(cells[spec_raw_neighbors(center)[k - 1]], k - 1, temperature),
        )
    }
}

/// What gas does where it meets fire: it explodes. Every cell around the
/// fire is blasted, and the gas is staged to become fire. Where the fire
/// lies at the edge of the buffer, so that not all eight cells around it
/// exist, the gas only turns into fire.
pub fn explode(gas: Tile, fire: Tile, mut view: CollisionView<'_, Option<Tile>>) -> (out: (
    Option<Tile>,
    Option<Tile>,
))
    ensures
        out.0 == Some(gas.with_staged(ElementState::spec_new(ElementId(FIRE_ID), 1))),
        out.1 == Some(fire),
        final(view.slice)@.len() == view.cells().len(),
        final(view.slice)@ == if has_margin(view.second_index as int, view.cells().len() as int)
            && view.second_index + WORLD_WIDTH + 1 <= i32::MAX {
            after_explosion(
                view.cells(),
                view.second_index as int,
                mean_temperature(gas.temperature, fire.temperature),
                8,
            )
        } else {
            view.cells()
        },
{
    let mut gas_after = gas;
    let ghost cells = view.cells();
    let ghost center = view.second_index as int;
    let temperature = ((gas.temperature as i32 + fire.temperature as i32) / 2) as i16;
    let mut hood = view.second();
    let ghost held = hood;
    if hood.surrounded() {
        let around = hood.neighbors();
        proof {
            crate::world_view::lemma_raw_neighbors_are_distinct_cells(center, cells.len() as int);
        }
        let mut k: usize = 0;
        while k < 8
            invariant
                k <= 8,
                around@.len() == 8,
                hood.index == center,
                hood.cells().len() == cells.len(),
                has_margin(center, cells.len() as int),
                temperature == mean_temperature(gas.temperature, fire.temperature),
                final(hood.slice)@ == final(held.slice)@,
                forall|j: int|
                    0 <= j < 8 ==> (#[trigger] around@[j]).0 == spec_raw_neighbors(center)[j]
                        && around@[j].0 < cells.len(),
                forall|j: int, i: int|
                    0 <= j < i < 8 ==> spec_raw_neighbors(center)[j] != spec_raw_neighbors(center)[i],
                hood.cells() == after_explosion(cells, center, temperature, k as int),
                forall|i: int|
                    k <= i < 8 ==> hood.cells()[spec_raw_neighbors(center)[i]]
                        == cells[spec_raw_neighbors(center)[i]],
            decreases 8 - k,
        {
            let delta_v = explosion_vector_at(k);
            let ghost before = hood.cells();
            let cell = hood.index_mut(around[k]);
            let mut new_tile = match *cell {
                Some(existing_tile) => existing_tile,
                None => Tile::new(
                    ElementState::default(ElementId(FIRE_ID)),
                    Vector { x: 0, y: 0 },
                    Vector { x: 0, y: 0 },
                    temperature,
                ),
            };
            new_tile.velocity.x = saturating_add(new_tile.velocity.x, delta_v.0);
            new_tile.velocity.y = saturating_add(new_tile.velocity.x, delta_v.1);
            new_tile.paused = false;
            *cell = Some(new_tile);
            proof {
                assert forall|i: int| k + 1 <= i < 8 implies hood.cells()[spec_raw_neighbors(
                    center,
                )[i]] == cells[spec_raw_neighbors(center)[i]] by {
                    assert(spec_raw_neighbors(center)[i] != spec_raw_neighbors(center)[k as int]);
                    assert(before[spec_raw_neighbors(center)[i]] == cells[spec_raw_neighbors(
                        center,
                    )[i]]);
                }
            }
            k += 1;
        }
    }
    gas_after.set_element(ElementId(FIRE_ID));
    (Some(gas_after), Some(fire))
}

/// Gas's place in the catalog.
pub struct GasSetup;

impl GasSetup {
    /// Registers `exploding` as the side effect of gas meeting fire.
    pub fn register_reactions<
        R: Fn(Tile, Tile) -> (Option<Tile>, Option<Tile>),
        S: for <'a>Fn(Tile, Tile, CollisionView<'a, Option<Tile>>) -> (Option<Tile>, Option<Tile>),
    >(&self, world: &mut World<R, S>, exploding: S)
        requires
            old(world).wf(),
            !old(world).side_effects().contains_key(spec_pair_key(GAS_ID, FIRE_ID)),
            forall|first: Tile, second: Tile, view: CollisionView<'_, Option<Tile>>|
                crate::world::shows_the_world(view) ==> call_requires(exploding, (first, second, view)),
        ensures
            final(world).wf(),
            final(world).cells() == old(world).cells(),
            final(world).reactions() == old(world).reactions(),
            final(world).side_effects() == old(world).side_effects().insert(
                spec_pair_key(GAS_ID, FIRE_ID),
                exploding,
            ),
            final(world).flag_reactions() == old(world).flag_reactions(),
    {
        world.register_collision_side_effect(&gas(), &fire(), exploding);
    }

    pub fn build_element(&self) -> (e: Element)
        ensures
            e == spec_element(GAS_ID),
    {
        gas()
    }

    pub fn get_id(&self) -> (id: ElementId)
        ensures
            id == ElementId(GAS_ID),
    {
        ElementId(GAS_ID)
    }
}

} // verus!
