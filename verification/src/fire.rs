//! Fire and ash.

use vstd::prelude::*;
use crate::catalog::{spec_element, ASH_ID, FIRE_ID, SAND_ID, STEAM_ID, WATER_ID};
use crate::chance::random_in_range;
use crate::element::{Element, ElementId};
use crate::simple_elements::sand;
use crate::tile::{ElementData, ElementState, Tile, Vector};
use crate::water::water;
use crate::world::{mean_temperature, spec_pair_key, World};
use crate::world_view::{is_around, is_step, CollisionView, NeighborhoodView};
use crate::{has_margin, spec_raw_neighbors, WORLD_WIDTH};

verus! {

/// Info of a fire that leaves nothing behind.
pub const BURNS_CLEAN: u8 = 1;

/// Info of a fire that leaves ash behind.
pub const MAKES_ASH: u8 = 2;

/// Info of a fire that leaves water behind.
pub const MAKES_WATER: u8 = 3;

/// Temperature below which a fire goes out.
pub const FIRE_DIES_TEMPERATURE: i16 = 300;

pub fn ash() -> (e: Element)
    ensures
        e == spec_element(ASH_ID),
{
    ElementId(ASH_ID).get_element()
}

pub fn fire() -> (e: Element)
    ensures
        e == spec_element(FIRE_ID),
{
    ElementId(FIRE_ID).get_element()
}

/// The residue that a fire is staged to become, by its info.
pub open spec fn fire_residue(tile: Tile) -> Tile {
    if tile.info() == MAKES_ASH {
        tile.with_staged(ElementState::spec_new(ElementId(ASH_ID), 1))
    } else if tile.info() == MAKES_WATER {
        tile.with_staged(ElementState::spec_new(ElementId(WATER_ID), 1))
    } else {
        tile
    }
}

/// Fire after a reaction tick. A fire that is too cold, or that chance puts
/// out, ends: it turns into its residue if `leaves_residue`, else it
/// disappears. Any other fire burns on.
pub open spec fn fire_after(tile: Tile, put_out: bool, leaves_residue: bool) -> Option<Tile> {
    if tile.temperature < FIRE_DIES_TEMPERATURE || put_out {
        if leaves_residue {
            Some(fire_residue(tile))
        } else {
            None
        }
    } else {
        Some(tile)
    }
}

/// One reaction tick of a fire, with both draws of chance given.
pub fn fire_step(this: Tile, put_out: bool, leaves_residue: bool) -> (out: Option<Tile>)
    ensures
        out == fire_after(this, put_out, leaves_residue),
{
    let mut this = this;
    if this.temperature < FIRE_DIES_TEMPERATURE || put_out {
        if leaves_residue {
            let info = this.special_info();
            if info == MAKES_ASH {
                this.set_element(ElementId(ASH_ID));
            } else if info == MAKES_WATER {
                this.set_element(ElementId(WATER_ID));
            }
            return Some(this);
        } else {
            return None;
        }
    }
    Some(this)
}

/// The periodic reaction of fire: chance puts out one hot fire in 200, and
/// one fire in three that ends leaves its residue. It leaves the grid alone.
pub fn fire_reaction(this: Tile, view: NeighborhoodView<'_, Option<Tile>>) -> (out: Option<Tile>)
    ensures
        exists|put_out: bool, leaves_residue: bool| out == fire_after(this, put_out, leaves_residue),
        final(view.slice)@ == view.cells(),
{
    let put_out = this.temperature >= FIRE_DIES_TEMPERATURE && random_in_range(0, 200) == 0;
    let leaves_residue = (this.temperature < FIRE_DIES_TEMPERATURE || put_out) && random_in_range(
        0,
        3,
    ) == 0;
    fire_step(this, put_out, leaves_residue)
}

/// The heat that fire adds to the sand that it sets alight.
pub const KINDLING_HEAT: i16 = 400;

/// `temperature` raised by the heat of kindling, held to the range of a
/// temperature.
pub open spec fn kindled_temperature(temperature: i16) -> i16 {
    if temperature + KINDLING_HEAT > i16::MAX {
        i16::MAX
    } else {
        (temperature + KINDLING_HEAT) as i16
    }
}

/// Sand that fire has set alight: hotter, and staged to become fire that
/// leaves ash.
pub open spec fn kindled(sand: Tile) -> Tile {
    Tile {
        temperature: kindled_temperature(sand.temperature),
        ..sand.with_staged(ElementState::spec_new(ElementId(FIRE_ID), MAKES_ASH))
    }
}

/// A fresh tile of fire with the given position, velocity and temperature.
pub open spec fn ember(position: Vector, velocity: Vector, temperature: i16) -> Tile {
    Tile {
        paused: false,
        velocity,
        position,
        temperature,
        element_data: ElementData {
            current: ElementState::spec_new(ElementId(FIRE_ID), 1),
            staged: ElementState::spec_new(ElementId(FIRE_ID), 1),
        },
    }
}

/// Whether `tile` is fire such as burning sand throws: anywhere in its
/// cell, slow, with the given temperature.
pub open spec fn is_ember(tile: Tile, temperature: i16) -> bool {
    exists|position: Vector, velocity: Vector|
        -126 <= position.x <= 126 && -126 <= position.y <= 126 && -10 <= velocity.x < 10 && -10
            <= velocity.y < 10 && tile == #[trigger] ember(position, velocity, temperature)
}

/// The cell after burning sand next to it has thrown fire: a tile stays as
/// it is, an empty cell holds fire.
pub open spec fn is_kindled(before: Option<Tile>, after: Option<Tile>, temperature: i16) -> bool {
    if before.is_some() {
        after == before
    } else {
        after.is_some() && is_ember(after.unwrap(), temperature)
    }
}

/// Puts fire of the given temperature into the cell if it is empty.
fn kindle(square: &mut Option<Tile>, temperature: i16)
    ensures
        is_kindled(*old(square), *final(square), temperature),
{
    if square.is_none() {
        let position = Vector {
            x: random_in_range(-126, 127) as i8,
            y: random_in_range(-126, 127) as i8,
        };
        let velocity = Vector {
            x: random_in_range(-10, 10) as i8,
            y: random_in_range(-10, 10) as i8,
        };
        let tile = Tile::new(ElementState::default(ElementId(FIRE_ID)), position, velocity, temperature);
        assert(tile == ember(position, velocity, temperature));
        *square = Some(tile);
    }
}

/// What fire does to the sand that it touches: the sand is set alight, and
/// every empty cell around the sand, but for the cell of the fire, is
/// filled with fire at the mean temperature of both. Where the sand lies at
/// the edge of the buffer, so that not all eight cells around it exist, no
/// fire is thrown.
pub fn burn_sand(sand: Tile, fire: Tile, mut view: CollisionView<'_, Option<Tile>>) -> (out: (
    Option<Tile>,
    Option<Tile>,
))
    ensures
        out.0 == Some(kindled(sand)),
        out.1 == Some(fire),
        final(view.slice)@.len() == view.cells().len(),
        forall|j: int|
            0 <= j < view.cells().len() ==> final(view.slice)@[j] == #[trigger] view.cells()[j]
                || (has_margin(view.first_index as int, view.cells().len() as int)
                && view.first_index + WORLD_WIDTH + 1 <= i32::MAX && is_around(
                view.first_index as int,
                j,
            ) && j != view.second_index && is_kindled(
                view.cells()[j],
                final(view.slice)@[j],
                mean_temperature(kindled_temperature(sand.temperature), fire.temperature),
            )),
        has_margin(view.first_index as int, view.cells().len() as int) && view.first_index
            + WORLD_WIDTH + 1 <= i32::MAX ==> forall|j: int|
            0 <= j < view.cells().len() && is_around(view.first_index as int, j) && j
                != view.second_index ==> is_kindled(
                #[trigger] view.cells()[j],
                final(view.slice)@[j],
                mean_temperature(kindled_temperature(sand.temperature), fire.temperature),
            ),
{
    let mut sand_after = sand;
    let ghost cells = view.cells();
    let ghost first = view.first_index as int;
    sand_after.temperature = if sand.temperature > i16::MAX - KINDLING_HEAT {
        i16::MAX
    } else {
        sand.temperature + KINDLING_HEAT
    };
    sand_after.edit_state(ElementId(FIRE_ID), MAKES_ASH);
    let temperature = ((sand_after.temperature as i32 + fire.temperature as i32) / 2) as i16;
    let inside = view.first().surrounded();
    assert(view.cells() == cells);
    assert(view.first_index == first);
    assert(temperature == mean_temperature(kindled_temperature(sand.temperature), fire.temperature));
    assert(inside == (has_margin(first, cells.len() as int) && first + WORLD_WIDTH + 1 <= i32::MAX));
    if inside {
        let throw = |square: &mut Option<Tile>|
            ensures
                is_kindled(*old(square), *final(square), temperature),
            {
                kindle(square, temperature)
            };
        view.for_neighbors_of_first(throw);
        proof {
            assert forall|j: int|
                0 <= j < cells.len() && is_around(first, j) && j != view.second_index implies is_kindled(
                #[trigger] cells[j],
                view.cells()[j],
                temperature,
            ) by {
                let k = choose|k: int|
                    0 <= k < spec_raw_neighbors(first).len() && spec_raw_neighbors(first)[k] == j;
                assert(is_step(k));
            }
            assert forall|j: int| 0 <= j < cells.len() implies view.cells()[j] == #[trigger] cells[j]
                || (is_around(first, j) && j != view.second_index && is_kindled(
                cells[j],
                view.cells()[j],
                temperature,
            )) by {
                if is_around(first, j) && j != view.second_index {
                } else {
                    assert(view.cells()[j] == cells[j]);
                }
            }
        }
    }
    (Some(sand_after), Some(fire))
}

/// What water does to the fire that it touches: a fire that leaves ash is
/// staged to become ash, one that leaves water to become steam, and any
/// other goes out. The water and the grid around them stay as they are.
pub open spec fn doused(fire: Tile) -> Option<Tile> {
    if fire.info() == MAKES_ASH {
        Some(fire.with_staged(ElementState::spec_new(ElementId(ASH_ID), 1)))
    } else if fire.info() == MAKES_WATER {
        Some(fire.with_staged(ElementState::spec_new(ElementId(STEAM_ID), 1)))
    } else {
        None
    }
}

/// The side effect of fire meeting water.
pub fn douse(fire: Tile, water: Tile, view: CollisionView<'_, Option<Tile>>) -> (out: (
    Option<Tile>,
    Option<Tile>,
))
    ensures
        out.0 == doused(fire),
        out.1 == Some(water),
        final(view.slice)@ == view.cells(),
{
    let mut fire = fire;
    if fire.special_info() == MAKES_ASH {
        fire.set_element(ElementId(ASH_ID));
        (Some(fire), Some(water))
    } else if fire.special_info() == MAKES_WATER {
        fire.set_element(ElementId(STEAM_ID));
        (Some(fire), Some(water))
    } else {
        (None, Some(water))
    }
}

/// Fire's place in the catalog.
pub struct FireElementSetup;

impl FireElementSetup {
    /// Registers `burning` as the side effect of sand meeting fire, and
    /// `dousing` as the side effect of fire meeting water.
    pub fn register_reactions<
        R: Fn(Tile, Tile) -> (Option<Tile>, Option<Tile>),
        S: for <'a>Fn(Tile, Tile, CollisionView<'a, Option<Tile>>) -> (Option<Tile>, Option<Tile>),
    >(&self, world: &mut World<R, S>, burning: S, dousing: S)
        requires
            old(world).wf(),
            !old(world).side_effects().contains_key(spec_pair_key(SAND_ID, FIRE_ID)),
            !old(world).side_effects().contains_key(spec_pair_key(FIRE_ID, WATER_ID)),
            forall|first: Tile, second: Tile, view: CollisionView<'_, Option<Tile>>|
                crate::world::shows_the_world(view) ==> call_requires(burning, (first, second, view)),
            forall|first: Tile, second: Tile, view: CollisionView<'_, Option<Tile>>|
                crate::world::shows_the_world(view) ==> call_requires(dousing, (first, second, view)),
        ensures
            final(world).wf(),
            final(world).cells() == old(world).cells(),
            final(world).reactions() == old(world).reactions(),
            final(world).side_effects() == old(world).side_effects().insert(
                spec_pair_key(SAND_ID, FIRE_ID),
                burning,
            ).insert(spec_pair_key(FIRE_ID, WATER_ID), dousing),
            final(world).flag_reactions() == old(world).flag_reactions(),
    {
        // Fire burns sand.
        world.register_collision_side_effect(&sand(), &fire(), burning);
        world.register_collision_side_effect(&fire(), &water(), dousing);
    }

    pub fn build_element(&self) -> (e: Element)
        ensures
            e == spec_element(FIRE_ID),
    {
        fire()
    }

    pub fn get_id(&self) -> (id: ElementId)
        ensures
            id == ElementId(FIRE_ID),
    {
        ElementId(FIRE_ID)
    }
}

} // verus!
