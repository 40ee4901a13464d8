//! Water and steam.

use vstd::prelude::*;
use crate::catalog::{spec_element, SNOW_ID, STEAM_ID, WATER_ID};
use crate::chance::random_in_range;
use crate::element::{Element, ElementId};
use crate::tile::{clamp_velocity, saturating_add, ElementState, Tile, Vector};
use crate::world_view::NeighborhoodView;

verus! {

/// Temperature above which water boils.
pub const BOILING_TEMPERATURE: i16 = 100;

/// Temperature below which water freezes.
pub const FREEZING_TEMPERATURE: i16 = 0;

/// Temperature below which steam condenses.
pub const CONDENSING_TEMPERATURE: i16 = 99;

/// The most that a jiggle adds to a velocity or takes from it.
pub const JIGGLE: i8 = 3;

pub fn water() -> (e: Element)
    ensures
        e == spec_element(WATER_ID),
{
    ElementId(WATER_ID).get_element()
}

pub fn steam() -> (e: Element)
    ensures
        e == spec_element(STEAM_ID),
{
    ElementId(STEAM_ID).get_element()
}

/// Whether `jiggle` is a push that chance may give.
pub open spec fn is_jiggle(jiggle: int) -> bool {
    -JIGGLE <= jiggle <= JIGGLE
}

/// Water after a reaction tick: too hot it is staged to become steam, too
/// cold to become snow; else it is pushed sideways by `jiggle`.
pub open spec fn water_after(tile: Tile, jiggle: int) -> Tile {
    if tile.temperature > BOILING_TEMPERATURE {
        tile.with_staged(ElementState::spec_new(ElementId(STEAM_ID), 1))
    } else if tile.temperature < FREEZING_TEMPERATURE {
        tile.with_staged(ElementState::spec_new(ElementId(SNOW_ID), 1))
    } else {
        tile.with_velocity(
            Vector { x: clamp_velocity(tile.velocity.x + jiggle), y: tile.velocity.y },
        )
    }
}

/// One reaction tick of water, with the draw of chance given.
pub fn water_step(this: Tile, jiggle: i8) -> (out: Tile)
    ensures
        out == water_after(this, jiggle as int),
{
    let mut this = this;
    if this.temperature > BOILING_TEMPERATURE {
        this.set_element(ElementId(STEAM_ID));
    } else if this.temperature < FREEZING_TEMPERATURE {
        this.set_element(ElementId(SNOW_ID));
    } else {
        // Water "jiggles" slightly.
        this.velocity.x = saturating_add(this.velocity.x, jiggle);
    }
    this
}

/// A push that chance gives: at most `JIGGLE` either way.
pub(crate) fn draw_jiggle() -> (jiggle: i8)
    ensures
        is_jiggle(jiggle as int),
{
    random_in_range(-(JIGGLE as i32), JIGGLE as i32 + 1) as i8
}

/// The periodic reaction of water. It leaves the grid alone.
pub fn water_reaction(this: Tile, view: NeighborhoodView<'_, Option<Tile>>) -> (out: Option<Tile>)
    ensures
        exists|jiggle: int| is_jiggle(jiggle) && out == Some(#[trigger] water_after(this, jiggle)),
        final(view.slice)@ == view.cells(),
{
    let jiggle = if this.temperature > BOILING_TEMPERATURE || this.temperature
        < FREEZING_TEMPERATURE {
        0
    } else {
        draw_jiggle()
    };
    Some(water_step(this, jiggle))
}

/// Whether steam is slow enough to be pushed.
pub open spec fn idles(tile: Tile) -> bool {
    -2 < tile.velocity.x < 2 && -2 < tile.velocity.y < 2
}

/// Steam after a reaction tick: too cold it is staged to become water; else,
/// if it idles, it is pushed by `jiggle_x` and `jiggle_y`.
pub open spec fn steam_after(tile: Tile, jiggle_x: int, jiggle_y: int) -> Tile {
    if tile.temperature < CONDENSING_TEMPERATURE {
        tile.with_staged(ElementState::spec_new(ElementId(WATER_ID), 1))
    } else if idles(tile) {
        tile.with_velocity(
            Vector {
                x: clamp_velocity(tile.velocity.x + jiggle_x),
                y: clamp_velocity(tile.velocity.y + jiggle_y),
            },
        )
    } else {
        tile
    }
}

/// One reaction tick of steam, with both draws of chance given.
pub fn steam_step(this: Tile, jiggle_x: i8, jiggle_y: i8) -> (out: Tile)
    ensures
        out == steam_after(this, jiggle_x as int, jiggle_y as int),
{
    let mut this = this;
    if this.temperature < CONDENSING_TEMPERATURE {
        this.set_element(ElementId(WATER_ID));
    } else if -2 < this.velocity.x && this.velocity.x < 2 && -2 < this.velocity.y
        && this.velocity.y < 2 {
        // Jiggle, to keep boiling water from staying still.
        this.velocity.x = saturating_add(this.velocity.x, jiggle_x);
        this.velocity.y = saturating_add(this.velocity.y, jiggle_y);
    }
    this
}

/// The periodic reaction of steam. It leaves the grid alone.
pub fn steam_reaction(this: Tile, view: NeighborhoodView<'_, Option<Tile>>) -> (out: Option<Tile>)
    ensures
        exists|jiggle_x: int, jiggle_y: int|
            is_jiggle(jiggle_x) && is_jiggle(jiggle_y) && out == Some(
                #[trigger] steam_after(this, jiggle_x, jiggle_y),
            ),
        final(view.slice)@ == view.cells(),
{
    let pushed = this.temperature >= CONDENSING_TEMPERATURE && -2 < this.velocity.x
        && this.velocity.x < 2 && -2 < this.velocity.y && this.velocity.y < 2;
    let jiggle_x = if pushed {
        draw_jiggle()
    } else {
        0
    };
    let jiggle_y = if pushed {
        draw_jiggle()
    } else {
        0
    };
    Some(steam_step(this, jiggle_x, jiggle_y))
}

} // verus!
