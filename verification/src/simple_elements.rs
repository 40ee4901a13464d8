//! The elements without reactions of their own, and sand.

use vstd::prelude::*;
use crate::catalog::{spec_element, DEFAULT_ID, FIRE_ID, ROCK_ID, SAND_ID, WALL_ID};
use crate::element::{Element, ElementId};
use crate::fire::MAKES_ASH;
use crate::tile::{ElementState, Tile};
use crate::world_view::NeighborhoodView;

verus! {

/// Temperature above which sand catches fire.
pub const SAND_BURN_TEMPERATURE: i16 = 100;

/// The descriptor that stands for every unlisted element.
pub fn element_default() -> (e: Element)
    ensures
        e == spec_element(DEFAULT_ID),
{
    ElementId(DEFAULT_ID).get_element()
}

pub fn sand() -> (e: Element)
    ensures
        e == spec_element(SAND_ID),
{
    ElementId(SAND_ID).get_element()
}

pub fn rock() -> (e: Element)
    ensures
        e == spec_element(ROCK_ID),
{
    ElementId(ROCK_ID).get_element()
}

pub fn wall() -> (e: Element)
    ensures
        e == spec_element(WALL_ID),
{
    ElementId(WALL_ID).get_element()
}

/// Sand after a reaction tick: above its burning temperature it is staged
/// to become fire that leaves ash, and is as hot as a fire.
pub open spec fn sand_after(tile: Tile) -> Tile {
    if tile.temperature > SAND_BURN_TEMPERATURE {
        Tile {
            temperature: 300,
            ..tile.with_staged(ElementState::spec_new(ElementId(FIRE_ID), MAKES_ASH))
        }
    } else {
        tile
    }
}

/// The periodic reaction of sand. It leaves the grid alone.
pub fn sand_reaction(this: Tile, view: NeighborhoodView<'_, Option<Tile>>) -> (out: Option<Tile>)
    ensures
        out == Some(sand_after(this)),
        final(view.slice)@ == view.cells(),
{
    let mut this = this;
    if this.temperature > SAND_BURN_TEMPERATURE {
        this.edit_state(ElementId(FIRE_ID), MAKES_ASH);
        this.temperature = 300;
    }
    Some(this)
}

} // verus!
