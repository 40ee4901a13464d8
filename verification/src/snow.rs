//! Snow, which melts in time and at once where fire touches it.

use vstd::prelude::*;
use crate::catalog::{spec_element, FIRE_ID, SNOW_ID, WATER_ID};
use crate::element::{Element, ElementId};
use crate::fire::fire;
use crate::tile::{ElementState, Tile};
use crate::world::{spec_pair_key, World};
use crate::world_view::CollisionView;

verus! {

pub fn snow() -> (e: Element)
    ensures
        e == spec_element(SNOW_ID),
{
    ElementId(SNOW_ID).get_element()
}

/// What fire does to snow that it touches: the snow is staged to become
/// water, and the fire burns on.
pub fn melt(fire: Tile, snow: Tile) -> (out: (Option<Tile>, Option<Tile>))
    ensures
        out.0 == Some(fire),
        out.1 == Some(snow.with_staged(ElementState::spec_new(ElementId(WATER_ID), 1))),
{
    let mut snow = snow;
    snow.set_element(ElementId(WATER_ID));
    (Some(fire), Some(snow))
}

/// Snow's place in the catalog.
pub struct SnowSetup;

impl SnowSetup {
    /// Registers `melting` as the reaction of fire with snow.
    pub fn register_reactions<
        R: Fn(Tile, Tile) -> (Option<Tile>, Option<Tile>),
        S: for <'a>Fn(Tile, Tile, CollisionView<'a, Option<Tile>>) -> (Option<Tile>, Option<Tile>),
    >(&self, world: &mut World<R, S>, melting: R)
        requires
            old(world).wf(),
            !old(world).reactions().contains_key(spec_pair_key(FIRE_ID, SNOW_ID)),
            forall|first: Tile, second: Tile| call_requires(melting, (first, second)),
        ensures
            final(world).wf(),
            final(world).cells() == old(world).cells(),
            final(world).reactions() == old(world).reactions().insert(
                spec_pair_key(FIRE_ID, SNOW_ID),
                melting,
            ),
            final(world).side_effects() == old(world).side_effects(),
            final(world).flag_reactions() == old(world).flag_reactions(),
    {
        world.register_collision_reaction(&fire(), &snow(), melting);
    }

    pub fn build_element(&self) -> (e: Element)
        ensures
            e == spec_element(SNOW_ID),
    {
        snow()
    }

    pub fn get_id(&self) -> (id: ElementId)
        ensures
            id == ElementId(SNOW_ID),
    {
        ElementId(SNOW_ID)
    }
}

} // verus!
