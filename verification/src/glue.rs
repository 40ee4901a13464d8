//! Glue, which sets where it touches anything fixed, and comes loose again
//! in time.

use vstd::prelude::*;
use crate::catalog::{spec_element, GLUE_ID, SOLID_GLUE_ID};
use crate::element::{Element, ElementId, FIXED};
use crate::tile::{ElementState, Tile, Vector};
use crate::world::World;
use crate::world_view::CollisionView;

verus! {

pub fn glue() -> (e: Element)
    ensures
        e == spec_element(GLUE_ID),
{
    ElementId(GLUE_ID).get_element()
}

pub fn solid_glue() -> (e: Element)
    ensures
        e == spec_element(SOLID_GLUE_ID),
{
    ElementId(SOLID_GLUE_ID).get_element()
}

/// What happens to glue that touches a fixed tile: it stops, and is staged
/// to set. The fixed tile stays as it is.
pub fn stick(glue_tile: Tile, fixed_tile: Tile) -> (out: (Option<Tile>, Option<Tile>))
    ensures
        out.0 == Some(
            glue_tile.with_velocity(Vector { x: 0, y: 0 }).with_staged(
                ElementState::spec_new(ElementId(SOLID_GLUE_ID), 1),
            ),
        ),
        out.1 == Some(fixed_tile),
{
    let mut glue_tile = glue_tile;
    glue_tile.velocity.x = 0;
    glue_tile.velocity.y = 0;
    glue_tile.set_element(ElementId(SOLID_GLUE_ID));
    (Some(glue_tile), Some(fixed_tile))
}

/// Glue's place in the catalog.
pub struct GlueSetup;

impl GlueSetup {
    /// Registers `sticking` as the reaction of glue with every fixed
    /// element.
    pub fn register_reactions<
        R: Fn(Tile, Tile) -> (Option<Tile>, Option<Tile>),
        S: for <'a>Fn(Tile, Tile, CollisionView<'a, Option<Tile>>) -> (Option<Tile>, Option<Tile>),
    >(&self, world: &mut World<R, S>, sticking: R)
        requires
            old(world).wf(),
            GLUE_ID < old(world).flag_reactions().rows().len(),
            forall|first: Tile, second: Tile| call_requires(sticking, (first, second)),
        ensures
            final(world).wf(),
            final(world).cells() == old(world).cells(),
            final(world).reactions() == old(world).reactions(),
            final(world).side_effects() == old(world).side_effects(),
            final(world).flag_reactions().rows().len() == old(world).flag_reactions().rows().len(),
            final(world).flag_reactions().rows()[GLUE_ID as int].entries() == old(world).flag_reactions().rows()[GLUE_ID as int].entries().push((FIXED, sticking)),
            final(world).flag_reactions().rows()[GLUE_ID as int].union_flags() == old(world).flag_reactions().rows()[GLUE_ID as int].union_flags() | FIXED,
            forall|k: int|
                0 <= k < old(world).flag_reactions().rows().len() && k != GLUE_ID
                    ==> final(world).flag_reactions().rows()[k] == old(world).flag_reactions().rows()[k],
    {
        world.register_flag_collision_reaction(&glue(), FIXED, sticking);
    }

    pub fn build_element(&self) -> (e: Element)
        ensures
            e == spec_element(GLUE_ID),
    {
        glue()
    }

    pub fn get_id(&self) -> (id: ElementId)
        ensures
            id == ElementId(GLUE_ID),
    {
        ElementId(GLUE_ID)
    }
}

} // verus!
