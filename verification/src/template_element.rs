//! A pattern for a new element: an inert element without flags.

use vstd::prelude::*;
use crate::catalog::ROOM_TEMPERATURE;
use crate::element::{Element, ElementId, PeriodicReaction, NO_FLAGS};

verus! {

/// Identifier of the pattern element; a real element takes one of its own.
pub const YOUR_ELEMENT_ID: u8 = 0;

/// The descriptor of the pattern element.
pub open spec fn spec_your_element() -> Element {
    Element {
        flags: NO_FLAGS,
        mass: 10,
        id: YOUR_ELEMENT_ID,
        periodic_reaction: PeriodicReaction::Inert,
        default_temperature: ROOM_TEMPERATURE,
    }
}

pub fn your_element() -> (e: Element)
    ensures
        e == spec_your_element(),
{
    Element {
        flags: NO_FLAGS,
        mass: 10,
        id: YOUR_ELEMENT_ID,
        periodic_reaction: PeriodicReaction::Inert,
        default_temperature: ROOM_TEMPERATURE,
    }
}

/// The pattern element's place in the catalog. It has no reactions to
/// register.
pub struct YourElementSetup;

impl YourElementSetup {
    pub fn build_element(&self) -> (e: Element)
        ensures
            e == spec_your_element(),
    {
        your_element()
    }

    pub fn get_id(&self) -> (id: ElementId)
        ensures
            id == ElementId(YOUR_ELEMENT_ID),
    {
        ElementId(YOUR_ELEMENT_ID)
    }
}

} // verus!
