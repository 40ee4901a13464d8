//! The catalog of elements: one descriptor for each identifier.

use vstd::prelude::*;
use crate::element::{
    Element, ElementId, PeriodicHook, PeriodicReaction, FIXED, FLUID, GRAVITY, NO_FLAGS,
    PAUSE_EXEMPT, PERFECT_RESTITUTION,
};

verus! {

pub const WALL_ID: u8 = 0;
pub const ROCK_ID: u8 = 1;
pub const SAND_ID: u8 = 2;
pub const GAS_ID: u8 = 3;
pub const FIRE_ID: u8 = 4;
pub const ASH_ID: u8 = 5;
pub const WATER_ID: u8 = 6;
pub const METAL_ID: u8 = 7;
pub const ELECTRON_ID: u8 = 8;
pub const LAVA_ID: u8 = 9;
pub const GLASS_ID: u8 = 10;
pub const SNOW_ID: u8 = 11;
pub const OIL_ID: u8 = 12;
pub const CONWAY_ID: u8 = 13;
pub const SOLID_GLUE_ID: u8 = 14;
pub const GLUE_ID: u8 = 15;
pub const STEAM_ID: u8 = 16;
pub const LIQUID_METAL_ID: u8 = 17;
pub const DIRT_ID: u8 = 18;

/// Identifier of the descriptor that stands for every unlisted element.
pub const DEFAULT_ID: u8 = 255;

/// Number of elements that the catalog lists.
pub const ELEMENT_COUNT: usize = 19;

/// Temperature of a fresh tile unless its element says otherwise.
pub const ROOM_TEMPERATURE: i16 = 20;

/// Temperature above which metal melts.
pub const METAL_MELT_TEMPERATURE: i16 = 1500;

/// A descriptor with room temperature as its default.
pub open spec fn plain(id: u8, flags: u8, mass: i8, periodic_reaction: PeriodicReaction) -> Element {
    Element { flags, mass, id, periodic_reaction, default_temperature: ROOM_TEMPERATURE }
}

/// The descriptor of each identifier. An identifier that the catalog does
/// not list has the inert default descriptor: no flags, no mass.
pub open spec fn spec_element(id: u8) -> Element {
    if id == WALL_ID {
        plain(WALL_ID, FIXED, 127, PeriodicReaction::Inert)
    } else if id == ROCK_ID {
        plain(ROCK_ID, GRAVITY, 50, PeriodicReaction::Inert)
    } else if id == SAND_ID {
        plain(SAND_ID, GRAVITY, 10, PeriodicReaction::Custom(PeriodicHook::Sand))
    } else if id == GAS_ID {
        plain(GAS_ID, PAUSE_EXEMPT | PERFECT_RESTITUTION, 3, PeriodicReaction::Inert)
    } else if id == FIRE_ID {
        Element {
            flags: NO_FLAGS,
            mass: 3,
            id: FIRE_ID,
            periodic_reaction: PeriodicReaction::Custom(PeriodicHook::Fire),
            default_temperature: 500,
        }
    } else if id == ASH_ID {
        plain(ASH_ID, GRAVITY, 3, PeriodicReaction::Inert)
    } else if id == WATER_ID {
        plain(
            WATER_ID,
            GRAVITY | PAUSE_EXEMPT | FLUID,
            8,
            PeriodicReaction::Custom(PeriodicHook::Water),
        )
    } else if id == METAL_ID {
        plain(METAL_ID, FIXED, 10, PeriodicReaction::Custom(PeriodicHook::Metal))
    } else if id == ELECTRON_ID {
        Element {
            flags: PERFECT_RESTITUTION,
            mass: 2,
            id: ELECTRON_ID,
            periodic_reaction: PeriodicReaction::DecayToNothing { lifetime: 8, rarity: 8 },
            default_temperature: 300,
        }
    } else if id == LAVA_ID {
        Element {
            flags: GRAVITY | PAUSE_EXEMPT,
            mass: 50,
            id: LAVA_ID,
            periodic_reaction: PeriodicReaction::Custom(PeriodicHook::Lava),
            default_temperature: 1000,
        }
    } else if id == GLASS_ID {
        plain(GLASS_ID, FIXED, 10, PeriodicReaction::Custom(PeriodicHook::Glass))
    } else if id == SNOW_ID {
        plain(
            SNOW_ID,
            GRAVITY,
            10,
            PeriodicReaction::DecayInto {
                element_id: ElementId(WATER_ID),
                lifetime: 100,
                rarity: 255,
            },
        )
    } else if id == OIL_ID {
        plain(OIL_ID, GRAVITY, 20, PeriodicReaction::Custom(PeriodicHook::Oil))
    } else if id == CONWAY_ID {
        plain(CONWAY_ID, FIXED, 10, PeriodicReaction::Custom(PeriodicHook::Conway))
    } else if id == SOLID_GLUE_ID {
        plain(
            SOLID_GLUE_ID,
            FIXED,
            10,
            PeriodicReaction::DecayInto { element_id: ElementId(GLUE_ID), lifetime: 10, rarity: 100 },
        )
    } else if id == GLUE_ID {
        plain(GLUE_ID, GRAVITY | FLUID, 10, PeriodicReaction::Inert)
    } else if id == STEAM_ID {
        Element {
            flags: PAUSE_EXEMPT | PERFECT_RESTITUTION | FLUID,
            mass: 8,
            id: STEAM_ID,
            periodic_reaction: PeriodicReaction::Custom(PeriodicHook::Steam),
            default_temperature: 120,
        }
    } else if id == LIQUID_METAL_ID {
        Element {
            flags: FLUID | GRAVITY | PAUSE_EXEMPT,
            mass: 10,
            id: LIQUID_METAL_ID,
            periodic_reaction: PeriodicReaction::Custom(PeriodicHook::LiquidMetal),
            default_temperature: 1520,
        }
    } else if id == DIRT_ID {
        plain(DIRT_ID, GRAVITY, 10, PeriodicReaction::Custom(PeriodicHook::Dirt))
    } else {
        plain(DEFAULT_ID, NO_FLAGS, 0, PeriodicReaction::Inert)
    }
}

/// Builds a descriptor with room temperature as its default.
fn plain_element(id: u8, flags: u8, mass: i8, periodic_reaction: PeriodicReaction) -> (e: Element)
    ensures
        e == plain(id, flags, mass, periodic_reaction),
{
    Element { flags, mass, id, periodic_reaction, default_temperature: ROOM_TEMPERATURE }
}

impl ElementId {
    /// The descriptor of this element.
    pub fn get_element(self) -> (e: Element)
        ensures
            e == spec_element(self.0),
    {
        let id = self.0;
        if id == WALL_ID {
            plain_element(WALL_ID, FIXED, 127, PeriodicReaction::Inert)
        } else if id == ROCK_ID {
            plain_element(ROCK_ID, GRAVITY, 50, PeriodicReaction::Inert)
        } else if id == SAND_ID {
            plain_element(SAND_ID, GRAVITY, 10, PeriodicReaction::Custom(PeriodicHook::Sand))
        } else if id == GAS_ID {
            plain_element(GAS_ID, PAUSE_EXEMPT | PERFECT_RESTITUTION, 3, PeriodicReaction::Inert)
        } else if id == FIRE_ID {
            Element {
                flags: NO_FLAGS,
                mass: 3,
                id: FIRE_ID,
                periodic_reaction: PeriodicReaction::Custom(PeriodicHook::Fire),
                default_temperature: 500,
            }
        } else if id == ASH_ID {
            plain_element(ASH_ID, GRAVITY, 3, PeriodicReaction::Inert)
        } else if id == WATER_ID {
            plain_element(
                WATER_ID,
                GRAVITY | PAUSE_EXEMPT | FLUID,
                8,
                PeriodicReaction::Custom(PeriodicHook::Water),
            )
        } else if id == METAL_ID {
            plain_element(METAL_ID, FIXED, 10, PeriodicReaction::Custom(PeriodicHook::Metal))
        } else if id == ELECTRON_ID {
            Element {
                flags: PERFECT_RESTITUTION,
                mass: 2,
                id: ELECTRON_ID,
                periodic_reaction: PeriodicReaction::DecayToNothing { lifetime: 8, rarity: 8 },
                default_temperature: 300,
            }
        } else if id == LAVA_ID {
            Element {
                flags: GRAVITY | PAUSE_EXEMPT,
                mass: 50,
                id: LAVA_ID,
                periodic_reaction: PeriodicReaction::Custom(PeriodicHook::Lava),
                default_temperature: 1000,
            }
        } else if id == GLASS_ID {
            plain_element(GLASS_ID, FIXED, 10, PeriodicReaction::Custom(PeriodicHook::Glass))
        } else if id == SNOW_ID {
            plain_element(
                SNOW_ID,
                GRAVITY,
                10,
                PeriodicReaction::DecayInto {
                    element_id: ElementId(WATER_ID),
                    lifetime: 100,
                    rarity: 255,
                },
            )
        } else if id == OIL_ID {
            plain_element(OIL_ID, GRAVITY, 20, PeriodicReaction::Custom(PeriodicHook::Oil))
        } else if id == CONWAY_ID {
            plain_element(CONWAY_ID, FIXED, 10, PeriodicReaction::Custom(PeriodicHook::Conway))
        } else if id == SOLID_GLUE_ID {
            plain_element(
                SOLID_GLUE_ID,
                FIXED,
                10,
                PeriodicReaction::DecayInto {
                    element_id: ElementId(GLUE_ID),
                    lifetime: 10,
                    rarity: 100,
                },
            )
        } else if id == GLUE_ID {
            plain_element(GLUE_ID, GRAVITY | FLUID, 10, PeriodicReaction::Inert)
        } else if id == STEAM_ID {
            Element {
                flags: PAUSE_EXEMPT | PERFECT_RESTITUTION | FLUID,
                mass: 8,
                id: STEAM_ID,
                periodic_reaction: PeriodicReaction::Custom(PeriodicHook::Steam),
                default_temperature: 120,
            }
        } else if id == LIQUID_METAL_ID {
            Element {
                flags: FLUID | GRAVITY | PAUSE_EXEMPT,
                mass: 10,
                id: LIQUID_METAL_ID,
                periodic_reaction: PeriodicReaction::Custom(PeriodicHook::LiquidMetal),
                default_temperature: 1520,
            }
        } else if id == DIRT_ID {
            plain_element(DIRT_ID, GRAVITY, 10, PeriodicReaction::Custom(PeriodicHook::Dirt))
        } else {
            plain_element(DEFAULT_ID, NO_FLAGS, 0, PeriodicReaction::Inert)
        }
    }
}

/// The identifiers of the elements in the order of their places in the
/// menu.
pub open spec fn spec_setup_order() -> Seq<ElementId> {
    seq![
        ElementId(SAND_ID),
        ElementId(ROCK_ID),
        ElementId(WALL_ID),
        ElementId(WATER_ID),
        ElementId(ASH_ID),
        ElementId(METAL_ID),
        ElementId(GLASS_ID),
        ElementId(GAS_ID),
        ElementId(LAVA_ID),
        ElementId(ELECTRON_ID),
        ElementId(FIRE_ID),
        ElementId(SNOW_ID),
        ElementId(OIL_ID),
        ElementId(CONWAY_ID),
        ElementId(GLUE_ID),
        ElementId(SOLID_GLUE_ID),
        ElementId(STEAM_ID),
        ElementId(LIQUID_METAL_ID),
    ]
}

/// The identifiers of the elements in the order of their places in the
/// menu.
pub fn setup_order() -> (order: Vec<ElementId>)
    ensures
        order@ == spec_setup_order(),
{
    let mut order: Vec<ElementId> = Vec::new();
    order.push(ElementId(SAND_ID));
    order.push(ElementId(ROCK_ID));
    order.push(ElementId(WALL_ID));
    order.push(ElementId(WATER_ID));
    order.push(ElementId(ASH_ID));
    order.push(ElementId(METAL_ID));
    order.push(ElementId(GLASS_ID));
    order.push(ElementId(GAS_ID));
    order.push(ElementId(LAVA_ID));
    order.push(ElementId(ELECTRON_ID));
    order.push(ElementId(FIRE_ID));
    order.push(ElementId(SNOW_ID));
    order.push(ElementId(OIL_ID));
    order.push(ElementId(CONWAY_ID));
    order.push(ElementId(GLUE_ID));
    order.push(ElementId(SOLID_GLUE_ID));
    order.push(ElementId(STEAM_ID));
    order.push(ElementId(LIQUID_METAL_ID));
    assert(order@ =~= spec_setup_order());
    order
}

/// The descriptors of the listed elements, each at the position of its
/// identifier.
pub fn elements() -> (all: Vec<Element>)
    ensures
        all@.len() == ELEMENT_COUNT,
        forall|i: int| 0 <= i < ELEMENT_COUNT ==> #[trigger] all@[i] == spec_element(i as u8),
        forall|i: int| 0 <= i < ELEMENT_COUNT ==> (#[trigger] all@[i]).id == i,
{
    let mut all: Vec<Element> = Vec::new();
    let mut id: u8 = 0;
    while (id as usize) < ELEMENT_COUNT
        invariant
            id <= ELEMENT_COUNT,
            all@.len() == id,
            forall|i: int| 0 <= i < id ==> #[trigger] all@[i] == spec_element(i as u8),
            forall|i: int| 0 <= i < id ==> (#[trigger] all@[i]).id == i,
        decreases ELEMENT_COUNT - id,
    {
        all.push(ElementId(id).get_element());
        id += 1;
    }
    all
}

} // verus!
