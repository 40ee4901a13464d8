//! Element descriptors: the shared, read-only facts about a kind of particle.

use vstd::prelude::*;

verus! {

/// Identifier of an element in the catalog.
#[derive(Clone, Copy, PartialEq, Eq, Debug, Structural)]
pub struct ElementId(pub u8);

/// A set of behaviour flags, one bit each.
pub type EFlag = u8;

pub const NO_FLAGS: EFlag = 0;

/// The tile falls under gravity.
pub const GRAVITY: EFlag = 1;

/// The tile never moves and never takes up velocity.
pub const FIXED: EFlag = 2;

/// The tile is never put to sleep.
pub const PAUSE_EXEMPT: EFlag = 4;

/// The tile bounces without losing speed.
pub const PERFECT_RESTITUTION: EFlag = 8;

/// The tile lets a colliding tile push through half of the time.
pub const FLUID: EFlag = 16;

/// Whether the flag set `flags` holds at least one bit of `flag`.
pub open spec fn flags_intersect(flags: EFlag, flag: EFlag) -> bool {
    flag & flags != 0
}

/// One byte of state whose meaning belongs to the element. It is never zero.
#[derive(Clone, Copy, PartialEq, Eq, Debug, Structural)]
pub struct SpecialElementInfo(u8);

impl View for SpecialElementInfo {
    type V = u8;

    closed spec fn view(&self) -> u8 {
        self.0
    }
}

impl SpecialElementInfo {
    #[verifier::type_invariant]
    pub closed spec fn is_set(self) -> bool {
        self.0 != 0
    }

    /// The info that holds `byte`.
    pub closed spec fn spec_new(byte: u8) -> SpecialElementInfo {
        SpecialElementInfo(byte)
    }

    /// The smallest info, which stands for "nothing recorded".
    pub fn none() -> (info: Self)
        ensures
            info@ == 1,
            info == Self::spec_new(1),
    {
        Self::new(1)
    }

    pub fn new(byte: u8) -> (info: Self)
        requires
            byte != 0,
        ensures
            info@ == byte,
            info == Self::spec_new(byte),
    {
        SpecialElementInfo(byte)
    }

    pub fn as_u8(self) -> (byte: u8)
        ensures
            byte == self@,
            byte != 0,
    {
        proof {
            use_type_invariant(&self);
        }
        self.0
    }

    /// Two infos are the same exactly when they hold the same byte.
    pub proof fn lemma_view_is_injective(a: SpecialElementInfo, b: SpecialElementInfo)
        ensures
            a@ == b@ <==> a == b,
    {
    }

    /// `spec_new` holds the byte it was given.
    pub proof fn lemma_spec_new_view(byte: u8)
        ensures
            Self::spec_new(byte)@ == byte,
            byte != 0 ==> Self::spec_new(byte).is_set(),
    {
    }
}

/// The built-in behaviours that an element can run on each reaction tick.
#[derive(Clone, Copy, PartialEq, Eq, Debug, Structural)]
pub enum PeriodicHook {
    Sand,
    Water,
    Steam,
    Fire,
    Glass,
    Lava,
    Metal,
    LiquidMetal,
    Oil,
    Conway,
    Dirt,
    Eraser,
}

/// What an element does to its own tile on a reaction tick.
#[derive(Clone, Copy, Debug)]
pub enum PeriodicReaction {
    /// Runs the named behaviour with access to the tile's neighbourhood.
    Custom(PeriodicHook),
    /// The element never changes by itself.
    Inert,
    /// One time in `rarity` the info grows by one; on reaching `lifetime`
    /// the tile turns into `element_id`.
    DecayInto { element_id: ElementId, lifetime: u8, rarity: i32 },
    /// One time in `rarity` the info grows by one; on reaching `lifetime`
    /// the tile disappears.
    DecayToNothing { lifetime: u8, rarity: i32 },
}

/// The descriptor that every tile of one element shares.
#[derive(Clone, Copy, Debug)]
pub struct Element {
    pub flags: EFlag,
    pub mass: i8,
    pub id: u8,
    pub periodic_reaction: PeriodicReaction,
    pub default_temperature: i16,
}

impl Element {
    pub fn has_flag(&self, flag: EFlag) -> (held: bool)
        ensures
            held == flags_intersect(self.flags, flag),
    {
        flag & self.flags != 0
    }

    pub fn id(&self) -> (id: ElementId)
        ensures
            id == ElementId(self.id),
    {
        ElementId(self.id)
    }
}

} // verus!
