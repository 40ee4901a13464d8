//! The element and info of a tile, kept twice: the state that readers see and
//! the state that writers prepare.

use vstd::prelude::*;
use crate::element::{ElementId, SpecialElementInfo};

verus! {

/// What a tile is made of, and its one byte of element-owned state.
#[derive(Clone, Copy, Eq, PartialEq, Debug, Structural)]
pub struct ElementState {
    pub element_id: ElementId,
    pub special_info: SpecialElementInfo,
}

impl ElementState {
    /// The state with the given element and info byte.
    pub open spec fn spec_new(element_id: ElementId, special_info: u8) -> ElementState {
        ElementState { element_id, special_info: SpecialElementInfo::spec_new(special_info) }
    }

    /// The state of a fresh tile of `element_id`: nothing recorded.
    pub fn default(element_id: ElementId) -> (state: ElementState)
        ensures
            state == Self::spec_new(element_id, 1),
            state.special_info@ == 1,
    {
        ElementState { element_id, special_info: SpecialElementInfo::none() }
    }

    pub fn new(element_id: ElementId, special_info: u8) -> (state: ElementState)
        requires
            special_info != 0,
        ensures
            state == Self::spec_new(element_id, special_info),
            state.special_info@ == special_info,
    {
        ElementState { element_id, special_info: SpecialElementInfo::new(special_info) }
    }
}

/// `value` held to the range of an info byte, 1 to 255.
pub open spec fn clamp_info(value: int) -> u8 {
    if value > 255 {
        255u8
    } else if value < 1 {
        1u8
    } else {
        value as u8
    }
}

/// The visible state of a tile and the state staged to replace it.
///
/// Readers see `current`. Writers change `staged`. `commit` publishes the
/// staged state, so a write becomes visible only after the next commit.
#[derive(Clone, Copy, PartialEq, Eq, Debug, Structural)]
pub struct ElementData {
    pub current: ElementState,
    pub staged: ElementState,
}

impl ElementData {
    pub fn new(state: ElementState) -> (data: ElementData)
        ensures
            data.current == state,
            data.staged == state,
    {
        ElementData { current: state, staged: state }
    }

    /// The element that readers see.
    pub fn element_id(&self) -> (id: ElementId)
        ensures
            id == self.current.element_id,
    {
        self.current.element_id
    }

    /// Adds `delta` to the staged info, holding the result to 1..=255.
    pub fn adjust(&mut self, delta: i16)
        ensures
            final(self).current == old(self).current,
            final(self).staged == ElementState::spec_new(
                old(self).staged.element_id,
                clamp_info(old(self).staged.special_info@ + delta),
            ),
    {
        let old_info: i32 = self.staged.special_info.as_u8() as i32;
        let raised: i32 = old_info + delta as i32;
        let new_info: u8 = if raised > 255 {
            255u8
        } else if raised < 1 {
            1u8
        } else {
            raised as u8
        };
        self.stage(ElementState::new(self.staged.element_id, new_info))
    }

    /// The state that readers see.
    pub fn as_ref(&self) -> (state: &ElementState)
        ensures
            *state == self.current,
    {
        &self.current
    }

    /// Replaces the staged state. The visible state stays as it is.
    pub fn stage(&mut self, element_state: ElementState)
        ensures
            final(self).current == old(self).current,
            final(self).staged == element_state,
    {
        self.staged = element_state;
    }

    /// Publishes the staged state.
    pub fn commit(&mut self)
        ensures
            final(self).current == old(self).staged,
            final(self).staged == old(self).staged,
    {
        self.current = self.staged;
    }
}

} // verus!
