//! Sand's place in the catalog.

use vstd::prelude::*;
use crate::catalog::{spec_element, SAND_ID};
use crate::element::{Element, ElementId};
use crate::simple_elements::sand;

verus! {

/// Sand has no reactions to register.
pub struct SandSetup;

impl SandSetup {
    pub fn build_element(&self) -> (e: Element)
        ensures
            e == spec_element(SAND_ID),
    {
        sand()
    }

    pub fn get_id(&self) -> (id: ElementId)
        ensures
            id == ElementId(SAND_ID),
    {
        ElementId(SAND_ID)
    }
}

} // verus!
