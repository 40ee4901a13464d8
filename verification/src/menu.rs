//! What is selected in the menu of pens: which pen, and how large.

use vstd::prelude::*;
use crate::catalog::spec_element;
use crate::element::ElementId;
use crate::pens::{DeletePen, ElementPen};

verus! {

/// The number of pen sizes on offer. The sizes are the radii 0, 1, 2, ...
pub const PEN_SIZE_COUNT: usize = 5;

/// What a pen of the menu does.
#[derive(Clone, Copy, Debug)]
pub enum PenEffect {
    DrawElement(ElementId),
    Delete,
}

/// A pen, ready to draw.
pub enum PenChoice {
    Element(ElementPen),
    Delete(DeletePen),
}

/// The pens of the menu and the selection among them.
pub struct MenuSelection {
    effects: Vec<PenEffect>,
    selected_pen_index: usize,
    selected_pen_size: usize,
}

/// The pen with the given effect and radius.
pub open spec fn pen_for(effect: PenEffect, radius: int) -> PenChoice {
    match effect {
        PenEffect::DrawElement(id) => PenChoice::Element(
            ElementPen { element: spec_element(id.0), radius: radius as i32 },
        ),
        PenEffect::Delete => PenChoice::Delete(DeletePen { radius: radius as i32 }),
    }
}

/// The effects of a menu for `elements`: a pen for each element, in order,
/// and the deleting pen at the end.
pub open spec fn effects_for(elements: Seq<ElementId>) -> Seq<PenEffect> {
    Seq::new(elements.len(), |i: int| PenEffect::DrawElement(elements[i])).push(PenEffect::Delete)
}

impl MenuSelection {
    /// The effects of the pens, in the order of their buttons.
    pub closed spec fn effects(&self) -> Seq<PenEffect> {
        self.effects@
    }

    /// The position of the selected pen.
    pub closed spec fn selected_pen(&self) -> int {
        self.selected_pen_index as int
    }

    /// The selected radius.
    pub closed spec fn selected_size(&self) -> int {
        self.selected_pen_size as int
    }

    /// The selection names a pen and a size that are on offer.
    #[verifier::type_invariant]
    pub closed spec fn wf(&self) -> bool {
        self.selected_pen_index < self.effects@.len() && self.selected_pen_size < PEN_SIZE_COUNT
    }

    /// The pen that is selected, in the selected size.
    pub open spec fn selected(&self) -> PenChoice {
        pen_for(self.effects()[self.selected_pen()], self.selected_size())
    }

    /// A menu with a pen for each of `elements` and the deleting pen at the
    /// end. The first pen and the smallest size are selected.
    pub fn new(elements: &Vec<ElementId>) -> (menu: MenuSelection)
        ensures
            menu.effects() == effects_for(elements@),
            menu.selected_pen() == 0,
            menu.selected_size() == 0,
    {
        let mut effects: Vec<PenEffect> = Vec::new();
        let mut i: usize = 0;
        while i < elements.len()
            invariant
                i <= elements@.len(),
                effects@ == Seq::new(i as nat, |k: int| PenEffect::DrawElement(elements@[k])),
            decreases elements@.len() - i,
        {
            effects.push(PenEffect::DrawElement(elements[i]));
            assert(effects@ =~= Seq::new((i + 1) as nat, |k: int| PenEffect::DrawElement(elements@[k])));
            i += 1;
        }
        // The deleting pen comes last.
        effects.push(PenEffect::Delete);
        MenuSelection { effects, selected_pen_index: 0, selected_pen_size: 0 }
    }

    /// The number of pens.
    pub fn pen_count(&self) -> (count: usize)
        ensures
            count == self.effects().len(),
            count > 0,
    {
        proof {
            use_type_invariant(self);
        }
        self.effects.len()
    }

    /// The position of the selected pen.
    pub fn selected_pen_index(&self) -> (index: usize)
        ensures
            index == self.selected_pen(),
            index < self.effects().len(),
    {
        proof {
            use_type_invariant(self);
        }
        self.selected_pen_index
    }

    /// The selected radius.
    pub fn selected_pen_size(&self) -> (size: usize)
        ensures
            size == self.selected_size(),
            size < PEN_SIZE_COUNT,
    {
        proof {
            use_type_invariant(self);
        }
        self.selected_pen_size
    }

    /// The effect of the pen with number `index`.
    pub fn effect_of(&self, index: usize) -> (effect: Option<PenEffect>)
        ensures
            effect == if index < self.effects().len() {
                Some(self.effects()[index as int])
            } else {
                None
            },
    {
        if index < self.effects.len() {
            Some(self.effects[index])
        } else {
            None
        }
    }

    /// Builds the selected pen in the selected size.
    pub fn build_pen(&self) -> (pen: PenChoice)
        ensures
            pen == self.selected(),
    {
        proof {
            use_type_invariant(self);
        }
        match self.effects[self.selected_pen_index] {
            PenEffect::DrawElement(id) => PenChoice::Element(
                ElementPen { element: id.get_element(), radius: self.selected_pen_size as i32 },
            ),
            PenEffect::Delete => PenChoice::Delete(
                DeletePen { radius: self.selected_pen_size as i32 },
            ),
        }
    }

    /// Takes a click on the button of the pen with number `index`: the pen
    /// is selected, and built in the selected size. A number without a pen
    /// changes nothing.
    pub fn click_pen(&mut self, index: usize) -> (pen: Option<PenChoice>)
        ensures
            final(self).effects() == old(self).effects(),
            final(self).selected_size() == old(self).selected_size(),
            index < old(self).effects().len() ==> final(self).selected_pen() == index && pen == Some(
                final(self).selected(),
            ),
            index >= old(self).effects().len() ==> final(self).selected_pen() == old(self).selected_pen()
                && pen.is_none(),
    {
        proof {
            use_type_invariant(&*self);
        }
        if index < self.effects.len() {
            self.selected_pen_index = index;
            Some(self.build_pen())
        } else {
            None
        }
    }

    /// Takes a click on the button of the size with number `index`: the
    /// size is selected, and the selected pen is built in it. A number
    /// without a size changes nothing.
    pub fn click_size(&mut self, index: usize) -> (pen: Option<PenChoice>)
        ensures
            final(self).effects() == old(self).effects(),
            final(self).selected_pen() == old(self).selected_pen(),
            index < PEN_SIZE_COUNT ==> final(self).selected_size() == index && pen == Some(
                final(self).selected(),
            ),
            index >= PEN_SIZE_COUNT ==> final(self).selected_size() == old(self).selected_size()
                && pen.is_none(),
    {
        proof {
            use_type_invariant(&*self);
        }
        if index < PEN_SIZE_COUNT {
            self.selected_pen_size = index;
            Some(self.build_pen())
        } else {
            None
        }
    }
}

} // verus!
