//! The slide-out side menu: a clicked button toggles it between the
//! expanded position (flush with the window edge) and the retracted one
//! (shifted out by its full width).

use vstd::prelude::*;

use crate::rational::{fbounded, fint, fwf, Frac, Rat};

verus! {

/// Width of the menu panel in UI pixels; the retracted panel sits at
/// `-MENU_WIDTH`.
pub const MENU_WIDTH: i128 = 400;

/// What the user did to the menu button since the last tick.
#[derive(Clone, Copy, Debug, PartialEq, Eq, Structural)]
pub enum Interaction {
    Clicked,
    Hovered,
    NoInteraction,
}

/// Menu state: the logical expanded flag, the one-shot expand/retract
/// marks waiting to be applied, and the panel's x translation.
pub struct MenuState {
    expanded: bool,
    marked_expand: bool,
    marked_retract: bool,
    translation_x: Rat,
}

pub struct MenuStateV {
    pub expanded: bool,
    pub marked_expand: bool,
    pub marked_retract: bool,
    pub translation_x: Frac,
}

impl View for MenuState {
    type V = MenuStateV;

    closed spec fn view(&self) -> MenuStateV {
        MenuStateV {
            expanded: self.expanded,
            marked_expand: self.marked_expand,
            marked_retract: self.marked_retract,
            translation_x: self.translation_x@,
        }
    }
}

/// The marking step: only the last button interaction of the tick
/// counts; a click toggles the expanded flag and marks the matching
/// movement, anything else changes nothing.
pub open spec fn menu_mark_model(m: MenuStateV, interactions: Seq<Interaction>) -> MenuStateV {
    if interactions.len() > 0 && interactions.last() == Interaction::Clicked {
        if m.expanded {
            MenuStateV { expanded: false, marked_retract: true, ..m }
        } else {
            MenuStateV { expanded: true, marked_expand: true, ..m }
        }
    } else {
        m
    }
}

/// Applying a pending expand: the panel moves to the window edge, and
/// the mark is consumed so the move happens exactly once.
pub open spec fn expand_model(m: MenuStateV) -> MenuStateV {
    if m.marked_expand {
        MenuStateV { marked_expand: false, translation_x: fint(0), ..m }
    } else {
        m
    }
}

/// Applying a pending retract: the panel moves out by its width, once.
pub open spec fn retract_model(m: MenuStateV) -> MenuStateV {
    if m.marked_retract {
        MenuStateV { marked_retract: false, translation_x: fint(-(MENU_WIDTH as int)), ..m }
    } else {
        m
    }
}

/// One UI tick: marking, then both apply steps.
pub open spec fn menu_tick_model(m: MenuStateV, interactions: Seq<Interaction>) -> MenuStateV {
    retract_model(expand_model(menu_mark_model(m, interactions)))
}

/// A settled menu: no movement pending and the panel exactly where the
/// expanded flag says — flush with the edge when expanded, out by its
/// width when not.
pub open spec fn menu_settled(m: MenuStateV) -> bool {
    &&& !m.marked_expand
    &&& !m.marked_retract
    &&& m.translation_x == (if m.expanded {
        fint(0)
    } else {
        fint(-(MENU_WIDTH as int))
    })
}

/// The panel never lags the flag: a tick from a settled state — and
/// every tick leaves one — toggles and moves the panel together, so it
/// ends settled again whatever the interactions were.
pub proof fn lemma_menu_tick_settles(m: MenuStateV, interactions: Seq<Interaction>)
    requires
        menu_settled(m),
    ensures
        menu_settled(menu_tick_model(m, interactions)),
{
}

impl MenuState {
    pub open spec fn wf(&self) -> bool {
        fwf(self@.translation_x) && fbounded(self@.translation_x)
    }

    /// Initial state: retracted, with the retract move still pending, as
    /// the panel is spawned off screen.
    pub fn new() -> (r: MenuState)
        ensures
            r.wf(),
            r@ == (MenuStateV {
                expanded: false,
                marked_expand: false,
                marked_retract: true,
                translation_x: fint(-(MENU_WIDTH as int)),
            }),
    {
        MenuState {
            expanded: false,
            marked_expand: false,
            marked_retract: true,
            translation_x: Rat::from_int(-MENU_WIDTH),
        }
    }

    pub fn is_expanded(&self) -> (r: bool)
        ensures
            r == self@.expanded,
    {
        self.expanded
    }

    pub fn translation_x(&self) -> (r: Rat)
        ensures
            r@ == self@.translation_x,
    {
        self.translation_x
    }

    /// Mark the menu for expansion or retraction from the tick's button
    /// interactions: the last one is authoritative, and only a click
    /// does anything.
    pub fn mark_menu_expand_retract(&mut self, interactions: &Vec<Interaction>)
        requires
            old(self).wf(),
        ensures
            final(self).wf(),
            final(self)@ == menu_mark_model(old(self)@, interactions@),
    {
        if interactions.len() > 0 {
            let last = interactions[interactions.len() - 1];
            if last == Interaction::Clicked {
                if self.expanded {
                    self.marked_retract = true;
                } else {
                    self.marked_expand = true;
                }
                self.expanded = !self.expanded;
            }
        }
    }

    /// Apply a pending expand exactly once: the panel's x becomes 0.
    pub fn expand_menu(&mut self)
        requires
            old(self).wf(),
        ensures
            final(self).wf(),
            final(self)@ == expand_model(old(self)@),
    {
        if self.marked_expand {
            self.translation_x = Rat::from_int(0);
            self.marked_expand = false;
        }
    }

    /// Apply a pending retract exactly once: the panel's x becomes
    /// `-MENU_WIDTH`.
    pub fn retract_menu(&mut self)
        requires
            old(self).wf(),
        ensures
            final(self).wf(),
            final(self)@ == retract_model(old(self)@),
    {
        if self.marked_retract {
            self.translation_x = Rat::from_int(-MENU_WIDTH);
            self.marked_retract = false;
        }
    }

    /// One UI tick: marking, then both apply steps, in the pipeline
    /// order.
    pub fn menu_tick(&mut self, interactions: &Vec<Interaction>)
        requires
            old(self).wf(),
        ensures
            final(self).wf(),
            final(self)@ == menu_tick_model(old(self)@, interactions@),
    {
        self.mark_menu_expand_retract(interactions);
        self.expand_menu();
        self.retract_menu();
    }
}

} // verus!
