//! The per-tick pipeline: all interaction state in one context value,
//! ticked in the fixed order input ingestion (pointer tracking), then
//! logic (attachment, then zoom), with the menu ticked alongside.

use vstd::prelude::*;

use crate::menu::{menu_tick_model, Interaction, MenuState};
use crate::pointer::{
    events_ok, has_move, held_fold, pos_fold, Camera, InputEvent, PointerState, PreconditionError,
    Viewport,
};
use crate::rational::{fbounded, fle, Rat};
use crate::registry::{attachment_model, mark_model, moving_model, DraggableRegistry, RegistryV};
use crate::zoom::{lemma_zooming_scroll_free, scroll_free, zooming_model};

verus! {

/// Release freezes the scene through the whole pipeline: a tick whose
/// pointer state ends with the button up and whose events hold no
/// scrolls leaves every object's transform untouched, however the
/// pointer moved; it also drops any follow relationship.
pub proof fn lemma_released_tick_freezes_scene(
    reg: RegistryV,
    ptr: crate::pointer::PointerStateV,
    evs: Seq<crate::pointer::InputEvent>,
)
    requires
        !ptr.held,
        scroll_free(evs),
    ensures
        zooming_model(attachment_model(reg, ptr), ptr, evs).objects == reg.objects,
        zooming_model(attachment_model(reg, ptr), ptr, evs).grab is None,
{
    assert(mark_model(reg, ptr) == (RegistryV { grab: None, ..reg }));
    assert(moving_model(mark_model(reg, ptr), ptr) == mark_model(reg, ptr));
    lemma_zooming_scroll_free(attachment_model(reg, ptr), ptr, evs);
}

/// Everything the interaction core owns, created at startup and ticked
/// once per frame for the session's lifetime.
pub struct InteractionContext {
    pub pointer: PointerState,
    pub registry: DraggableRegistry,
    pub menu: MenuState,
}

impl InteractionContext {
    pub open spec fn wf(&self) -> bool {
        self.pointer.wf() && self.registry.wf() && self.menu.wf()
    }

    /// A fresh context with the given zoom bounds: pointer at the
    /// origin and up, no objects, menu retracted.
    pub fn new(min_scale: Rat, max_scale: Rat) -> (r: InteractionContext)
        requires
            fbounded(min_scale@),
            fbounded(max_scale@),
            min_scale@.n >= 1,
            fle(min_scale@, max_scale@),
        ensures
            r.wf(),
            r.pointer@.held == false,
            r.registry@.objects.len() == 0,
            r.registry@.grab is None,
            r.registry@.min_scale == min_scale@,
            r.registry@.max_scale == max_scale@,
    {
        InteractionContext {
            pointer: PointerState::new(),
            registry: DraggableRegistry::new(min_scale, max_scale),
            menu: MenuState::new(),
        }
    }

    /// A fresh context with the reference zoom bounds 0.2 and 4.
    pub fn with_reference_bounds() -> (r: InteractionContext)
        ensures
            r.wf(),
            r.pointer@.held == false,
            r.registry@.objects.len() == 0,
            r.registry@.grab is None,
            r.registry@.min_scale == (crate::rational::Frac { n: 1, d: 5 }),
            r.registry@.max_scale == (crate::rational::Frac { n: 4, d: 1 }),
    {
        InteractionContext {
            pointer: PointerState::new(),
            registry: DraggableRegistry::with_reference_bounds(),
            menu: MenuState::new(),
        }
    }

    /// One frame: the pointer tracker consumes the events, then the
    /// attachment controller and the zoom controller run against the
    /// fresh pointer state, then the menu takes its interactions.  A
    /// move event with no camera is the fatal precondition violation and
    /// stops the tick.
    pub fn tick(
        &mut self,
        events: &Vec<InputEvent>,
        interactions: &Vec<Interaction>,
        cam: Option<&Camera>,
        window: &Viewport,
    ) -> (r: Result<(), PreconditionError>)
        requires
            old(self).wf(),
            events_ok(events@),
            window.bounded(),
            cam matches Some(c) ==> c.bounded(),
        ensures
            final(self).wf(),
            final(self).pointer@.held == held_fold(old(self).pointer@.held, events@),
            (match cam {
                Some(c) => r is Ok && final(self).pointer@.position == pos_fold(
                    old(self).pointer@.position,
                    events@,
                    c@,
                    window@,
                ),
                None => final(self).pointer@.position == old(self).pointer@.position && (r is Err
                    <==> has_move(events@)),
            }),
            r is Ok ==> final(self).registry@ == zooming_model(
                attachment_model(old(self).registry@, final(self).pointer@),
                final(self).pointer@,
                events@,
            ),
            r is Ok ==> final(self).menu@ == menu_tick_model(old(self).menu@, interactions@),
            r is Err ==> final(self).registry@ == old(self).registry@ && final(self).menu@ == old(
                self,
            ).menu@,
    {
        let res = self.pointer.change_cursor_state(events, cam, window);
        match res {
            Err(e) => Err(e),
            Ok(()) => {
                self.registry.attachment_tick(&self.pointer);
                self.registry.zooming(events, &self.pointer);
                self.menu.menu_tick(interactions);
                Ok(())
            },
        }
    }
}

} // verus!
