//! The draggable-object registry and the attachment controller.
//!
//! Scene objects carry explicit `movable` / `zoomable` tags and a
//! transform; at most one object follows the pointer at a time, recorded
//! as the grabbed index together with the offset captured when the grab
//! started.  `mark_moving_status` drives the at-rest/following
//! transitions on the held flag's edges, and `moving` keeps the followed
//! object tracking the pointer one to one.

use vstd::prelude::*;

use crate::pointer::{event_ok, events_ok, InputEvent, PointerState, PointerStateV};
use crate::rational::{fadd, fbounded, fle, fsub, fwf, Frac, Rat};
use crate::vec2::{f2add, f2bounded, f2eqv, f2reduce, f2store, f2sub, f2wf, Frac2, Vec2r};
use crate::zoom::{zoom_events_model, zoom_object_model, zoom_step, zooming_model};

verus! {

/// One scene object: its tags and its transform.
#[derive(Clone, Copy, Debug)]
pub struct SceneObject {
    pub(crate) movable: bool,
    pub(crate) zoomable: bool,
    pub(crate) translation: Vec2r,
    pub(crate) scale: Rat,
}

/// Mathematical image of a scene object.
pub struct SceneObjectV {
    pub movable: bool,
    pub zoomable: bool,
    pub translation: Frac2,
    pub scale: Frac,
}

impl View for SceneObject {
    type V = SceneObjectV;

    closed spec fn view(&self) -> SceneObjectV {
        SceneObjectV {
            movable: self.movable,
            zoomable: self.zoomable,
            translation: self.translation@,
            scale: self.scale@,
        }
    }
}

/// A stored object: transform bounded, scale nonnegative, and a zoomable
/// scale already inside the registry's zoom bounds.
pub open spec fn object_wf(o: SceneObjectV, min_scale: Frac, max_scale: Frac) -> bool {
    &&& f2wf(o.translation)
    &&& f2bounded(o.translation)
    &&& fwf(o.scale)
    &&& fbounded(o.scale)
    &&& o.scale.n >= 0
    &&& (o.zoomable ==> fle(min_scale, o.scale) && fle(o.scale, max_scale))
}

/// The registry of scene objects, with the zoom bounds they obey and the
/// object currently following the pointer, if any, together with the
/// world-space offset captured when it was grabbed.
pub struct DraggableRegistry {
    pub(crate) objects: Vec<SceneObject>,
    pub(crate) grab: Option<(usize, Vec2r)>,
    pub(crate) min_scale: Rat,
    pub(crate) max_scale: Rat,
}

/// Mathematical image of the registry.
pub struct RegistryV {
    pub objects: Seq<SceneObjectV>,
    pub grab: Option<(int, Frac2)>,
    pub min_scale: Frac,
    pub max_scale: Frac,
}

impl View for DraggableRegistry {
    type V = RegistryV;

    closed spec fn view(&self) -> RegistryV {
        RegistryV {
            objects: self.objects@.map_values(|o: SceneObject| o@),
            grab: match self.grab {
                Some((k, off)) => Some((k as int, off@)),
                None => None,
            },
            min_scale: self.min_scale@,
            max_scale: self.max_scale@,
        }
    }
}

/// Registry invariant: bounds are positive and ordered, every object is
/// stored well, and a grab points at a movable object with a stored
/// offset.
pub open spec fn registry_wf(r: RegistryV) -> bool {
    &&& fbounded(r.min_scale)
    &&& fbounded(r.max_scale)
    &&& r.min_scale.n >= 1
    &&& fle(r.min_scale, r.max_scale)
    &&& (forall|i: int|
        0 <= i < r.objects.len() ==> object_wf(#[trigger] r.objects[i], r.min_scale, r.max_scale))
    &&& (r.grab matches Some((k, off)) ==> 0 <= k < r.objects.len() && r.objects[k].movable
        && f2wf(off) && f2bounded(off))
}

/// Index of the first movable object, in creation order — the
/// deterministic selection rule when a drag starts.
pub open spec fn first_movable(s: Seq<SceneObjectV>) -> Option<int>
    decreases s.len(),
{
    if s.len() == 0 {
        None
    } else if s[0].movable {
        Some(0)
    } else {
        match first_movable(s.drop_first()) {
            Some(j) => Some(j + 1),
            None => None,
        }
    }
}

/// `first_movable` finds exactly the least movable index.
pub proof fn lemma_first_movable_at(s: Seq<SceneObjectV>, i: int)
    requires
        0 <= i < s.len(),
        s[i].movable,
        forall|j: int| 0 <= j < i ==> !(#[trigger] s[j]).movable,
    ensures
        first_movable(s) == Some(i),
    decreases i,
{
    if i == 0 {
    } else {
        assert(!s[0].movable);
        lemma_first_movable_at(s.drop_first(), i - 1);
    }
}

/// With no movable object there is nothing to pick.
pub proof fn lemma_first_movable_none(s: Seq<SceneObjectV>)
    requires
        forall|j: int| 0 <= j < s.len() ==> !(#[trigger] s[j]).movable,
    ensures
        first_movable(s) is None,
    decreases s.len(),
{
    if s.len() > 0 {
        lemma_first_movable_none(s.drop_first());
    }
}

/// The marking step: on the held edge, the first movable object at rest
/// starts following the pointer, capturing the offset between its
/// position and the pointer's; on release, the following object is
/// detached where it stands.  An offset beyond the representation limit
/// leaves the pick-up for a closer pointer position.
pub open spec fn mark_model(reg: RegistryV, ptr: PointerStateV) -> RegistryV {
    if ptr.held {
        if reg.grab is Some {
            reg
        } else {
            match first_movable(reg.objects) {
                Some(k) => {
                    let off = f2reduce(f2sub(reg.objects[k].translation, ptr.position));
                    if f2bounded(off) {
                        RegistryV { grab: Some((k, off)), ..reg }
                    } else {
                        reg
                    }
                },
                None => reg,
            }
        }
    } else {
        RegistryV { grab: None, ..reg }
    }
}

/// The tracking step: a following object's position is recomputed from
/// scratch as pointer position plus grab-time offset.
pub open spec fn moving_model(reg: RegistryV, ptr: PointerStateV) -> RegistryV {
    match reg.grab {
        Some((k, off)) => {
            if 0 <= k < reg.objects.len() {
                let o = reg.objects[k];
                let t1 = f2store(f2add(ptr.position, off), o.translation);
                RegistryV {
                    objects: reg.objects.update(k, SceneObjectV { translation: t1, ..o }),
                    ..reg
                }
            } else {
                reg
            }
        },
        None => reg,
    }
}

/// One attachment-controller tick: transitions, then tracking.
pub open spec fn attachment_model(reg: RegistryV, ptr: PointerStateV) -> RegistryV {
    moving_model(mark_model(reg, ptr), ptr)
}

/// A held tick at pointer position `p`.
pub open spec fn drag_tick(reg: RegistryV, p: Frac2) -> RegistryV {
    attachment_model(reg, PointerStateV { position: p, held: true })
}

/// A run of held ticks, one pointer position per tick.
pub open spec fn drag_run(reg: RegistryV, moves: Seq<Frac2>) -> RegistryV
    decreases moves.len(),
{
    if moves.len() == 0 {
        reg
    } else {
        drag_tick(drag_run(reg, moves.drop_last()), moves.last())
    }
}

/// A released tick at pointer position `p`.
pub open spec fn release_tick(reg: RegistryV, p: Frac2) -> RegistryV {
    attachment_model(reg, PointerStateV { position: p, held: false })
}

/// A run of released ticks.
pub open spec fn release_run(reg: RegistryV, moves: Seq<Frac2>) -> RegistryV
    decreases moves.len(),
{
    if moves.len() == 0 {
        reg
    } else {
        release_tick(release_run(reg, moves.drop_last()), moves.last())
    }
}

/// Drag tracking, raw form: while the object at `k` follows the pointer
/// with grab-time offset `off`, each held tick leaves it exactly at the
/// reduced form of pointer position plus `off` — no drift accumulates
/// over the run, nothing else about it or the other objects changes, and
/// the grab survives every tick.
pub proof fn lemma_drag_tracking(reg: RegistryV, moves: Seq<Frac2>, k: int, off: Frac2)
    requires
        0 <= k < reg.objects.len(),
        reg.grab == Some((k, off)),
        forall|i: int|
            0 <= i < moves.len() ==> f2bounded(f2reduce(f2add(#[trigger] moves[i], off))),
    ensures
        drag_run(reg, moves).grab == Some((k, off)),
        drag_run(reg, moves).objects.len() == reg.objects.len(),
        forall|j: int|
            0 <= j < reg.objects.len() && j != k ==> #[trigger] drag_run(reg, moves).objects[j]
                == reg.objects[j],
        drag_run(reg, moves).objects[k].movable == reg.objects[k].movable,
        drag_run(reg, moves).objects[k].zoomable == reg.objects[k].zoomable,
        drag_run(reg, moves).objects[k].scale == reg.objects[k].scale,
        moves.len() > 0 ==> drag_run(reg, moves).objects[k].translation == f2reduce(
            f2add(moves.last(), off),
        ),
        drag_run(reg, moves).min_scale == reg.min_scale,
        drag_run(reg, moves).max_scale == reg.max_scale,
    decreases moves.len(),
{
    if moves.len() > 0 {
        lemma_drag_tracking(reg, moves.drop_last(), k, off);
        let prev = drag_run(reg, moves.drop_last());
        let p = moves.last();
        assert(moves[moves.len() - 1] == p);
        assert(f2bounded(f2reduce(f2add(p, off))));
        assert(mark_model(prev, PointerStateV { position: p, held: true }) == prev);
    }
}

/// Drag tracking in terms of positions (the one-to-one law): after the
/// object at `k`, resting at `x0`, was picked up with the pointer at
/// `p0`, every held tick at pointer position `p` leaves it at
/// `p - (p0 - x0)`: the grab-time offset is preserved, with no drift and
/// no lag.
pub proof fn lemma_drag_tracking_positions(
    reg: RegistryV,
    moves: Seq<Frac2>,
    k: int,
    x0: Frac2,
    p0: Frac2,
)
    requires
        0 <= k < reg.objects.len(),
        reg.grab == Some((k, f2reduce(f2sub(x0, p0)))),
        f2wf(x0),
        f2wf(p0),
        forall|i: int| 0 <= i < moves.len() ==> f2wf(#[trigger] moves[i]),
        forall|i: int|
            0 <= i < moves.len() ==> f2bounded(
                f2reduce(f2add(#[trigger] moves[i], f2reduce(f2sub(x0, p0)))),
            ),
    ensures
        moves.len() > 0 ==> f2eqv(
            drag_run(reg, moves).objects[k].translation,
            f2sub(moves.last(), f2sub(p0, x0)),
        ),
{
    let off = f2reduce(f2sub(x0, p0));
    lemma_drag_tracking(reg, moves, k, off);
    if moves.len() > 0 {
        let p = moves.last();
        assert(moves[moves.len() - 1] == p);
        assert(f2wf(p));
        let t1 = f2reduce(f2add(p, off));
        crate::rational::lemma_fwf_ops(x0.x, p0.x);
        crate::rational::lemma_fwf_ops(x0.y, p0.y);
        crate::vec2::lemma_f2reduce_eqv(f2sub(x0, p0));
        crate::rational::lemma_fwf_ops(p.x, off.x);
        crate::rational::lemma_fwf_ops(p.y, off.y);
        crate::rational::lemma_fwf_ops(p.x, fsub(x0.x, p0.x));
        crate::rational::lemma_fwf_ops(p.y, fsub(x0.y, p0.y));
        crate::vec2::lemma_f2reduce_eqv(f2add(p, off));
        crate::rational::lemma_feqv_add_right(p.x, off.x, fsub(x0.x, p0.x));
        crate::rational::lemma_feqv_add_right(p.y, off.y, fsub(x0.y, p0.y));
        crate::rational::lemma_add_sub_swap(p.x, x0.x, p0.x);
        crate::rational::lemma_add_sub_swap(p.y, x0.y, p0.y);
        crate::rational::lemma_fwf_ops(p0.x, x0.x);
        crate::rational::lemma_fwf_ops(p0.y, x0.y);
        crate::rational::lemma_feqv_trans(t1.x, fadd(p.x, off.x), fadd(p.x, fsub(x0.x, p0.x)));
        crate::rational::lemma_feqv_trans(t1.y, fadd(p.y, off.y), fadd(p.y, fsub(x0.y, p0.y)));
        crate::rational::lemma_feqv_trans(
            t1.x,
            fadd(p.x, fsub(x0.x, p0.x)),
            fsub(p.x, fsub(p0.x, x0.x)),
        );
        crate::rational::lemma_feqv_trans(
            t1.y,
            fadd(p.y, fsub(x0.y, p0.y)),
            fsub(p.y, fsub(p0.y, x0.y)),
        );
    }
}

/// Release freezes position: once the button is up, ticks leave every
/// object exactly where it is, whatever the pointer does, until the next
/// press; the first released tick also drops the follow relationship,
/// exactly once.
pub proof fn lemma_release_freezes(reg: RegistryV, moves: Seq<Frac2>)
    ensures
        release_run(reg, moves).objects == reg.objects,
        moves.len() > 0 ==> release_run(reg, moves).grab is None,
        release_run(reg, moves).min_scale == reg.min_scale,
        release_run(reg, moves).max_scale == reg.max_scale,
    decreases moves.len(),
{
    if moves.len() > 0 {
        lemma_release_freezes(reg, moves.drop_last());
    }
}

impl DraggableRegistry {
    pub open spec fn wf(&self) -> bool {
        registry_wf(self@)
    }

    /// An empty registry with the given zoom bounds.
    pub fn new(min_scale: Rat, max_scale: Rat) -> (r: DraggableRegistry)
        requires
            fbounded(min_scale@),
            fbounded(max_scale@),
            min_scale@.n >= 1,
            fle(min_scale@, max_scale@),
        ensures
            r.wf(),
            r@.objects.len() == 0,
            r@.grab is None,
            r@.min_scale == min_scale@,
            r@.max_scale == max_scale@,
    {
        let r = DraggableRegistry {
            objects: Vec::new(),
            grab: None,
            min_scale: min_scale,
            max_scale: max_scale,
        };
        proof {
            assert(r@.objects =~= Seq::<SceneObjectV>::empty());
        }
        r
    }

    /// An empty registry with the reference zoom bounds 0.2 and 4.
    pub fn with_reference_bounds() -> (r: DraggableRegistry)
        ensures
            r.wf(),
            r@.objects.len() == 0,
            r@.grab is None,
            r@.min_scale == (Frac { n: 1, d: 5 }),
            r@.max_scale == (Frac { n: 4, d: 1 }),
    {
        DraggableRegistry::new(Rat::new(1, 5), Rat::new(4, 1))
    }

    /// Add an object with the given tags and transform; it starts at
    /// rest.
    pub fn add_object(&mut self, movable: bool, zoomable: bool, translation: Vec2r, scale: Rat)
        requires
            old(self).wf(),
            f2wf(translation@),
            f2bounded(translation@),
            fwf(scale@),
            fbounded(scale@),
            scale@.n >= 0,
            zoomable ==> fle(old(self)@.min_scale, scale@) && fle(scale@, old(self)@.max_scale),
        ensures
            final(self).wf(),
            final(self)@.objects == old(self)@.objects.push(
                SceneObjectV {
                    movable: movable,
                    zoomable: zoomable,
                    translation: translation@,
                    scale: scale@,
                },
            ),
            final(self)@.grab == old(self)@.grab,
            final(self)@.min_scale == old(self)@.min_scale,
            final(self)@.max_scale == old(self)@.max_scale,
    {
        let o = SceneObject {
            movable: movable,
            zoomable: zoomable,
            translation: translation,
            scale: scale,
        };
        self.objects.push(o);
        proof {
            assert(self@.objects =~= old(self)@.objects.push(o@));
        }
    }

    pub fn object_count(&self) -> (r: usize)
        ensures
            r == self@.objects.len(),
    {
        self.objects.len()
    }

    pub fn translation_of(&self, i: usize) -> (r: Vec2r)
        requires
            i < self@.objects.len(),
        ensures
            r@ == self@.objects[i as int].translation,
    {
        self.objects[i].translation
    }

    pub fn scale_of(&self, i: usize) -> (r: Rat)
        requires
            i < self@.objects.len(),
        ensures
            r@ == self@.objects[i as int].scale,
    {
        self.objects[i].scale
    }

    pub fn is_movable(&self, i: usize) -> (r: bool)
        requires
            i < self@.objects.len(),
        ensures
            r == self@.objects[i as int].movable,
    {
        self.objects[i].movable
    }

    pub fn is_zoomable(&self, i: usize) -> (r: bool)
        requires
            i < self@.objects.len(),
        ensures
            r == self@.objects[i as int].zoomable,
    {
        self.objects[i].zoomable
    }

    /// Derived follow state: whether object `i` is currently following
    /// the pointer (otherwise it is at rest).
    pub fn is_following(&self, i: usize) -> (r: bool)
        ensures
            r == (self@.grab matches Some((k, _off)) && k == i),
    {
        match self.grab {
            Some((k, _)) => k == i,
            None => false,
        }
    }

    /// Mark the transitions driven by the held flag's edges: pick up the
    /// first movable object when the button is held and nothing follows
    /// yet; detach the following object, exactly once, when it is not.
    pub fn mark_moving_status(&mut self, cursor_state: &PointerState)
        requires
            old(self).wf(),
            cursor_state.wf(),
        ensures
            final(self).wf(),
            final(self)@ == mark_model(old(self)@, cursor_state@),
    {
        if cursor_state.is_held() {
            if self.grab.is_none() {
                let n: usize = self.objects.len();
                let mut i: usize = 0;
                while i < n
                    invariant
                        0 <= i <= n,
                        n == self@.objects.len(),
                        self == old(self),
                        old(self).wf(),
                        cursor_state.wf(),
                        cursor_state@.held,
                        self@.grab is None,
                        forall|j: int| 0 <= j < i ==> !(#[trigger] self@.objects[j]).movable,
                    decreases n - i,
                {
                    if self.objects[i].movable {
                        proof {
                            lemma_first_movable_at(self@.objects, i as int);
                            assert(object_wf(
                                self@.objects[i as int],
                                self@.min_scale,
                                self@.max_scale,
                            ));
                        }
                        let t = self.objects[i].translation;
                        let raw = t.sub_small(&cursor_state.position());
                        let off = raw.normalize2();
                        proof {
                            crate::rational::lemma_freduce(raw@.x);
                            crate::rational::lemma_freduce(raw@.y);
                        }
                        if off.is_bounded2() {
                            self.grab = Some((i, off));
                        }
                        return ;
                    }
                    i = i + 1;
                }
                proof {
                    lemma_first_movable_none(self@.objects);
                }
            }
        } else {
            self.grab = None;
        }
    }

    /// While an object follows the pointer, recompute its position from
    /// scratch: pointer position plus the grab-time offset.
    pub fn moving(&mut self, cursor_state: &PointerState)
        requires
            old(self).wf(),
            cursor_state.wf(),
        ensures
            final(self).wf(),
            final(self)@ == moving_model(old(self)@, cursor_state@),
    {
        match self.grab {
            None => {},
            Some((k, off)) => {
                proof {
                    assert(object_wf(self@.objects[k as int], self@.min_scale, self@.max_scale));
                }
                let p = cursor_state.position();
                let raw = p.add_small(&off);
                let mut o = self.objects[k];
                let stored = Vec2r::store_from(&raw, &o.translation);
                o.translation = stored;
                self.objects.set(k, o);
                proof {
                    assert(self@.objects =~= old(self)@.objects.update(
                        k as int,
                        SceneObjectV { translation: stored@, ..old(self)@.objects[k as int] },
                    ));
                }
            },
        }
    }

    /// One attachment-controller tick, run once per tick after the
    /// pointer tracker: transitions first, then tracking.
    pub fn attachment_tick(&mut self, cursor_state: &PointerState)
        requires
            old(self).wf(),
            cursor_state.wf(),
        ensures
            final(self).wf(),
            final(self)@ == attachment_model(old(self)@, cursor_state@),
    {
        self.mark_moving_status(cursor_state);
        self.moving(cursor_state);
    }
}

impl DraggableRegistry {
    /// One zoom-controller tick: every zoomable object takes the tick's
    /// scroll events, in arrival order, scaled about the cursor.
    pub fn zooming(&mut self, mouse_wheel_events: &Vec<InputEvent>, cursor_state: &PointerState)
        requires
            old(self).wf(),
            cursor_state.wf(),
            events_ok(mouse_wheel_events@),
        ensures
            final(self).wf(),
            final(self)@ == zooming_model(old(self)@, cursor_state@, mouse_wheel_events@),
    {
        let ghost reg0 = self@;
        let ghost evs = mouse_wheel_events@;
        let p = cursor_state.position();
        let n: usize = self.objects.len();
        let mut i: usize = 0;
        while i < n
            invariant
                0 <= i <= n,
                n == self@.objects.len(),
                self@.objects.len() == reg0.objects.len(),
                self@.grab == reg0.grab,
                self@.min_scale == reg0.min_scale,
                self@.max_scale == reg0.max_scale,
                registry_wf(reg0),
                registry_wf(self@),
                cursor_state.wf(),
                p@ == cursor_state@.position,
                events_ok(evs),
                evs == mouse_wheel_events@,
                forall|j: int|
                    0 <= j < i ==> self@.objects[j] == zoom_object_model(
                        reg0.objects[j],
                        cursor_state@.position,
                        evs,
                        reg0.min_scale,
                        reg0.max_scale,
                    ),
                forall|j: int| i <= j < n ==> self@.objects[j] == reg0.objects[j],
            decreases n - i,
        {
            proof {
                assert(object_wf(self@.objects[i as int], reg0.min_scale, reg0.max_scale));
            }
            if self.objects[i].zoomable {
                let ghost o0 = self@.objects[i as int];
                proof {
                    crate::rational::lemma_le_keeps_positive(reg0.min_scale, o0.scale);
                }
                let mut t = self.objects[i].translation;
                let mut s = self.objects[i].scale;
                let m: usize = mouse_wheel_events.len();
                let mut j: usize = 0;
                while j < m
                    invariant
                        0 <= j <= m,
                        m == evs.len(),
                        evs == mouse_wheel_events@,
                        events_ok(evs),
                        registry_wf(reg0),
                        cursor_state.wf(),
                        p@ == cursor_state@.position,
                        f2bounded(t@),
                        f2wf(t@),
                        fbounded(s@),
                        s@.n >= 1,
                        fle(reg0.min_scale, s@),
                        fle(s@, reg0.max_scale),
                        self@.min_scale == reg0.min_scale,
                        self@.max_scale == reg0.max_scale,
                        (t@, s@) == zoom_events_model(
                            o0.translation,
                            o0.scale,
                            cursor_state@.position,
                            evs.subrange(0, j as int),
                            reg0.min_scale,
                            reg0.max_scale,
                        ),
                    decreases m - j,
                {
                    let ghost prefix = evs.subrange(0, j as int);
                    let ghost prefix1 = evs.subrange(0, j as int + 1);
                    proof {
                        assert(prefix1.drop_last() =~= prefix);
                        assert(prefix1.last() == evs[j as int]);
                        assert(event_ok(evs[j as int]));
                    }
                    match mouse_wheel_events[j] {
                        InputEvent::ScrollDelta { dx: _, dy } => {
                            let r = zoom_step(&t, &s, &p, &dy, &self.min_scale, &self.max_scale);
                            t = r.0;
                            s = r.1;
                        },
                        _ => {},
                    }
                    j = j + 1;
                }
                proof {
                    assert(evs.subrange(0, m as int) =~= evs);
                }
                let ghost objs_before = self@.objects;
                let mut o = self.objects[i];
                o.translation = t;
                o.scale = s;
                self.objects.set(i, o);
                proof {
                    assert(self@.objects =~= objs_before.update(
                        i as int,
                        SceneObjectV { translation: t@, scale: s@, ..o0 },
                    ));
                    assert(object_wf(self@.objects[i as int], reg0.min_scale, reg0.max_scale));
                    assert(self@.objects[i as int] == zoom_object_model(
                        reg0.objects[i as int],
                        cursor_state@.position,
                        evs,
                        reg0.min_scale,
                        reg0.max_scale,
                    ));
                }
            } else {
                proof {
                    assert(self@.objects[i as int] == zoom_object_model(
                        reg0.objects[i as int],
                        cursor_state@.position,
                        evs,
                        reg0.min_scale,
                        reg0.max_scale,
                    ));
                }
            }
            i = i + 1;
        }
        proof {
            assert(self@.objects =~= zooming_model(reg0, cursor_state@, evs).objects);
        }
    }
}

} // verus!
