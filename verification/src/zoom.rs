//! The zoom controller: scroll-wheel steps applied to a zoomable
//! object's transform, multiplicative and clamped, anchored at the
//! cursor.
//!
//! Each scroll event multiplies the scale by 5/4 (wheel away) or 4/5
//! (wheel toward), clamps the result into the registry's bounds, and —
//! when the scale actually changed — moves the translation by
//! `(cursor − translation) · (effective − 1)`, where `effective` is the
//! applied ratio `newScale / oldScale`, so that the world point under
//! the cursor stays fixed.  An event whose clamped scale equals the old
//! one adjusts nothing, so the translation does not creep at the bounds.

use vstd::prelude::*;

use crate::pointer::{InputEvent, PointerStateV};
use crate::rational::{
    fadd, fbounded, fclamp, fdiv, feqv, fhalf, fint, fle, fmax, fmul, freduce, fsub, fwf, gcd,
    lemma_abs_mul,
    lemma_div_mul_cancel, lemma_eqv_keeps_positive, lemma_factor_gather, lemma_fclamp_range,
    lemma_fdiv_wf, lemma_feqv_div_left, lemma_feqv_sub_right, lemma_feqv_trans, lemma_fle_eqv_left,
    lemma_fle_eqv_right, lemma_fle_trans, lemma_freduce, lemma_fwf_ops, lemma_le_keeps_positive,
    lemma_sub_sub, Frac, Rat,
};
use crate::registry::{RegistryV, SceneObjectV};
use crate::vec2::{f2bounded, f2reduce, f2scale, f2sub, f2wf, Frac2, Vec2r};

verus! {

/// Wheel away from the user: zoom in by 5/4.
pub open spec fn factor_up() -> Frac {
    Frac { n: 5, d: 4 }
}

/// Wheel toward the user: zoom out by 4/5.
pub open spec fn factor_down() -> Frac {
    Frac { n: 4, d: 5 }
}

/// One scroll event applied to one transform `(t, s)` with the pointer
/// at `p`: the new scale is `s` times the factor for the wheel
/// direction, clamped into `[min, max]`; if that leaves the scale
/// unchanged the event is a no-op, otherwise the translation moves by
/// `(p − t) · (s′/s − 1)` so the point under the cursor keeps its
/// pre-image.  A result beyond the representation limit leaves the
/// transform unchanged.
pub open spec fn zoom_event_model(
    t: Frac2,
    s: Frac,
    p: Frac2,
    dy: Frac,
    min_scale: Frac,
    max_scale: Frac,
) -> (Frac2, Frac) {
    if dy.n == 0 {
        (t, s)
    } else {
        let f = if dy.n > 0 {
            factor_up()
        } else {
            factor_down()
        };
        let s_raw = freduce(fclamp(fmul(s, f), min_scale, max_scale));
        if !fbounded(s_raw) {
            (t, s)
        } else if feqv(s_raw, s) {
            (t, s)
        } else {
            let e = fdiv(s_raw, s);
            let t_raw = f2reduce(f2sub(t, f2scale(fsub(e, fint(1)), f2sub(p, t))));
            if f2bounded(t_raw) {
                (t_raw, s_raw)
            } else {
                (t, s)
            }
        }
    }
}

/// All of the tick's scroll events applied, in arrival order, to one
/// transform; their effects compose multiplicatively.
pub open spec fn zoom_events_model(
    t: Frac2,
    s: Frac,
    p: Frac2,
    evs: Seq<InputEvent>,
    min_scale: Frac,
    max_scale: Frac,
) -> (Frac2, Frac)
    decreases evs.len(),
{
    if evs.len() == 0 {
        (t, s)
    } else {
        let prev = zoom_events_model(t, s, p, evs.drop_last(), min_scale, max_scale);
        match evs.last() {
            InputEvent::ScrollDelta { dx: _, dy } => zoom_event_model(
                prev.0,
                prev.1,
                p,
                dy@,
                min_scale,
                max_scale,
            ),
            _ => prev,
        }
    }
}

/// The tick's effect on one object: a zoomable object takes every
/// scroll event, any other object is untouched.
pub open spec fn zoom_object_model(
    o: SceneObjectV,
    p: Frac2,
    evs: Seq<InputEvent>,
    min_scale: Frac,
    max_scale: Frac,
) -> SceneObjectV {
    if o.zoomable {
        let r = zoom_events_model(o.translation, o.scale, p, evs, min_scale, max_scale);
        SceneObjectV { translation: r.0, scale: r.1, ..o }
    } else {
        o
    }
}

/// One zoom-controller tick over the whole registry.
pub open spec fn zooming_model(reg: RegistryV, ptr: PointerStateV, evs: Seq<InputEvent>) -> RegistryV {
    RegistryV {
        objects: Seq::new(
            reg.objects.len(),
            |i: int| zoom_object_model(reg.objects[i], ptr.position, evs, reg.min_scale, reg.max_scale),
        ),
        ..reg
    }
}

/// The world origin, where the reach laws park the object and cursor.
pub open spec fn origin2() -> Frac2 {
    Frac2 { x: fint(0), y: fint(0) }
}

/// Scale of an origin-anchored object after `k` zoom-in steps at the
/// reference bounds, starting from scale 1.
pub open spec fn zoom_in_scale(k: nat) -> Frac
    decreases k,
{
    if k == 0 {
        fint(1)
    } else {
        zoom_event_model(
            origin2(),
            zoom_in_scale((k - 1) as nat),
            origin2(),
            fint(1),
            Frac { n: 1, d: 5 },
            Frac { n: 4, d: 1 },
        ).1
    }
}

/// Scale of an origin-anchored object after `k` zoom-out steps at the
/// reference bounds, starting from scale 1.
pub open spec fn zoom_out_scale(k: nat) -> Frac
    decreases k,
{
    if k == 0 {
        fint(1)
    } else {
        zoom_event_model(
            origin2(),
            zoom_out_scale((k - 1) as nat),
            origin2(),
            fint(-1),
            Frac { n: 1, d: 5 },
            Frac { n: 4, d: 1 },
        ).1
    }
}

/// The scales the zoom-in run passes through: the exact powers of 5/4
/// until the clamp lands the seventh step on the maximum.
pub open spec fn zoom_in_expected(k: nat) -> Frac {
    if k == 0 {
        fint(1)
    } else if k == 1 {
        Frac { n: 5, d: 4 }
    } else if k == 2 {
        Frac { n: 25, d: 16 }
    } else if k == 3 {
        Frac { n: 125, d: 64 }
    } else if k == 4 {
        Frac { n: 625, d: 256 }
    } else if k == 5 {
        Frac { n: 3125, d: 1024 }
    } else if k == 6 {
        Frac { n: 15625, d: 4096 }
    } else {
        Frac { n: 4, d: 1 }
    }
}

/// Repeated zoom-in from scale 1 runs through the exact powers of 5/4,
/// reaches exactly the reference maximum 4 on the seventh step, never
/// exceeds it, and stays there for every later step.
pub proof fn lemma_zoom_in_reaches_max(k: nat)
    ensures
        zoom_in_scale(k) == zoom_in_expected(k),
        fle(zoom_in_scale(k), Frac { n: 4, d: 1 }),
        k >= 7 ==> zoom_in_scale(k) == (Frac { n: 4, d: 1 }),
    decreases k,
{
    if k <= 7 {
        lemma_zoom_in_table();
    } else {
        lemma_zoom_in_reaches_max((k - 1) as nat);
        lemma_zoom_at_max_stays(
            origin2(),
            zoom_in_scale((k - 1) as nat),
            origin2(),
            fint(1),
            Frac { n: 1, d: 5 },
            Frac { n: 4, d: 1 },
        );
    }
}

/// The scales the zoom-out run passes through: the exact powers of 4/5
/// until the clamp lands the eighth step on the minimum.
pub open spec fn zoom_out_expected(k: nat) -> Frac {
    if k == 0 {
        fint(1)
    } else if k == 1 {
        Frac { n: 4, d: 5 }
    } else if k == 2 {
        Frac { n: 16, d: 25 }
    } else if k == 3 {
        Frac { n: 64, d: 125 }
    } else if k == 4 {
        Frac { n: 256, d: 625 }
    } else if k == 5 {
        Frac { n: 1024, d: 3125 }
    } else if k == 6 {
        Frac { n: 4096, d: 15625 }
    } else if k == 7 {
        Frac { n: 16384, d: 78125 }
    } else {
        Frac { n: 1, d: 5 }
    }
}

/// Repeated zoom-out from scale 1 runs through the exact powers of 4/5,
/// floors at exactly the reference minimum 0.2 on the eighth step, never
/// drops under it, and stays there for every later step.
pub proof fn lemma_zoom_out_floors_at_min(k: nat)
    ensures
        zoom_out_scale(k) == zoom_out_expected(k),
        fle(Frac { n: 1, d: 5 }, zoom_out_scale(k)),
        k >= 8 ==> zoom_out_scale(k) == (Frac { n: 1, d: 5 }),
    decreases k,
{
    if k <= 8 {
        lemma_zoom_out_table();
    } else {
        lemma_zoom_out_floors_at_min((k - 1) as nat);
        lemma_zoom_at_min_stays(
            origin2(),
            zoom_out_scale((k - 1) as nat),
            origin2(),
            fint(-1),
            Frac { n: 1, d: 5 },
            Frac { n: 4, d: 1 },
        );
    }
}

/// The tick brought no scroll events.
pub open spec fn scroll_free(evs: Seq<InputEvent>) -> bool {
    forall|i: int| 0 <= i < evs.len() ==> !((#[trigger] evs[i]) is ScrollDelta)
}

/// Without scroll events the zoom controller touches no transform.
pub proof fn lemma_zoom_events_scroll_free(
    t: Frac2,
    s: Frac,
    p: Frac2,
    evs: Seq<InputEvent>,
    min_scale: Frac,
    max_scale: Frac,
)
    requires
        scroll_free(evs),
    ensures
        zoom_events_model(t, s, p, evs, min_scale, max_scale) == (t, s),
    decreases evs.len(),
{
    if evs.len() > 0 {
        assert(scroll_free(evs.drop_last())) by {
            assert(forall|i: int|
                0 <= i < evs.drop_last().len() ==> evs.drop_last()[i] == evs[i]);
        }
        lemma_zoom_events_scroll_free(t, s, p, evs.drop_last(), min_scale, max_scale);
        assert(!(evs.last() is ScrollDelta));
    }
}

/// Without scroll events the zoom controller leaves the whole registry
/// as it was.
pub proof fn lemma_zooming_scroll_free(reg: RegistryV, ptr: PointerStateV, evs: Seq<InputEvent>)
    requires
        scroll_free(evs),
    ensures
        zooming_model(reg, ptr, evs) == reg,
{
    assert forall|i: int| 0 <= i < reg.objects.len() implies zoom_object_model(
        reg.objects[i],
        ptr.position,
        evs,
        reg.min_scale,
        reg.max_scale,
    ) == reg.objects[i] by {
        let o = reg.objects[i];
        if o.zoomable {
            lemma_zoom_events_scroll_free(
                o.translation,
                o.scale,
                ptr.position,
                evs,
                reg.min_scale,
                reg.max_scale,
            );
            assert(SceneObjectV { translation: o.translation, scale: o.scale, ..o } == o);
        }
    }
    assert(zooming_model(reg, ptr, evs).objects =~= reg.objects);
}

/// The map layer's earlier wheel behavior, kept for the background map
/// sprite: the scroll delta is added to the scale, floored at one half.
pub open spec fn map_scroll_model(s: Frac, dy: Frac) -> Frac {
    fmax(fadd(s, dy), fhalf(fint(1)))
}

/// One additive map-scroll step, executably.
pub fn map_scrolling(scale: &Rat, dy: &Rat) -> (r: Rat)
    requires
        fbounded(scale@),
        fbounded(dy@),
    ensures
        r@ == map_scroll_model(scale@, dy@),
        r.wf(),
{
    proof {
        lemma_abs_mul(scale@.n, dy@.d, 0x1000000, 0x1000000);
        lemma_abs_mul(dy@.n, scale@.d, 0x1000000, 0x1000000);
        lemma_abs_mul(scale@.d, dy@.d, 0x1000000, 0x1000000);
    }
    let sum = scale.add(dy);
    let half = Rat::new(1, 2);
    proof {
        lemma_abs_mul(sum@.n, half@.d, 0x2000000000000, 2);
        lemma_abs_mul(half@.n, sum@.d, 1, 0x1000000000000);
    }
    if sum.le(&half) {
        half
    } else {
        sum
    }
}

/// Core anchor identity on one axis: for any positive scales `s` and
/// `s2`, moving the translation by `(p − t)·(s2/s − 1)` keeps the
/// pre-image of `p` unchanged.
pub proof fn lemma_anchor_component(tc: Frac, pc: Frac, s: Frac, s2: Frac)
    requires
        fwf(tc),
        fwf(pc),
        fwf(s),
        fwf(s2),
        s.n >= 1,
        s2.n >= 1,
    ensures
        ({
            let e = fdiv(s2, s);
            let t2 = fsub(tc, fmul(fsub(e, fint(1)), fsub(pc, tc)));
            feqv(fdiv(fsub(pc, t2), s2), fdiv(fsub(pc, tc), s))
        }),
{
    let e = fdiv(s2, s);
    let pt = fsub(pc, tc);
    let em1 = fsub(e, fint(1));
    let m = fmul(em1, pt);
    let t2 = fsub(tc, m);
    lemma_fwf_ops(pc, tc);
    lemma_fdiv_wf(s2, s);
    lemma_fwf_ops(e, fint(1));
    lemma_fwf_ops(em1, pt);
    lemma_fwf_ops(tc, m);
    lemma_fwf_ops(pc, t2);
    lemma_fwf_ops(pt, m);
    lemma_fwf_ops(e, pt);
    lemma_sub_sub(pc, tc, m);
    lemma_factor_gather(e, pt);
    lemma_feqv_trans(fsub(pc, t2), crate::rational::fadd(pt, m), fmul(e, pt));
    lemma_feqv_div_left(fsub(pc, t2), fmul(e, pt), s2);
    lemma_div_mul_cancel(pt, s, s2);
    lemma_fdiv_wf(fsub(pc, t2), s2);
    lemma_fdiv_wf(fmul(e, pt), s2);
    lemma_fdiv_wf(pt, s);
    lemma_feqv_trans(fdiv(fsub(pc, t2), s2), fdiv(fmul(e, pt), s2), fdiv(pt, s));
}

/// Zoom anchor invariance: whatever a scroll event does to the transform
/// `(t, s)`, the world point under the cursor keeps its pre-image — with
/// the new transform `(t′, s′)`, `(p − t′)/s′ == (p − t)/s` on both
/// axes, exactly.
pub proof fn lemma_zoom_anchor(
    t: Frac2,
    s: Frac,
    p: Frac2,
    dy: Frac,
    min_scale: Frac,
    max_scale: Frac,
)
    requires
        f2wf(t),
        f2wf(p),
        fwf(s),
        s.n >= 1,
        fwf(min_scale),
        min_scale.n >= 1,
        fwf(max_scale),
        fle(min_scale, max_scale),
    ensures
        ({
            let r = zoom_event_model(t, s, p, dy, min_scale, max_scale);
            &&& feqv(fdiv(fsub(p.x, r.0.x), r.1), fdiv(fsub(p.x, t.x), s))
            &&& feqv(fdiv(fsub(p.y, r.0.y), r.1), fdiv(fsub(p.y, t.y), s))
        }),
{
    if dy.n != 0 {
        let f = if dy.n > 0 {
            factor_up()
        } else {
            factor_down()
        };
        let clamped = fclamp(fmul(s, f), min_scale, max_scale);
        let s_raw = freduce(clamped);
        if fbounded(s_raw) && !feqv(s_raw, s) {
            lemma_fwf_ops(s, f);
            lemma_fclamp_range(fmul(s, f), min_scale, max_scale);
            assert(clamped.n >= 1) by {
                vstd::arithmetic::mul::lemma_mul_strictly_positive(s.n, f.n);
                lemma_le_keeps_positive(min_scale, max_scale);
            }
            lemma_freduce(clamped);
            lemma_eqv_keeps_positive(clamped, s_raw);
            let e = fdiv(s_raw, s);
            lemma_fdiv_wf(s_raw, s);
            lemma_fwf_ops(e, fint(1));
            let em1 = fsub(e, fint(1));
            let ptx = fsub(p.x, t.x);
            let pty = fsub(p.y, t.y);
            lemma_fwf_ops(p.x, t.x);
            lemma_fwf_ops(p.y, t.y);
            let rawx = fsub(t.x, fmul(em1, ptx));
            let rawy = fsub(t.y, fmul(em1, pty));
            lemma_fwf_ops(em1, ptx);
            lemma_fwf_ops(em1, pty);
            lemma_fwf_ops(t.x, fmul(em1, ptx));
            lemma_fwf_ops(t.y, fmul(em1, pty));
            if f2bounded(f2reduce(f2sub(t, f2scale(em1, f2sub(p, t))))) {
                lemma_anchor_component(t.x, p.x, s, s_raw);
                lemma_anchor_component(t.y, p.y, s, s_raw);
                lemma_freduce(rawx);
                lemma_freduce(rawy);
                lemma_feqv_sub_right(p.x, freduce(rawx), rawx);
                lemma_feqv_sub_right(p.y, freduce(rawy), rawy);
                lemma_fwf_ops(p.x, freduce(rawx));
                lemma_fwf_ops(p.y, freduce(rawy));
                lemma_fwf_ops(p.x, rawx);
                lemma_fwf_ops(p.y, rawy);
                lemma_feqv_div_left(fsub(p.x, freduce(rawx)), fsub(p.x, rawx), s_raw);
                lemma_feqv_div_left(fsub(p.y, freduce(rawy)), fsub(p.y, rawy), s_raw);
                lemma_fdiv_wf(fsub(p.x, freduce(rawx)), s_raw);
                lemma_fdiv_wf(fsub(p.x, rawx), s_raw);
                lemma_fdiv_wf(ptx, s);
                lemma_fdiv_wf(fsub(p.y, freduce(rawy)), s_raw);
                lemma_fdiv_wf(fsub(p.y, rawy), s_raw);
                lemma_fdiv_wf(pty, s);
                lemma_feqv_trans(
                    fdiv(fsub(p.x, freduce(rawx)), s_raw),
                    fdiv(fsub(p.x, rawx), s_raw),
                    fdiv(ptx, s),
                );
                lemma_feqv_trans(
                    fdiv(fsub(p.y, freduce(rawy)), s_raw),
                    fdiv(fsub(p.y, rawy), s_raw),
                    fdiv(pty, s),
                );
            }
        }
    }
}

/// Zoom clamping: a scroll event keeps a scale that is inside the bounds
/// inside the bounds — it never exceeds the maximum nor drops under the
/// minimum.
pub proof fn lemma_zoom_scale_clamped(
    t: Frac2,
    s: Frac,
    p: Frac2,
    dy: Frac,
    min_scale: Frac,
    max_scale: Frac,
)
    requires
        fwf(s),
        fwf(min_scale),
        min_scale.n >= 1,
        fwf(max_scale),
        fle(min_scale, max_scale),
        fle(min_scale, s),
        fle(s, max_scale),
    ensures
        fle(min_scale, zoom_event_model(t, s, p, dy, min_scale, max_scale).1),
        fle(zoom_event_model(t, s, p, dy, min_scale, max_scale).1, max_scale),
{
    if dy.n != 0 {
        let f = if dy.n > 0 {
            factor_up()
        } else {
            factor_down()
        };
        let clamped = fclamp(fmul(s, f), min_scale, max_scale);
        let s_raw = freduce(clamped);
        lemma_fwf_ops(s, f);
        lemma_fclamp_range(fmul(s, f), min_scale, max_scale);
        lemma_freduce(clamped);
        lemma_fle_eqv_left(clamped, s_raw, max_scale);
        lemma_fle_eqv_right(min_scale, clamped, s_raw);
    }
}

/// No-op at the upper bound: an object already at the maximum scale
/// takes a zoom-in event without any change at all — the scale stays put
/// and the translation does not creep.
pub proof fn lemma_zoom_at_max_stays(
    t: Frac2,
    s: Frac,
    p: Frac2,
    dy: Frac,
    min_scale: Frac,
    max_scale: Frac,
)
    requires
        fwf(s),
        s.n >= 1,
        fwf(min_scale),
        fwf(max_scale),
        fle(min_scale, max_scale),
        feqv(s, max_scale),
        dy.n > 0,
    ensures
        zoom_event_model(t, s, p, dy, min_scale, max_scale) == (t, s),
{
    let f = factor_up();
    let sf = fmul(s, f);
    lemma_fwf_ops(s, f);
    lemma_eqv_keeps_positive(s, max_scale);
    assert(fle(max_scale, sf)) by (nonlinear_arith)
        requires
            s.n * max_scale.d == max_scale.n * s.d,
            s.n >= 1,
            s.d >= 1,
            max_scale.d >= 1,
            max_scale.n >= 1,
            sf.n == s.n * 5,
            sf.d == s.d * 4,
    ;
    let c = fclamp(sf, min_scale, max_scale);
    lemma_fclamp_range(sf, min_scale, max_scale);
    assert(feqv(c, s)) by {
        if fle(sf, min_scale) {
            // then max <= sf <= min <= max: the bounds and s all coincide
            lemma_fle_trans(max_scale, sf, min_scale);
            assert(feqv(min_scale, max_scale));
            lemma_feqv_trans(min_scale, max_scale, s);
        } else {
            if fle(sf, max_scale) {
                assert(feqv(sf, max_scale));
                lemma_feqv_trans(sf, max_scale, s);
            }
        }
    }
    lemma_freduce(c);
    lemma_feqv_trans(freduce(c), c, s);
}

/// Zoom-in hits the ceiling: when one nominal step from `s` reaches or
/// passes the maximum, the event leaves the scale exactly at the
/// maximum — so repeated zooming in arrives at the bound in finitely
/// many steps and, by [`lemma_zoom_at_max_stays`], stays there.  The one
/// exception is a translation beyond the representation limit, which
/// makes the whole event a no-op.
pub proof fn lemma_zoom_in_hits_max(
    t: Frac2,
    s: Frac,
    p: Frac2,
    dy: Frac,
    min_scale: Frac,
    max_scale: Frac,
)
    requires
        fwf(s),
        s.n >= 1,
        fwf(min_scale),
        min_scale.n >= 1,
        fwf(max_scale),
        fle(min_scale, max_scale),
        fle(max_scale, fmul(s, factor_up())),
        dy.n > 0,
    ensures
        feqv(zoom_event_model(t, s, p, dy, min_scale, max_scale).1, max_scale)
            || zoom_event_model(t, s, p, dy, min_scale, max_scale) == (t, s),
{
    let f = factor_up();
    let sf = fmul(s, f);
    lemma_fwf_ops(s, f);
    lemma_le_keeps_positive(min_scale, max_scale);
    let c = fclamp(sf, min_scale, max_scale);
    lemma_fclamp_range(sf, min_scale, max_scale);
    assert(feqv(c, max_scale)) by {
        if fle(sf, min_scale) {
            lemma_fle_trans(max_scale, sf, min_scale);
            assert(feqv(min_scale, max_scale));
        } else {
            if fle(sf, max_scale) {
                assert(feqv(sf, max_scale));
            }
        }
    }
    lemma_freduce(c);
    let s_raw = freduce(c);
    lemma_feqv_trans(s_raw, c, max_scale);
    if fbounded(s_raw) && feqv(s_raw, s) {
        // the result keeps s, itself already equal to the maximum
        lemma_feqv_trans(s, s_raw, max_scale);
    }
}

/// Zoom-out hits the floor: when one nominal step from `s` reaches or
/// passes the minimum, the event leaves the scale exactly at the
/// minimum, apart from the representation-limit no-op.
pub proof fn lemma_zoom_out_hits_min(
    t: Frac2,
    s: Frac,
    p: Frac2,
    dy: Frac,
    min_scale: Frac,
    max_scale: Frac,
)
    requires
        fwf(s),
        s.n >= 1,
        fwf(min_scale),
        min_scale.n >= 1,
        fwf(max_scale),
        fle(min_scale, max_scale),
        fle(fmul(s, factor_down()), min_scale),
        dy.n < 0,
    ensures
        feqv(zoom_event_model(t, s, p, dy, min_scale, max_scale).1, min_scale)
            || zoom_event_model(t, s, p, dy, min_scale, max_scale) == (t, s),
{
    let f = factor_down();
    let sf = fmul(s, f);
    lemma_fwf_ops(s, f);
    let c = fclamp(sf, min_scale, max_scale);
    lemma_fclamp_range(sf, min_scale, max_scale);
    assert(fmax(sf, min_scale) == min_scale);
    assert(c == min_scale);
    lemma_freduce(c);
    let s_raw = freduce(c);
    if fbounded(s_raw) && feqv(s_raw, s) {
        lemma_feqv_trans(s, s_raw, min_scale);
    }
}

/// No-op at the lower bound: an object already at the minimum scale
/// takes a zoom-out event without any change at all.
pub proof fn lemma_zoom_at_min_stays(
    t: Frac2,
    s: Frac,
    p: Frac2,
    dy: Frac,
    min_scale: Frac,
    max_scale: Frac,
)
    requires
        fwf(s),
        s.n >= 1,
        fwf(min_scale),
        fwf(max_scale),
        fle(min_scale, max_scale),
        feqv(s, min_scale),
        dy.n < 0,
    ensures
        zoom_event_model(t, s, p, dy, min_scale, max_scale) == (t, s),
{
    let f = factor_down();
    let sf = fmul(s, f);
    lemma_fwf_ops(s, f);
    lemma_eqv_keeps_positive(s, min_scale);
    assert(fle(sf, min_scale)) by (nonlinear_arith)
        requires
            s.n * min_scale.d == min_scale.n * s.d,
            s.n >= 1,
            s.d >= 1,
            min_scale.d >= 1,
            min_scale.n >= 1,
            sf.n == s.n * 4,
            sf.d == s.d * 5,
    ;
    let c = fclamp(sf, min_scale, max_scale);
    lemma_fclamp_range(sf, min_scale, max_scale);
    assert(fmax(sf, min_scale) == min_scale);
    assert(feqv(c, s));
    lemma_freduce(c);
    lemma_feqv_trans(freduce(c), c, s);
}

/// One scroll event, executably: exactly [`zoom_event_model`].
pub fn zoom_step(
    translation: &Vec2r,
    scale: &Rat,
    cursor: &Vec2r,
    dy: &Rat,
    min_scale: &Rat,
    max_scale: &Rat,
) -> (r: (Vec2r, Rat))
    requires
        f2bounded(translation@),
        fbounded(scale@),
        scale@.n >= 1,
        f2bounded(cursor@),
        fwf(dy@),
        fbounded(min_scale@),
        min_scale@.n >= 1,
        fbounded(max_scale@),
        fle(min_scale@, max_scale@),
    ensures
        (r.0@, r.1@) == zoom_event_model(
            translation@,
            scale@,
            cursor@,
            dy@,
            min_scale@,
            max_scale@,
        ),
        f2bounded(r.0@),
        f2wf(r.0@),
        fbounded(r.1@),
        r.1@.n >= 1,
        fle(min_scale@, scale@) && fle(scale@, max_scale@) ==> fle(min_scale@, r.1@) && fle(
            r.1@,
            max_scale@,
        ),
{
    if dy.num() == 0 {
        return (*translation, *scale);
    }
    let f = if dy.num() > 0 {
        Rat::new(5, 4)
    } else {
        Rat::new(4, 5)
    };
    proof {
        lemma_abs_mul(scale@.n, f@.n, 0x1000000, 5);
        lemma_abs_mul(scale@.d, f@.d, 0x1000000, 5);
    }
    let sf = scale.mul(&f);
    proof {
        lemma_abs_mul(sf@.n, min_scale@.d, 0x5000000, 0x1000000);
        lemma_abs_mul(min_scale@.n, sf@.d, 0x1000000, 0x5000000);
    }
    let g = if sf.le(min_scale) {
        *min_scale
    } else {
        sf
    };
    proof {
        lemma_abs_mul(g@.n, max_scale@.d, 0x5000000, 0x1000000);
        lemma_abs_mul(max_scale@.n, g@.d, 0x1000000, 0x5000000);
    }
    let clamped = if g.le(max_scale) {
        g
    } else {
        *max_scale
    };
    proof {
        assert(clamped@ == fclamp(fmul(scale@, f@), min_scale@, max_scale@));
        crate::rational::lemma_fclamp_range(fmul(scale@, f@), min_scale@, max_scale@);
        vstd::arithmetic::mul::lemma_mul_strictly_positive(scale@.n, f@.n);
        crate::rational::lemma_le_keeps_positive(min_scale@, max_scale@);
        assert(clamped@.n >= 1);
        crate::rational::lemma_freduce(clamped@);
        crate::rational::lemma_eqv_keeps_positive(clamped@, freduce(clamped@));
    }
    let s_raw = clamped.normalize();
    if !s_raw.is_bounded() {
        return (*translation, *scale);
    }
    proof {
        lemma_abs_mul(s_raw@.n, scale@.d, 0x1000000, 0x1000000);
        lemma_abs_mul(scale@.n, s_raw@.d, 0x1000000, 0x1000000);
    }
    if s_raw.eqv(scale) {
        return (*translation, *scale);
    }
    proof {
        // the scale the event leaves behind stays inside the bounds
        crate::rational::lemma_fle_eqv_left(clamped@, s_raw@, max_scale@);
        crate::rational::lemma_fle_eqv_right(min_scale@, clamped@, s_raw@);
        lemma_abs_mul(s_raw@.d, scale@.n, 0x1000000, 0x1000000);
    }
    let e = s_raw.div(scale);
    let one = Rat::from_int(1);
    proof {
        assert(e@.d >= 1) by {
            vstd::arithmetic::mul::lemma_mul_strictly_positive(s_raw@.d, scale@.n);
        }
        assert(-0x1000000000000 <= e@.n <= 0x1000000000000);
        assert(1 <= e@.d <= 0x1000000000000);
    }
    let em1 = e.sub(&one);
    let pt = cursor.sub_small(translation);
    proof {
        lemma_abs_mul(em1@.n, pt@.x.n, 0x2000000000000, 0x2000000000000);
        lemma_abs_mul(em1@.d, pt@.x.d, 0x1000000000000, 0x1000000000000);
        lemma_abs_mul(em1@.n, pt@.y.n, 0x2000000000000, 0x2000000000000);
        lemma_abs_mul(em1@.d, pt@.y.d, 0x1000000000000, 0x1000000000000);
    }
    let delta = pt.scale2(&em1);
    proof {
        let big: int = 0x4000000000000000000000000;
        let bigd: int = 0x1000000000000000000000000;
        lemma_abs_mul(translation@.x.n, delta@.x.d, 0x1000000, bigd);
        lemma_abs_mul(delta@.x.n, translation@.x.d, big, 0x1000000);
        lemma_abs_mul(translation@.x.d, delta@.x.d, 0x1000000, bigd);
        lemma_abs_mul(translation@.y.n, delta@.y.d, 0x1000000, bigd);
        lemma_abs_mul(delta@.y.n, translation@.y.d, big, 0x1000000);
        lemma_abs_mul(translation@.y.d, delta@.y.d, 0x1000000, bigd);
    }
    let t_raw = translation.sub2(&delta);
    let t_red = t_raw.normalize2();
    if t_red.is_bounded2() {
        (t_red, s_raw)
    } else {
        (*translation, *scale)
    }
}

/// One zoom step seen on the scale alone, at the reference bounds.
pub open spec fn scale_step(s: Frac, f: Frac) -> Frac {
    let s_raw = freduce(fclamp(fmul(s, f), Frac { n: 1, d: 5 }, Frac { n: 4, d: 1 }));
    if !fbounded(s_raw) || feqv(s_raw, s) {
        s
    } else {
        s_raw
    }
}

/// For an object and cursor both at the origin, a scroll event leaves
/// the translation at the origin and moves the scale exactly as
/// [`scale_step`].
pub proof fn lemma_zoom_event_at_origin(s: Frac, dy: Frac)
    requires
        dy.n != 0,
    ensures
        zoom_event_model(origin2(), s, origin2(), dy, Frac { n: 1, d: 5 }, Frac { n: 4, d: 1 }).0
            == origin2(),
        zoom_event_model(origin2(), s, origin2(), dy, Frac { n: 1, d: 5 }, Frac { n: 4, d: 1 }).1
            == scale_step(
            s,
            if dy.n > 0 {
                factor_up()
            } else {
                factor_down()
            },
        ),
{
    let f = if dy.n > 0 {
        factor_up()
    } else {
        factor_down()
    };
    let s_raw = freduce(fclamp(fmul(s, f), Frac { n: 1, d: 5 }, Frac { n: 4, d: 1 }));
    if fbounded(s_raw) && !feqv(s_raw, s) {
        let e = fdiv(s_raw, s);
        let em1 = fsub(e, fint(1));
        let pt = f2sub(origin2(), origin2());
        assert(pt == (Frac2 { x: Frac { n: 0, d: 1 }, y: Frac { n: 0, d: 1 } }));
        let sc = f2scale(em1, pt);
        assert(sc == (Frac2 { x: Frac { n: 0, d: em1.d }, y: Frac { n: 0, d: em1.d } }));
        let diff = f2sub(origin2(), sc);
        assert(diff == (Frac2 { x: Frac { n: 0, d: em1.d }, y: Frac { n: 0, d: em1.d } }));
        assert(f2reduce(diff) == origin2());
        assert(f2bounded(origin2()));
    }
}

proof fn lemma_zoom_in_1()
    ensures
        zoom_in_scale(1) == (Frac { n: 5, d: 4 }),
{
    assert(fmul(fint(1), factor_up()) == (Frac { n: 5, d: 4 }));
    assert(fclamp(Frac { n: 5, d: 4 }, Frac { n: 1, d: 5 }, Frac { n: 4, d: 1 }) == (Frac {
        n: 5,
        d: 4,
    }));
    assert(freduce(Frac { n: 5, d: 4 }) == (Frac { n: 5, d: 4 })) by {
        reveal_with_fuel(gcd, 5);
        assert(gcd(5, 4) == 1);
    }
    assert(scale_step(fint(1), factor_up()) == (Frac { n: 5, d: 4 }));
    assert(zoom_in_scale(0) == fint(1));
    lemma_zoom_event_at_origin(fint(1), fint(1));
}

proof fn lemma_zoom_in_2()
    ensures
        zoom_in_scale(2) == (Frac { n: 25, d: 16 }),
{
    assert(fmul(Frac { n: 5, d: 4 }, factor_up()) == (Frac { n: 25, d: 16 }));
    assert(fclamp(Frac { n: 25, d: 16 }, Frac { n: 1, d: 5 }, Frac { n: 4, d: 1 }) == (Frac {
        n: 25,
        d: 16,
    }));
    assert(freduce(Frac { n: 25, d: 16 }) == (Frac { n: 25, d: 16 })) by {
        reveal_with_fuel(gcd, 8);
        assert(gcd(25, 16) == 1);
    }
    assert(scale_step(Frac { n: 5, d: 4 }, factor_up()) == (Frac { n: 25, d: 16 }));
    lemma_zoom_in_1();
    lemma_zoom_event_at_origin(Frac { n: 5, d: 4 }, fint(1));
}

proof fn lemma_zoom_in_3()
    ensures
        zoom_in_scale(3) == (Frac { n: 125, d: 64 }),
{
    assert(fmul(Frac { n: 25, d: 16 }, factor_up()) == (Frac { n: 125, d: 64 }));
    assert(fclamp(Frac { n: 125, d: 64 }, Frac { n: 1, d: 5 }, Frac { n: 4, d: 1 }) == (Frac {
        n: 125,
        d: 64,
    }));
    assert(freduce(Frac { n: 125, d: 64 }) == (Frac { n: 125, d: 64 })) by {
        reveal_with_fuel(gcd, 7);
        assert(gcd(125, 64) == 1);
    }
    assert(scale_step(Frac { n: 25, d: 16 }, factor_up()) == (Frac { n: 125, d: 64 }));
    lemma_zoom_in_2();
    lemma_zoom_event_at_origin(Frac { n: 25, d: 16 }, fint(1));
}

proof fn lemma_zoom_in_4()
    ensures
        zoom_in_scale(4) == (Frac { n: 625, d: 256 }),
{
    assert(fmul(Frac { n: 125, d: 64 }, factor_up()) == (Frac { n: 625, d: 256 }));
    assert(fclamp(Frac { n: 625, d: 256 }, Frac { n: 1, d: 5 }, Frac { n: 4, d: 1 }) == (Frac {
        n: 625,
        d: 256,
    }));
    assert(freduce(Frac { n: 625, d: 256 }) == (Frac { n: 625, d: 256 })) by {
        reveal_with_fuel(gcd, 10);
        assert(gcd(625, 256) == 1);
    }
    assert(scale_step(Frac { n: 125, d: 64 }, factor_up()) == (Frac { n: 625, d: 256 }));
    lemma_zoom_in_3();
    lemma_zoom_event_at_origin(Frac { n: 125, d: 64 }, fint(1));
}

proof fn lemma_zoom_in_5()
    ensures
        zoom_in_scale(5) == (Frac { n: 3125, d: 1024 }),
{
    assert(fmul(Frac { n: 625, d: 256 }, factor_up()) == (Frac { n: 3125, d: 1024 }));
    assert(fclamp(Frac { n: 3125, d: 1024 }, Frac { n: 1, d: 5 }, Frac { n: 4, d: 1 }) == (Frac {
        n: 3125,
        d: 1024,
    }));
    assert(freduce(Frac { n: 3125, d: 1024 }) == (Frac { n: 3125, d: 1024 })) by {
        reveal_with_fuel(gcd, 8);
        assert(gcd(3125, 1024) == 1);
    }
    assert(scale_step(Frac { n: 625, d: 256 }, factor_up()) == (Frac { n: 3125, d: 1024 }));
    lemma_zoom_in_4();
    lemma_zoom_event_at_origin(Frac { n: 625, d: 256 }, fint(1));
}

proof fn lemma_zoom_in_6()
    ensures
        zoom_in_scale(6) == (Frac { n: 15625, d: 4096 }),
{
    assert(fmul(Frac { n: 3125, d: 1024 }, factor_up()) == (Frac { n: 15625, d: 4096 }));
    assert(fclamp(Frac { n: 15625, d: 4096 }, Frac { n: 1, d: 5 }, Frac { n: 4, d: 1 }) == (Frac {
        n: 15625,
        d: 4096,
    }));
    assert(freduce(Frac { n: 15625, d: 4096 }) == (Frac { n: 15625, d: 4096 })) by {
        reveal_with_fuel(gcd, 11);
        assert(gcd(15625, 4096) == 1);
    }
    assert(scale_step(Frac { n: 3125, d: 1024 }, factor_up()) == (Frac { n: 15625, d: 4096 }));
    lemma_zoom_in_5();
    lemma_zoom_event_at_origin(Frac { n: 3125, d: 1024 }, fint(1));
}

proof fn lemma_zoom_in_7()
    ensures
        zoom_in_scale(7) == (Frac { n: 4, d: 1 }),
{
    assert(fmul(Frac { n: 15625, d: 4096 }, factor_up()) == (Frac { n: 78125, d: 16384 }));
    assert(fclamp(Frac { n: 78125, d: 16384 }, Frac { n: 1, d: 5 }, Frac { n: 4, d: 1 }) == (Frac {
        n: 4,
        d: 1,
    }));
    assert(freduce(Frac { n: 4, d: 1 }) == (Frac { n: 4, d: 1 })) by {
        reveal_with_fuel(gcd, 4);
        assert(gcd(4, 1) == 1);
    }
    assert(scale_step(Frac { n: 15625, d: 4096 }, factor_up()) == (Frac { n: 4, d: 1 }));
    lemma_zoom_in_6();
    lemma_zoom_event_at_origin(Frac { n: 15625, d: 4096 }, fint(1));
}

proof fn lemma_zoom_out_1()
    ensures
        zoom_out_scale(1) == (Frac { n: 4, d: 5 }),
{
    assert(fmul(fint(1), factor_down()) == (Frac { n: 4, d: 5 }));
    assert(fclamp(Frac { n: 4, d: 5 }, Frac { n: 1, d: 5 }, Frac { n: 4, d: 1 }) == (Frac {
        n: 4,
        d: 5,
    }));
    assert(freduce(Frac { n: 4, d: 5 }) == (Frac { n: 4, d: 5 })) by {
        reveal_with_fuel(gcd, 6);
        assert(gcd(4, 5) == 1);
    }
    assert(scale_step(fint(1), factor_down()) == (Frac { n: 4, d: 5 }));
    assert(zoom_out_scale(0) == fint(1));
    lemma_zoom_event_at_origin(fint(1), fint(-1));
}

proof fn lemma_zoom_out_2()
    ensures
        zoom_out_scale(2) == (Frac { n: 16, d: 25 }),
{
    assert(fmul(Frac { n: 4, d: 5 }, factor_down()) == (Frac { n: 16, d: 25 }));
    assert(fclamp(Frac { n: 16, d: 25 }, Frac { n: 1, d: 5 }, Frac { n: 4, d: 1 }) == (Frac {
        n: 16,
        d: 25,
    }));
    assert(freduce(Frac { n: 16, d: 25 }) == (Frac { n: 16, d: 25 })) by {
        reveal_with_fuel(gcd, 9);
        assert(gcd(16, 25) == 1);
    }
    assert(scale_step(Frac { n: 4, d: 5 }, factor_down()) == (Frac { n: 16, d: 25 }));
    lemma_zoom_out_1();
    lemma_zoom_event_at_origin(Frac { n: 4, d: 5 }, fint(-1));
}

proof fn lemma_zoom_out_3()
    ensures
        zoom_out_scale(3) == (Frac { n: 64, d: 125 }),
{
    assert(fmul(Frac { n: 16, d: 25 }, factor_down()) == (Frac { n: 64, d: 125 }));
    assert(fclamp(Frac { n: 64, d: 125 }, Frac { n: 1, d: 5 }, Frac { n: 4, d: 1 }) == (Frac {
        n: 64,
        d: 125,
    }));
    assert(freduce(Frac { n: 64, d: 125 }) == (Frac { n: 64, d: 125 })) by {
        reveal_with_fuel(gcd, 8);
        assert(gcd(64, 125) == 1);
    }
    assert(scale_step(Frac { n: 16, d: 25 }, factor_down()) == (Frac { n: 64, d: 125 }));
    lemma_zoom_out_2();
    lemma_zoom_event_at_origin(Frac { n: 16, d: 25 }, fint(-1));
}

proof fn lemma_zoom_out_4()
    ensures
        zoom_out_scale(4) == (Frac { n: 256, d: 625 }),
{
    assert(fmul(Frac { n: 64, d: 125 }, factor_down()) == (Frac { n: 256, d: 625 }));
    assert(fclamp(Frac { n: 256, d: 625 }, Frac { n: 1, d: 5 }, Frac { n: 4, d: 1 }) == (Frac {
        n: 256,
        d: 625,
    }));
    assert(freduce(Frac { n: 256, d: 625 }) == (Frac { n: 256, d: 625 })) by {
        reveal_with_fuel(gcd, 11);
        assert(gcd(256, 625) == 1);
    }
    assert(scale_step(Frac { n: 64, d: 125 }, factor_down()) == (Frac { n: 256, d: 625 }));
    lemma_zoom_out_3();
    lemma_zoom_event_at_origin(Frac { n: 64, d: 125 }, fint(-1));
}

proof fn lemma_zoom_out_5()
    ensures
        zoom_out_scale(5) == (Frac { n: 1024, d: 3125 }),
{
    assert(fmul(Frac { n: 256, d: 625 }, factor_down()) == (Frac { n: 1024, d: 3125 }));
    assert(fclamp(Frac { n: 1024, d: 3125 }, Frac { n: 1, d: 5 }, Frac { n: 4, d: 1 }) == (Frac {
        n: 1024,
        d: 3125,
    }));
    assert(freduce(Frac { n: 1024, d: 3125 }) == (Frac { n: 1024, d: 3125 })) by {
        reveal_with_fuel(gcd, 9);
        assert(gcd(1024, 3125) == 1);
    }
    assert(scale_step(Frac { n: 256, d: 625 }, factor_down()) == (Frac { n: 1024, d: 3125 }));
    lemma_zoom_out_4();
    lemma_zoom_event_at_origin(Frac { n: 256, d: 625 }, fint(-1));
}

proof fn lemma_zoom_out_6()
    ensures
        zoom_out_scale(6) == (Frac { n: 4096, d: 15625 }),
{
    assert(fmul(Frac { n: 1024, d: 3125 }, factor_down()) == (Frac { n: 4096, d: 15625 }));
    assert(fclamp(Frac { n: 4096, d: 15625 }, Frac { n: 1, d: 5 }, Frac { n: 4, d: 1 }) == (Frac {
        n: 4096,
        d: 15625,
    }));
    assert(freduce(Frac { n: 4096, d: 15625 }) == (Frac { n: 4096, d: 15625 })) by {
        reveal_with_fuel(gcd, 12);
        assert(gcd(4096, 15625) == 1);
    }
    assert(scale_step(Frac { n: 1024, d: 3125 }, factor_down()) == (Frac { n: 4096, d: 15625 }));
    lemma_zoom_out_5();
    lemma_zoom_event_at_origin(Frac { n: 1024, d: 3125 }, fint(-1));
}

proof fn lemma_zoom_out_7()
    ensures
        zoom_out_scale(7) == (Frac { n: 16384, d: 78125 }),
{
    assert(fmul(Frac { n: 4096, d: 15625 }, factor_down()) == (Frac { n: 16384, d: 78125 }));
    assert(fclamp(Frac { n: 16384, d: 78125 }, Frac { n: 1, d: 5 }, Frac { n: 4, d: 1 }) == (Frac {
        n: 16384,
        d: 78125,
    }));
    assert(freduce(Frac { n: 16384, d: 78125 }) == (Frac { n: 16384, d: 78125 })) by {
        reveal_with_fuel(gcd, 16);
        assert(gcd(16384, 78125) == 1);
    }
    assert(scale_step(Frac { n: 4096, d: 15625 }, factor_down()) == (Frac { n: 16384, d: 78125 }));
    lemma_zoom_out_6();
    lemma_zoom_event_at_origin(Frac { n: 4096, d: 15625 }, fint(-1));
}

proof fn lemma_zoom_out_8()
    ensures
        zoom_out_scale(8) == (Frac { n: 1, d: 5 }),
{
    assert(fmul(Frac { n: 16384, d: 78125 }, factor_down()) == (Frac { n: 65536, d: 390625 }));
    assert(fclamp(Frac { n: 65536, d: 390625 }, Frac { n: 1, d: 5 }, Frac { n: 4, d: 1 }) == (Frac {
        n: 1,
        d: 5,
    }));
    assert(freduce(Frac { n: 1, d: 5 }) == (Frac { n: 1, d: 5 })) by {
        reveal_with_fuel(gcd, 5);
        assert(gcd(1, 5) == 1);
    }
    assert(scale_step(Frac { n: 16384, d: 78125 }, factor_down()) == (Frac { n: 1, d: 5 }));
    lemma_zoom_out_7();
    lemma_zoom_event_at_origin(Frac { n: 16384, d: 78125 }, fint(-1));
}

/// The zoom-in run computed step by step on the concrete values.
proof fn lemma_zoom_in_table()
    ensures
        forall|k: nat| k <= 7 ==> #[trigger] zoom_in_scale(k) == zoom_in_expected(k),
{
    assert(zoom_in_scale(0) == fint(1));
    lemma_zoom_in_1();
    lemma_zoom_in_2();
    lemma_zoom_in_3();
    lemma_zoom_in_4();
    lemma_zoom_in_5();
    lemma_zoom_in_6();
    lemma_zoom_in_7();
    assert forall|k: nat| k <= 7 implies #[trigger] zoom_in_scale(k) == zoom_in_expected(k) by {
        if k == 0 {
        } else if k == 1 {
            assert(zoom_in_scale(k) == zoom_in_scale(1));
        } else if k == 2 {
            assert(zoom_in_scale(k) == zoom_in_scale(2));
        } else if k == 3 {
            assert(zoom_in_scale(k) == zoom_in_scale(3));
        } else if k == 4 {
            assert(zoom_in_scale(k) == zoom_in_scale(4));
        } else if k == 5 {
            assert(zoom_in_scale(k) == zoom_in_scale(5));
        } else if k == 6 {
            assert(zoom_in_scale(k) == zoom_in_scale(6));
        } else {
            assert(zoom_in_scale(k) == zoom_in_scale(7));
        }
    }
}

/// The zoom-out run computed step by step on the concrete values.
proof fn lemma_zoom_out_table()
    ensures
        forall|k: nat| k <= 8 ==> #[trigger] zoom_out_scale(k) == zoom_out_expected(k),
{
    assert(zoom_out_scale(0) == fint(1));
    lemma_zoom_out_1();
    lemma_zoom_out_2();
    lemma_zoom_out_3();
    lemma_zoom_out_4();
    lemma_zoom_out_5();
    lemma_zoom_out_6();
    lemma_zoom_out_7();
    lemma_zoom_out_8();
    assert forall|k: nat| k <= 8 implies #[trigger] zoom_out_scale(k) == zoom_out_expected(k) by {
        if k == 0 {
        } else if k == 1 {
            assert(zoom_out_scale(k) == zoom_out_scale(1));
        } else if k == 2 {
            assert(zoom_out_scale(k) == zoom_out_scale(2));
        } else if k == 3 {
            assert(zoom_out_scale(k) == zoom_out_scale(3));
        } else if k == 4 {
            assert(zoom_out_scale(k) == zoom_out_scale(4));
        } else if k == 5 {
            assert(zoom_out_scale(k) == zoom_out_scale(5));
        } else if k == 6 {
            assert(zoom_out_scale(k) == zoom_out_scale(6));
        } else if k == 7 {
            assert(zoom_out_scale(k) == zoom_out_scale(7));
        } else {
            assert(zoom_out_scale(k) == zoom_out_scale(8));
        }
    }
}

} // verus!
