//! Zoom behavior: multiplicative steps, clamping, cursor anchoring, and
//! the additive map-layer variant.

use map_viewer::menu::Interaction;
use map_viewer::pointer::{Camera, InputEvent, Viewport};
use map_viewer::rational::Rat;
use map_viewer::session::InteractionContext;
use map_viewer::vec2::Vec2r;
use map_viewer::zoom::{map_scrolling, zoom_step};

fn min_scale() -> Rat {
    Rat::new(1, 5)
}

fn max_scale() -> Rat {
    Rat::new(4, 1)
}

fn scroll(dy: i128) -> InputEvent {
    InputEvent::ScrollDelta { dx: Rat::from_int(0), dy: Rat::from_int(dy) }
}

/// `r` equals `n/d` as a rational number.
fn assert_rat(r: &Rat, n: i128, d: i128) {
    assert_eq!(r.num() * d, n * r.den());
}

#[test]
fn one_scroll_up_scales_and_recenters() {
    // scale 1, translation (0, 0), pointer at (50, 50); one wheel-up
    // step gives scale 5/4 and translation (-12.5, -12.5)
    let mut ctx = InteractionContext::with_reference_bounds();
    ctx.registry.add_object(false, true, Vec2r::from_ints(0, 0), Rat::from_int(1));
    let cam = Camera::new(Vec2r::from_ints(0, 0), Rat::from_int(1));
    let vp = Viewport::new(Rat::from_int(0), Rat::from_int(0));
    let none: Vec<Interaction> = Vec::new();
    let mv = InputEvent::PointerMoved { x: Rat::from_int(50), y: Rat::from_int(50) };
    ctx.tick(&vec![mv], &none, Some(&cam), &vp).unwrap();
    ctx.tick(&vec![scroll(1)], &none, Some(&cam), &vp).unwrap();
    let s = ctx.registry.scale_of(0);
    assert_eq!(s.num(), 5);
    assert_eq!(s.den(), 4);
    let t = ctx.registry.translation_of(0);
    assert_eq!(t.x().num(), -25);
    assert_eq!(t.x().den(), 2);
    assert_eq!(t.y().num(), -25);
    assert_eq!(t.y().den(), 2);
}

#[test]
fn repeated_zoom_in_reaches_and_stays_at_max() {
    // from scale 1, seven wheel-up steps land exactly on 4; further
    // steps change nothing at all
    let mut t = Vec2r::from_ints(0, 0);
    let mut s = Rat::from_int(1);
    let cursor = Vec2r::from_ints(100, 50);
    let up = Rat::from_int(1);
    let mut reached: i32 = -1;
    for step in 0..7 {
        let r = zoom_step(&t, &s, &cursor, &up, &min_scale(), &max_scale());
        t = r.0;
        s = r.1;
        // never exceeds the maximum on the way
        assert!(s.num() * 1 <= 4 * s.den());
        if s.num() == 4 && s.den() == 1 && reached < 0 {
            reached = step;
        }
    }
    assert_eq!(reached, 6);
    assert_eq!(s.num(), 4);
    assert_eq!(s.den(), 1);
    // at the bound: scale and translation both stay put
    let (tx, ty) = (t.x(), t.y());
    let r = zoom_step(&t, &s, &cursor, &up, &min_scale(), &max_scale());
    assert_eq!(r.1.num(), 4);
    assert_eq!(r.1.den(), 1);
    assert_eq!(r.0.x().num(), tx.num());
    assert_eq!(r.0.x().den(), tx.den());
    assert_eq!(r.0.y().num(), ty.num());
    assert_eq!(r.0.y().den(), ty.den());
}

#[test]
fn repeated_zoom_out_floors_at_min() {
    let mut t = Vec2r::from_ints(0, 0);
    let mut s = Rat::from_int(1);
    let cursor = Vec2r::from_ints(100, 50);
    let down = Rat::from_int(-1);
    for _step in 0..8 {
        let r = zoom_step(&t, &s, &cursor, &down, &min_scale(), &max_scale());
        t = r.0;
        s = r.1;
        // never drops under the minimum
        assert!(1 * s.den() <= s.num() * 5);
    }
    assert_eq!(s.num(), 1);
    assert_eq!(s.den(), 5);
    // at the floor: nothing changes any more
    let (tx, ty) = (t.x(), t.y());
    let r = zoom_step(&t, &s, &cursor, &down, &min_scale(), &max_scale());
    assert_eq!(r.1.num(), 1);
    assert_eq!(r.1.den(), 5);
    assert_eq!(r.0.x().num(), tx.num());
    assert_eq!(r.0.x().den(), tx.den());
    assert_eq!(r.0.y().num(), ty.num());
    assert_eq!(r.0.y().den(), ty.den());
}

#[test]
fn zoom_anchors_the_point_under_the_cursor() {
    // object at (10, 20), scale 1, pointer at (100, 40): after one step
    // the pre-image of the pointer is unchanged on both axes:
    // (p - t) / s == (p - t') / s'
    let t = Vec2r::from_ints(10, 20);
    let s = Rat::from_int(1);
    let cursor = Vec2r::from_ints(100, 40);
    let r = zoom_step(&t, &s, &cursor, &Rat::from_int(1), &min_scale(), &max_scale());
    let (t2, s2) = (r.0, r.1);
    // cross-multiplied equality of (p - t)/s and (p - t')/s', per axis
    let old_nx = (100 * t.x().den() - t.x().num()) * s.den();
    let old_dx = t.x().den() * s.num();
    let new_nx = (100 * t2.x().den() - t2.x().num()) * s2.den();
    let new_dx = t2.x().den() * s2.num();
    assert_eq!(old_nx * new_dx, new_nx * old_dx);
    let old_ny = (40 * t.y().den() - t.y().num()) * s.den();
    let old_dy = t.y().den() * s.num();
    let new_ny = (40 * t2.y().den() - t2.y().num()) * s2.den();
    let new_dy = t2.y().den() * s2.num();
    assert_eq!(old_ny * new_dy, new_ny * old_dy);
    // and the step really did something
    assert_rat(&s2, 5, 4);
}

#[test]
fn zero_scroll_delta_does_nothing() {
    let t = Vec2r::from_ints(3, 4);
    let s = Rat::new(3, 2);
    let r = zoom_step(&t, &s, &Vec2r::from_ints(9, 9), &Rat::from_int(0), &min_scale(), &max_scale());
    assert_eq!(r.0.x().num(), 3);
    assert_eq!(r.0.y().num(), 4);
    assert_eq!(r.1.num(), 3);
    assert_eq!(r.1.den(), 2);
}

#[test]
fn scroll_events_compose_in_order() {
    // up then down returns to the start only through the exact ratios:
    // 1 * 5/4 * 4/5 == 1
    let mut ctx = InteractionContext::with_reference_bounds();
    ctx.registry.add_object(false, true, Vec2r::from_ints(0, 0), Rat::from_int(1));
    let cam = Camera::new(Vec2r::from_ints(0, 0), Rat::from_int(1));
    let vp = Viewport::new(Rat::from_int(0), Rat::from_int(0));
    let none: Vec<Interaction> = Vec::new();
    let mv = InputEvent::PointerMoved { x: Rat::from_int(50), y: Rat::from_int(50) };
    ctx.tick(&vec![mv], &none, Some(&cam), &vp).unwrap();
    ctx.tick(&vec![scroll(1), scroll(-1)], &none, Some(&cam), &vp).unwrap();
    assert_rat(&ctx.registry.scale_of(0), 1, 1);
    // the translation also returns: anchoring both steps at the same
    // cursor position inverts exactly
    let t = ctx.registry.translation_of(0);
    assert_rat(&t.x(), 0, 1);
    assert_rat(&t.y(), 0, 1);
}

#[test]
fn map_scrolling_adds_and_floors() {
    let one_up = map_scrolling(&Rat::from_int(1), &Rat::from_int(1));
    assert_rat(&one_up, 2, 1);
    // 3/5 - 1 would be negative: floored at one half
    let floored = map_scrolling(&Rat::new(3, 5), &Rat::from_int(-1));
    assert_rat(&floored, 1, 2);
    // just above the floor stays exact: 4/5 - 1/4 = 11/20
    let fine = map_scrolling(&Rat::new(4, 5), &Rat::new(-1, 4));
    assert_rat(&fine, 11, 20);
}
