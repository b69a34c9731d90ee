//! Drag, pointer and menu behavior, driven through the public tick API.

use map_viewer::menu::{Interaction, MenuState};
use map_viewer::pointer::{cursor_to_screen, Camera, InputEvent, Viewport};
use map_viewer::rational::Rat;
use map_viewer::session::InteractionContext;
use map_viewer::vec2::Vec2r;

fn identity_camera() -> Camera {
    Camera::new(Vec2r::from_ints(0, 0), Rat::from_int(1))
}

fn zero_viewport() -> Viewport {
    Viewport::new(Rat::from_int(0), Rat::from_int(0))
}

fn moved(x: i128, y: i128) -> InputEvent {
    InputEvent::PointerMoved { x: Rat::from_int(x), y: Rat::from_int(y) }
}

fn scroll(dy: i128) -> InputEvent {
    InputEvent::ScrollDelta { dx: Rat::from_int(0), dy: Rat::from_int(dy) }
}

/// The object's translation equals `xn/xd, yn/yd` as rational numbers.
fn assert_pos(v: &Vec2r, xn: i128, xd: i128, yn: i128, yd: i128) {
    assert_eq!(v.x().num() * xd, xn * v.x().den());
    assert_eq!(v.y().num() * yd, yn * v.y().den());
}

fn tick_events(ctx: &mut InteractionContext, events: Vec<InputEvent>) {
    let cam = identity_camera();
    let vp = zero_viewport();
    let none: Vec<Interaction> = Vec::new();
    ctx.tick(&events, &none, Some(&cam), &vp).unwrap();
}

#[test]
fn pointer_mapping_is_deterministic() {
    // mapping the same device coordinate twice gives the same world point
    let cam = Camera::new(Vec2r::from_ints(10, 20), Rat::new(1, 2));
    let vp = Viewport::new(Rat::from_int(800), Rat::from_int(600));
    let dev = Vec2r::from_ints(500, 350);
    let a = cursor_to_screen(&vp, &cam, &dev);
    let b = cursor_to_screen(&vp, &cam, &dev);
    assert_eq!(a.x().num(), b.x().num());
    assert_eq!(a.x().den(), b.x().den());
    assert_eq!(a.y().num(), b.y().num());
    assert_eq!(a.y().den(), b.y().den());
    // world = translation + scale * (device - viewport/2) = (60, 45)
    assert_pos(&a, 60, 1, 45, 1);
}

#[test]
fn press_move_release_scenario() {
    // object at the origin, pointer at (100, 50), press, drag to
    // (120, 60): the grab-time offset (-100, -50) is preserved, so the
    // object lands at (20, 10); release freezes it there.
    let mut ctx = InteractionContext::with_reference_bounds();
    ctx.registry.add_object(true, false, Vec2r::from_ints(0, 0), Rat::from_int(1));
    tick_events(&mut ctx, vec![moved(100, 50)]);
    tick_events(&mut ctx, vec![InputEvent::ButtonPressed]);
    assert!(ctx.registry.is_following(0));
    assert_pos(&ctx.registry.translation_of(0), 0, 1, 0, 1);
    tick_events(&mut ctx, vec![moved(120, 60)]);
    assert_pos(&ctx.registry.translation_of(0), 20, 1, 10, 1);
    tick_events(&mut ctx, vec![InputEvent::ButtonReleased]);
    assert!(!ctx.registry.is_following(0));
    // five more ticks with the pointer moving elsewhere: frozen
    for step in 0..5 {
        tick_events(&mut ctx, vec![moved(500 + step, 700 - step)]);
        assert_pos(&ctx.registry.translation_of(0), 20, 1, 10, 1);
    }
}

#[test]
fn drag_tracks_one_to_one() {
    // successive moves while held: position is always pointer + offset
    let mut ctx = InteractionContext::with_reference_bounds();
    ctx.registry.add_object(true, false, Vec2r::from_ints(7, -3), Rat::from_int(1));
    tick_events(&mut ctx, vec![moved(10, 10), InputEvent::ButtonPressed]);
    // offset = (7, -3) - (10, 10) = (-3, -13)
    for (px, py) in [(15, 20), (-40, 3), (0, 0), (1000, -1000)] {
        tick_events(&mut ctx, vec![moved(px, py)]);
        assert_pos(&ctx.registry.translation_of(0), px - 3, 1, py - 13, 1);
    }
}

#[test]
fn duplicate_button_edges_are_noops() {
    let mut ctx = InteractionContext::with_reference_bounds();
    tick_events(&mut ctx, vec![InputEvent::ButtonPressed, InputEvent::ButtonPressed]);
    assert!(ctx.pointer.is_held());
    tick_events(&mut ctx, vec![InputEvent::ButtonReleased, InputEvent::ButtonReleased]);
    assert!(!ctx.pointer.is_held());
    // press and release within one tick: the last edge wins
    tick_events(&mut ctx, vec![InputEvent::ButtonPressed, InputEvent::ButtonReleased]);
    assert!(!ctx.pointer.is_held());
}

#[test]
fn last_move_event_is_authoritative() {
    let mut ctx = InteractionContext::with_reference_bounds();
    tick_events(&mut ctx, vec![moved(1, 2), moved(30, 40)]);
    let p = ctx.pointer.position();
    assert_pos(&p, 30, 1, 40, 1);
}

#[test]
fn missing_camera_fails_only_with_moves() {
    let mut ctx = InteractionContext::with_reference_bounds();
    let vp = zero_viewport();
    let none: Vec<Interaction> = Vec::new();
    // button events alone do not need the camera
    let r = ctx.tick(&vec![InputEvent::ButtonPressed], &none, None, &vp);
    assert!(r.is_ok());
    assert!(ctx.pointer.is_held());
    // a move event with no camera is the precondition violation
    let r = ctx.tick(&vec![moved(5, 5)], &none, None, &vp);
    assert!(r.is_err());
}

#[test]
fn no_movable_objects_is_a_noop() {
    let mut ctx = InteractionContext::with_reference_bounds();
    ctx.registry.add_object(false, true, Vec2r::from_ints(4, 4), Rat::from_int(1));
    tick_events(&mut ctx, vec![moved(9, 9), InputEvent::ButtonPressed]);
    assert!(!ctx.registry.is_following(0));
    assert_pos(&ctx.registry.translation_of(0), 4, 1, 4, 1);
}

#[test]
fn first_movable_object_is_picked() {
    let mut ctx = InteractionContext::with_reference_bounds();
    ctx.registry.add_object(false, false, Vec2r::from_ints(1, 1), Rat::from_int(1));
    ctx.registry.add_object(true, false, Vec2r::from_ints(2, 2), Rat::from_int(1));
    ctx.registry.add_object(true, false, Vec2r::from_ints(3, 3), Rat::from_int(1));
    tick_events(&mut ctx, vec![moved(0, 0), InputEvent::ButtonPressed]);
    assert!(!ctx.registry.is_following(0));
    assert!(ctx.registry.is_following(1));
    assert!(!ctx.registry.is_following(2));
    tick_events(&mut ctx, vec![moved(10, 10)]);
    // the picked object follows, the others stand still
    assert_pos(&ctx.registry.translation_of(1), 12, 1, 12, 1);
    assert_pos(&ctx.registry.translation_of(0), 1, 1, 1, 1);
    assert_pos(&ctx.registry.translation_of(2), 3, 1, 3, 1);
}

#[test]
fn dragged_object_ignores_scrolls_unless_zoomable() {
    let mut ctx = InteractionContext::with_reference_bounds();
    ctx.registry.add_object(true, false, Vec2r::from_ints(0, 0), Rat::from_int(1));
    tick_events(&mut ctx, vec![moved(50, 50), scroll(1)]);
    assert_pos(&ctx.registry.translation_of(0), 0, 1, 0, 1);
    assert_eq!(ctx.registry.scale_of(0).num(), 1);
    assert_eq!(ctx.registry.scale_of(0).den(), 1);
}

#[test]
fn menu_click_toggles_and_moves_panel() {
    let mut menu = MenuState::new();
    assert!(!menu.is_expanded());
    assert_eq!(menu.translation_x().num(), -400);
    // the pending retract from setup applies once
    menu.menu_tick(&Vec::new());
    assert_eq!(menu.translation_x().num(), -400);
    menu.menu_tick(&vec![Interaction::Clicked]);
    assert!(menu.is_expanded());
    assert_eq!(menu.translation_x().num(), 0);
    menu.menu_tick(&vec![Interaction::Clicked]);
    assert!(!menu.is_expanded());
    assert_eq!(menu.translation_x().num(), -400);
    assert_eq!(menu.translation_x().den(), 1);
}

#[test]
fn menu_takes_only_the_last_interaction() {
    let mut menu = MenuState::new();
    menu.menu_tick(&Vec::new());
    // a click superseded by a hover does nothing
    menu.menu_tick(&vec![Interaction::Clicked, Interaction::Hovered]);
    assert!(!menu.is_expanded());
    assert_eq!(menu.translation_x().num(), -400);
    // a hover superseded by a click toggles
    menu.menu_tick(&vec![Interaction::Hovered, Interaction::Clicked]);
    assert!(menu.is_expanded());
    assert_eq!(menu.translation_x().num(), 0);
}

#[test]
fn empty_event_queue_changes_nothing() {
    let mut ctx = InteractionContext::with_reference_bounds();
    ctx.registry.add_object(true, true, Vec2r::from_ints(6, 7), Rat::from_int(1));
    tick_events(&mut ctx, Vec::new());
    assert!(!ctx.pointer.is_held());
    assert_pos(&ctx.registry.translation_of(0), 6, 1, 7, 1);
    assert_eq!(ctx.registry.scale_of(0).num(), 1);
    assert_eq!(ctx.registry.scale_of(0).den(), 1);
}

#[test]
fn camera_transform_feeds_pointer_mapping() {
    // a camera at (10, 20) with scale 1/2 maps device (500, 350) on an
    // 800 by 600 window to (60, 45); panning the camera moves the result
    let mut ctx = InteractionContext::with_reference_bounds();
    let cam = Camera::new(Vec2r::from_ints(10, 20), Rat::new(1, 2));
    let vp = Viewport::new(Rat::from_int(800), Rat::from_int(600));
    let none: Vec<Interaction> = Vec::new();
    ctx.tick(&vec![moved(500, 350)], &none, Some(&cam), &vp).unwrap();
    assert_pos(&ctx.pointer.position(), 60, 1, 45, 1);
    let cam2 = Camera::new(Vec2r::from_ints(-30, 20), Rat::new(1, 2));
    ctx.tick(&vec![moved(500, 350)], &none, Some(&cam2), &vp).unwrap();
    assert_pos(&ctx.pointer.position(), 20, 1, 45, 1);
}
