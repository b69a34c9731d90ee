//! Pointer tracking: turns the tick's raw input events and the window
//! geometry into a world-space pointer position and a held flag.

use vstd::prelude::*;

use crate::rational::{fbounded, fhalf, fwf, lemma_abs_mul, Frac, Rat};
use crate::vec2::{f2add, f2bounded, f2scale, f2store, f2sub, f2wf, Frac2, Vec2r};

verus! {

/// A required singleton (the camera) was absent while events needed it;
/// fatal configuration error, prevented by startup ordering.
#[derive(Clone, Copy, Debug, PartialEq, Eq, Structural)]
pub struct PreconditionError;

/// One raw input event, in arrival order within a tick.
#[derive(Clone, Copy, Debug)]
pub enum InputEvent {
    /// The pointer moved to this device coordinate.
    PointerMoved { x: Rat, y: Rat },
    /// The primary button went down.
    ButtonPressed,
    /// The primary button went up.
    ButtonReleased,
    /// The scroll wheel turned; positive `dy` is away from the user.
    ScrollDelta { dx: Rat, dy: Rat },
}

/// The event's payload can be stored and computed with.
pub open spec fn event_ok(e: InputEvent) -> bool {
    match e {
        InputEvent::PointerMoved { x, y } => fbounded(x@) && fbounded(y@),
        InputEvent::ScrollDelta { dx, dy } => fwf(dx@) && fwf(dy@),
        _ => true,
    }
}

pub open spec fn events_ok(evs: Seq<InputEvent>) -> bool {
    forall|i: int| 0 <= i < evs.len() ==> event_ok(#[trigger] evs[i])
}

/// The active camera's pose: scale, then translation.
pub struct Camera {
    translation: Vec2r,
    scale: Rat,
}

pub struct CameraV {
    pub translation: Frac2,
    pub scale: Frac,
}

impl View for Camera {
    type V = CameraV;

    closed spec fn view(&self) -> CameraV {
        CameraV { translation: self.translation@, scale: self.scale@ }
    }
}

impl Camera {
    pub open spec fn wf(&self) -> bool {
        f2wf(self@.translation) && fwf(self@.scale)
    }

    pub open spec fn bounded(&self) -> bool {
        f2bounded(self@.translation) && fbounded(self@.scale)
    }

    pub fn new(translation: Vec2r, scale: Rat) -> (r: Camera)
        ensures
            r@ == (CameraV { translation: translation@, scale: scale@ }),
    {
        Camera { translation: translation, scale: scale }
    }
}

/// The window's drawable size in device pixels.
pub struct Viewport {
    width: Rat,
    height: Rat,
}

pub struct ViewportV {
    pub width: Frac,
    pub height: Frac,
}

impl View for Viewport {
    type V = ViewportV;

    closed spec fn view(&self) -> ViewportV {
        ViewportV { width: self.width@, height: self.height@ }
    }
}

impl Viewport {
    pub open spec fn wf(&self) -> bool {
        fwf(self@.width) && fwf(self@.height)
    }

    pub open spec fn bounded(&self) -> bool {
        fbounded(self@.width) && fbounded(self@.height)
    }

    pub fn new(width: Rat, height: Rat) -> (r: Viewport)
        ensures
            r@ == (ViewportV { width: width@, height: height@ }),
    {
        Viewport { width: width, height: height }
    }
}

/// Where a device coordinate lands in the world: the viewport center
/// becomes the origin, then the camera's transform (scale, then
/// translation — the inverse of its view transform) is applied.
pub open spec fn cursor_to_screen_spec(cam: CameraV, vp: ViewportV, dev: Frac2) -> Frac2 {
    f2add(
        cam.translation,
        f2scale(cam.scale, f2sub(dev, Frac2 { x: fhalf(vp.width), y: fhalf(vp.height) })),
    )
}

/// The device coordinate of the last pointer-move event, if any.
pub open spec fn last_move(evs: Seq<InputEvent>) -> Option<Frac2>
    decreases evs.len(),
{
    if evs.len() == 0 {
        None
    } else {
        match evs.last() {
            InputEvent::PointerMoved { x, y } => Some(Frac2 { x: x@, y: y@ }),
            _ => last_move(evs.drop_last()),
        }
    }
}

/// Whether the tick saw a pointer-move event.
pub open spec fn has_move(evs: Seq<InputEvent>) -> bool {
    last_move(evs) is Some
}

/// The held flag after the tick: the last button event decides, earlier
/// button events and duplicate edges are superseded.
pub open spec fn held_fold(h: bool, evs: Seq<InputEvent>) -> bool
    decreases evs.len(),
{
    if evs.len() == 0 {
        h
    } else {
        match evs.last() {
            InputEvent::ButtonPressed => true,
            InputEvent::ButtonReleased => false,
            _ => held_fold(h, evs.drop_last()),
        }
    }
}

/// The position after the tick: only the last move event is
/// authoritative; with no move the position stays stale.
pub open spec fn pos_fold(p: Frac2, evs: Seq<InputEvent>, cam: CameraV, vp: ViewportV) -> Frac2 {
    match last_move(evs) {
        Some(dev) => f2store(cursor_to_screen_spec(cam, vp, dev), p),
        None => p,
    }
}

/// Pointer mapping is a pure function of camera, viewport and device
/// coordinate: for a stationary camera and viewport, mapping the same
/// device coordinate twice yields the same world coordinate.
pub proof fn lemma_pointer_mapping_idempotent(cam: CameraV, vp: ViewportV, d1: Frac2, d2: Frac2)
    requires
        d1 == d2,
    ensures
        cursor_to_screen_spec(cam, vp, d1) == cursor_to_screen_spec(cam, vp, d2),
{
}

/// A tick that ends with a move event puts the pointer at that event's
/// mapped position, whatever came before it.
pub proof fn lemma_last_move_authoritative(
    p: Frac2,
    evs: Seq<InputEvent>,
    e: InputEvent,
    cam: CameraV,
    vp: ViewportV,
)
    requires
        e is PointerMoved,
    ensures
        (e matches InputEvent::PointerMoved { x, y } ==> pos_fold(p, evs.push(e), cam, vp)
            == f2store(cursor_to_screen_spec(cam, vp, Frac2 { x: x@, y: y@ }), p)),
{
    assert(evs.push(e).last() == e);
}

/// World-space pointer state, updated once per tick; `position` is stale
/// between moves and `held` follows the primary button's edges.
pub struct PointerState {
    position: Vec2r,
    held: bool,
}

pub struct PointerStateV {
    pub position: Frac2,
    pub held: bool,
}

impl View for PointerState {
    type V = PointerStateV;

    closed spec fn view(&self) -> PointerStateV {
        PointerStateV { position: self.position@, held: self.held }
    }
}

impl PointerState {
    /// Stored-state invariant: the position is a well-formed, bounded
    /// pair of rationals.
    pub open spec fn wf(&self) -> bool {
        f2wf(self@.position) && f2bounded(self@.position)
    }

    /// Initial state: pointer at the world origin, button up.
    pub fn new() -> (r: PointerState)
        ensures
            r.wf(),
            r@.held == false,
            r@.position == (Frac2 {
                x: crate::rational::fint(0),
                y: crate::rational::fint(0),
            }),
    {
        PointerState { position: Vec2r::from_ints(0, 0), held: false }
    }

    pub fn position(&self) -> (r: Vec2r)
        ensures
            r@ == self@.position,
    {
        self.position
    }

    pub fn is_held(&self) -> (r: bool)
        ensures
            r == self@.held,
    {
        self.held
    }

    /// Consume the tick's events in arrival order: button edges set the
    /// held flag, the last move event fixes the position.  A move event
    /// with no camera present is the fatal precondition violation.
    pub fn change_cursor_state(
        &mut self,
        events: &Vec<InputEvent>,
        cam: Option<&Camera>,
        window: &Viewport,
    ) -> (r: Result<(), PreconditionError>)
        requires
            old(self).wf(),
            events_ok(events@),
            window.bounded(),
            cam matches Some(c) ==> c.bounded(),
        ensures
            final(self).wf(),
            final(self)@.held == held_fold(old(self)@.held, events@),
            (match cam {
                Some(c) => r is Ok && final(self)@.position == pos_fold(
                    old(self)@.position,
                    events@,
                    c@,
                    window@,
                ),
                None => final(self)@.position == old(self)@.position && (r is Err <==> has_move(
                    events@,
                )),
            }),
    {
        let ghost evs = events@;
        let ghost h0 = self.held;
        let mut held: bool = self.held;
        let mut last: Option<Vec2r> = None;
        let mut i: usize = 0;
        let n: usize = events.len();
        while i < n
            invariant
                0 <= i <= n,
                n == evs.len(),
                evs == events@,
                events_ok(evs),
                held == held_fold(h0, evs.subrange(0, i as int)),
                (match last {
                    Some(v) => last_move(evs.subrange(0, i as int)) == Some(v@) && v.wf()
                        && f2bounded(v@),
                    None => last_move(evs.subrange(0, i as int)) is None,
                }),
            decreases n - i,
        {
            let ghost prefix = evs.subrange(0, i as int);
            let ghost prefix1 = evs.subrange(0, i as int + 1);
            proof {
                assert(prefix1.drop_last() =~= prefix);
                assert(prefix1.last() == evs[i as int]);
            }
            match events[i] {
                InputEvent::PointerMoved { x, y } => {
                    assert(event_ok(evs[i as int]));
                    last = Some(Vec2r::new(x, y));
                },
                InputEvent::ButtonPressed => {
                    held = true;
                },
                InputEvent::ButtonReleased => {
                    held = false;
                },
                InputEvent::ScrollDelta { .. } => {},
            }
            i = i + 1;
        }
        proof {
            assert(evs.subrange(0, n as int) =~= evs);
        }
        self.held = held;
        match last {
            None => Ok(()),
            Some(dev) => {
                match cam {
                    None => Err(PreconditionError),
                    Some(c) => {
                        let mapped = cursor_to_screen(window, c, &dev);
                        proof {
                            lemma_map_bounds(c@, window@, dev@);
                        }
                        let reduced = mapped.normalize2();
                        let stored = Vec2r::fit_or_keep2(&reduced, &self.position);
                        self.position = stored;
                        Ok(())
                    },
                }
            },
        }
    }
}

/// Component magnitudes of the exact mapping result, small enough for
/// every intermediate product to fit in an `i128`.
pub proof fn lemma_map_bounds(cam: CameraV, vp: ViewportV, dev: Frac2)
    requires
        f2bounded(cam.translation),
        fbounded(cam.scale),
        fbounded(vp.width),
        fbounded(vp.height),
        f2bounded(dev),
    ensures
        ({
            let r = cursor_to_screen_spec(cam, vp, dev);
            &&& -0x5000000000000000000000000 <= r.x.n <= 0x5000000000000000000000000
            &&& 1 <= r.x.d <= 0x2000000000000000000000000
            &&& -0x5000000000000000000000000 <= r.y.n <= 0x5000000000000000000000000
            &&& 1 <= r.y.d <= 0x2000000000000000000000000
        }),
{
    let half = Frac2 { x: fhalf(vp.width), y: fhalf(vp.height) };
    let centered = f2sub(dev, half);
    lemma_abs_mul(dev.x.n, half.x.d, 0x1000000, 0x2000000);
    lemma_abs_mul(half.x.n, dev.x.d, 0x1000000, 0x1000000);
    lemma_abs_mul(dev.x.d, half.x.d, 0x1000000, 0x2000000);
    lemma_abs_mul(dev.y.n, half.y.d, 0x1000000, 0x2000000);
    lemma_abs_mul(half.y.n, dev.y.d, 0x1000000, 0x1000000);
    lemma_abs_mul(dev.y.d, half.y.d, 0x1000000, 0x2000000);
    assert(-0x3000000000000 <= centered.x.n <= 0x3000000000000);
    assert(1 <= centered.x.d <= 0x2000000000000) by {
        vstd::arithmetic::mul::lemma_mul_strictly_positive(dev.x.d, half.x.d);
    }
    assert(-0x3000000000000 <= centered.y.n <= 0x3000000000000);
    assert(1 <= centered.y.d <= 0x2000000000000) by {
        vstd::arithmetic::mul::lemma_mul_strictly_positive(dev.y.d, half.y.d);
    }
    let scaled = f2scale(cam.scale, centered);
    lemma_abs_mul(cam.scale.n, centered.x.n, 0x1000000, 0x3000000000000);
    lemma_abs_mul(cam.scale.d, centered.x.d, 0x1000000, 0x2000000000000);
    lemma_abs_mul(cam.scale.n, centered.y.n, 0x1000000, 0x3000000000000);
    lemma_abs_mul(cam.scale.d, centered.y.d, 0x1000000, 0x2000000000000);
    assert(1 <= scaled.x.d) by {
        vstd::arithmetic::mul::lemma_mul_strictly_positive(cam.scale.d, centered.x.d);
    }
    assert(1 <= scaled.y.d) by {
        vstd::arithmetic::mul::lemma_mul_strictly_positive(cam.scale.d, centered.y.d);
    }
    let t = cam.translation;
    lemma_abs_mul(t.x.n, scaled.x.d, 0x1000000, 0x2000000000000000000);
    lemma_abs_mul(scaled.x.n, t.x.d, 0x3000000000000000000, 0x1000000);
    lemma_abs_mul(t.x.d, scaled.x.d, 0x1000000, 0x2000000000000000000);
    lemma_abs_mul(t.y.n, scaled.y.d, 0x1000000, 0x2000000000000000000);
    lemma_abs_mul(scaled.y.n, t.y.d, 0x3000000000000000000, 0x1000000);
    lemma_abs_mul(t.y.d, scaled.y.d, 0x1000000, 0x2000000000000000000);
    assert(1 <= t.x.d * scaled.x.d) by {
        vstd::arithmetic::mul::lemma_mul_strictly_positive(t.x.d, scaled.x.d);
    }
    assert(1 <= t.y.d * scaled.y.d) by {
        vstd::arithmetic::mul::lemma_mul_strictly_positive(t.y.d, scaled.y.d);
    }
}

/// Map a device coordinate to world coordinates: relative position of
/// the cursor, with the viewport middle as origin, carried through the
/// camera's transform.
pub fn cursor_to_screen(window: &Viewport, cam_transform: &Camera, cursor_pos: &Vec2r) -> (r: Vec2r)
    requires
        window.bounded(),
        cam_transform.bounded(),
        f2bounded(cursor_pos@),
    ensures
        r@ == cursor_to_screen_spec(cam_transform@, window@, cursor_pos@),
        r.wf(),
{
    let half = Vec2r::new(window.width.half(), window.height.half());
    proof {
        lemma_abs_mul(cursor_pos@.x.n, half@.x.d, 0x1000000, 0x2000000);
        lemma_abs_mul(half@.x.n, cursor_pos@.x.d, 0x1000000, 0x1000000);
        lemma_abs_mul(cursor_pos@.x.d, half@.x.d, 0x1000000, 0x2000000);
        lemma_abs_mul(cursor_pos@.y.n, half@.y.d, 0x1000000, 0x2000000);
        lemma_abs_mul(half@.y.n, cursor_pos@.y.d, 0x1000000, 0x1000000);
        lemma_abs_mul(cursor_pos@.y.d, half@.y.d, 0x1000000, 0x2000000);
    }
    let centered = cursor_pos.sub2(&half);
    proof {
        lemma_abs_mul(cam_transform@.scale.n, centered@.x.n, 0x1000000, 0x3000000000000);
        lemma_abs_mul(cam_transform@.scale.d, centered@.x.d, 0x1000000, 0x2000000000000);
        lemma_abs_mul(cam_transform@.scale.n, centered@.y.n, 0x1000000, 0x3000000000000);
        lemma_abs_mul(cam_transform@.scale.d, centered@.y.d, 0x1000000, 0x2000000000000);
    }
    let scaled = centered.scale2(&cam_transform.scale);
    proof {
        let t = cam_transform@.translation;
        lemma_abs_mul(t.x.n, scaled@.x.d, 0x1000000, 0x2000000000000000000);
        lemma_abs_mul(scaled@.x.n, t.x.d, 0x3000000000000000000, 0x1000000);
        lemma_abs_mul(t.x.d, scaled@.x.d, 0x1000000, 0x2000000000000000000);
        lemma_abs_mul(t.y.n, scaled@.y.d, 0x1000000, 0x2000000000000000000);
        lemma_abs_mul(scaled@.y.n, t.y.d, 0x3000000000000000000, 0x1000000);
        lemma_abs_mul(t.y.d, scaled@.y.d, 0x1000000, 0x2000000000000000000);
    }
    cam_transform.translation.add2(&scaled)
}

} // verus!
