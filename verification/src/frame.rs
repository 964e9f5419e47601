//! Per-frame input handling: discrete input events collected over a frame,
//! folded into an accumulator, and applied to the camera and window view.

use vstd::prelude::*;
use crate::fixed::{ONE, fmul, fmul_spec, lemma_fmul_spec_bound, lemma_mul_bound, sat_add, sat_add_spec};
use crate::math::{COORD_LIMIT, HasLength, Vec2, clamped, lemma_norm_spec_bounds};
use crate::view::{Camera, WindowView, ZOOM_MIN, ZOOM_MAX};

verus! {

/// Camera pan speed, in units per second.
pub const CAMERA_SPEED: i64 = 5_000_000;

/// Zoom level added per mouse-wheel line.
pub const CAMERA_ZOOM_UNIT: i64 = 100_000;

/// Largest wheel total whose zoom product stays inside an `i64`:
/// `i64::MAX / CAMERA_ZOOM_UNIT`, rounded down.
pub const MAX_WHEEL: i64 = 92_233_720_368_547;

/// Longest frame duration, in fixed-point seconds, whose pan displacement
/// product stays inside an `i64`: `i64::MAX / (CAMERA_SPEED * ONE)`,
/// rounded down — about 21 days.
pub const MAX_ELAPSED: i64 = 1_844_674_407_370;

/// One of the four directional keys.
#[derive(Clone, Copy, PartialEq, Eq, Structural, Debug)]
pub enum MoveKey {
    W,
    A,
    S,
    D,
}

/// A discrete input event observed during one frame.
#[derive(Clone, Copy, PartialEq, Eq, Structural, Debug)]
pub enum InputEvent {
    /// The window was asked to close.
    Close,
    /// A directional key went down.
    Key(MoveKey),
    /// Mouse-wheel movement, in fixed-point lines.
    Wheel(i64),
    /// The window was resized to the given width and height.
    Resize(u32, u32),
}

/// The input of one frame, folded from its events.
pub struct FrameInput {
    /// Sum of the key directions, one unit per key-down.
    pub move_direction: Vec2,
    /// Sum of the wheel movements.
    pub wheel: i64,
    /// The last resize seen this frame, if any.
    pub resize: Option<(u32, u32)>,
    /// Whether a close request was seen this frame.
    pub close_requested: bool,
}

/// Horizontal contribution of one event: "A" pulls `+1`, "D" pulls `-1`.
pub open spec fn dir_x_of(e: InputEvent) -> int {
    match e {
        InputEvent::Key(MoveKey::A) => ONE as int,
        InputEvent::Key(MoveKey::D) => -(ONE as int),
        _ => 0,
    }
}

/// Vertical contribution of one event: "W" pulls `-1`, "S" pulls `+1`.
pub open spec fn dir_y_of(e: InputEvent) -> int {
    match e {
        InputEvent::Key(MoveKey::W) => -(ONE as int),
        InputEvent::Key(MoveKey::S) => ONE as int,
        _ => 0,
    }
}

pub open spec fn wheel_of(e: InputEvent) -> int {
    match e {
        InputEvent::Wheel(d) => d as int,
        _ => 0,
    }
}

pub open spec fn fold_dir_x(events: Seq<InputEvent>) -> int
    decreases events.len(),
{
    if events.len() == 0 {
        0
    } else {
        sat_add_spec(fold_dir_x(events.drop_last()), dir_x_of(events.last()))
    }
}

pub open spec fn fold_dir_y(events: Seq<InputEvent>) -> int
    decreases events.len(),
{
    if events.len() == 0 {
        0
    } else {
        sat_add_spec(fold_dir_y(events.drop_last()), dir_y_of(events.last()))
    }
}

pub open spec fn fold_wheel(events: Seq<InputEvent>) -> int
    decreases events.len(),
{
    if events.len() == 0 {
        0
    } else {
        sat_add_spec(fold_wheel(events.drop_last()), wheel_of(events.last()))
    }
}

/// The last resize of the frame wins.
pub open spec fn fold_resize(events: Seq<InputEvent>) -> Option<(u32, u32)>
    decreases events.len(),
{
    if events.len() == 0 {
        None
    } else {
        match events.last() {
            InputEvent::Resize(w, h) => Some((w, h)),
            _ => fold_resize(events.drop_last()),
        }
    }
}

pub open spec fn fold_close(events: Seq<InputEvent>) -> bool
    decreases events.len(),
{
    if events.len() == 0 {
        false
    } else {
        fold_close(events.drop_last()) || events.last() is Close
    }
}

/// Fold the events of one frame into a single accumulated input, exactly
/// as the frame loop accumulates them: keys add one unit to an axis of the
/// movement direction, wheel lines add up, the last resize wins, and any
/// close request sticks. Accumulation saturates at the ends of the `i64`
/// range instead of wrapping, so any batch of events is accepted.
pub fn fold_events(events: &Vec<InputEvent>) -> (r: FrameInput)
    ensures
        r.move_direction.x == fold_dir_x(events@),
        r.move_direction.y == fold_dir_y(events@),
        r.wheel == fold_wheel(events@),
        r.resize == fold_resize(events@),
        r.close_requested == fold_close(events@),
{
    let mut dx: i64 = 0;
    let mut dy: i64 = 0;
    let mut wheel: i64 = 0;
    let mut resize: Option<(u32, u32)> = None;
    let mut close_requested: bool = false;
    let mut i: usize = 0;
    while i < events.len()
        invariant
            i <= events@.len(),
            dx == fold_dir_x(events@.take(i as int)),
            dy == fold_dir_y(events@.take(i as int)),
            wheel == fold_wheel(events@.take(i as int)),
            resize == fold_resize(events@.take(i as int)),
            close_requested == fold_close(events@.take(i as int)),
        decreases events@.len() - i,
    {
        let e = events[i];
        proof {
            assert(events@.take(i as int + 1).drop_last() =~= events@.take(i as int));
            assert(events@.take(i as int + 1).last() == events@[i as int]);
            assert(fold_dir_x(events@.take(i as int + 1))
                == sat_add_spec(fold_dir_x(events@.take(i as int)), dir_x_of(events@[i as int])));
            assert(fold_dir_y(events@.take(i as int + 1))
                == sat_add_spec(fold_dir_y(events@.take(i as int)), dir_y_of(events@[i as int])));
            assert(fold_wheel(events@.take(i as int + 1))
                == sat_add_spec(fold_wheel(events@.take(i as int)), wheel_of(events@[i as int])));
        }
        match e {
            InputEvent::Close => {
                close_requested = true;
            },
            InputEvent::Key(MoveKey::W) => {
                dy = sat_add(dy, -ONE);
            },
            InputEvent::Key(MoveKey::A) => {
                dx = sat_add(dx, ONE);
            },
            InputEvent::Key(MoveKey::S) => {
                dy = sat_add(dy, ONE);
            },
            InputEvent::Key(MoveKey::D) => {
                dx = sat_add(dx, -ONE);
            },
            InputEvent::Wheel(d) => {
                wheel = sat_add(wheel, d);
            },
            InputEvent::Resize(w, h) => {
                resize = Some((w, h));
            },
        }
        i = i + 1;
    }
    proof {
        assert(events@.take(events@.len() as int) =~= events@);
    }
    FrameInput { move_direction: Vec2 { x: dx, y: dy }, wheel, resize, close_requested }
}

/// Displacement along one axis for a frame: the normalized direction
/// component, scaled by `CAMERA_SPEED` and then by the elapsed time.
pub open spec fn displacement_spec(n: int, elapsed: int) -> int {
    fmul_spec(fmul_spec(n, CAMERA_SPEED as int), elapsed)
}

/// The width after a frame: a resize replaces the stored width.
pub open spec fn width_after(w: u32, resize: Option<(u32, u32)>) -> u32 {
    match resize {
        Some(d) => d.0,
        None => w,
    }
}

/// The height after a frame: a resize replaces the stored height.
pub open spec fn height_after(h: u32, resize: Option<(u32, u32)>) -> u32 {
    match resize {
        Some(d) => d.1,
        None => h,
    }
}

/// Apply one frame's folded input: normalize the accumulated movement
/// direction, pan the camera by direction times `CAMERA_SPEED` times the
/// elapsed seconds, zoom by the wheel total times `CAMERA_ZOOM_UNIT`, and
/// store the last resize.
///
/// Panning speed is uniform in view units: coupling it to the zoom level
/// through `zoom_scale_function` is deliberately left to the caller, which
/// can scale the elapsed time it passes here.
pub fn frame_update(camera: &mut Camera, view: &mut WindowView, input: &FrameInput, elapsed: i64)
    requires
        -COORD_LIMIT <= input.move_direction.x <= COORD_LIMIT,
        -COORD_LIMIT <= input.move_direction.y <= COORD_LIMIT,
        -MAX_WHEEL <= input.wheel <= MAX_WHEEL,
        0 <= elapsed <= MAX_ELAPSED as int,
    ensures
        final(camera).position.x == sat_add_spec(
            old(camera).position.x as int,
            displacement_spec(input.move_direction.norm_spec().x as int, elapsed as int),
        ),
        final(camera).position.y == sat_add_spec(
            old(camera).position.y as int,
            displacement_spec(input.move_direction.norm_spec().y as int, elapsed as int),
        ),
        final(camera).zoom == clamped(
            old(camera).zoom + fmul_spec(input.wheel as int, CAMERA_ZOOM_UNIT as int),
            ZOOM_MIN as int,
            ZOOM_MAX as int,
        ),
        final(camera).wf(),
        final(view).width == width_after(old(view).width, input.resize),
        final(view).height == height_after(old(view).height, input.resize),
{
    let dir = input.move_direction.normalize();
    proof {
        lemma_norm_spec_bounds(input.move_direction);
        lemma_mul_bound(dir.x as int, CAMERA_SPEED as int, 1_000_000, 5_000_000);
        lemma_mul_bound(dir.y as int, CAMERA_SPEED as int, 1_000_000, 5_000_000);
        lemma_fmul_spec_bound(dir.x as int, CAMERA_SPEED as int, 5_000_000);
        lemma_fmul_spec_bound(dir.y as int, CAMERA_SPEED as int, 5_000_000);
    }
    let vx = fmul(dir.x, CAMERA_SPEED);
    let vy = fmul(dir.y, CAMERA_SPEED);
    proof {
        lemma_mul_bound(vx as int, elapsed as int, 5_000_000, 1_844_674_407_370);
        lemma_mul_bound(vy as int, elapsed as int, 5_000_000, 1_844_674_407_370);
    }
    let dx = fmul(vx, elapsed);
    let dy = fmul(vy, elapsed);
    camera.translate(dx, dy);
    proof {
        lemma_mul_bound(input.wheel as int, CAMERA_ZOOM_UNIT as int, 92_233_720_368_547, 100_000);
    }
    let zd = fmul(input.wheel, CAMERA_ZOOM_UNIT);
    camera.zoom(zd);
    match input.resize {
        Some(d) => view.update(d.0, d.1),
        None => {},
    }
}

} // verus!
