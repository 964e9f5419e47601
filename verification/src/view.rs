//! Camera state (position and zoom) and the window-view size.

use vstd::prelude::*;
use crate::fixed::{sat_add, sat_add_spec};
use crate::math::{Vec2, clamp, clamped};

verus! {

/// Lowest zoom level the camera accepts: one micro-unit above the `-1`
/// singularity of the zoom-to-scale mapping, so that mapping stays defined.
pub const ZOOM_MIN: i64 = -999_999;

/// Highest zoom level the camera accepts; prevents runaway zoom.
pub const ZOOM_MAX: i64 = 50_000_000;

/// View transform fed to the renderer: a 2-D position and a zoom level.
pub struct Camera {
    pub position: Vec2,
    pub zoom: i64,
}

impl Camera {
    /// The zoom level never leaves `[ZOOM_MIN, ZOOM_MAX]`.
    pub open spec fn wf(&self) -> bool {
        ZOOM_MIN <= self.zoom <= ZOOM_MAX
    }

    pub fn new() -> (c: Camera)
        ensures
            c.position.x == 0,
            c.position.y == 0,
            c.zoom == 0,
            c.wf(),
    {
        Camera { position: Vec2 { x: 0, y: 0 }, zoom: 0 }
    }

    /// Move the camera by `(dx, dy)`; each coordinate saturates at the
    /// ends of the `i64` range instead of wrapping.
    pub fn translate(&mut self, dx: i64, dy: i64)
        ensures
            final(self).position.x == sat_add_spec(old(self).position.x as int, dx as int),
            final(self).position.y == sat_add_spec(old(self).position.y as int, dy as int),
            final(self).zoom == old(self).zoom,
    {
        self.position.x = sat_add(self.position.x, dx);
        self.position.y = sat_add(self.position.y, dy);
    }

    /// Add `delta` to the zoom level, then clamp it into
    /// `[ZOOM_MIN, ZOOM_MAX]`.
    pub fn zoom(&mut self, delta: i64)
        ensures
            final(self).zoom == clamped(
                old(self).zoom as int + delta as int,
                ZOOM_MIN as int,
                ZOOM_MAX as int,
            ),
            final(self).position == old(self).position,
            final(self).wf(),
    {
        let mut z = sat_add(self.zoom, delta);
        clamp(&mut z, ZOOM_MIN, ZOOM_MAX);
        self.zoom = z;
    }

    /// Read accessor used once per frame to build render uniforms.
    pub fn get_position(&self) -> (p: Vec2)
        ensures
            p == self.position,
    {
        self.position
    }
}

/// Translation composes additively: translating by `d1` and then by `d2`
/// lands on the same coordinate as translating once by `d1 + d2`, as long
/// as neither path leaves the representable range.
pub proof fn lemma_translate_additive(p: int, d1: int, d2: int)
    requires
        i64::MIN as int <= p + d1 <= i64::MAX as int,
        i64::MIN as int <= p + d1 + d2 <= i64::MAX as int,
    ensures
        sat_add_spec(sat_add_spec(p, d1), d2) == sat_add_spec(p, d1 + d2),
{
}

/// Current window size, updated on resize events and passed to the shader
/// for aspect-correct rendering.
pub struct WindowView {
    pub width: u32,
    pub height: u32,
}

impl WindowView {
    pub fn new(width: u32, height: u32) -> (v: WindowView)
        ensures
            v.width == width,
            v.height == height,
    {
        WindowView { width, height }
    }

    /// Replace the stored size on a resize event; sizes pass through
    /// uninspected.
    pub fn update(&mut self, width: u32, height: u32)
        ensures
            final(self).width == width,
            final(self).height == height,
    {
        self.width = width;
        self.height = height;
    }
}

} // verus!
