//! Layout and scaling: the drawing depths, the zoom clamp and its key
//! steps, and the nesting-level scale that shrinks geometry at each
//! containment level.

use vstd::prelude::*;

verus! {

/// Drawing depth of a subsystem disk inside its parent's frame.
pub const SUBSYSTEM_Z: i64 = 10;

/// Drawing depth of an interface on its parent system's boundary.
pub const INTERFACE_Z: i64 = 20;

/// Drawing depth of an external entity in the environment.
pub const EXTERNAL_ENTITY_Z: i64 = 30;

/// Zoom bounds in hundredths: the zoom is clamped to `[0.2, 5.0]`.
pub const ZOOM_MIN: u32 = 20;

pub const ZOOM_MAX: u32 = 500;

/// One key press changes the zoom by this much (hundredths).
pub const ZOOM_STEP: u32 = 20;

/// Clamp a raw zoom value into the permitted range.
pub fn clamp_zoom(z: u32) -> (r: u32)
    ensures
        ZOOM_MIN <= r <= ZOOM_MAX,
        z < ZOOM_MIN ==> r == ZOOM_MIN,
        z > ZOOM_MAX ==> r == ZOOM_MAX,
        ZOOM_MIN <= z <= ZOOM_MAX ==> r == z,
{
    if z < ZOOM_MIN {
        ZOOM_MIN
    } else if z > ZOOM_MAX {
        ZOOM_MAX
    } else {
        z
    }
}

/// One zoom-in key press: a step up, clamped. At the upper bound the value
/// does not move.
pub fn zoom_in(z: u32) -> (r: u32)
    requires
        ZOOM_MIN <= z <= ZOOM_MAX,
    ensures
        ZOOM_MIN <= r <= ZOOM_MAX,
        z + ZOOM_STEP <= ZOOM_MAX ==> r == z + ZOOM_STEP,
        z + ZOOM_STEP > ZOOM_MAX ==> r == ZOOM_MAX,
        z == ZOOM_MAX ==> r == ZOOM_MAX,
{
    clamp_zoom(z + ZOOM_STEP)
}

/// One zoom-out key press: a step down, clamped. At the lower bound the
/// value does not move.
pub fn zoom_out(z: u32) -> (r: u32)
    requires
        ZOOM_MIN <= z <= ZOOM_MAX,
    ensures
        ZOOM_MIN <= r <= ZOOM_MAX,
        z >= ZOOM_MIN + ZOOM_STEP ==> r == (z - ZOOM_STEP) as u32,
        z < ZOOM_MIN + ZOOM_STEP ==> r == ZOOM_MIN,
        z == ZOOM_MIN ==> r == ZOOM_MIN,
{
    if z >= ZOOM_MIN + ZOOM_STEP {
        clamp_zoom(z - ZOOM_STEP)
    } else {
        ZOOM_MIN
    }
}

/// The fixed nesting-shrink ratio, as a fraction: each containment
/// level keeps three quarters of the scale of the level above.
pub const NESTING_SHRINK_NUM: u64 = 3;

pub const NESTING_SHRINK_DEN: u64 = 4;

/// The scale at nesting level `n` under zoom `z` (both in hundredths):
/// the zoom shrunk by three quarters once per level, truncating at each
/// step.
pub open spec fn nesting_scale(n: nat, z: int) -> int
    decreases n,
{
    if n == 0 {
        z
    } else {
        nesting_scale((n - 1) as nat, z) * NESTING_SHRINK_NUM / (NESTING_SHRINK_DEN as int)
    }
}

/// Stroke widths and tessellation scale by this factor: the zoom times
/// the fixed shrink ratio once per nesting level.
pub fn compute_scale(nesting_level: u32, zoom: u32) -> (r: u32)
    requires
        zoom <= ZOOM_MAX,
    ensures
        r == nesting_scale(nesting_level as nat, zoom as int),
        r <= zoom,
{
    let mut scale: u32 = zoom;
    let mut level: u32 = 0;
    while level < nesting_level
        invariant
            level <= nesting_level,
            zoom <= ZOOM_MAX,
            scale == nesting_scale(level as nat, zoom as int),
            scale <= zoom,
        decreases nesting_level - level,
    {
        scale = scale * 3 / 4;
        level = level + 1;
    }
    scale
}

} // verus!
