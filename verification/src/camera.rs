//! Keyboard control of the camera: which way the pressed keys move and zoom.

use vstd::prelude::*;

verus! {

/// The camera keys held down this frame.
#[derive(Clone, Copy, Debug, PartialEq, Eq, Structural)]
pub struct CameraKeys {
    /// W or the up arrow.
    pub up: bool,
    /// S or the down arrow.
    pub down: bool,
    /// A or the left arrow.
    pub left: bool,
    /// D or the right arrow.
    pub right: bool,
    /// Q or Z.
    pub zoom_in: bool,
    /// E or X.
    pub zoom_out: bool,
}

/// The direction the keys ask for, each component -1, 0 or 1 (before the
/// movement vector is normalised).
#[derive(Clone, Copy, Debug, PartialEq, Eq, Structural)]
pub struct CameraIntent {
    pub dx: i32,
    pub dy: i32,
    pub zoom: i32,
}

/// 1 for a held key, 0 otherwise.
pub open spec fn held(b: bool) -> int {
    if b {
        1
    } else {
        0
    }
}

/// The movement and zoom that the held keys ask for: up minus down, right
/// minus left, zoom-in minus zoom-out.
pub open spec fn spec_intent(keys: CameraKeys) -> CameraIntent {
    CameraIntent {
        dx: (held(keys.right) - held(keys.left)) as i32,
        dy: (held(keys.up) - held(keys.down)) as i32,
        zoom: (held(keys.zoom_in) - held(keys.zoom_out)) as i32,
    }
}

/// The movement and zoom that the held keys ask for (see `spec_intent`).
pub fn camera_intent(keys: &CameraKeys) -> (r: CameraIntent)
    ensures
        r == spec_intent(*keys),
        r.dy == (if keys.up {
            1int
        } else {
            0int
        }) - (if keys.down {
            1int
        } else {
            0int
        }),
        r.dx == (if keys.right {
            1int
        } else {
            0int
        }) - (if keys.left {
            1int
        } else {
            0int
        }),
        r.zoom == (if keys.zoom_in {
            1int
        } else {
            0int
        }) - (if keys.zoom_out {
            1int
        } else {
            0int
        }),
{
    let mut dx: i32 = 0;
    let mut dy: i32 = 0;
    let mut zoom: i32 = 0;
    if keys.up {
        dy += 1;
    }
    if keys.down {
        dy -= 1;
    }
    if keys.left {
        dx -= 1;
    }
    if keys.right {
        dx += 1;
    }
    if keys.zoom_in {
        zoom += 1;
    }
    if keys.zoom_out {
        zoom -= 1;
    }
    CameraIntent { dx, dy, zoom }
}

/// Opposite keys cancel out: holding both keys of an axis moves nothing along
/// it, and each axis asks for at most one unit of movement either way.
pub proof fn law_opposite_keys_cancel(keys: CameraKeys)
    ensures
        keys.up && keys.down ==> spec_intent(keys).dy == 0,
        keys.left && keys.right ==> spec_intent(keys).dx == 0,
        keys.zoom_in && keys.zoom_out ==> spec_intent(keys).zoom == 0,
        -1 <= spec_intent(keys).dx <= 1,
        -1 <= spec_intent(keys).dy <= 1,
        -1 <= spec_intent(keys).zoom <= 1,
{
}

/// Each key counts on its own: holding one more key moves the camera one more
/// unit its way along its axis, whatever else is held, and leaves the other
/// axes alone. In particular a key held alone moves one unit its own way.
pub proof fn law_each_key_moves_its_own_way(keys: CameraKeys)
    ensures
        spec_intent(CameraKeys { up: true, ..keys }).dy == spec_intent(CameraKeys { up: false, ..keys }).dy + 1,
        spec_intent(CameraKeys { down: true, ..keys }).dy == spec_intent(CameraKeys { down: false, ..keys }).dy - 1,
        spec_intent(CameraKeys { right: true, ..keys }).dx == spec_intent(CameraKeys { right: false, ..keys }).dx + 1,
        spec_intent(CameraKeys { left: true, ..keys }).dx == spec_intent(CameraKeys { left: false, ..keys }).dx - 1,
        spec_intent(CameraKeys { zoom_in: true, ..keys }).zoom == spec_intent(CameraKeys { zoom_in: false, ..keys }).zoom + 1,
        spec_intent(CameraKeys { zoom_out: true, ..keys }).zoom == spec_intent(CameraKeys { zoom_out: false, ..keys }).zoom - 1,
        spec_intent(CameraKeys { up: true, ..keys }).dx == spec_intent(CameraKeys { up: false, ..keys }).dx,
        spec_intent(CameraKeys { down: true, ..keys }).dx == spec_intent(CameraKeys { down: false, ..keys }).dx,
        spec_intent(CameraKeys { left: true, ..keys }).dy == spec_intent(CameraKeys { left: false, ..keys }).dy,
        spec_intent(CameraKeys { right: true, ..keys }).dy == spec_intent(CameraKeys { right: false, ..keys }).dy,
        spec_intent(
            CameraKeys { up: false, down: false, left: false, right: false, zoom_in: false, zoom_out: false },
        ) == (CameraIntent { dx: 0, dy: 0, zoom: 0 }),
{
}

} // verus!
