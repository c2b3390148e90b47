//! The capture rectangle of a window capture by title.

use crate::WindowRect;
use vstd::prelude::*;

verus! {

/// What `window_capture_rect` returns: the requested rectangle, or else the
/// whole window, placed at the origin.
pub open spec fn spec_window_capture_rect(rect: Option<WindowRect>, bounds: WindowRect) -> WindowRect {
    match rect {
        Some(r) => r,
        None => WindowRect {
            left: 0,
            top: 0,
            right: (bounds.right - bounds.left) as i32,
            bottom: (bounds.bottom - bounds.top) as i32,
        },
    }
}

/// The rectangle to capture of a window whose extended frame bounds are
/// `bounds`: the requested one, or without one the whole window, as a
/// frame-relative rectangle at the origin.
pub fn window_capture_rect(rect: Option<WindowRect>, bounds: WindowRect) -> (res: WindowRect)
    requires
        rect is None ==> i32::MIN <= bounds.right - bounds.left <= i32::MAX && i32::MIN
            <= bounds.bottom - bounds.top <= i32::MAX,
    ensures
        res == spec_window_capture_rect(rect, bounds),
        rect matches Some(r) ==> res == r,
        rect is None ==> res.left == 0 && res.top == 0 && res.right == bounds.right - bounds.left
            && res.bottom == bounds.bottom - bounds.top,
{
    match rect {
        Some(r) => r,
        None => WindowRect {
            left: 0,
            top: 0,
            right: bounds.right - bounds.left,
            bottom: bounds.bottom - bounds.top,
        },
    }
}

} // verus!
