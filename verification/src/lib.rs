//! Window capture with frame context: the checks, layouts and decisions that
//! surround a Windows Graphics Capture frame, as verified functions.

pub mod capture;
pub mod window;

use vstd::prelude::*;

verus! {

/// A rectangle in frame-relative pixel coordinates; `right` and `bottom` are
/// exclusive edges.
#[derive(Clone, Copy, Debug, PartialEq, Eq, Structural)]
pub struct WindowRect {
    pub left: i32,
    pub top: i32,
    pub right: i32,
    pub bottom: i32,
}

} // verus!
