use std::time::Duration;
use vstd::prelude::*;

verus! {

/// The error that a Windows API call reported; carried through unchanged.
#[verifier::external_type_specification]
#[verifier::external_body]
pub struct ExWindowsError(windows_core::Error);

/// Errors of the capture API.
#[derive(Debug)]
pub enum CaptureError {
    /// No window has the requested title.
    WindowNotFound,
    /// The title matches this many windows; a specific window must be chosen.
    AmbiguousWindowTitle(usize),
    /// A capture argument was rejected.
    InvalidInput(&'static str),
    /// The capture target is no longer available.
    TargetClosed,
    /// Windows Graphics Capture is not supported in this session.
    Unsupported,
    /// No capture frame arrived within the given time.
    CaptureTimeout(Duration),
    /// The frame channel closed before a frame arrived.
    FrameChannelClosed,
    /// The received frame cannot be used.
    InvalidFrame(&'static str),
    /// A Windows capture operation failed.
    Windows(windows_core::Error),
}

/// The result type of the capture API.
pub type Result<T> = std::result::Result<T, CaptureError>;

} // verus!
