//! Per-frame error classification.
//!
//! Every error the presentation surface can report falls into one of three
//! buckets: reconfigure and retry next frame, end the loop cleanly, or log
//! and skip the frame.  The classification is decided here, at one place,
//! so no surface error ever crosses into simulation or camera logic.

use vstd::prelude::*;

verus! {

/// The conditions the presentation surface can report when a frame cannot
/// be acquired.
#[derive(Clone, Copy, PartialEq, Eq, Structural, Debug)]
pub enum SurfaceErrorKind {
    /// The surface was lost and must be rebuilt.
    Lost,
    /// The surface no longer matches the window and must be reconfigured.
    Outdated,
    /// The surface could not allocate: fatal.
    OutOfMemory,
    /// The frame did not arrive in time: transient.
    Timeout,
}

/// What the frame driver does about a surface error.
#[derive(Clone, Copy, PartialEq, Eq, Structural, Debug)]
pub enum FrameAction {
    /// Reconfigure the surface at the current size and retry next frame.
    Reconfigure,
    /// Terminate the loop cleanly.
    Exit,
    /// Log and skip this frame; no state changes.
    SkipFrame,
}

/// The three buckets: lost or outdated surfaces are reconfigured,
/// out-of-memory ends the loop, a timeout only skips the frame.
pub open spec fn spec_classify_surface_error(e: SurfaceErrorKind) -> FrameAction {
    match e {
        SurfaceErrorKind::Lost => FrameAction::Reconfigure,
        SurfaceErrorKind::Outdated => FrameAction::Reconfigure,
        SurfaceErrorKind::OutOfMemory => FrameAction::Exit,
        SurfaceErrorKind::Timeout => FrameAction::SkipFrame,
    }
}

/// Classifies a surface error into the action the frame driver takes.
pub fn classify_surface_error(e: SurfaceErrorKind) -> (r: FrameAction)
    ensures
        r == spec_classify_surface_error(e),
{
    match e {
        SurfaceErrorKind::Lost => FrameAction::Reconfigure,
        SurfaceErrorKind::Outdated => FrameAction::Reconfigure,
        SurfaceErrorKind::OutOfMemory => FrameAction::Exit,
        SurfaceErrorKind::Timeout => FrameAction::SkipFrame,
    }
}

} // verus!
