use tiled_life::frame::{classify_surface_error, FrameAction, SurfaceErrorKind};

#[test]
fn lost_and_outdated_reconfigure() {
    assert_eq!(classify_surface_error(SurfaceErrorKind::Lost), FrameAction::Reconfigure);
    assert_eq!(classify_surface_error(SurfaceErrorKind::Outdated), FrameAction::Reconfigure);
}

#[test]
fn out_of_memory_exits() {
    assert_eq!(classify_surface_error(SurfaceErrorKind::OutOfMemory), FrameAction::Exit);
}

#[test]
fn timeout_skips_the_frame() {
    assert_eq!(classify_surface_error(SurfaceErrorKind::Timeout), FrameAction::SkipFrame);
}
