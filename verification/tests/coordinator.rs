use bettershot::ShotError;
use bettershot::coordinator::{
    CaptureCoordinator, CaptureKind, CaptureOutcome, diagnostics_indicate_denial, error_message,
};

#[test]
fn two_simultaneous_attempts_exactly_one_proceeds() {
    let mut c = CaptureCoordinator::new();
    let first = c.try_begin(CaptureKind::InteractiveRegion, false);
    let second = c.try_begin(CaptureKind::FullScreen, false);
    assert!(first.is_ok());
    assert_eq!(second, Err(ShotError::CaptureBusy));
    // the winner advances to awaiting completion while the loser is refused
    assert!(c.permission_result(false).is_ok());
    assert!(c.spawn_result(true).is_ok());
    let third = c.try_begin(CaptureKind::WindowPick, false);
    assert_eq!(third, Err(ShotError::CaptureBusy));
}

#[test]
fn external_capture_process_refuses_the_attempt() {
    let mut c = CaptureCoordinator::new();
    let r = c.try_begin(CaptureKind::FullScreen, true);
    assert_eq!(r, Err(ShotError::CaptureBusy));
    // the lock was not taken: a later attempt with a quiet environment wins
    assert!(c.try_begin(CaptureKind::FullScreen, false).is_ok());
}

#[test]
fn cancelled_capture_exit_zero_and_missing_file() {
    let mut c = CaptureCoordinator::new();
    c.try_begin(CaptureKind::InteractiveRegion, false).unwrap();
    c.permission_result(false).unwrap();
    c.spawn_result(true).unwrap();
    let (outcome, delete_partial) = c.complete(true, false, false);
    assert_eq!(outcome, CaptureOutcome::Cancelled);
    // nothing to clean up: no file exists at the would-be destination
    assert!(!delete_partial);
    // the lock was released: a new attempt may start at once
    assert!(c.try_begin(CaptureKind::InteractiveRegion, false).is_ok());
}

#[test]
fn completed_capture_needs_exit_ok_and_existing_file() {
    let mut c = CaptureCoordinator::new();
    c.try_begin(CaptureKind::FullScreen, false).unwrap();
    c.permission_result(false).unwrap();
    c.spawn_result(true).unwrap();
    let (outcome, delete_partial) = c.complete(true, true, false);
    assert_eq!(outcome, CaptureOutcome::Completed);
    assert!(!delete_partial);
}

#[test]
fn failed_capture_with_denial_marker_is_permission_denied() {
    let mut c = CaptureCoordinator::new();
    c.try_begin(CaptureKind::WindowPick, false).unwrap();
    c.permission_result(false).unwrap();
    c.spawn_result(true).unwrap();
    let (outcome, delete_partial) = c.complete(false, true, true);
    assert_eq!(outcome, CaptureOutcome::Failed(ShotError::PermissionDenied));
    // a partially written destination file must be deleted
    assert!(delete_partial);
}

#[test]
fn failed_capture_without_marker_is_process_error() {
    let mut c = CaptureCoordinator::new();
    c.try_begin(CaptureKind::OcrRegion, false).unwrap();
    c.permission_result(false).unwrap();
    c.spawn_result(true).unwrap();
    let (outcome, delete_partial) = c.complete(false, false, false);
    assert_eq!(outcome, CaptureOutcome::Failed(ShotError::ProcessError));
    assert!(!delete_partial);
}

#[test]
fn denied_permission_probe_releases_the_lock() {
    let mut c = CaptureCoordinator::new();
    c.try_begin(CaptureKind::FullScreen, false).unwrap();
    let r = c.permission_result(true);
    assert_eq!(r, Err(ShotError::PermissionDenied));
    assert!(c.try_begin(CaptureKind::FullScreen, false).is_ok());
}

#[test]
fn spawn_failure_releases_the_lock() {
    let mut c = CaptureCoordinator::new();
    c.try_begin(CaptureKind::FullScreen, false).unwrap();
    c.permission_result(false).unwrap();
    let r = c.spawn_result(false);
    assert_eq!(r, Err(ShotError::ProcessError));
    assert!(c.try_begin(CaptureKind::FullScreen, false).is_ok());
}

#[test]
fn denial_markers_match_case_insensitively() {
    assert!(diagnostics_indicate_denial(&b"screencapture: Permission was refused".to_vec()));
    assert!(diagnostics_indicate_denial(&b"access DENIED by policy".to_vec()));
    assert!(diagnostics_indicate_denial(&b"client is Not Authorized to capture".to_vec()));
    assert!(!diagnostics_indicate_denial(&b"could not connect to window server".to_vec()));
    assert!(!diagnostics_indicate_denial(&b"".to_vec()));
}

#[test]
fn denial_marker_found_mid_stream() {
    let noise = b"2024-01-01 10:00:00 screencapture[123]: cannot run; permission not granted".to_vec();
    assert!(diagnostics_indicate_denial(&noise));
}

#[test]
fn error_messages_give_actionable_guidance() {
    assert_eq!(
        error_message(ShotError::CaptureBusy),
        "Another screenshot capture is already in progress"
    );
    assert!(error_message(ShotError::PermissionDenied).contains("System Settings"));
    assert_eq!(error_message(ShotError::ProcessError), "Screenshot was cancelled or failed");
    assert_eq!(error_message(ShotError::InvalidRegion), "Selected region has no area");
    assert_eq!(error_message(ShotError::DecodeError), "Image data could not be decoded");
    assert_eq!(error_message(ShotError::EncodeError), "Image could not be encoded");
    assert_eq!(error_message(ShotError::IoError), "Failed to read or write the image file");
}

#[test]
fn ocr_is_unavailable_without_a_vision_facility() {
    let r = bettershot::ocr::recognize_text_from_image("/tmp/example.png");
    assert_eq!(r, Err("OCR is only supported on macOS".to_string()));
}
