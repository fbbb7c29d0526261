use panea::render_core::{RenderColor, RenderRecoveryReason, RenderRecoveryStatus};
use panea::renderer::{
    frame_clear_extra_draw_calls, lost_backend_status, present_outcome_requires_full_redraw,
    should_load_retained_frame, should_prepare_full_frame, surface_background_color,
    surface_recovery_event, surface_size_action, PresentOutcome, RendererError, SurfaceSizeAction,
};

#[test]
fn surface_size_changes_reconfigure_and_empty_windows_are_skipped() {
    assert_eq!(surface_size_action((800, 600), (0, 600)), SurfaceSizeAction::Skip);
    assert_eq!(surface_size_action((800, 600), (800, 600)), SurfaceSizeAction::Keep);
    assert_eq!(surface_size_action((800, 600), (1024, 600)), SurfaceSizeAction::Reconfigure(1024, 600));
}

#[test]
fn unsubmitted_frames_force_a_full_redraw() {
    assert!(!present_outcome_requires_full_redraw(PresentOutcome::Submitted));
    assert!(present_outcome_requires_full_redraw(PresentOutcome::Timeout));
    assert!(present_outcome_requires_full_redraw(PresentOutcome::Skipped));
    assert!(present_outcome_requires_full_redraw(PresentOutcome::SurfaceReconfigured(
        RenderRecoveryReason::SurfaceOutdated
    )));
}

#[test]
fn retained_frames_load_only_for_partial_frames() {
    assert!(should_prepare_full_frame(true, true, true));
    assert!(should_prepare_full_frame(false, false, true));
    assert!(should_prepare_full_frame(false, true, false));
    assert!(!should_prepare_full_frame(false, true, true));
    assert!(should_load_retained_frame(true, false));
    assert!(!should_load_retained_frame(true, true));
    assert_eq!(frame_clear_extra_draw_calls(false, 0), 1);
    assert_eq!(frame_clear_extra_draw_calls(true, 3), 1);
    assert_eq!(frame_clear_extra_draw_calls(true, 0), 0);
}

#[test]
fn opaque_windows_clear_to_an_opaque_background() {
    let background = RenderColor { red: 1, green: 2, blue: 3, alpha: 40 };
    assert_eq!(surface_background_color(false, background).alpha, 255);
    assert_eq!(surface_background_color(true, background), background);
}

#[test]
fn recovery_records_name_what_was_rebuilt() {
    let event = surface_recovery_event(RenderRecoveryReason::SurfaceLost, 2);
    assert!(event.rebuilt_surface && !event.rebuilt_device && event.preserved_terminal_state);
    assert_eq!(event.attempts, 2);
    assert_eq!(event.message, "surface was reconfigured after a recoverable surface event");

    let lost = RendererError::DeviceLost { reason: RenderRecoveryReason::OutOfMemory, message: "oom".to_string() };
    assert_eq!(
        lost_backend_status(&lost),
        RenderRecoveryStatus::Lost { reason: RenderRecoveryReason::OutOfMemory, message: "oom".to_string() }
    );
    assert_eq!(
        lost_backend_status(&RendererError::EmptySurface),
        RenderRecoveryStatus::Lost {
            reason: RenderRecoveryReason::BackendError,
            message: "renderer backend failed".to_string()
        }
    );
}
