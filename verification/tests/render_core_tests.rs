use panea::render_core::{
    GlyphInstrumentation, OverlayKind, OverlayPrimitive, RenderColor, RenderInstrumentation,
    RenderRecoveryEvent, RenderRecoveryReason, RenderRecoveryStatus, RenderRect,
    RenderSurfaceError, RenderSurfaceStatus,
};

#[test]
fn recovery_event_preserves_terminal_state_contract() {
    let event = RenderRecoveryEvent::success(RenderRecoveryReason::DeviceLost, 1);

    assert!(event.rebuilt_surface);
    assert!(event.rebuilt_device);
    assert!(event.rebuilt_pipelines);
    assert!(event.rebuilt_glyph_atlas);
    assert!(event.preserved_terminal_state);
}

#[test]
fn failed_recovery_rebuilds_nothing_but_keeps_terminal_state() {
    let event = RenderRecoveryEvent::failure(RenderRecoveryReason::OutOfMemory, 3, "no memory");
    assert!(!event.rebuilt_surface && !event.rebuilt_device);
    assert!(!event.rebuilt_pipelines && !event.rebuilt_glyph_atlas);
    assert!(event.preserved_terminal_state);
    assert_eq!(event.attempts, 3);
    assert_eq!(event.message, "no memory");
}

#[test]
fn recovery_status_maps_to_surface_status() {
    let recovering = RenderRecoveryStatus::Recovering {
        reason: RenderRecoveryReason::SurfaceLost,
        attempts: 1,
    };
    assert_eq!(recovering.surface_status(), RenderSurfaceStatus::Recovering);

    let failed = RenderRecoveryStatus::Failed {
        reason: RenderRecoveryReason::DeviceLost,
        message: "adapter unavailable".to_owned(),
    };
    assert_eq!(
        failed.surface_status(),
        RenderSurfaceStatus::Unavailable { reason: "adapter unavailable".to_owned() }
    );
    assert_eq!(RenderRecoveryStatus::Ready.surface_status(), RenderSurfaceStatus::Ready);
    let lost = RenderRecoveryStatus::Lost {
        reason: RenderRecoveryReason::SurfaceLost,
        message: "gone".to_owned(),
    };
    assert_eq!(lost.surface_status(), RenderSurfaceStatus::Lost);
}

#[test]
fn colors_and_overlays_are_built_opaque_and_filled() {
    let color = RenderColor::rgb(1, 2, 3);
    assert_eq!(color, RenderColor { red: 1, green: 2, blue: 3, alpha: 255 });
    let bounds = RenderRect { x: 1, y: 2, width: 3, height: 4 };
    let overlay = OverlayPrimitive::filled(OverlayKind::Selection, bounds, color);
    assert_eq!(overlay.bounds, bounds);
    assert_eq!(overlay.color, color);
    assert_eq!(overlay.kind, OverlayKind::Selection);
}

#[test]
fn glyph_lookups_sum_hits_and_misses() {
    let glyphs = GlyphInstrumentation { cache_hits: 5, cache_misses: 2, ..GlyphInstrumentation::default() };
    assert_eq!(glyphs.total_lookups(), 7);
}

#[test]
fn frame_budget_is_exceeded_only_strictly() {
    let mut instrumentation = RenderInstrumentation::default();
    instrumentation.frame_time = 10;
    assert!(!instrumentation.over_budget(10));
    assert!(instrumentation.over_budget(9));
}

#[test]
fn surface_errors_keep_their_message() {
    assert_eq!(RenderSurfaceError::new("lost").message, "lost");
}
