use panea::atlas::{AtlasCacheKey, AtlasEntry, GlyphAtlas};
use panea::cursor_fx::CursorBlinkRuntime;
use panea::damage::{merge_regions, offset_region, union_region};
use panea::fonts::{GlyphBitmapFormat, GlyphCacheKey};
use panea::planner::{padded_atlas_upload, pixel_buffer_len, AtlasUpload, CursorOverlayFrame};
use panea::platform_core::HostOs;
use panea::ppm::{pixel_difference, screenshot_platform_key, CpuFrame, PixelDifference, ScreenshotError};
use panea::render_core::{
    AnimationHandle, AnimationKind, FrameRequestReason, RenderOffset, RenderRect, RenderScene,
};
use panea::renderer::{
    backend_candidates_for, native_backend_family, select_present_mode, GpuBackendPreference,
    NativeBackendFamily, PresentMode,
};
use panea::schedule::{AnimationFramePacer, AnimationFramePacerDecision, FrameDecision, FrameScheduler};

fn rect(x: i32, y: i32, width: u32, height: u32) -> RenderRect {
    RenderRect { x, y, width, height }
}

#[test]
fn merge_joins_touching_cells_of_one_row() {
    let merged = merge_regions(vec![rect(20, 0, 10, 20), rect(0, 0, 10, 20), rect(10, 0, 10, 20)]);
    assert_eq!(merged, vec![rect(0, 0, 30, 20)]);
}

#[test]
fn merge_keeps_separate_rows_and_gaps_apart() {
    let merged = merge_regions(vec![rect(0, 0, 10, 20), rect(11, 0, 10, 20), rect(0, 40, 10, 20)]);
    assert_eq!(merged, vec![rect(0, 0, 10, 20), rect(11, 0, 10, 20), rect(0, 40, 10, 20)]);
}

#[test]
fn merge_stacks_matching_columns_and_drops_empty_regions() {
    let merged = merge_regions(vec![
        rect(5, 20, 10, 20),
        rect(5, 0, 10, 20),
        rect(0, 0, 0, 20),
        rect(0, 0, 10, 0),
    ]);
    assert_eq!(merged, vec![rect(5, 0, 10, 40)]);
    assert!(merge_regions(Vec::new()).is_empty());
}

#[test]
fn merge_output_is_sorted_by_row_then_column() {
    let merged = merge_regions(vec![rect(50, 10, 5, 5), rect(0, 10, 5, 5), rect(0, 0, 5, 5)]);
    assert_eq!(merged, vec![rect(0, 0, 5, 5), rect(0, 10, 5, 5), rect(50, 10, 5, 5)]);
}

#[test]
fn merge_covers_exactly_the_damaged_pixels() {
    let input = vec![rect(0, 0, 4, 2), rect(2, 0, 4, 2), rect(0, 2, 6, 2), rect(10, 10, 1, 1)];
    let merged = merge_regions(input.clone());
    let covered = |regions: &[RenderRect], px: i32, py: i32| {
        regions.iter().any(|r| {
            r.x <= px
                && i64::from(px) < i64::from(r.x) + i64::from(r.width)
                && r.y <= py
                && i64::from(py) < i64::from(r.y) + i64::from(r.height)
        })
    };
    for px in -1..13 {
        for py in -1..13 {
            assert_eq!(covered(&input, px, py), covered(&merged, px, py), "({px}, {py})");
        }
    }
    assert!(merged.len() <= input.len());
}

#[test]
fn offsets_and_unions_saturate() {
    assert_eq!(offset_region(rect(1, 2, 3, 4), RenderOffset { x: 10, y: -5 }), rect(11, -3, 3, 4));
    assert_eq!(
        offset_region(rect(i32::MAX - 1, i32::MIN + 1, 1, 1), RenderOffset { x: 5, y: -5 }),
        rect(i32::MAX, i32::MIN, 1, 1)
    );
    assert_eq!(union_region(rect(0, 0, 2, 2), rect(5, 1, 1, 4)), rect(0, 0, 6, 5));
    assert_eq!(
        union_region(rect(i32::MIN, 0, 1, 1), rect(i32::MAX, 0, u32::MAX, 1)).width,
        u32::MAX
    );
}

fn glyph(id: u16) -> AtlasCacheKey {
    AtlasCacheKey::Glyph(GlyphCacheKey {
        font_id: 1,
        glyph_id: id,
        size_millipoints: 12_000,
        bold: false,
        italic: false,
    })
}

#[test]
fn atlas_packs_rows_with_padding_and_caches_entries() {
    let mut atlas = GlyphAtlas::new(16, 16);
    assert!(atlas.is_empty());
    assert_eq!(atlas.capacity_bytes(), 16 * 16 * 4);
    let first = atlas.allocate(glyph(1), 4, 6).expect("fits");
    assert_eq!(first, AtlasEntry { x: 1, y: 1, width: 4, height: 6 });
    let second = atlas.allocate(glyph(2), 4, 2).expect("fits");
    assert_eq!(second, AtlasEntry { x: 7, y: 1, width: 4, height: 2 });
    let third = atlas.allocate(glyph(3), 8, 2).expect("wraps to a new row");
    assert_eq!(third, AtlasEntry { x: 1, y: 9, width: 8, height: 2 });
    assert_eq!(atlas.allocate_with_status(glyph(1), 9, 9), Some((first, true)));
    assert_eq!(atlas.entry(glyph(2)), Some(second));
    assert_eq!(atlas.len(), 3);
    assert_eq!(atlas.used_bytes(), (4 * 6 + 4 * 2 + 8 * 2) * 4);
    assert_eq!(atlas.allocate(glyph(4), 15, 1), None);
    assert_eq!(atlas.allocate(AtlasCacheKey::PaneaLogo, 0, 0).map(|e| (e.width, e.height)), Some((1, 1)));
    atlas.clear();
    assert!(atlas.is_empty());
    assert_eq!(atlas.used_bytes(), 0);
    assert_eq!(atlas.dimensions(), (16, 16));
    assert_eq!(GlyphAtlas::new(0, 0).dimensions(), (1, 1));
}

#[test]
fn ppm_frames_round_trip_as_opaque_pixels() {
    let frame = CpuFrame { width: 2, height: 1, pixels: vec![1, 2, 3, 4, 5, 6, 7, 8] };
    let encoded = frame.encode_ppm();
    assert!(encoded.starts_with(b"P6\n2 1\n255\n"));
    let decoded = CpuFrame::decode_ppm(&encoded).expect("valid ppm");
    assert_eq!(decoded, CpuFrame { width: 2, height: 1, pixels: vec![1, 2, 3, 255, 5, 6, 7, 255] });
}

#[test]
fn ppm_decoding_reports_each_malformed_part() {
    let invalid = |bytes: &[u8]| match CpuFrame::decode_ppm(bytes) {
        Err(ScreenshotError::InvalidImage(message)) => message,
        other => panic!("expected an invalid image, got {other:?}"),
    };
    assert_eq!(invalid(b"P3\n1 1\n255\n"), "expected binary PPM magic P6");
    assert_eq!(invalid(b"P6\n# a comment\n1 1\n128\nabc"), "expected max channel value 255");
    assert_eq!(invalid(b"P6\n1 1\n255\nab"), "PPM image payload is truncated");
    assert!(!invalid(b"P6\nx 1\n255\nabc").is_empty());
    let decoded = CpuFrame::decode_ppm(b"P6\n# a comment\n1 1\n255\nabc").expect("comments are skipped");
    assert_eq!(decoded.pixels, vec![b'a', b'b', b'c', 255]);
}

#[test]
fn snapshot_hash_is_fnv1a_over_the_pixels() {
    let empty = CpuFrame { width: 0, height: 0, pixels: Vec::new() };
    assert_eq!(empty.snapshot_hash(), 14_695_981_039_346_656_037);
    let one = CpuFrame { width: 1, height: 1, pixels: vec![b'a'] };
    assert_eq!(one.snapshot_hash(), 0xaf63_dc4c_8601_ec8c);
}

#[test]
fn frame_scheduler_keeps_the_most_urgent_reason_and_counts_idle_wakeups() {
    let mut scheduler = FrameScheduler::new();
    assert!(!scheduler.has_pending_frame());
    assert_eq!(scheduler.next_frame(), FrameDecision::NoFrameNeeded);
    assert_eq!(scheduler.idle_wakeups(), 1);
    scheduler.cursor_blink_changed();
    scheduler.terminal_content_changed();
    scheduler.selection_changed();
    assert!(scheduler.has_pending_frame());
    assert_eq!(
        scheduler.next_frame(),
        FrameDecision::FrameNeeded(FrameRequestReason::TerminalContentChanged)
    );
    scheduler.window_resized();
    scheduler.request(FrameRequestReason::Explicit);
    assert_eq!(scheduler.next_frame(), FrameDecision::FrameNeeded(FrameRequestReason::Explicit));
    assert_eq!(scheduler.take_idle_wakeups(), 1);
    assert_eq!(scheduler.idle_wakeups(), 0);
}

#[test]
fn animation_pacer_waits_for_the_earliest_deadline() {
    let mut pacer = AnimationFramePacer::new();
    assert_eq!(pacer.poll(100, None), AnimationFramePacerDecision::Idle);
    assert_eq!(pacer.poll(100, Some(50)), AnimationFramePacerDecision::WaitUntil(150));
    assert_eq!(pacer.poll(120, Some(100)), AnimationFramePacerDecision::WaitUntil(150));
    assert_eq!(pacer.poll(150, Some(100)), AnimationFramePacerDecision::FrameDue);
    assert_eq!(pacer.poll(150, Some(0)), AnimationFramePacerDecision::FrameDue);
}

#[test]
fn cursor_blink_toggles_after_each_interval() {
    let mut blink = CursorBlinkRuntime::new(0);
    assert!(blink.visible());
    assert_eq!(blink.next_frame_after(0), None);
    assert!(!blink.update(0, true, 500_000_000));
    assert!(!blink.update(400_000_000, true, 500_000_000));
    assert_eq!(blink.next_frame_after(400_000_000), Some(100_000_000));
    assert!(blink.update(500_000_000, true, 500_000_000));
    assert!(!blink.visible());
    assert!(blink.record_activity(600_000_000));
    assert!(blink.visible());
    assert_eq!(blink.next_frame_after(2_000_000_000), Some(1_000_000));
}

#[test]
fn atlas_uploads_are_padded_by_repeating_edges() {
    let upload = AtlasUpload {
        key: AtlasCacheKey::PaneaLogo,
        entry: AtlasEntry { x: 1, y: 1, width: 2, height: 1 },
        pixels: vec![10, 20],
        format: GlyphBitmapFormat::Alpha,
    };
    let padded = padded_atlas_upload(&upload).expect("fits");
    assert_eq!(padded.bytes_per_row, 4);
    assert_eq!(padded.rows_per_image, 3);
    assert_eq!(padded.pixels, vec![10, 10, 20, 20, 10, 10, 20, 20, 10, 10, 20, 20]);

    let rgba = AtlasUpload {
        key: AtlasCacheKey::PaneaLogo,
        entry: AtlasEntry { x: 1, y: 1, width: 1, height: 1 },
        pixels: vec![1, 2, 3, 4],
        format: GlyphBitmapFormat::Rgba,
    };
    let padded = padded_atlas_upload(&rgba).expect("fits");
    assert_eq!(padded.bytes_per_row, 12);
    assert_eq!(padded.pixels, [1, 2, 3, 4].repeat(9));

    let short = AtlasUpload { pixels: vec![1, 2, 3], ..rgba };
    assert!(padded_atlas_upload(&short).is_none());
    let empty = AtlasUpload {
        key: AtlasCacheKey::PaneaLogo,
        entry: AtlasEntry { x: 0, y: 0, width: 0, height: 3 },
        pixels: Vec::new(),
        format: GlyphBitmapFormat::Alpha,
    };
    assert!(padded_atlas_upload(&empty).is_none());
    assert_eq!(pixel_buffer_len(3, 2, 4), Some(24));
}

#[test]
fn cursor_overlay_keeps_cursor_animations_in_order() {
    let handle = |id: u64, kind: AnimationKind| AnimationHandle {
        id,
        kind,
        affected_region: rect(0, 0, 1, 1),
        elapsed: 0,
        remaining: None,
    };
    let scene = RenderScene {
        animations: vec![
            handle(1, AnimationKind::CursorTrail),
            handle(2, AnimationKind::OverlayTransition),
            handle(3, AnimationKind::CursorGlow),
        ],
        content_offset: RenderOffset { x: 3, y: 4 },
        ..RenderScene::default()
    };
    let frame = CursorOverlayFrame::from_scene(&scene);
    assert_eq!(frame.animations.iter().map(|a| a.id).collect::<Vec<_>>(), vec![1, 3]);
    assert_eq!(frame.content_offset, RenderOffset { x: 3, y: 4 });
    assert_eq!(frame.cursor, None);
}

#[test]
fn renderer_choices_follow_the_platform() {
    assert_eq!(native_backend_family(HostOs::Windows), NativeBackendFamily::Windows);
    assert_eq!(
        backend_candidates_for(NativeBackendFamily::Windows, GpuBackendPreference::Auto, true),
        vec![GpuBackendPreference::Vulkan, GpuBackendPreference::Dx12, GpuBackendPreference::Gl]
    );
    assert_eq!(
        backend_candidates_for(NativeBackendFamily::Unix, GpuBackendPreference::Gl, false),
        vec![GpuBackendPreference::Gl]
    );
    assert_eq!(
        select_present_mode(PresentMode::Immediate, &vec![PresentMode::Fifo, PresentMode::Mailbox]),
        PresentMode::Mailbox
    );
    assert_eq!(select_present_mode(PresentMode::Auto, &vec![PresentMode::Mailbox]), PresentMode::Fifo);
    assert_eq!(GpuBackendPreference::Dx12.as_str(), "dx12");
}

#[test]
fn pixel_difference_counts_rgb_changes_only() {
    let expected = CpuFrame { width: 2, height: 1, pixels: vec![10, 20, 30, 255, 0, 0, 0, 255] };
    let actual = CpuFrame { width: 2, height: 1, pixels: vec![13, 20, 29, 0, 0, 0, 0, 1] };
    assert_eq!(
        pixel_difference(&expected, &actual),
        Some(PixelDifference { total_pixels: 2, different_pixels: 1, total_delta: 4, max_channel_delta: 3 })
    );
    let other = CpuFrame { width: 1, height: 2, pixels: vec![0; 8] };
    assert_eq!(pixel_difference(&expected, &other), None);
}

#[test]
fn screenshot_platform_key_names_the_display_server_on_linux() {
    assert_eq!(screenshot_platform_key(HostOs::Windows, true, true), "windows");
    assert_eq!(screenshot_platform_key(HostOs::MacOs, false, false), "macos");
    assert_eq!(screenshot_platform_key(HostOs::Linux, true, true), "linux-wayland");
    assert_eq!(screenshot_platform_key(HostOs::Linux, false, true), "linux-x11");
    assert_eq!(screenshot_platform_key(HostOs::Linux, false, false), "linux");
    assert_eq!(screenshot_platform_key(HostOs::Other, true, false), "unknown");
}

#[test]
fn a_burst_of_requests_owes_one_frame_for_its_most_urgent_reason() {
    let mut scheduler = FrameScheduler::new();
    scheduler.animation_changed();
    scheduler.window_resized();
    scheduler.cursor_blink_changed();
    scheduler.selection_changed();
    assert_eq!(scheduler.next_frame(), FrameDecision::FrameNeeded(FrameRequestReason::WindowResized));
    assert!(!scheduler.has_pending_frame());
    assert_eq!(scheduler.idle_wakeups(), 0);
    assert_eq!(scheduler.next_frame(), FrameDecision::NoFrameNeeded);
    assert_eq!(scheduler.idle_wakeups(), 1);
}

#[test]
fn atlas_bytes_are_four_per_glyph_pixel_and_fit_the_atlas() {
    let mut atlas = GlyphAtlas::new(8, 8);
    let mut expected = 0u64;
    for id in 0..8u16 {
        if let Some(entry) = atlas.allocate(glyph(id), 2, 1) {
            expected += u64::from(entry.width) * u64::from(entry.height) * 4;
        }
        assert_eq!(atlas.used_bytes(), expected);
        assert!(atlas.used_bytes() <= atlas.capacity_bytes());
    }
    assert!(atlas.len() > 0);
}

#[test]
fn switching_blink_off_always_shows_the_cursor() {
    let mut blink = CursorBlinkRuntime::new(0);
    assert!(!blink.update(0, true, 500_000_000));
    assert!(blink.update(500_000_000, true, 500_000_000));
    assert!(!blink.visible());
    assert!(blink.update(600_000_000, false, 500_000_000));
    assert!(blink.visible());
    assert_eq!(blink.next_frame_after(600_000_000), None);
    assert!(!blink.update(700_000_000, false, 500_000_000));
    assert!(blink.visible());
}

#[test]
fn screenshot_fixtures_are_listed_once_each_with_a_kind_and_description() {
    let names = panea::ppm::screenshot_fixture_names();
    let descriptions = panea::ppm::screenshot_fixture_descriptions();
    let kinds = panea::ppm::screenshot_fixture_kinds();
    assert_eq!(names.len(), 17);
    assert_eq!(descriptions.len(), names.len());
    assert_eq!(kinds.len(), names.len());
    assert_eq!(names[0], "ascii-grid");
    assert_eq!(names[16], "fullscreen-chrome-no-controls");
    assert_eq!(descriptions[6], "decoded custom image cursor composited as an overlay");
    assert_eq!(kinds[6], panea::ppm::ScreenshotFixtureKind::CursorImage);
    assert_eq!(kinds[13], panea::ppm::ScreenshotFixtureKind::FullscreenChrome);
    for (i, name) in names.iter().enumerate() {
        assert!(!names[i + 1..].contains(name));
    }
}
