use panea::cursor_fx::{
    CursorAnimationState,
    advance_cursor_animations, cursor_animation_kinds, push_cursor_animation, CursorAnimationSettings,
};
use panea::damage_tracker::WholePixelCells;
use panea::render_core::{
    RenderGrid, RenderOffset, RenderScene,
    AnimationHandle, AnimationKind, CellPosition, CursorVisual, RenderColor, RenderCursorShape, RenderRect,
};

fn cell(x: i32, y: i32) -> RenderRect {
    RenderRect { x, y, width: 10, height: 20 }
}

fn cursor(row: i64, col: u16, visible: bool) -> CursorVisual {
    CursorVisual {
        position: CellPosition { row, col },
        shape: RenderCursorShape::Block,
        color: RenderColor { red: 255, green: 255, blue: 255, alpha: 255 },
        visible,
        thickness_percent: 100,
        corner_radius_px: 0,
        inactive: false,
    }
}

fn everything_on() -> CursorAnimationSettings {
    let mut settings = CursorAnimationSettings::panea(60, 8, 250_000);
    settings.typing_pulse = true;
    settings.typing_stretch = true;
    settings.short_lived_glow = true;
    settings.blink_easing = true;
    settings
}

#[test]
fn cursor_animations_start_by_kind_in_order() {
    let settings = everything_on();
    let kinds = cursor_animation_kinds(Some(cursor(0, 0, false)), cursor(5, 0, true), cell(0, 0), cell(0, 100), true, settings);
    assert_eq!(
        kinds,
        vec![
            AnimationKind::CursorSmoothMovement,
            AnimationKind::CursorTypingPulse,
            AnimationKind::CursorTypingStretch,
            AnimationKind::CursorGlow,
            AnimationKind::CursorBlinkEasing,
        ]
    );
    // A move of two cells stays within the jump threshold: no glide.
    let short = cursor_animation_kinds(Some(cursor(0, 0, true)), cursor(0, 2, true), cell(0, 0), cell(20, 0), false, settings);
    assert!(short.is_empty());
    let off = cursor_animation_kinds(Some(cursor(0, 0, false)), cursor(5, 0, true), cell(0, 0), cell(0, 100), true, CursorAnimationSettings::default());
    assert!(off.is_empty());
}

#[test]
fn pushed_animations_replace_their_kind_and_respect_the_limits() {
    let settings = CursorAnimationSettings::panea(60, 2, 1_000);
    let mut active: Vec<AnimationHandle> = Vec::new();
    let mut next_id = 1u64;
    assert!(push_cursor_animation(&mut active, &mut next_id, settings, AnimationKind::CursorGlow, cell(0, 0), 100));
    assert!(push_cursor_animation(&mut active, &mut next_id, settings, AnimationKind::CursorTypingPulse, cell(0, 0), 50));
    assert_eq!(next_id, 3);
    assert!(!push_cursor_animation(&mut active, &mut next_id, settings, AnimationKind::CursorBlinkEasing, cell(0, 0), 10));
    assert!(push_cursor_animation(&mut active, &mut next_id, settings, AnimationKind::CursorGlow, cell(5, 5), 70));
    assert_eq!(active.len(), 2);
    assert_eq!(active[0].id, 3);
    assert_eq!(active[0].affected_region, cell(5, 5));
    assert_eq!(active[0].remaining, Some(70));
    let big = RenderRect { x: 0, y: 0, width: 100, height: 100 };
    assert!(!push_cursor_animation(&mut active, &mut next_id, settings, AnimationKind::CursorGlow, big, 70));
    assert_eq!(next_id, 4);
}

#[test]
fn advancing_animations_drops_the_finished_ones() {
    let mut active = vec![
        AnimationHandle { id: 1, kind: AnimationKind::CursorGlow, affected_region: cell(0, 0), elapsed: 0, remaining: Some(30) },
        AnimationHandle { id: 2, kind: AnimationKind::CursorTrail, affected_region: cell(0, 0), elapsed: 5, remaining: None },
        AnimationHandle { id: 3, kind: AnimationKind::CursorTypingPulse, affected_region: cell(0, 0), elapsed: 0, remaining: Some(80) },
    ];
    advance_cursor_animations(&mut active, 40);
    assert_eq!(active.len(), 2);
    assert_eq!(active[0].id, 2);
    assert_eq!(active[0].elapsed, 45);
    assert_eq!(active[0].remaining, None);
    assert_eq!(active[1].id, 3);
    assert_eq!(active[1].remaining, Some(40));
    advance_cursor_animations(&mut active, u64::MAX);
    assert_eq!(active.len(), 1);
    assert_eq!(active[0].elapsed, u64::MAX);
}

fn scene_with(cursor_visual: Option<CursorVisual>) -> RenderScene {
    RenderScene {
        grid: RenderGrid { columns: 10, rows: 4, cells: Vec::new() },
        content_offset: RenderOffset { x: 0, y: 0 },
        cursor: cursor_visual,
        selections: Vec::new(),
        search_highlights: Vec::new(),
        semantic_overlays: Vec::new(),
        decorations: Vec::new(),
        animations: Vec::new(),
        damage_regions: Vec::new(),
    }
}

const CELLS: WholePixelCells = WholePixelCells { cell_width: 10, cell_height: 20 };

#[test]
fn with_effects_off_a_frame_is_left_alone() {
    let mut state = CursorAnimationState::new(0);
    state.record_typing();
    let mut scene = scene_with(Some(cursor(1, 2, true)));
    state.populate_scene_step(&mut scene, &CELLS, 1_000, CursorAnimationSettings::default());
    assert_eq!(scene, scene_with(Some(cursor(1, 2, true))));
    assert!(!state.needs_frame());
    assert!(!state.typing_requested);
    assert_eq!(state.previous_cursor, Some(cursor(1, 2, true)));
}

#[test]
fn typing_starts_a_pulse_over_the_cursor_region() {
    let mut settings = CursorAnimationSettings::default();
    settings.enabled = true;
    settings.typing_pulse = true;
    let mut state = CursorAnimationState::new(0);
    state.record_typing();
    let mut scene = scene_with(Some(cursor(1, 2, true)));
    state.populate_scene_step(&mut scene, &CELLS, 5, settings);
    assert_eq!(scene.animations.len(), 1);
    assert_eq!(scene.animations[0].kind, AnimationKind::CursorTypingPulse);
    assert_eq!(scene.animations[0].affected_region, RenderRect { x: 16, y: 16, width: 18, height: 28 });
    assert_eq!(scene.animations[0].remaining, Some(140_000_000));
    assert_eq!(scene.damage_regions, vec![RenderRect { x: 16, y: 16, width: 18, height: 28 }]);
    assert_eq!(state.next_id, 2);
    assert_eq!(state.last_tick, 5);
    assert!(state.needs_frame());
    assert_eq!(state.next_frame_after(settings), Some(16_666_000));
    assert_eq!(CursorAnimationState::new(0).next_frame_after(settings), None);
}

#[test]
fn a_jump_glides_from_the_previous_cell() {
    let mut settings = CursorAnimationSettings::default();
    settings.enabled = true;
    settings.smooth_movement = true;
    let mut state = CursorAnimationState::new(0);
    let mut first = scene_with(Some(cursor(0, 0, true)));
    state.populate_scene_step(&mut first, &CELLS, 1, settings);
    assert!(first.animations.is_empty());
    let mut second = scene_with(Some(cursor(0, 5, true)));
    state.populate_scene_step(&mut second, &CELLS, 2, settings);
    assert_eq!(second.animations.len(), 1);
    assert_eq!(second.animations[0].kind, AnimationKind::CursorSmoothMovement);
    assert_eq!(second.animations[0].affected_region, RenderRect { x: -4, y: -4, width: 18, height: 28 });
    let mut third = scene_with(Some(cursor(0, 5, true)));
    state.populate_scene_step(&mut third, &CELLS, 2 + 60_000_000, settings);
    assert_eq!(third.animations[0].remaining, Some(60_000_000));
}
