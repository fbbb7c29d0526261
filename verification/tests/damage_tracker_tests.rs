use panea::damage_tracker::{CellGeometry, DamageTracker, WholePixelCells};
use panea::render_core::{
    AnimationHandle, AnimationKind, CellPosition, CursorVisual, DamageRegion, RenderCell,
    RenderCellStyle, RenderColor, RenderCursorShape, RenderGrid, RenderOffset, RenderRect,
    RenderScene, SelectionVisual,
};

/// Cells of ten by twenty pixels.
const FIXED_CELLS: WholePixelCells = WholePixelCells { cell_width: 10, cell_height: 20 };

fn cell(row: i64, col: u16, text: &str) -> RenderCell {
    RenderCell {
        position: CellPosition { row, col },
        text: text.to_string(),
        foreground: RenderColor::rgb(255, 255, 255),
        background: RenderColor::rgb(0, 0, 0),
        style: RenderCellStyle::default(),
    }
}

fn scene(texts: &[&str]) -> RenderScene {
    let cells = texts
        .iter()
        .enumerate()
        .map(|(col, text)| cell(0, col as u16, text))
        .collect::<Vec<_>>();
    RenderScene {
        grid: RenderGrid { columns: texts.len() as u16, rows: 1, cells },
        content_offset: RenderOffset::default(),
        cursor: None,
        selections: Vec::new(),
        search_highlights: Vec::new(),
        semantic_overlays: Vec::new(),
        decorations: Vec::new(),
        animations: Vec::new(),
        damage_regions: Vec::new(),
    }
}

fn cursor_at(col: u16) -> CursorVisual {
    CursorVisual {
        position: CellPosition { row: 0, col },
        shape: RenderCursorShape::Block,
        color: RenderColor::rgb(200, 200, 200),
        visible: true,
        thickness_percent: 100,
        corner_radius_px: 0,
        inactive: false,
    }
}

#[test]
fn first_update_redraws_the_whole_grid() {
    let mut tracker = DamageTracker::new();
    let regions = tracker.update(&scene(&["a", "b", "c"]), &FIXED_CELLS);
    assert_eq!(regions, vec![RenderRect { x: 0, y: 0, width: 30, height: 20 }]);
}

#[test]
fn full_redraw_widens_by_the_content_offset() {
    let mut tracker = DamageTracker::default();
    let mut shifted = scene(&["a", "b"]);
    shifted.content_offset = RenderOffset { x: 4, y: 3 };
    let regions = tracker.update(&shifted, &FIXED_CELLS);
    assert_eq!(regions, vec![RenderRect { x: 0, y: 0, width: 28, height: 26 }]);
}

#[test]
fn unchanged_scene_reports_no_damage() {
    let mut tracker = DamageTracker::new();
    let frame = scene(&["a", "b", "c"]);
    tracker.update(&frame, &FIXED_CELLS);
    assert!(tracker.update(&frame, &FIXED_CELLS).is_empty());
    assert!(tracker.update_animations_only(&frame, &FIXED_CELLS).is_empty());
}

#[test]
fn changed_cell_damages_its_ligature_context() {
    let mut tracker = DamageTracker::new();
    tracker.update(&scene(&["a", "b", "c", "d", "e", "f", "g", "h"]), &FIXED_CELLS);
    let regions = tracker.update(&scene(&["a", "b", "c", "d", "X", "f", "g", "h"]), &FIXED_CELLS);
    assert_eq!(regions, vec![RenderRect { x: 20, y: 0, width: 50, height: 20 }]);
    assert!(tracker
        .update(&scene(&["a", "b", "c", "d", "X", "f", "g", "h"]), &FIXED_CELLS)
        .is_empty());
}

#[test]
fn removed_cell_is_damaged() {
    let mut tracker = DamageTracker::new();
    tracker.update(&scene(&["a", "b", "c", "d"]), &FIXED_CELLS);
    let mut fewer = scene(&["a", "b", "c", "d"]);
    fewer.grid.cells.pop();
    let regions = tracker.update(&fewer, &FIXED_CELLS);
    assert_eq!(regions, vec![RenderRect { x: 10, y: 0, width: 30, height: 20 }]);
}

#[test]
fn requested_full_redraw_reports_the_grid_once() {
    let mut tracker = DamageTracker::new();
    let frame = scene(&["a", "b"]);
    tracker.update(&frame, &FIXED_CELLS);
    tracker.request_full_redraw();
    assert_eq!(tracker.update(&frame, &FIXED_CELLS), vec![RenderRect { x: 0, y: 0, width: 20, height: 20 }]);
    assert!(tracker.update(&frame, &FIXED_CELLS).is_empty());
}

#[test]
fn resized_grid_redraws_everything() {
    let mut tracker = DamageTracker::new();
    tracker.update(&scene(&["a", "b"]), &FIXED_CELLS);
    let regions = tracker.update(&scene(&["a", "b", "c"]), &FIXED_CELLS);
    assert_eq!(regions, vec![RenderRect { x: 0, y: 0, width: 30, height: 20 }]);
}

#[test]
fn moved_cursor_damages_both_cells() {
    let mut tracker = DamageTracker::new();
    let mut frame = scene(&["a", "b", "c", "d", "e", "f"]);
    frame.cursor = Some(cursor_at(0));
    tracker.update(&frame, &FIXED_CELLS);
    frame.cursor = Some(cursor_at(5));
    let regions = tracker.update(&frame, &FIXED_CELLS);
    assert_eq!(
        regions,
        vec![
            RenderRect { x: 0, y: 0, width: 10, height: 20 },
            RenderRect { x: 50, y: 0, width: 10, height: 20 },
        ]
    );
}

#[test]
fn animation_change_damages_old_and_new_regions() {
    let mut tracker = DamageTracker::new();
    let mut frame = scene(&["a", "b", "c"]);
    frame.content_offset = RenderOffset { x: 1, y: 2 };
    frame.animations = vec![AnimationHandle {
        id: 1,
        kind: AnimationKind::CursorGlow,
        affected_region: RenderRect { x: 0, y: 0, width: 5, height: 5 },
        elapsed: 0,
        remaining: None,
    }];
    tracker.update(&frame, &FIXED_CELLS);
    frame.animations[0].affected_region = RenderRect { x: 40, y: 0, width: 5, height: 5 };
    let regions = tracker.update_animations_only(&frame, &FIXED_CELLS);
    assert_eq!(
        regions,
        vec![
            RenderRect { x: 1, y: 2, width: 5, height: 5 },
            RenderRect { x: 41, y: 2, width: 5, height: 5 },
        ]
    );
    assert!(tracker.update_animations_only(&frame, &FIXED_CELLS).is_empty());
}

#[test]
fn animations_only_falls_back_to_a_full_update() {
    let mut tracker = DamageTracker::new();
    let regions = tracker.update_animations_only(&scene(&["a", "b"]), &FIXED_CELLS);
    assert_eq!(regions, vec![RenderRect { x: 0, y: 0, width: 20, height: 20 }]);
}

#[test]
fn whole_pixel_cells_lie_on_a_grid_from_the_origin() {
    let cells = WholePixelCells { cell_width: 7, cell_height: 15 };
    assert_eq!(cells.cell_region(CellPosition { row: 2, col: 3 }), RenderRect { x: 21, y: 30, width: 7, height: 15 });
    assert_eq!(cells.cell_region(CellPosition { row: -4, col: 0 }), RenderRect { x: 0, y: 0, width: 7, height: 15 });
    assert_eq!(cells.grid_extent(80, 24), (560, 360));
    let huge = WholePixelCells { cell_width: u32::MAX, cell_height: u32::MAX };
    assert_eq!(huge.cell_region(CellPosition { row: i64::MAX, col: u16::MAX }).x, i32::MAX);
    assert_eq!(huge.cell_region(CellPosition { row: i64::MAX, col: u16::MAX }).y, i32::MAX);
    assert_eq!(huge.grid_extent(2, 3), (u32::MAX, u32::MAX));
}

#[test]
fn selection_change_damages_old_and_new_selected_cells() {
    let mut tracker = DamageTracker::new();
    let mut first = scene(&["a", "b", "c", "d"]);
    first.selections = vec![SelectionVisual { cells: vec![CellPosition { row: 0, col: 0 }], color: RenderColor::rgb(1, 2, 3) }];
    tracker.update(&first, &FIXED_CELLS);
    let mut second = scene(&["a", "b", "c", "d"]);
    second.selections = vec![SelectionVisual { cells: vec![CellPosition { row: 0, col: 3 }], color: RenderColor::rgb(1, 2, 3) }];
    let regions = tracker.update(&second, &FIXED_CELLS);
    assert_eq!(
        regions,
        vec![RenderRect { x: 0, y: 0, width: 10, height: 20 }, RenderRect { x: 30, y: 0, width: 10, height: 20 }]
    );
}
