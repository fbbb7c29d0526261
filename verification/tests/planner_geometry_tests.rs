use panea::cursor_fx::{cursor_animation_region, cursor_trail_move_within_threshold, expand_region};
use panea::damage_tracker::{effective_damage_regions, WholePixelCells};
use panea::planner::{
    cell_row_bounds, clip_optional_rect, terminal_text_runs, intersects_any, overlay_draws_behind_terminal_text,
    overlay_label_color, rect_contains, rect_intersection, rects_intersect,
};
use panea::render_core::{
    CellPosition, DamageRegion, OverlayKind, RenderCell, RenderCellStyle, RenderColor, RenderGrid,
    RenderOffset, RenderRect, RenderScene,
};

fn rect(x: i32, y: i32, width: u32, height: u32) -> RenderRect {
    RenderRect { x, y, width, height }
}

#[test]
fn rectangles_intersect_only_when_they_share_a_pixel() {
    assert!(rects_intersect(rect(0, 0, 10, 10), rect(9, 9, 5, 5)));
    assert!(!rects_intersect(rect(0, 0, 10, 10), rect(10, 0, 5, 5)));
    assert!(!rects_intersect(rect(i32::MAX, 0, u32::MAX, 1), rect(0, 0, 1, 1)));
    assert!(rects_intersect(rect(1, 1, 0, 0), rect(0, 0, 3, 3)));
}

#[test]
fn intersection_is_the_shared_rectangle() {
    assert_eq!(rect_intersection(rect(0, 0, 10, 10), rect(5, -3, 10, 6)), Some(rect(5, 0, 5, 3)));
    assert_eq!(rect_intersection(rect(5, -3, 10, 6), rect(0, 0, 10, 10)), Some(rect(5, 0, 5, 3)));
    assert_eq!(rect_intersection(rect(0, 0, 2, 2), rect(2, 0, 2, 2)), None);
    assert_eq!(rect_intersection(rect(1, 1, 0, 0), rect(0, 0, 3, 3)), None);
    assert_eq!(clip_optional_rect(rect(0, 0, 4, 4), None), Some(rect(0, 0, 4, 4)));
    assert_eq!(clip_optional_rect(rect(0, 0, 4, 4), Some(rect(2, 2, 4, 4))), Some(rect(2, 2, 2, 2)));
}

#[test]
fn containment_and_any_intersection() {
    assert!(rect_contains(rect(0, 0, 10, 10), rect(2, 2, 8, 8)));
    assert!(!rect_contains(rect(0, 0, 10, 10), rect(2, 2, 9, 8)));
    let regions = vec![rect(0, 0, 1, 1), rect(20, 20, 5, 5)];
    assert!(intersects_any(rect(22, 22, 1, 1), &regions));
    assert!(!intersects_any(rect(5, 5, 1, 1), &regions));
    assert!(!intersects_any(rect(5, 5, 1, 1), &Vec::new()));
}

fn cell(row: i64, col: u16) -> RenderCell {
    RenderCell {
        position: CellPosition { row, col },
        text: "x".to_string(),
        foreground: RenderColor::rgb(1, 1, 1),
        background: RenderColor::rgb(0, 0, 0),
        style: RenderCellStyle::default(),
    }
}

#[test]
fn row_bounds_span_the_lowest_to_the_highest_row() {
    assert_eq!(cell_row_bounds(&Vec::new()), (0, 0));
    assert_eq!(cell_row_bounds(&vec![cell(4, 0), cell(-2, 3), cell(1, 1)]), (-2, 7));
    assert_eq!(cell_row_bounds(&vec![cell(3, 0)]), (3, 1));
}

#[test]
fn overlay_kinds_choose_layer_and_label_color() {
    assert!(overlay_draws_behind_terminal_text(OverlayKind::CommandBlock));
    assert!(!overlay_draws_behind_terminal_text(OverlayKind::Badge));
    assert_eq!(overlay_label_color(OverlayKind::Badge), RenderColor::rgb(245, 248, 252));
    assert_eq!(overlay_label_color(OverlayKind::Selection), RenderColor::rgb(230, 236, 244));
}

const CELLS: WholePixelCells = WholePixelCells { cell_width: 8, cell_height: 16 };

#[test]
fn effective_damage_is_the_scene_damage_merged_or_the_whole_grid() {
    let mut scene = RenderScene {
        grid: RenderGrid { columns: 4, rows: 2, cells: Vec::new() },
        content_offset: RenderOffset { x: 1, y: 0 },
        cursor: None,
        selections: Vec::new(),
        search_highlights: Vec::new(),
        semantic_overlays: Vec::new(),
        decorations: Vec::new(),
        animations: Vec::new(),
        damage_regions: Vec::new(),
    };
    assert_eq!(effective_damage_regions(&scene, &CELLS), vec![rect(0, 0, 34, 32)]);
    scene.damage_regions = vec![rect(8, 0, 8, 16), rect(0, 0, 8, 16), rect(0, 0, 0, 5)];
    assert_eq!(effective_damage_regions(&scene, &CELLS), vec![rect(0, 0, 16, 16)]);
}

#[test]
fn cursor_regions_grow_and_moves_are_measured_in_cells() {
    let cell = rect(16, 32, 8, 16);
    assert_eq!(cursor_animation_region(cell), rect(12, 28, 16, 24));
    assert_eq!(expand_region(cell, -2), rect(18, 34, 8, 16));
    assert_eq!(expand_region(rect(0, 0, u32::MAX - 1, 1), 3), rect(-3, -3, u32::MAX, 7));
    assert!(cursor_trail_move_within_threshold(rect(0, 0, 8, 16), rect(16, 16, 8, 16), [8, 16], 2));
    assert!(!cursor_trail_move_within_threshold(rect(0, 0, 8, 16), rect(24, 0, 8, 16), [8, 16], 2));
    assert!(cursor_trail_move_within_threshold(rect(0, 0, 1, 1), rect(2, 0, 1, 1), [0, 0], 2));
}

fn text_cell(row: i64, col: u16, text: &str) -> RenderCell {
    RenderCell { text: text.to_string(), ..cell(row, col) }
}

#[test]
fn ascii_cells_join_into_runs_until_something_changes() {
    let mut bold = text_cell(0, 3, "d");
    bold.style.bold = true;
    let cells = vec![
        text_cell(0, 0, "a"),
        text_cell(0, 1, "b"),
        text_cell(0, 2, "c"),
        bold,
        text_cell(0, 5, "e"),
        text_cell(1, 0, "é"),
        text_cell(1, 1, "f"),
    ];
    let runs = terminal_text_runs(&cells);
    let texts: Vec<(i64, u16, &str)> = runs.iter().map(|run| (run.position.row, run.position.col, run.text.as_str())).collect();
    assert_eq!(texts, vec![(0, 0, "abc"), (0, 3, "d"), (0, 5, "e"), (1, 0, "é"), (1, 1, "f")]);
    assert!(terminal_text_runs(&Vec::new()).is_empty());
}
