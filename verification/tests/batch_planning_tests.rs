use panea::atlas::{AtlasCacheKey, GlyphAtlas};
use panea::batches::{plan_batches, PlannedBatches, PlannedQuad};
use panea::damage_tracker::WholePixelCells;
use panea::fonts::GlyphBitmapFormat;
use panea::glyph_placement::{place_glyph, upload_glyph, GlyphRunCache, GlyphRunKey};
use panea::render_core::{
    AnimationHandle, AnimationKind, CellPosition, CursorVisual, GlyphInstrumentation, OverlayKind, OverlayPrimitive,
    RenderCell, RenderCellStyle, RenderColor, RenderCursorShape, RenderDecoration, RenderGrid, RenderOffset,
    RenderRect, RenderScene, SelectionVisual,
};

const CELLS: WholePixelCells = WholePixelCells { cell_width: 10, cell_height: 20 };

fn rect(x: i32, y: i32, width: u32, height: u32) -> RenderRect {
    RenderRect { x, y, width, height }
}

fn cell(row: i64, col: u16, text: &str, background: RenderColor) -> RenderCell {
    RenderCell {
        position: CellPosition { row, col },
        text: text.to_owned(),
        foreground: RenderColor::rgb(255, 255, 255),
        background,
        style: RenderCellStyle::default(),
    }
}

fn solid(rect: RenderRect, color: RenderColor) -> PlannedQuad {
    PlannedQuad { rect, color, radius: 0, line: 0 }
}

fn scene() -> RenderScene {
    let black = RenderColor::rgb(0, 0, 0);
    let mut cells = Vec::new();
    for row in 0..2i64 {
        for col in 0..4u16 {
            cells.push(cell(row, col, if col == 3 { " " } else { "a" }, black));
        }
    }
    RenderScene {
        grid: RenderGrid { columns: 4, rows: 2, cells },
        content_offset: RenderOffset { x: 0, y: 0 },
        cursor: None,
        selections: Vec::new(),
        search_highlights: Vec::new(),
        semantic_overlays: Vec::new(),
        decorations: Vec::new(),
        animations: Vec::new(),
        damage_regions: Vec::new(),
    }
}

#[test]
fn damage_culls_cells_to_the_damaged_columns_of_their_rows() {
    let s = scene();
    let damage = vec![rect(10, 0, 10, 20)];
    let planned = plan_batches(&s, &CELLS, Some(&damage));
    assert_eq!(planned.damage_regions, damage);
    assert_eq!(planned.background, vec![solid(rect(10, 0, 10, 20), RenderColor::rgb(0, 0, 0))]);
    assert_eq!(planned.text_runs.len(), 1);
    assert_eq!(planned.text_runs[0].text, "aaa ");
    assert_eq!(planned.text_runs[0].position, CellPosition { row: 0, col: 0 });
}

#[test]
fn without_damage_the_whole_grid_is_planned() {
    let s = scene();
    let planned = plan_batches(&s, &CELLS, None);
    assert_eq!(planned.damage_regions, vec![rect(0, 0, 40, 40)]);
    assert_eq!(planned.background.len(), 8);
    assert_eq!(planned.text_runs.len(), 2);
}

#[test]
fn overlays_go_in_depth_order_under_or_over_the_text() {
    let mut s = scene();
    let mut front = OverlayPrimitive::filled(OverlayKind::Badge, rect(0, 0, 10, 10), RenderColor::rgb(1, 1, 1));
    front.z_index = 2;
    front.label = Some("x".to_owned());
    let mut back = OverlayPrimitive::filled(OverlayKind::CommandBlock, rect(0, 0, 40, 20), RenderColor::rgb(2, 2, 2));
    back.border_color = Some(RenderColor::rgb(3, 3, 3));
    let mut low = OverlayPrimitive::filled(OverlayKind::Badge, rect(20, 0, 10, 10), RenderColor::rgb(4, 4, 4));
    low.z_index = -1;
    let outside = OverlayPrimitive::filled(OverlayKind::Badge, rect(500, 500, 10, 10), RenderColor::rgb(5, 5, 5));
    s.search_highlights = vec![front, outside];
    s.semantic_overlays = vec![back, low];
    s.decorations = vec![RenderDecoration { bounds: rect(0, 20, 4, 4), color: RenderColor::rgb(6, 6, 6), border_color: None }];
    let planned = plan_batches(&s, &CELLS, None);
    let background_tail: Vec<PlannedQuad> = planned.background[8..].to_vec();
    assert_eq!(background_tail.len(), 5);
    assert_eq!(background_tail[0], solid(rect(0, 0, 40, 20), RenderColor::rgb(2, 2, 2)));
    assert_eq!(background_tail[1], solid(rect(0, 0, 40, 1), RenderColor::rgb(3, 3, 3)));
    assert_eq!(
        planned.decorations,
        vec![
            solid(rect(20, 0, 10, 10), RenderColor::rgb(4, 4, 4)),
            solid(rect(0, 0, 10, 10), RenderColor::rgb(1, 1, 1)),
            solid(rect(0, 20, 4, 4), RenderColor::rgb(6, 6, 6)),
        ]
    );
    assert_eq!(planned.labelled_overlays, vec![0]);
}

#[test]
fn selections_and_cursor_follow_the_damage() {
    let mut s = scene();
    s.selections = vec![SelectionVisual {
        cells: vec![CellPosition { row: 0, col: 1 }, CellPosition { row: 5, col: 1 }],
        color: RenderColor::rgb(9, 9, 9),
    }];
    s.cursor = Some(CursorVisual {
        position: CellPosition { row: 1, col: 2 },
        shape: RenderCursorShape::Beam,
        color: RenderColor::rgb(7, 7, 7),
        visible: true,
        thickness_percent: 20,
        corner_radius_px: 0,
        inactive: false,
    });
    let planned = plan_batches(&s, &CELLS, None);
    assert_eq!(planned.selections, vec![solid(rect(10, 0, 10, 20), RenderColor::rgb(9, 9, 9))]);
    assert_eq!(planned.cursor, vec![solid(rect(20, 20, 2, 20), RenderColor::rgb(7, 7, 7))]);
    s.animations = vec![AnimationHandle {
        id: 1,
        kind: AnimationKind::CursorSmoothMovement,
        affected_region: rect(0, 0, 1, 1),
        elapsed: 0,
        remaining: Some(10),
    }];
    assert!(plan_batches(&s, &CELLS, None).cursor.is_empty());
}

#[test]
fn wide_text_reaches_its_second_column() {
    let mut s = scene();
    s.grid.cells = vec![cell(0, 0, "漢", RenderColor::rgb(0, 0, 0))];
    let damage = vec![rect(10, 0, 10, 20)];
    let planned = plan_batches(&s, &CELLS, Some(&damage));
    assert_eq!(planned.text_runs.len(), 1);
    assert!(planned.background.is_empty());
}

fn key(id: u16) -> AtlasCacheKey {
    AtlasCacheKey::PowerlineCap { codepoint: char::from_u32(0xe0b0 + u32::from(id)).unwrap(), width: 4, height: 4 }
}

#[test]
fn placing_glyphs_counts_hits_misses_and_uploads() {
    let mut atlas = GlyphAtlas::new(16, 8);
    let mut stats = GlyphInstrumentation::default();
    let mut uploads = Vec::new();
    let mut exhausted = false;
    let first = place_glyph(&mut atlas, key(0), 4, 4, vec![1; 16], GlyphBitmapFormat::Alpha, &mut stats, &mut uploads, &mut exhausted)
        .expect("fits");
    assert_eq!((stats.cache_hits, stats.cache_misses, stats.atlas_uploads), (0, 1, 1));
    assert_eq!(uploads.len(), 1);
    assert_eq!(uploads[0].entry, first);
    assert_eq!(uploads[0].pixels, vec![1; 16]);
    let again = place_glyph(&mut atlas, key(0), 4, 4, vec![2; 16], GlyphBitmapFormat::Alpha, &mut stats, &mut uploads, &mut exhausted);
    assert_eq!(again, Some(first));
    assert_eq!((stats.cache_hits, stats.cache_misses, stats.atlas_uploads), (1, 1, 1));
    assert_eq!(uploads.len(), 1);
    place_glyph(&mut atlas, key(1), 4, 4, vec![1; 16], GlyphBitmapFormat::Alpha, &mut stats, &mut uploads, &mut exhausted)
        .expect("fits beside");
    assert!(!exhausted);
    let none = place_glyph(&mut atlas, key(2), 4, 4, vec![1; 16], GlyphBitmapFormat::Alpha, &mut stats, &mut uploads, &mut exhausted);
    assert_eq!(none, None);
    assert!(exhausted);
    assert_eq!(uploads.len(), 2);
    let cached = upload_glyph(&mut atlas, key(1), 4, 4, vec![9; 16], GlyphBitmapFormat::Alpha, &mut stats, &mut uploads, &mut exhausted);
    assert!(cached.is_some());
    assert_eq!(uploads.len(), 2);
    assert_eq!(stats.cache_hits, 1);
}

fn run_key(text: &str) -> GlyphRunKey {
    GlyphRunKey { font_generation: 1, text: text.to_owned(), size_millipoints: 12_000, bold: false, italic: false }
}

#[test]
fn the_run_cache_evicts_the_least_recently_used_run() {
    let mut cache: GlyphRunCache<u32> = GlyphRunCache::new(2);
    assert!(!cache.touch(&run_key("a")));
    cache.insert(run_key("a"), 1);
    assert!(!cache.touch(&run_key("b")));
    cache.insert(run_key("b"), 2);
    assert!(cache.touch(&run_key("a")));
    assert!(!cache.touch(&run_key("c")));
    cache.insert(run_key("c"), 3);
    assert_eq!(cache.len(), 2);
    assert_eq!(cache.run(&run_key("b")), None);
    assert_eq!(cache.run(&run_key("a")), Some(&1));
    assert_eq!(cache.run(&run_key("c")), Some(&3));
    assert_eq!(GlyphRunCache::<u32>::new(0).len(), 0);
}

fn float_inset(radius: u32, y: u32, height: u32) -> u32 {
    if radius == 0 || height == 0 {
        return 0;
    }
    let edge_y = y.min(height.saturating_sub(1).saturating_sub(y));
    if edge_y >= radius {
        return 0;
    }
    let center = f64::from(radius) - 0.5;
    let dy = center - (f64::from(edge_y) + 0.5);
    let inside = (center * center - dy * dy).max(0.0).sqrt();
    (center - inside).ceil().max(0.0) as u32
}

#[test]
fn corner_insets_match_the_circle_they_follow() {
    for radius in 0..12u32 {
        for height in 0..30u32 {
            for y in 0..height {
                assert_eq!(
                    panea::batch_raster::rounded_corner_inset(radius, y, height),
                    float_inset(radius, y, height),
                    "radius {radius} y {y} height {height}"
                );
            }
        }
    }
}

#[test]
fn rasterized_batches_clear_then_fill_the_damaged_cells() {
    let one = WholePixelCells { cell_width: 1, cell_height: 1 };
    let mut s = scene();
    s.grid = RenderGrid {
        columns: 2,
        rows: 1,
        cells: vec![cell(0, 0, "a", RenderColor::rgb(255, 0, 0)), cell(0, 1, "b", RenderColor::rgb(0, 255, 0))],
    };
    let planned = plan_batches(&s, &one, None);
    let mut frame = panea::ppm::CpuFrame { width: 3, height: 1, pixels: vec![7; 12] };
    panea::batch_raster::rasterize_batches(&mut frame, &planned, &Vec::new(), RenderColor::rgb(1, 2, 3));
    assert_eq!(frame.pixels, vec![255, 0, 0, 255, 0, 255, 0, 255, 7, 7, 7, 7]);
}

#[test]
fn rounded_quads_leave_their_corners_alone() {
    let quad = PlannedQuad { rect: rect(0, 0, 6, 6), color: RenderColor::rgb(9, 9, 9), radius: 3, line: 0 };
    let planned = PlannedBatches {
        damage_regions: vec![rect(0, 0, 6, 6)],
        background: vec![quad],
        decorations: Vec::new(),
        selections: Vec::new(),
        cursor: Vec::new(),
        text_runs: Vec::new(),
        labelled_overlays: Vec::new(),
    };
    let mut frame = panea::ppm::CpuFrame { width: 6, height: 6, pixels: vec![0; 144] };
    panea::batch_raster::rasterize_batches(&mut frame, &planned, &Vec::new(), RenderColor::rgb(1, 1, 1));
    let at = |x: usize, y: usize| frame.pixels[(y * 6 + x) * 4];
    assert_eq!(at(0, 0), 1);
    assert_eq!(at(3, 0), 9);
    assert_eq!(at(0, 3), 9);
    assert_eq!(at(5, 5), 1);
}

#[test]
fn quad_draw_calls_count_the_non_empty_quad_batches() {
    let s = scene();
    let planned = plan_batches(&s, &CELLS, None);
    let expected = [
        !planned.background.is_empty(),
        !planned.decorations.is_empty(),
        !planned.selections.is_empty(),
        !planned.cursor.is_empty(),
    ]
    .iter()
    .filter(|non_empty| **non_empty)
    .count() as u32;
    assert_eq!(planned.quad_draw_calls(), expected);
    assert!(planned.quad_draw_calls() >= 1);
    let far = vec![rect(1000, 1000, 5, 5)];
    let nothing = plan_batches(&s, &CELLS, Some(&far));
    assert_eq!(nothing.quad_draw_calls(), 0);
}
