use panea::fonts::GlyphBitmapFormat;
use panea::ppm::CpuFrame;
use panea::raster::{blend_byte, blend_rect, draw_glyph_clipped, draw_rgba_bitmap, fill_rect, stroke_rect};
use panea::render_core::{
    CellPosition, CursorVisual, RenderCell, RenderCellStyle, RenderColor, RenderCursorShape, RenderGrid, RenderOffset,
    RenderRect, RenderScene, SelectionVisual,
};

fn frame(width: u32, height: u32) -> CpuFrame {
    CpuFrame { width, height, pixels: vec![0; (width * height * 4) as usize] }
}

fn pixel(frame: &CpuFrame, x: u32, y: u32) -> [u8; 4] {
    let i = ((y * frame.width + x) * 4) as usize;
    [frame.pixels[i], frame.pixels[i + 1], frame.pixels[i + 2], frame.pixels[i + 3]]
}

fn painted(frame: &CpuFrame) -> Vec<(u32, u32)> {
    let mut out = Vec::new();
    for y in 0..frame.height {
        for x in 0..frame.width {
            if pixel(frame, x, y) != [0, 0, 0, 0] {
                out.push((x, y));
            }
        }
    }
    out
}

#[test]
fn fill_rect_paints_only_the_clipped_rectangle() {
    let mut f = frame(4, 3);
    let red = RenderColor { red: 255, green: 0, blue: 0, alpha: 200 };
    fill_rect(&mut f, RenderRect { x: 2, y: 1, width: 5, height: 1 }, red);
    assert_eq!(painted(&f), vec![(2, 1), (3, 1)]);
    assert_eq!(pixel(&f, 3, 1), [255, 0, 0, 200]);
}

#[test]
fn fill_rect_moves_a_negative_start_onto_the_frame_keeping_its_length() {
    let mut f = frame(6, 1);
    fill_rect(&mut f, RenderRect { x: -2, y: 0, width: 3, height: 1 }, RenderColor::rgb(1, 2, 3));
    assert_eq!(painted(&f), vec![(0, 0), (1, 0), (2, 0)]);
}

#[test]
fn blend_rect_mixes_channels_and_makes_pixels_opaque() {
    let mut f = frame(2, 1);
    f.pixels = vec![100, 100, 100, 7, 0, 0, 0, 0];
    blend_rect(&mut f, RenderRect { x: 0, y: 0, width: 1, height: 1 }, RenderColor { red: 200, green: 0, blue: 100, alpha: 51 });
    assert_eq!(pixel(&f, 0, 0), [120, 80, 100, 255]);
    assert_eq!(pixel(&f, 1, 0), [0, 0, 0, 0]);
    assert_eq!(blend_byte(255, 0, 128), 128);
}

#[test]
fn stroke_rect_draws_only_the_outline() {
    let mut f = frame(5, 5);
    stroke_rect(&mut f, RenderRect { x: 0, y: 0, width: 5, height: 5 }, 1, RenderColor::rgb(9, 9, 9));
    let painted = painted(&f);
    assert_eq!(painted.len(), 16);
    assert!(!painted.contains(&(2, 2)));
    assert!(painted.contains(&(4, 4)));

    let mut thick = frame(5, 5);
    stroke_rect(&mut thick, RenderRect { x: 0, y: 0, width: 5, height: 5 }, 9, RenderColor::rgb(9, 9, 9));
    assert_eq!(painted_count(&thick), 25);

    let mut empty = frame(5, 5);
    stroke_rect(&mut empty, RenderRect { x: 0, y: 0, width: 0, height: 5 }, 1, RenderColor::rgb(9, 9, 9));
    assert_eq!(painted_count(&empty), 0);
}

fn painted_count(frame: &CpuFrame) -> usize {
    painted(frame).len()
}

#[test]
fn rgba_bitmap_is_scaled_by_nearest_neighbour_and_clipped_to_the_frame() {
    let mut f = frame(3, 3);
    let image = [
        255, 0, 0, 255, 0, 255, 0, 255, //
        0, 0, 255, 255, 255, 255, 255, 0,
    ];
    draw_rgba_bitmap(&mut f, RenderRect { x: -1, y: 0, width: 4, height: 4 }, 2, 2, &image, 255);
    assert_eq!(pixel(&f, 0, 0), [255, 0, 0, 255]);
    assert_eq!(pixel(&f, 1, 0), [0, 255, 0, 255]);
    assert_eq!(pixel(&f, 0, 2), [0, 0, 255, 255]);
    assert_eq!(pixel(&f, 1, 2), [0, 0, 0, 255]);
}

#[test]
fn rgba_bitmap_opacity_scales_alpha_and_short_sources_are_skipped() {
    let mut f = frame(2, 1);
    draw_rgba_bitmap(&mut f, RenderRect { x: 0, y: 0, width: 2, height: 1 }, 2, 1, &[200, 200, 200, 255], 51);
    assert_eq!(pixel(&f, 0, 0), [40, 40, 40, 255]);
    assert_eq!(pixel(&f, 1, 0), [0, 0, 0, 0]);
}

#[test]
fn glyph_mask_tints_the_color_inside_the_clip_only() {
    let mut f = frame(4, 2);
    let mask = [255, 0, 128, 255];
    let white = RenderColor::rgb(255, 255, 255);
    draw_glyph_clipped(
        &mut f,
        1,
        0,
        2,
        2,
        &mask,
        GlyphBitmapFormat::Alpha,
        white,
        Some(RenderRect { x: 0, y: 0, width: 4, height: 1 }),
    );
    assert_eq!(pixel(&f, 1, 0), [255, 255, 255, 255]);
    assert_eq!(pixel(&f, 2, 0), [0, 0, 0, 0]);
    assert_eq!(pixel(&f, 1, 1), [0, 0, 0, 0]);
}

#[test]
fn color_glyph_brings_its_own_colors() {
    let mut f = frame(2, 1);
    let bitmap = [10, 20, 30, 255, 1, 1, 1, 0];
    draw_glyph_clipped(&mut f, 0, 0, 2, 1, &bitmap, GlyphBitmapFormat::Rgba, RenderColor::rgb(255, 0, 0), None);
    assert_eq!(pixel(&f, 0, 0), [10, 20, 30, 255]);
    assert_eq!(pixel(&f, 1, 0), [0, 0, 0, 0]);
}

#[test]
fn rounded_rects_leave_their_corners() {
    let white = RenderColor::rgb(255, 255, 255);
    let mut filled = frame(8, 8);
    panea::batch_raster::draw_rounded_rect(&mut filled, RenderRect { x: 0, y: 0, width: 8, height: 8 }, 3, white);
    assert_eq!(pixel(&filled, 0, 0), [0, 0, 0, 0]);
    assert_eq!(pixel(&filled, 4, 4), [255, 255, 255, 255]);
    assert_eq!(pixel(&filled, 0, 4), [255, 255, 255, 255]);

    let mut square = frame(8, 8);
    panea::batch_raster::draw_rounded_rect(&mut square, RenderRect { x: 0, y: 0, width: 8, height: 8 }, 0, white);
    assert_eq!(pixel(&square, 0, 0), [255, 255, 255, 255]);

    let mut outline = frame(8, 8);
    panea::batch_raster::stroke_rounded_rect(&mut outline, RenderRect { x: 0, y: 0, width: 8, height: 8 }, 1, 3, white);
    assert_eq!(pixel(&outline, 0, 0), [0, 0, 0, 0]);
    assert_eq!(pixel(&outline, 0, 4), [255, 255, 255, 255]);
    assert_eq!(pixel(&outline, 4, 4), [0, 0, 0, 0]);

    let mut glass = frame(8, 8);
    panea::batch_raster::blend_rounded_rect(&mut glass, RenderRect { x: 0, y: 0, width: 8, height: 8 }, 3, RenderColor { red: 255, green: 0, blue: 0, alpha: 128 });
    assert_eq!(pixel(&glass, 0, 0), [0, 0, 0, 0]);
    assert_ne!(pixel(&glass, 4, 4), [0, 0, 0, 0]);
}

#[test]
fn a_scene_is_rasterized_layer_by_layer() {
    let style = RenderCellStyle { bold: false, italic: false, underline: false, strikethrough: false };
    let cell = |col: u16, red: u8| RenderCell {
        position: CellPosition { row: 0, col },
        text: " ".to_owned(),
        foreground: RenderColor::rgb(255, 255, 255),
        background: RenderColor::rgb(red, 0, 0),
        style,
    };
    let scene = RenderScene {
        grid: RenderGrid { columns: 3, rows: 1, cells: vec![cell(0, 100), cell(1, 150), cell(2, 200)] },
        content_offset: RenderOffset { x: 1, y: 0 },
        cursor: Some(CursorVisual {
            position: CellPosition { row: 0, col: 2 },
            shape: RenderCursorShape::Block,
            color: RenderColor::rgb(0, 0, 255),
            visible: true,
            thickness_percent: 100,
            corner_radius_px: 0,
            inactive: false,
        }),
        selections: vec![SelectionVisual { cells: vec![CellPosition { row: 0, col: 1 }], color: RenderColor::rgb(0, 255, 0) }],
        search_highlights: Vec::new(),
        semantic_overlays: Vec::new(),
        decorations: Vec::new(),
        animations: Vec::new(),
        damage_regions: Vec::new(),
    };
    let cells = panea::damage_tracker::WholePixelCells { cell_width: 2, cell_height: 2 };
    let frame = panea::cpu_raster::rasterize_scene(&scene, &cells, &Vec::new()).expect("frame");
    assert_eq!((frame.width, frame.height), (8, 2));
    assert_eq!(pixel(&frame, 0, 0), [12, 12, 12, 255]);
    assert_eq!(pixel(&frame, 1, 0), [100, 0, 0, 255]);
    assert_eq!(pixel(&frame, 3, 1), [0, 255, 0, 255]);
    assert_eq!(pixel(&frame, 5, 0), [0, 0, 255, 255]);
    assert_eq!(pixel(&frame, 7, 1), [12, 12, 12, 255]);

    let huge = panea::damage_tracker::WholePixelCells { cell_width: u32::MAX, cell_height: u32::MAX };
    assert_eq!(
        panea::cpu_raster::rasterize_scene(&scene, &huge, &Vec::new()),
        Err(panea::renderer::RendererError::Asset("CPU frame dimensions overflow addressable memory".to_owned()))
    );
}
