//! The CPU reference rasterizer: draws a whole scene into a fresh frame, layer
//! by layer, as the conformance captures compare it with reference images.
//! The text's glyphs come already shaped and placed.

use vstd::prelude::*;
use crate::batch_raster::{paint_glyph_batch, paint_glyphs, paint_quad, paint_rects, placed_fits, quad_rects, PlacedGlyph};
use crate::batches::{
    cursor_region, min3, overlay_at, overlay_order, push_rounded_quads, push_rounded_stroke_quads, push_solid_quad,
    rounded_quads, rounded_stroke_quads, scene_overlays, shift_held, solid_quad, sorted_overlays, thickness_of, thinned,
    thinned_exec, PlannedQuad,
};
use crate::damage::{offset_region, offset_spec};
use crate::damage_tracker::{cell_damage, cell_region_at, CellGeometry};
use crate::planner::{behind_text, overlay_draws_behind_terminal_text};
use crate::ppm::CpuFrame;
use crate::raster::frame_fits;
use crate::render_core::{
    CellPosition, CursorVisual, OverlayPrimitive, RenderCell, RenderColor, RenderCursorShape, RenderOffset, RenderRect,
    RenderScene, SelectionVisual,
};
use crate::renderer::RendererError;

verus! {

/// A quad and whether it is blended over the frame (or written over it).
pub type PaintStep = (PlannedQuad, bool);

/// The pixels with each step's quad painted inside `clip`, in order.
pub open spec fn paint_steps(pixels: Seq<u8>, width: u32, steps: Seq<PaintStep>, clip: RenderRect) -> Seq<u8>
    decreases steps.len(),
{
    if steps.len() == 0 {
        pixels
    } else {
        let (q, blend) = steps.last();
        paint_rects(paint_steps(pixels, width, steps.drop_last(), clip), width, quad_rects(q), q.color, blend, clip)
    }
}

/// The quads, each blended or each written.
pub open spec fn as_steps(quads: Seq<PlannedQuad>, blend: bool) -> Seq<PaintStep> {
    quads.map_values(|q: PlannedQuad| (q, blend))
}

/// Each cell's background over its cell.
pub open spec fn cell_layer<G: CellGeometry>(geometry: G, offset: RenderOffset, cells: Seq<RenderCell>) -> Seq<PaintStep>
    decreases cells.len(),
{
    if cells.len() == 0 {
        Seq::empty()
    } else {
        let c = cells.last();
        cell_layer(geometry, offset, cells.drop_last()) + as_steps(solid_quad(cell_damage(geometry, c.position, offset), c.background), false)
    }
}

/// The overlays in `order` that are drawn under the text (or, with `behind`
/// false, over it): each blended in with its rounded corners, then its
/// border written one pixel wide.
pub open spec fn overlay_layer(overlays: Seq<OverlayPrimitive>, order: Seq<usize>, offset: RenderOffset, behind: bool) -> Seq<PaintStep>
    decreases order.len(),
{
    if order.len() == 0 {
        Seq::empty()
    } else {
        let o = overlays[order.last() as int];
        let bounds = offset_spec(o.bounds, offset);
        let radius = o.corner_radius_px as u32;
        overlay_layer(overlays, order.drop_last(), offset, behind) + if behind_text(o.kind) == behind {
            as_steps(rounded_quads(bounds, radius, o.color), true) + match o.border_color {
                Some(border) => as_steps(rounded_stroke_quads(bounds, 1, radius, border), false),
                None => Seq::empty(),
            }
        } else {
            Seq::empty()
        }
    }
}

/// The selected cells, each written in the selection's color.
pub open spec fn selected_layer<G: CellGeometry>(geometry: G, offset: RenderOffset, cells: Seq<CellPosition>, color: RenderColor) -> Seq<PaintStep>
    decreases cells.len(),
{
    if cells.len() == 0 {
        Seq::empty()
    } else {
        selected_layer(geometry, offset, cells.drop_last(), color) + as_steps(solid_quad(cell_damage(geometry, cells.last(), offset), color), false)
    }
}

/// Every selection's cells, selection by selection.
pub open spec fn selection_layer<G: CellGeometry>(geometry: G, offset: RenderOffset, selections: Seq<SelectionVisual>) -> Seq<PaintStep>
    decreases selections.len(),
{
    if selections.len() == 0 {
        Seq::empty()
    } else {
        let s = selections.last();
        selection_layer(geometry, offset, selections.drop_last()) + selected_layer(geometry, offset, s.cells@, s.color)
    }
}

/// A quad with square corners and no outline.
pub open spec fn squared(q: PlannedQuad) -> PlannedQuad {
    PlannedQuad { radius: 0, line: 0, ..q }
}

/// The visible cursor, written: a hollow block as the rectangles of its
/// outline, each filled whole; any other shape as its rounded region.
pub open spec fn cursor_layer<G: CellGeometry>(geometry: G, scene: RenderScene) -> Seq<PaintStep> {
    match scene.cursor {
        Some(c) => if !c.visible {
            Seq::empty()
        } else {
            let rect = offset_spec(cursor_region(geometry, c), scene.content_offset);
            if c.shape == RenderCursorShape::HollowBlock {
                let smaller: u32 = if rect.width < rect.height { rect.width } else { rect.height };
                as_steps(
                    rounded_stroke_quads(rect, thinned(smaller, thickness_of(c)) as u32, c.corner_radius_px as u32, c.color).map_values(
                        |q: PlannedQuad| squared(q),
                    ),
                    false,
                )
            } else {
                as_steps(rounded_quads(rect, c.corner_radius_px as u32, c.color), false)
            }
        },
        None => Seq::empty(),
    }
}

/// What is drawn under the text: cell backgrounds, the overlays drawn behind
/// the text, the selections, then the cursor.
pub open spec fn under_text<G: CellGeometry>(geometry: G, scene: RenderScene) -> Seq<PaintStep> {
    let offset = scene.content_offset;
    cell_layer(geometry, offset, scene.grid.cells@) + overlay_layer(scene_overlays(scene), overlay_order(scene), offset, true)
        + selection_layer(geometry, offset, scene.selections@) + cursor_layer(geometry, scene)
}

/// `v` held within `u32`, for a `v` that is not negative.
pub open spec fn held_to_u32(v: int) -> u32 {
    if v > u32::MAX { u32::MAX } else { v as u32 }
}

/// The frame's size: the grid's extent (at least one pixel each way) with
/// the content offset, when positive, on both sides, held within `u32`.
pub open spec fn cpu_frame_size<G: CellGeometry>(geometry: G, scene: RenderScene) -> (u32, u32) {
    let (w, h) = geometry.grid_extent_spec(scene.grid.columns, scene.grid.rows);
    let w0: int = if w < 1 { 1 } else { w as int };
    let h0: int = if h < 1 { 1 } else { h as int };
    let ox: int = if scene.content_offset.x > 0 { 2 * scene.content_offset.x } else { 0 };
    let oy: int = if scene.content_offset.y > 0 { 2 * scene.content_offset.y } else { 0 };
    (held_to_u32(w0 + ox), held_to_u32(h0 + oy))
}

/// The background every frame starts from.
pub open spec fn frame_background() -> RenderColor {
    RenderColor { red: 12, green: 12, blue: 12, alpha: 255 }
}

/// The frame's pixels: a fresh frame filled with the background, then what is
/// under the text, the glyphs, and the overlays drawn over the text.
pub open spec fn cpu_rasterized<G: CellGeometry>(geometry: G, scene: RenderScene, glyphs: Seq<PlacedGlyph>) -> Seq<u8> {
    let (w, h) = cpu_frame_size(geometry, scene);
    let whole = RenderRect { x: 0, y: 0, width: w, height: h };
    let blank = Seq::new((w * h * 4) as nat, |i: int| 0u8);
    let cleared = paint_steps(blank, w, seq![(PlannedQuad { rect: whole, color: frame_background(), radius: 0, line: 0 }, false)], whole);
    let under = paint_steps(cleared, w, under_text(geometry, scene), whole);
    let text = paint_glyphs(under, w, glyphs, whole);
    paint_steps(text, w, overlay_layer(scene_overlays(scene), overlay_order(scene), scene.content_offset, false), whole)
}

/// Appends `quads`, each blended or each written.
fn push_steps(steps: &mut Vec<PaintStep>, quads: &Vec<PlannedQuad>, blend: bool)
    ensures
        final(steps)@ == old(steps)@ + as_steps(quads@, blend),
{
    let mut i: usize = 0;
    while i < quads.len()
        invariant
            0 <= i <= quads.len(),
            steps@ == old(steps)@ + as_steps(quads@.take(i as int), blend),
        decreases quads.len() - i,
    {
        steps.push((quads[i], blend));
        proof {
            assert(as_steps(quads@.take(i + 1), blend) =~= as_steps(quads@.take(i as int), blend).push((quads@[i as int], blend)));
        }
        i = i + 1;
    }
    proof {
        assert(quads@.take(i as int) =~= quads@);
    }
}

/// Paints each step inside `clip`, in order.
fn paint_step_batch(frame: &mut CpuFrame, steps: &Vec<PaintStep>, clip: RenderRect)
    requires
        frame_fits(*old(frame)),
    ensures
        final(frame).width == old(frame).width,
        final(frame).height == old(frame).height,
        frame_fits(*final(frame)),
        final(frame).pixels@ == paint_steps(old(frame).pixels@, old(frame).width, steps@, clip),
{
    let mut i: usize = 0;
    while i < steps.len()
        invariant
            0 <= i <= steps.len(),
            frame_fits(*frame),
            frame.width == old(frame).width,
            frame.height == old(frame).height,
            frame.pixels@ == paint_steps(old(frame).pixels@, old(frame).width, steps@.take(i as int), clip),
        decreases steps.len() - i,
    {
        proof {
            assert(steps@.take(i + 1).drop_last() =~= steps@.take(i as int));
            assert(steps@.take(i + 1).last() == steps@[i as int]);
        }
        let (quad, blend) = steps[i];
        paint_quad(frame, quad, blend, clip);
        i = i + 1;
    }
    proof {
        assert(steps@.take(i as int) =~= steps@);
    }
}

/// Appends the cell backgrounds.
fn push_cell_layer<G: CellGeometry>(steps: &mut Vec<PaintStep>, scene: &RenderScene, geometry: &G)
    ensures
        final(steps)@ == old(steps)@ + cell_layer(*geometry, scene.content_offset, scene.grid.cells@),
{
    let cells = &scene.grid.cells;
    let mut i: usize = 0;
    while i < cells.len()
        invariant
            0 <= i <= cells.len(),
            steps@ == old(steps)@ + cell_layer(*geometry, scene.content_offset, cells@.take(i as int)),
        decreases cells.len() - i,
    {
        let cell = &cells[i];
        let mut quads: Vec<PlannedQuad> = Vec::new();
        push_solid_quad(&mut quads, cell_region_at(cell.position, geometry, scene.content_offset), cell.background);
        push_steps(steps, &quads, false);
        proof {
            assert(cells@.take(i + 1).drop_last() =~= cells@.take(i as int));
            assert(cells@.take(i + 1).last() == cells@[i as int]);
            assert(quads@ =~= Seq::<PlannedQuad>::empty() + quads@);
        }
        i = i + 1;
    }
    proof {
        assert(cells@.take(i as int) =~= cells@);
    }
}

/// Appends the overlays drawn under the text, or over it.
fn push_overlay_layer(steps: &mut Vec<PaintStep>, scene: &RenderScene, order: &Vec<usize>, behind: bool)
    requires
        order@ == overlay_order(*scene),
        forall|k: int| 0 <= k < order.len() ==> #[trigger] order@[k] < scene_overlays(*scene).len(),
    ensures
        final(steps)@ == old(steps)@ + overlay_layer(scene_overlays(*scene), overlay_order(*scene), scene.content_offset, behind),
{
    let ghost all = scene_overlays(*scene);
    let mut j: usize = 0;
    while j < order.len()
        invariant
            0 <= j <= order.len(),
            all == scene_overlays(*scene),
            order@ == overlay_order(*scene),
            forall|k: int| 0 <= k < order.len() ==> #[trigger] order@[k] < all.len(),
            steps@ == old(steps)@ + overlay_layer(all, order@.take(j as int), scene.content_offset, behind),
        decreases order.len() - j,
    {
        proof {
            assert(order@.take(j + 1).drop_last() =~= order@.take(j as int));
            assert(order@.take(j + 1).last() == order@[j as int]);
        }
        let overlay = overlay_at(scene, order[j]);
        let ghost before = steps@;
        if overlay_draws_behind_terminal_text(overlay.kind) == behind {
            let bounds = offset_region(overlay.bounds, scene.content_offset);
            let radius = overlay.corner_radius_px as u32;
            let mut fill: Vec<PlannedQuad> = Vec::new();
            push_rounded_quads(&mut fill, bounds, radius, overlay.color);
            push_steps(steps, &fill, true);
            let mut border: Vec<PlannedQuad> = Vec::new();
            match overlay.border_color {
                Some(color) => push_rounded_stroke_quads(&mut border, bounds, 1, radius, color),
                None => {},
            }
            push_steps(steps, &border, false);
            proof {
                assert(fill@ =~= Seq::<PlannedQuad>::empty() + fill@);
                assert(border@ =~= Seq::<PlannedQuad>::empty() + border@);
                assert(as_steps(Seq::<PlannedQuad>::empty(), false) =~= Seq::<PaintStep>::empty());
                assert(steps@ =~= before + (as_steps(fill@, true) + as_steps(border@, false)));
            }
        }
        proof {
            assert(steps@ =~= old(steps)@ + overlay_layer(all, order@.take(j + 1), scene.content_offset, behind));
        }
        j = j + 1;
    }
    proof {
        assert(order@.take(j as int) =~= order@);
    }
}

/// Appends the selected cells.
fn push_selection_layer<G: CellGeometry>(steps: &mut Vec<PaintStep>, scene: &RenderScene, geometry: &G)
    ensures
        final(steps)@ == old(steps)@ + selection_layer(*geometry, scene.content_offset, scene.selections@),
{
    let selections = &scene.selections;
    let mut i: usize = 0;
    while i < selections.len()
        invariant
            0 <= i <= selections.len(),
            steps@ == old(steps)@ + selection_layer(*geometry, scene.content_offset, selections@.take(i as int)),
        decreases selections.len() - i,
    {
        let selection = &selections[i];
        let ghost start = steps@;
        let mut k: usize = 0;
        while k < selection.cells.len()
            invariant
                0 <= k <= selection.cells.len(),
                steps@ == start + selected_layer(*geometry, scene.content_offset, selection.cells@.take(k as int), selection.color),
            decreases selection.cells.len() - k,
        {
            let mut quads: Vec<PlannedQuad> = Vec::new();
            push_solid_quad(&mut quads, cell_region_at(selection.cells[k], geometry, scene.content_offset), selection.color);
            push_steps(steps, &quads, false);
            proof {
                assert(selection.cells@.take(k + 1).drop_last() =~= selection.cells@.take(k as int));
                assert(selection.cells@.take(k + 1).last() == selection.cells@[k as int]);
                assert(quads@ =~= Seq::<PlannedQuad>::empty() + quads@);
            }
            k = k + 1;
        }
        proof {
            assert(selection.cells@.take(k as int) =~= selection.cells@);
            assert(selections@.take(i + 1).drop_last() =~= selections@.take(i as int));
            assert(selections@.take(i + 1).last() == selections@[i as int]);
        }
        i = i + 1;
    }
    proof {
        assert(selections@.take(i as int) =~= selections@);
    }
}

/// The pixels a cursor covers in its cell, before the content offset.
fn cursor_cells_region<G: CellGeometry>(geometry: &G, cursor: CursorVisual) -> (r: RenderRect)
    ensures
        r == cursor_region(*geometry, cursor),
{
    let cell = geometry.cell_region(cursor.position);
    let thickness: u32 = if cursor.thickness_percent < 1 {
        1
    } else if cursor.thickness_percent > 100 {
        100
    } else {
        cursor.thickness_percent as u32
    };
    match cursor.shape {
        RenderCursorShape::Beam => RenderRect { width: thinned_exec(cell.width, thickness), ..cell },
        RenderCursorShape::Underline => {
            let h = thinned_exec(cell.height, thickness);
            RenderRect { y: shift_held(cell.y, if cell.height >= h { cell.height - h } else { 0 }), height: h, ..cell }
        },
        _ => cell,
    }
}

/// Appends the cursor.
fn push_cursor_layer<G: CellGeometry>(steps: &mut Vec<PaintStep>, scene: &RenderScene, geometry: &G)
    ensures
        final(steps)@ == old(steps)@ + cursor_layer(*geometry, *scene),
{
    let cursor = match scene.cursor {
        Some(cursor) => cursor,
        None => {
            assert(old(steps)@ + cursor_layer(*geometry, *scene) =~= old(steps)@);
            return;
        },
    };
    if !cursor.visible {
        assert(old(steps)@ + cursor_layer(*geometry, *scene) =~= old(steps)@);
        return;
    }
    let rect = offset_region(cursor_cells_region(geometry, cursor), scene.content_offset);
    let mut quads: Vec<PlannedQuad> = Vec::new();
    if cursor.shape == RenderCursorShape::HollowBlock {
        let thickness: u32 = if cursor.thickness_percent < 1 {
            1
        } else if cursor.thickness_percent > 100 {
            100
        } else {
            cursor.thickness_percent as u32
        };
        let smaller: u32 = if rect.width < rect.height { rect.width } else { rect.height };
        let mut outline: Vec<PlannedQuad> = Vec::new();
        push_rounded_stroke_quads(&mut outline, rect, thinned_exec(smaller, thickness), cursor.corner_radius_px as u32, cursor.color);
        let mut i: usize = 0;
        while i < outline.len()
            invariant
                0 <= i <= outline.len(),
                quads@ == outline@.take(i as int).map_values(|q: PlannedQuad| squared(q)),
            decreases outline.len() - i,
        {
            let q = outline[i];
            quads.push(PlannedQuad { radius: 0, line: 0, ..q });
            proof {
                assert(outline@.take(i + 1).map_values(|q: PlannedQuad| squared(q)) =~= outline@.take(i as int).map_values(
                    |q: PlannedQuad| squared(q),
                ).push(squared(q)));
            }
            i = i + 1;
        }
        proof {
            assert(outline@.take(i as int) =~= outline@);
            assert(outline@ =~= Seq::<PlannedQuad>::empty() + outline@);
        }
    } else {
        push_rounded_quads(&mut quads, rect, cursor.corner_radius_px as u32, cursor.color);
        proof {
            assert(quads@ =~= Seq::<PlannedQuad>::empty() + quads@);
        }
    }
    push_steps(steps, &quads, false);
}

/// The frame's size, as `cpu_frame_size` gives it.
fn frame_size<G: CellGeometry>(scene: &RenderScene, geometry: &G) -> (r: (u32, u32))
    ensures
        r == cpu_frame_size(*geometry, *scene),
{
    let (w, h) = geometry.grid_extent(scene.grid.columns, scene.grid.rows);
    let w0: u64 = if w < 1 { 1 } else { w as u64 };
    let h0: u64 = if h < 1 { 1 } else { h as u64 };
    let ox: u64 = if scene.content_offset.x > 0 { 2 * scene.content_offset.x as u64 } else { 0 };
    let oy: u64 = if scene.content_offset.y > 0 { 2 * scene.content_offset.y as u64 } else { 0 };
    let width: u64 = w0 + ox;
    let height: u64 = h0 + oy;
    (if width > u32::MAX as u64 { u32::MAX } else { width as u32 }, if height > u32::MAX as u64 { u32::MAX } else { height as u32 })
}

/// Draws `scene` into a fresh frame (see `cpu_rasterized`), with `glyphs`
/// as its shaped text. A frame whose bytes cannot be counted in `usize` is
/// refused.
pub fn rasterize_scene<G: CellGeometry>(scene: &RenderScene, geometry: &G, glyphs: &Vec<PlacedGlyph>) -> (r: Result<CpuFrame, RendererError>)
    requires
        scene.search_highlights.len() + scene.semantic_overlays.len() <= usize::MAX,
        forall|k: int| 0 <= k < glyphs.len() ==> #[trigger] placed_fits(glyphs@[k]),
        ({
            let (w, h) = cpu_frame_size(*geometry, *scene);
            w * h * 4 <= u32::MAX || w * h * 4 > usize::MAX
        }),
    ensures
        ({
            let (w, h) = cpu_frame_size(*geometry, *scene);
            &&& r is Err <==> w * h * 4 > usize::MAX
            &&& r matches Err(e) ==> e matches RendererError::Asset(m) && m@ == "CPU frame dimensions overflow addressable memory"@
            &&& r matches Ok(f) ==> f.width == w && f.height == h && f.pixels@ == cpu_rasterized(*geometry, *scene, glyphs@)
        }),
{
    let (width, height) = frame_size(scene, geometry);
    assert((width as u128) * (height as u128) * 4 <= u128::MAX) by (nonlinear_arith)
        requires
            width <= u32::MAX,
            height <= u32::MAX,
    ;
    let bytes: u128 = (width as u128) * (height as u128) * 4;
    if bytes > usize::MAX as u128 {
        return Err(RendererError::Asset("CPU frame dimensions overflow addressable memory".to_owned()));
    }
    let ghost (w, h) = cpu_frame_size(*geometry, *scene);
    assert(bytes == w * h * 4);
    let pixels: Vec<u8> = vec![0u8; bytes as usize];
    proof {
        assert(pixels@ =~= Seq::new((w * h * 4) as nat, |i: int| 0u8));
    }
    let mut frame = CpuFrame { width, height, pixels };
    let whole = RenderRect { x: 0, y: 0, width, height };
    let mut clearing: Vec<PaintStep> = Vec::new();
    clearing.push((PlannedQuad { rect: whole, color: RenderColor { red: 12, green: 12, blue: 12, alpha: 255 }, radius: 0, line: 0 }, false));
    proof {
        assert(clearing@ =~= seq![(PlannedQuad { rect: whole, color: frame_background(), radius: 0, line: 0 }, false)]);
    }
    paint_step_batch(&mut frame, &clearing, whole);
    let order = sorted_overlays(scene);
    let mut under: Vec<PaintStep> = Vec::new();
    push_cell_layer(&mut under, scene, geometry);
    push_overlay_layer(&mut under, scene, &order, true);
    push_selection_layer(&mut under, scene, geometry);
    push_cursor_layer(&mut under, scene, geometry);
    proof {
        assert(under@ =~= under_text(*geometry, *scene));
    }
    paint_step_batch(&mut frame, &under, whole);
    paint_glyph_batch(&mut frame, glyphs, whole);
    let mut over: Vec<PaintStep> = Vec::new();
    push_overlay_layer(&mut over, scene, &order, false);
    proof {
        assert(over@ =~= Seq::<PaintStep>::empty() + over@);
    }
    paint_step_batch(&mut frame, &over, whole);
    Ok(frame)
}

} // verus!
