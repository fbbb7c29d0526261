//! Drawing planned batches into a CPU frame the way the GPU pass draws them:
//! damage region by damage region, the region is cleared, then the
//! background batch replaces what lies under it, the selections and the
//! cursor are blended over it, then the glyphs, then the decorations.

use vstd::prelude::*;
use crate::batches::{min3, PlannedBatches, PlannedQuad};
use crate::damage::clamp_i32;
use crate::fonts::GlyphBitmapFormat;
use crate::planner::{overlap, rect_intersection};
use crate::ppm::CpuFrame;
use crate::raster::{
    blend_rect, draw_glyph_clipped, fill_rect, frame_fits, glyph_drawn_upto, glyph_fits, painted_rect, stroke_fits,
    stroke_rect, stroked_rect,
};
use crate::render_core::{DamageRegion, RenderColor, RenderRect};

verus! {

/// The smallest `k` from `from` on with `a - 2k` at most zero or its square
/// at most `d`: `ceil((a - sqrt(d)) / 2)` for `d` up to `a * a`.
pub open spec fn inset_from(a: int, d: int, from: int) -> int
    decreases (if a - 2 * from > 0 { a - 2 * from } else { 0 }),
{
    if a - 2 * from <= 0 || (a - 2 * from) * (a - 2 * from) <= d {
        from
    } else {
        inset_from(a, d, from + 1)
    }
}

/// How far row `y` of a rectangle `height` rows high is inset on each side by
/// corners of `radius`: on the rows within `radius` of the top or bottom, the
/// distance, rounded up, from the rectangle's side to a circle of that radius
/// centred half a pixel inside the corner's last full row.
pub open spec fn corner_inset(radius: u32, y: u32, height: u32) -> int {
    if radius == 0 || height == 0 {
        0
    } else {
        let last: int = height - 1;
        let from_bottom: int = if last >= y { last - y } else { 0 };
        let edge: int = if (y as int) < from_bottom { y as int } else { from_bottom };
        if edge >= radius {
            0
        } else {
            let a: int = 2 * radius - 1;
            let b: int = 2 * radius - 2 - 2 * edge;
            inset_from(a, a * a - b * b, 0)
        }
    }
}

/// Row `y` of `rect`, inset by `inset` on each side.
pub open spec fn inset_row(rect: RenderRect, y: int, inset: int) -> RenderRect {
    let w: int = rect.width - 2 * inset;
    RenderRect { x: clamp_i32(rect.x + inset), y: clamp_i32(rect.y + y), width: (if w > 0 { w } else { 0 }) as u32, height: 1 }
}

/// The rectangles a rounded quad paints on row `y`: the inset row for a fill,
/// and for a stroke `line` wide the inset row near the top and bottom edges
/// and a band on each side in between.
pub open spec fn rounded_row(rect: RenderRect, radius: u32, line: u32, y: u32) -> Seq<RenderRect> {
    let outer = corner_inset(radius, y, rect.height);
    if line == 0 || y < line || y + line >= rect.height {
        seq![inset_row(rect, y as int, outer)]
    } else {
        let inner_radius: u32 = if radius >= line { (radius - line) as u32 } else { 0 };
        let inner_height: u32 = if rect.height >= 2 * line { (rect.height - 2 * line) as u32 } else { 0 };
        let inner: int = line + corner_inset(inner_radius, (y - line) as u32, inner_height);
        let side: int = if inner >= outer { inner - outer } else { 0 };
        let left = RenderRect { x: clamp_i32(rect.x + outer), y: clamp_i32(rect.y + y), width: side as u32, height: 1 };
        let right_start: int = if rect.width >= inner { rect.width - inner } else { 0 };
        seq![left, RenderRect { x: clamp_i32(rect.x + right_start), ..left }]
    }
}

/// The rectangles of the first `rows` rows of a rounded quad.
pub open spec fn rounded_rows(rect: RenderRect, radius: u32, line: u32, rows: nat) -> Seq<RenderRect>
    decreases rows,
{
    if rows == 0 {
        Seq::empty()
    } else {
        rounded_rows(rect, radius, line, (rows - 1) as nat) + rounded_row(rect, radius, line, (rows - 1) as u32)
    }
}

/// The rectangles a quad paints: its rectangle when its corner radius (held
/// to half its smaller side) is zero, else its rounded rows.
pub open spec fn quad_rects(quad: PlannedQuad) -> Seq<RenderRect> {
    let rect = quad.rect;
    let r = min3(quad.radius as int, rect.width as int / 2, rect.height as int / 2);
    if r == 0 {
        seq![rect]
    } else {
        let l0 = min3(quad.line as int, rect.width as int / 2, rect.height as int / 2);
        let l: int = if quad.line == 0 { 0 } else if l0 < 1 { 1 } else { l0 };
        rounded_rows(rect, r as u32, l as u32, rect.height as nat)
    }
}

/// The pixels with each rectangle's part inside `clip` painted, in order.
pub open spec fn paint_rects(pixels: Seq<u8>, width: u32, rects: Seq<RenderRect>, color: RenderColor, blend: bool, clip: RenderRect) -> Seq<u8>
    decreases rects.len(),
{
    if rects.len() == 0 {
        pixels
    } else {
        let before = paint_rects(pixels, width, rects.drop_last(), color, blend, clip);
        match overlap(rects.last(), clip) {
            Some(part) => painted_rect(before, width, part, color, blend),
            None => before,
        }
    }
}

/// The pixels with each quad painted inside `clip`, in order.
pub open spec fn paint_quads(pixels: Seq<u8>, width: u32, quads: Seq<PlannedQuad>, blend: bool, clip: RenderRect) -> Seq<u8>
    decreases quads.len(),
{
    if quads.len() == 0 {
        pixels
    } else {
        let q = quads.last();
        paint_rects(paint_quads(pixels, width, quads.drop_last(), blend, clip), width, quad_rects(q), q.color, blend, clip)
    }
}

/// A glyph bitmap placed on the frame, with the color it is drawn in.
#[derive(Debug)]
pub struct PlacedGlyph {
    pub x: i32,
    pub y: i32,
    pub width: u32,
    pub height: u32,
    pub pixels: Vec<u8>,
    pub format: GlyphBitmapFormat,
    pub color: RenderColor,
}

/// The glyph can be drawn where it is placed.
pub open spec fn placed_fits(glyph: PlacedGlyph) -> bool {
    glyph_fits(glyph.x, glyph.y, glyph.width, glyph.height, glyph.pixels@, glyph.format)
}

/// The pixels with each glyph drawn inside `clip`, in order.
pub open spec fn paint_glyphs(pixels: Seq<u8>, width: u32, glyphs: Seq<PlacedGlyph>, clip: RenderRect) -> Seq<u8>
    decreases glyphs.len(),
{
    if glyphs.len() == 0 {
        pixels
    } else {
        let g = glyphs.last();
        glyph_drawn_upto(
            paint_glyphs(pixels, width, glyphs.drop_last(), clip),
            width,
            g.x,
            g.y,
            g.width,
            g.pixels@,
            g.format,
            g.color,
            Some(clip),
            g.height as int,
            0,
        )
    }
}

/// The layers drawn inside one damage region, already held to the frame.
pub open spec fn paint_region(
    pixels: Seq<u8>,
    width: u32,
    background: Seq<PlannedQuad>,
    selections: Seq<PlannedQuad>,
    cursor: Seq<PlannedQuad>,
    glyphs: Seq<PlacedGlyph>,
    decorations: Seq<PlannedQuad>,
    clear: RenderColor,
    clip: RenderRect,
) -> Seq<u8> {
    let cleared = painted_rect(pixels, width, clip, clear, false);
    let under = paint_quads(cleared, width, background, false, clip);
    let selected = paint_quads(under, width, selections, true, clip);
    let with_cursor = paint_quads(selected, width, cursor, true, clip);
    let with_text = paint_glyphs(with_cursor, width, glyphs, clip);
    paint_quads(with_text, width, decorations, true, clip)
}

/// The frame after drawing the layers in each damage region that meets it,
/// region by region.
pub open spec fn rasterized(
    pixels: Seq<u8>,
    width: u32,
    height: u32,
    regions: Seq<DamageRegion>,
    background: Seq<PlannedQuad>,
    selections: Seq<PlannedQuad>,
    cursor: Seq<PlannedQuad>,
    glyphs: Seq<PlacedGlyph>,
    decorations: Seq<PlannedQuad>,
    clear: RenderColor,
) -> Seq<u8>
    decreases regions.len(),
{
    if regions.len() == 0 {
        pixels
    } else {
        let before = rasterized(pixels, width, height, regions.drop_last(), background, selections, cursor, glyphs, decorations, clear);
        match overlap(regions.last(), RenderRect { x: 0, y: 0, width, height }) {
            Some(clip) => paint_region(before, width, background, selections, cursor, glyphs, decorations, clear, clip),
            None => before,
        }
    }
}

proof fn lemma_inset_bounded(a: int, d: int, from: int)
    requires
        a >= 1,
        0 <= from,
        2 * from <= a + 1,
    ensures
        from <= inset_from(a, d, from),
        2 * inset_from(a, d, from) <= a + 1,
    decreases (if a - 2 * from > 0 { a - 2 * from } else { 0 }),
{
    if !(a - 2 * from <= 0 || (a - 2 * from) * (a - 2 * from) <= d) {
        lemma_inset_bounded(a, d, from + 1);
    }
}

/// How far row `y` of a rectangle `height` rows high is inset on each side by
/// corners of `radius` (see `corner_inset`).
pub fn rounded_corner_inset(radius: u32, y: u32, height: u32) -> (r: u32)
    ensures
        r == corner_inset(radius, y, height),
{
    if radius == 0 || height == 0 {
        return 0;
    }
    let last: u32 = height - 1;
    let from_bottom: u32 = if last >= y { last - y } else { 0 };
    let edge: u32 = if y < from_bottom { y } else { from_bottom };
    if edge >= radius {
        return 0;
    }
    let a: i128 = 2 * radius as i128 - 1;
    let b: i128 = 2 * radius as i128 - 2 - 2 * edge as i128;
    assert(a * a <= 0x10_0000_0000_0000_0000) by (nonlinear_arith)
        requires
            1 <= a <= 0x2_0000_0000,
    ;
    assert(b * b <= a * a) by (nonlinear_arith)
        requires
            0 <= b <= a,
    ;
    let d: i128 = a * a - b * b;
    let mut k: i128 = 0;
    proof {
        lemma_inset_bounded(a as int, d as int, 0);
    }
    loop
        invariant
            1 <= a <= 0x2_0000_0000,
            0 <= k,
            2 * k <= a + 1,
            0 <= d <= a * a,
            inset_from(a as int, d as int, 0) == inset_from(a as int, d as int, k as int),
        ensures
            inset_from(a as int, d as int, 0) == k as int,
            2 * k <= a + 1,
        decreases a + 1 - 2 * k,
    {
        let t = a - 2 * k;
        if t <= 0 {
            break;
        }
        assert(t * t <= a * a && t * t <= 0x10_0000_0000_0000_0000) by (nonlinear_arith)
            requires
                0 < t <= a,
                a <= 0x2_0000_0000,
        ;
        if t * t <= d {
            break;
        }
        k = k + 1;
    }
    assert(k <= radius);
    k as u32
}

/// The pixels with several rectangle lists painted one after another are those
/// with their concatenation painted.
proof fn lemma_paint_rects_concat(pixels: Seq<u8>, width: u32, a: Seq<RenderRect>, b: Seq<RenderRect>, color: RenderColor, blend: bool, clip: RenderRect)
    ensures
        paint_rects(pixels, width, a + b, color, blend, clip) == paint_rects(paint_rects(pixels, width, a, color, blend, clip), width, b, color, blend, clip),
    decreases b.len(),
{
    if b.len() == 0 {
        assert(a + b =~= a);
    } else {
        lemma_paint_rects_concat(pixels, width, a, b.drop_last(), color, blend, clip);
        assert((a + b).drop_last() =~= a + b.drop_last());
        assert((a + b).last() == b.last());
    }
}

/// Paints the part of `rect` inside `clip`.
fn paint_clipped(frame: &mut CpuFrame, rect: RenderRect, color: RenderColor, blend: bool, clip: RenderRect)
    requires
        frame_fits(*old(frame)),
    ensures
        final(frame).width == old(frame).width,
        final(frame).height == old(frame).height,
        frame_fits(*final(frame)),
        final(frame).pixels@ == paint_rects(old(frame).pixels@, old(frame).width, seq![rect], color, blend, clip),
{
    proof {
        assert(seq![rect].drop_last() =~= Seq::<RenderRect>::empty());
        assert(paint_rects(old(frame).pixels@, old(frame).width, Seq::<RenderRect>::empty(), color, blend, clip) == old(frame).pixels@);
    }
    match rect_intersection(rect, clip) {
        Some(part) => {
            if blend {
                blend_rect(frame, part, color);
            } else {
                fill_rect(frame, part, color);
            }
        },
        None => {},
    }
}

/// Paints a quad's rectangles inside `clip`.
pub(crate) fn paint_quad(frame: &mut CpuFrame, quad: PlannedQuad, blend: bool, clip: RenderRect)
    requires
        frame_fits(*old(frame)),
    ensures
        final(frame).width == old(frame).width,
        final(frame).height == old(frame).height,
        frame_fits(*final(frame)),
        final(frame).pixels@ == paint_rects(old(frame).pixels@, old(frame).width, quad_rects(quad), quad.color, blend, clip),
{
    let rect = quad.rect;
    let half_w = rect.width / 2;
    let half_h = rect.height / 2;
    let r: u32 = if quad.radius <= half_w && quad.radius <= half_h { quad.radius } else if half_w <= half_h { half_w } else { half_h };
    if r == 0 {
        paint_clipped(frame, rect, quad.color, blend, clip);
        return;
    }
    let l0: u32 = if quad.line <= half_w && quad.line <= half_h { quad.line } else if half_w <= half_h { half_w } else { half_h };
    let l: u32 = if quad.line == 0 { 0 } else if l0 < 1 { 1 } else { l0 };
    proof {
        assert(quad_rects(quad) == rounded_rows(rect, r, l, rect.height as nat));
    }
    let ghost start = frame.pixels@;
    let fw = frame.width;
    let mut y: u32 = 0;
    while y < rect.height
        invariant
            0 <= y <= rect.height,
            frame_fits(*frame),
            frame.width == fw,
            frame.height == old(frame).height,
            1 <= r,
            r <= rect.width / 2,
            r <= rect.height / 2,
            frame.pixels@ == paint_rects(start, fw, rounded_rows(rect, r, l, y as nat), quad.color, blend, clip),
        decreases rect.height - y,
    {
        let ghost before = frame.pixels@;
        let outer = rounded_corner_inset(r, y, rect.height);
        proof {
            assert(rounded_rows(rect, r, l, (y + 1) as nat) == rounded_rows(rect, r, l, y as nat) + rounded_row(rect, r, l, y));
            lemma_paint_rects_concat(start, fw, rounded_rows(rect, r, l, y as nat), rounded_row(rect, r, l, y), quad.color, blend, clip);
        }
        let near_edge: bool = l == 0 || y < l || y as u64 + l as u64 >= rect.height as u64;
        if near_edge {
            let w: i64 = rect.width as i64 - 2 * outer as i64;
            let row = RenderRect {
                x: clamp_to_i32(rect.x as i64 + outer as i64),
                y: clamp_to_i32(rect.y as i64 + y as i64),
                width: if w > 0 { w as u32 } else { 0 },
                height: 1,
            };
            proof {
                assert(rounded_row(rect, r, l, y) == seq![row]);
            }
            paint_clipped(frame, row, quad.color, blend, clip);
        } else {
            let inner_radius: u32 = if r >= l { r - l } else { 0 };
            let inner_height: u32 = if rect.height as u64 >= 2 * l as u64 { rect.height - 2 * l } else { 0 };
            let inner: u64 = l as u64 + rounded_corner_inset(inner_radius, y - l, inner_height) as u64;
            let side: u64 = if inner >= outer as u64 { inner - outer as u64 } else { 0 };
            assert(side <= u32::MAX) by {
                assert(corner_inset(inner_radius, (y - l) as u32, inner_height) <= inner_radius + 1) by {
                    if inner_radius > 0 && inner_height > 0 {
                        let last: int = inner_height - 1;
                        let yy: int = y - l;
                        let from_bottom: int = if last >= yy { last - yy } else { 0 };
                        let edge: int = if yy < from_bottom { yy } else { from_bottom };
                        if edge < inner_radius {
                            let a: int = 2 * inner_radius - 1;
                            let b: int = 2 * inner_radius - 2 - 2 * edge;
                            lemma_inset_bounded(a, a * a - b * b, 0);
                        }
                    }
                }
            }
            let left = RenderRect {
                x: clamp_to_i32(rect.x as i64 + outer as i64),
                y: clamp_to_i32(rect.y as i64 + y as i64),
                width: side as u32,
                height: 1,
            };
            let right_start: u64 = if rect.width as u64 >= inner { rect.width as u64 - inner } else { 0 };
            let right = RenderRect { x: clamp_to_i32(rect.x as i64 + right_start as i64), ..left };
            proof {
                assert(rounded_row(rect, r, l, y) == seq![left, right]);
                assert(seq![left, right] == seq![left] + seq![right]);
                lemma_paint_rects_concat(before, fw, seq![left], seq![right], quad.color, blend, clip);
                assert(seq![left].drop_last() =~= Seq::<RenderRect>::empty());
                assert(seq![right].drop_last() =~= Seq::<RenderRect>::empty());
            }
            paint_clipped(frame, left, quad.color, blend, clip);
            paint_clipped(frame, right, quad.color, blend, clip);
        }
        y = y + 1;
    }
}

fn clamp_to_i32(v: i64) -> (r: i32)
    ensures
        r == clamp_i32(v as int),
{
    if v > i32::MAX as i64 {
        i32::MAX
    } else if v < i32::MIN as i64 {
        i32::MIN
    } else {
        v as i32
    }
}

/// Paints the quads inside `clip`, in order.
fn paint_quad_batch(frame: &mut CpuFrame, quads: &Vec<PlannedQuad>, blend: bool, clip: RenderRect)
    requires
        frame_fits(*old(frame)),
    ensures
        final(frame).width == old(frame).width,
        final(frame).height == old(frame).height,
        frame_fits(*final(frame)),
        final(frame).pixels@ == paint_quads(old(frame).pixels@, old(frame).width, quads@, blend, clip),
{
    let mut i: usize = 0;
    while i < quads.len()
        invariant
            0 <= i <= quads.len(),
            frame_fits(*frame),
            frame.width == old(frame).width,
            frame.height == old(frame).height,
            frame.pixels@ == paint_quads(old(frame).pixels@, old(frame).width, quads@.take(i as int), blend, clip),
        decreases quads.len() - i,
    {
        proof {
            assert(quads@.take(i + 1).drop_last() =~= quads@.take(i as int));
            assert(quads@.take(i + 1).last() == quads@[i as int]);
        }
        paint_quad(frame, quads[i], blend, clip);
        i = i + 1;
    }
    proof {
        assert(quads@.take(i as int) =~= quads@);
    }
}

/// Draws the glyphs inside `clip`, in order.
pub(crate) fn paint_glyph_batch(frame: &mut CpuFrame, glyphs: &Vec<PlacedGlyph>, clip: RenderRect)
    requires
        frame_fits(*old(frame)),
        forall|k: int| 0 <= k < glyphs.len() ==> #[trigger] placed_fits(glyphs@[k]),
    ensures
        final(frame).width == old(frame).width,
        final(frame).height == old(frame).height,
        frame_fits(*final(frame)),
        final(frame).pixels@ == paint_glyphs(old(frame).pixels@, old(frame).width, glyphs@, clip),
{
    let mut i: usize = 0;
    while i < glyphs.len()
        invariant
            0 <= i <= glyphs.len(),
            forall|k: int| 0 <= k < glyphs.len() ==> #[trigger] placed_fits(glyphs@[k]),
            frame_fits(*frame),
            frame.width == old(frame).width,
            frame.height == old(frame).height,
            frame.pixels@ == paint_glyphs(old(frame).pixels@, old(frame).width, glyphs@.take(i as int), clip),
        decreases glyphs.len() - i,
    {
        proof {
            assert(glyphs@.take(i + 1).drop_last() =~= glyphs@.take(i as int));
            assert(glyphs@.take(i + 1).last() == glyphs@[i as int]);
            assert(placed_fits(glyphs@[i as int]));
        }
        let g = &glyphs[i];
        draw_glyph_clipped(frame, g.x, g.y, g.width, g.height, g.pixels.as_slice(), g.format, g.color, Some(clip));
        i = i + 1;
    }
    proof {
        assert(glyphs@.take(i as int) =~= glyphs@);
    }
}

/// Draws the planned batches into the frame as the GPU pass does: in each
/// damage region that meets the frame, the region is cleared to `clear`, the
/// background batch replaces what lies under it, then the selections, the
/// cursor, the glyphs, and the decorations are blended over it.
pub fn rasterize_batches(frame: &mut CpuFrame, batches: &PlannedBatches, glyphs: &Vec<PlacedGlyph>, clear: RenderColor)
    requires
        frame_fits(*old(frame)),
        forall|k: int| 0 <= k < glyphs.len() ==> #[trigger] placed_fits(glyphs@[k]),
    ensures
        final(frame).width == old(frame).width,
        final(frame).height == old(frame).height,
        final(frame).pixels@ == rasterized(
            old(frame).pixels@,
            old(frame).width,
            old(frame).height,
            batches.damage_regions@,
            batches.background@,
            batches.selections@,
            batches.cursor@,
            glyphs@,
            batches.decorations@,
            clear,
        ),
{
    let regions = &batches.damage_regions;
    let whole = RenderRect { x: 0, y: 0, width: frame.width, height: frame.height };
    let mut i: usize = 0;
    while i < regions.len()
        invariant
            0 <= i <= regions.len(),
            forall|k: int| 0 <= k < glyphs.len() ==> #[trigger] placed_fits(glyphs@[k]),
            frame_fits(*frame),
            frame.width == old(frame).width,
            frame.height == old(frame).height,
            whole == (RenderRect { x: 0, y: 0, width: old(frame).width, height: old(frame).height }),
            frame.pixels@ == rasterized(
                old(frame).pixels@,
                old(frame).width,
                old(frame).height,
                regions@.take(i as int),
                batches.background@,
                batches.selections@,
                batches.cursor@,
                glyphs@,
                batches.decorations@,
                clear,
            ),
        decreases regions.len() - i,
    {
        proof {
            assert(regions@.take(i + 1).drop_last() =~= regions@.take(i as int));
            assert(regions@.take(i + 1).last() == regions@[i as int]);
        }
        match rect_intersection(regions[i], whole) {
            Some(clip) => {
                fill_rect(frame, clip, clear);
                paint_quad_batch(frame, &batches.background, false, clip);
                paint_quad_batch(frame, &batches.selections, true, clip);
                paint_quad_batch(frame, &batches.cursor, true, clip);
                paint_glyph_batch(frame, glyphs, clip);
                paint_quad_batch(frame, &batches.decorations, true, clip);
            },
            None => {},
        }
        i = i + 1;
    }
    proof {
        assert(regions@.take(i as int) =~= regions@);
    }
}


/// The whole frame, as a rectangle.
pub open spec fn frame_rect(frame: CpuFrame) -> RenderRect {
    RenderRect { x: 0, y: 0, width: frame.width, height: frame.height }
}

/// The frame's pixels with a rounded rectangle filled, or blended, in `color`:
/// the rows of a quad with that corner radius.
pub open spec fn rounded_painted(frame: CpuFrame, rect: RenderRect, radius: u32, line: u32, color: RenderColor, blend: bool) -> Seq<u8> {
    paint_rects(frame.pixels@, frame.width, quad_rects(PlannedQuad { rect, color, radius, line }), color, blend, frame_rect(frame))
}

/// Fills a rectangle with rounded corners; a radius held to zero fills the
/// whole rectangle.
pub fn draw_rounded_rect(frame: &mut CpuFrame, rect: RenderRect, radius: u32, color: RenderColor)
    requires
        frame_fits(*old(frame)),
    ensures
        final(frame).width == old(frame).width,
        final(frame).height == old(frame).height,
        frame_fits(*final(frame)),
        final(frame).pixels@ == rounded_painted(*old(frame), rect, radius, 0, color, false),
{
    let clip = RenderRect { x: 0, y: 0, width: frame.width, height: frame.height };
    paint_quad(frame, PlannedQuad { rect, color, radius, line: 0 }, false, clip);
}

/// Blends a rectangle with rounded corners over the frame.
pub fn blend_rounded_rect(frame: &mut CpuFrame, rect: RenderRect, radius: u32, color: RenderColor)
    requires
        frame_fits(*old(frame)),
    ensures
        final(frame).width == old(frame).width,
        final(frame).height == old(frame).height,
        frame_fits(*final(frame)),
        final(frame).pixels@ == rounded_painted(*old(frame), rect, radius, 0, color, true),
{
    let clip = RenderRect { x: 0, y: 0, width: frame.width, height: frame.height };
    paint_quad(frame, PlannedQuad { rect, color, radius, line: 0 }, true, clip);
}

/// Draws the outline, `width` pixels wide (at least one), of a rectangle
/// with rounded corners; with the radius held to zero, the plain outline.
pub fn stroke_rounded_rect(frame: &mut CpuFrame, rect: RenderRect, width: u32, radius: u32, color: RenderColor)
    requires
        frame_fits(*old(frame)),
        min3(radius as int, rect.width as int / 2, rect.height as int / 2) == 0 ==> stroke_fits(rect, width),
    ensures
        final(frame).width == old(frame).width,
        final(frame).height == old(frame).height,
        frame_fits(*final(frame)),
        final(frame).pixels@ == if min3(radius as int, rect.width as int / 2, rect.height as int / 2) == 0 {
            stroked_rect(old(frame).pixels@, old(frame).width, rect, width, color)
        } else {
            rounded_painted(*old(frame), rect, radius, if width < 1 { 1 } else { width }, color, false)
        },
{
    let half_w = rect.width / 2;
    let half_h = rect.height / 2;
    if radius == 0 || half_w == 0 || half_h == 0 {
        stroke_rect(frame, rect, width, color);
        proof {
            lemma_stroked_keeps_fit(*old(frame), *frame);
        }
        return;
    }
    let line: u32 = if width < 1 { 1 } else { width };
    let clip = RenderRect { x: 0, y: 0, width: frame.width, height: frame.height };
    paint_quad(frame, PlannedQuad { rect, color, radius, line }, false, clip);
}

proof fn lemma_stroked_keeps_fit(before: CpuFrame, after: CpuFrame)
    requires
        frame_fits(before),
        after.width == before.width,
        after.height == before.height,
        after.pixels@.len() == before.pixels@.len(),
    ensures
        frame_fits(after),
{
}

} // verus!
