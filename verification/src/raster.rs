//! Drawing into a CPU frame: the pixel operations that the CPU rasterizer
//! paints cells, overlays, strokes, and images with.
//!
//! A frame holds four bytes per pixel, row after row; byte `i` belongs to
//! pixel `i / 4`, which sits at column `(i / 4) % width` and row
//! `(i / 4) / width`.

use vstd::prelude::*;
use crate::fonts::GlyphBitmapFormat;
use crate::ppm::CpuFrame;
use crate::render_core::{RenderColor, RenderRect};

verus! {

/// The frame's buffer holds four bytes for each pixel, and every byte can be
/// numbered in 32 bits.
pub open spec fn frame_fits(frame: CpuFrame) -> bool {
    &&& frame.pixels@.len() == frame.width * frame.height * 4
    &&& frame.width * frame.height * 4 <= u32::MAX
}

/// The column of the pixel that byte `i` belongs to.
pub open spec fn pixel_x(i: int, width: u32) -> int {
    (i / 4) % (width as int)
}

/// The row of the pixel that byte `i` belongs to.
pub open spec fn pixel_y(i: int, width: u32) -> int {
    (i / 4) / (width as int)
}

/// Channel `c` of a color: red, green, blue, then alpha.
pub open spec fn channel(color: RenderColor, c: int) -> u8 {
    if c == 0 {
        color.red
    } else if c == 1 {
        color.green
    } else if c == 2 {
        color.blue
    } else {
        color.alpha
    }
}

/// A source channel laid over a destination channel with coverage `alpha`.
pub open spec fn blend_channel(source: u8, destination: u8, alpha: u8) -> u8 {
    ((source * alpha + destination * (255 - alpha)) / 255) as u8
}

/// Byte `c` of a pixel after `color` is blended over it with coverage
/// `alpha`: the color channels mix, and the pixel becomes opaque.
pub open spec fn blended_byte(color: RenderColor, alpha: u8, c: int, old: u8) -> u8 {
    if c == 3 {
        255
    } else {
        blend_channel(channel(color, c), old, alpha)
    }
}

/// Byte `c` of a pixel after it is painted with `color`: replaced, or, when
/// `blend` is set, blended with the color's own alpha.
pub open spec fn painted_byte(color: RenderColor, blend: bool, c: int, old: u8) -> u8 {
    if blend {
        blended_byte(color, color.alpha, c, old)
    } else {
        channel(color, c)
    }
}

/// The pixels with columns in `[x0, x1)` and rows in `[y0, y1)` painted with
/// `color`; the others kept.
pub open spec fn painted_box(
    pixels: Seq<u8>,
    width: u32,
    x0: int,
    x1: int,
    y0: int,
    y1: int,
    color: RenderColor,
    blend: bool,
) -> Seq<u8> {
    Seq::new(
        pixels.len(),
        |i: int|
            if x0 <= pixel_x(i, width) < x1 && y0 <= pixel_y(i, width) < y1 {
                painted_byte(color, blend, i % 4, pixels[i])
            } else {
                pixels[i]
            },
    )
}

/// Where a rectangle's span along one axis starts: its start, moved onto the
/// frame when it lies before it. The span keeps its length.
pub open spec fn span_start(start: i32) -> int {
    if start < 0 {
        0
    } else {
        start as int
    }
}

/// A rectangle covers pixel `(px, py)` when painted: its spans start at the
/// frame's edge at the earliest and keep their lengths.
pub open spec fn rect_covers(rect: RenderRect, px: int, py: int) -> bool {
    &&& span_start(rect.x) <= px < span_start(rect.x) + rect.width
    &&& span_start(rect.y) <= py < span_start(rect.y) + rect.height
}

/// The frame's pixels with `rect` painted over them.
pub open spec fn painted_rect(pixels: Seq<u8>, width: u32, rect: RenderRect, color: RenderColor, blend: bool) -> Seq<
    u8,
> {
    Seq::new(
        pixels.len(),
        |i: int|
            if rect_covers(rect, pixel_x(i, width), pixel_y(i, width)) {
                painted_byte(color, blend, i % 4, pixels[i])
            } else {
                pixels[i]
            },
    )
}

/// Byte `i` lies in pixel `(x, y)` exactly when it is one of the four bytes
/// from `4 * (y * width + x)`.
pub proof fn lemma_pixel_bytes(i: int, width: u32, x: int, y: int)
    requires
        width > 0,
        0 <= x < width,
        0 <= y,
        0 <= i,
    ensures
        (pixel_x(i, width) == x && pixel_y(i, width) == y) <==> (4 * (y * width + x) <= i < 4 * (y * width + x) + 4),
{
    let w = width as int;
    let q = i / 4;
    vstd::arithmetic::div_mod::lemma_fundamental_div_mod(q, w);
    assert(0 <= q % w < w);
    if 4 * (y * w + x) <= i < 4 * (y * w + x) + 4 {
        vstd::arithmetic::div_mod::lemma_fundamental_div_mod_converse(i, 4, y * w + x, i - 4 * (y * w + x));
        assert(y * w + x == y * w + x);
        vstd::arithmetic::div_mod::lemma_fundamental_div_mod_converse(q, w, y, x);
    }
    if pixel_x(i, width) == x && pixel_y(i, width) == y {
        assert(q == w * y + x);
        assert(w * y == y * w) by (nonlinear_arith);
    }
}

/// A pixel inside the frame has a column below its width and a row below its
/// height.
pub proof fn lemma_pixel_in_frame(i: int, width: u32, height: u32)
    requires
        width > 0,
        0 <= i < width * height * 4,
    ensures
        0 <= pixel_x(i, width) < width,
        0 <= pixel_y(i, width) < height,
{
    let w = width as int;
    let q = i / 4;
    assert(q < w * height) by {
        assert(i < 4 * (w * height));
    }
    vstd::arithmetic::div_mod::lemma_fundamental_div_mod(q, w);
    assert(q / w < height) by (nonlinear_arith)
        requires
            q == w * (q / w) + q % w,
            0 <= q % w,
            q < w * height,
            w > 0,
    ;
    assert(q / w >= 0) by (nonlinear_arith)
        requires
            q >= 0,
            w > 0,
    ;
}

/// The first byte of pixel `(x, y)`, and that all four of its bytes lie in
/// the frame.
proof fn lemma_pixel_start(width: u32, height: u32, x: int, y: int)
    requires
        0 <= x < width,
        0 <= y < height,
    ensures
        0 <= 4 * (y * width + x),
        4 * (y * width + x) + 4 <= width * height * 4,
{
    let w = width as int;
    assert(0 <= y * w) by (nonlinear_arith)
        requires
            0 <= y,
            0 <= w,
    ;
    assert(y * w + x + 1 <= w * height) by (nonlinear_arith)
        requires
            0 <= x < w,
            0 <= y < height,
    ;
}

/// Paints the pixels with columns in `[x0, x1)` and rows in `[y0, y1)`.
fn paint_box(frame: &mut CpuFrame, x0: u32, x1: u32, y0: u32, y1: u32, color: RenderColor, blend: bool)
    requires
        frame_fits(*old(frame)),
        x1 <= old(frame).width,
        y1 <= old(frame).height,
    ensures
        final(frame).width == old(frame).width,
        final(frame).height == old(frame).height,
        final(frame).pixels@ == painted_box(
            old(frame).pixels@,
            old(frame).width,
            x0 as int,
            x1 as int,
            y0 as int,
            y1 as int,
            color,
            blend,
        ),
{
    let ghost start = frame.pixels@;
    let width = frame.width;
    let ghost height = frame.height;
    let mut y: u32 = y0;
    if y0 >= y1 || x0 >= x1 {
        proof {
            assert(frame.pixels@ =~= painted_box(start, width, x0 as int, x1 as int, y0 as int, y1 as int, color, blend));
        }
        return;
    }
    while y < y1
        invariant
            y0 <= y <= y1,
            x0 < x1 <= width,
            y1 <= height,
            width == frame.width,
            height == frame.height,
            start.len() == width * height * 4,
            width * height * 4 <= u32::MAX,
            frame.pixels@ == painted_box(start, width, x0 as int, x1 as int, y0 as int, y as int, color, blend),
        decreases y1 - y,
    {
        let ghost rows_done = frame.pixels@;
        let mut x: u32 = x0;
        while x < x1
            invariant
                x0 <= x <= x1,
                y0 <= y < y1,
                x1 <= width,
                y1 <= height,
                width == frame.width,
                height == frame.height,
                start.len() == width * height * 4,
                width * height * 4 <= u32::MAX,
                rows_done == painted_box(start, width, x0 as int, x1 as int, y0 as int, y as int, color, blend),
                frame.pixels@ == painted_box(rows_done, width, x0 as int, x as int, y as int, y + 1, color, blend),
            decreases x1 - x,
        {
            proof {
                lemma_pixel_start(width, height, x as int, y as int);
                assert(0 <= y * width <= y * width + x);
            }
            let index: usize = ((y as usize) * (width as usize) + (x as usize)) * 4;
            let ghost before = frame.pixels@;
            if blend {
                let alpha = color.alpha;
                let red = blend_byte(color.red, frame.pixels[index], alpha);
                let green = blend_byte(color.green, frame.pixels[index + 1], alpha);
                let blue = blend_byte(color.blue, frame.pixels[index + 2], alpha);
                frame.pixels.set(index, red);
                frame.pixels.set(index + 1, green);
                frame.pixels.set(index + 2, blue);
                frame.pixels.set(index + 3, 255);
            } else {
                frame.pixels.set(index, color.red);
                frame.pixels.set(index + 1, color.green);
                frame.pixels.set(index + 2, color.blue);
                frame.pixels.set(index + 3, color.alpha);
            }
            proof {
                assert forall|i: int| 0 <= i < frame.pixels@.len() implies #[trigger] frame.pixels@[i]
                    == painted_box(rows_done, width, x0 as int, x + 1, y as int, y + 1, color, blend)[i] by {
                    lemma_pixel_bytes(i, width, x as int, y as int);
                    if index <= i < index + 4 {
                        assert(i % 4 == i - index);
                    }
                }
                assert(frame.pixels@ =~= painted_box(rows_done, width, x0 as int, x + 1, y as int, y + 1, color, blend));
            }
            x = x + 1;
        }
        proof {
            assert forall|i: int| 0 <= i < frame.pixels@.len() implies #[trigger] frame.pixels@[i]
                == painted_box(start, width, x0 as int, x1 as int, y0 as int, y + 1, color, blend)[i] by {
            }
            assert(frame.pixels@ =~= painted_box(start, width, x0 as int, x1 as int, y0 as int, y + 1, color, blend));
        }
        y = y + 1;
    }
}

/// One channel of `source` over `destination` with coverage `alpha`.
pub fn blend_byte(source: u8, destination: u8, alpha: u8) -> (r: u8)
    ensures
        r == blend_channel(source, destination, alpha),
{
    let a = alpha as u16;
    proof {
        assert((source as u16) * a <= 255 * a) by (nonlinear_arith)
            requires
                source <= 255,
                a <= 255,
        ;
        assert((destination as u16) * (255 - a) <= 255 * (255 - a)) by (nonlinear_arith)
            requires
                destination <= 255,
                a <= 255,
        ;
    }
    let mixed: u16 = (source as u16) * a + (destination as u16) * (255 - a);
    (mixed / 255) as u8
}

/// Where a rectangle's span, moved onto the frame and clipped to `limit`,
/// starts and ends.
fn clipped_span(start: i32, length: u32, limit: u32) -> (r: (u32, u32))
    ensures
        r.0 == span_start(start),
        r.1 <= limit,
        r.1 == (if span_start(start) + length <= limit { span_start(start) + length } else { limit as int }),
{
    let first: u32 = if start < 0 { 0 } else { start as u32 };
    let end: u64 = first as u64 + length as u64;
    let last: u32 = if end <= limit as u64 { end as u32 } else { limit };
    (first, last)
}

/// Paints `rect` over the frame: each covered pixel gets `color` outright,
/// or, when `blend` is set, has it blended over with its own alpha.
fn paint_rect(frame: &mut CpuFrame, rect: RenderRect, color: RenderColor, blend: bool)
    requires
        frame_fits(*old(frame)),
    ensures
        final(frame).width == old(frame).width,
        final(frame).height == old(frame).height,
        final(frame).pixels@ == painted_rect(old(frame).pixels@, old(frame).width, rect, color, blend),
{
    let ghost start = frame.pixels@;
    let (x0, x1) = clipped_span(rect.x, rect.width, frame.width);
    let (y0, y1) = clipped_span(rect.y, rect.height, frame.height);
    let ghost width = frame.width;
    let ghost height = frame.height;
    paint_box(frame, x0, x1, y0, y1, color, blend);
    proof {
        if width > 0 {
            assert forall|i: int| 0 <= i < start.len() implies #[trigger] frame.pixels@[i] == painted_rect(
                start,
                width,
                rect,
                color,
                blend,
            )[i] by {
                lemma_pixel_in_frame(i, width, height);
            }
        } else {
            assert(start.len() == 0) by (nonlinear_arith)
                requires
                    start.len() == width * height * 4,
                    width == 0,
            ;
        }
        assert(frame.pixels@ =~= painted_rect(start, width, rect, color, blend));
    }
}

/// Fills `rect` with `color`. The rectangle's spans start at the frame's
/// edge at the earliest and keep their lengths; what lies past the frame is
/// dropped.
pub fn fill_rect(frame: &mut CpuFrame, rect: RenderRect, color: RenderColor)
    requires
        frame_fits(*old(frame)),
    ensures
        final(frame).width == old(frame).width,
        final(frame).height == old(frame).height,
        final(frame).pixels@ == painted_rect(old(frame).pixels@, old(frame).width, rect, color, false),
{
    paint_rect(frame, rect, color, false)
}

/// Blends `color`, with its own alpha, over the pixels of `rect`, which
/// become opaque; placed as by [`fill_rect`].
pub fn blend_rect(frame: &mut CpuFrame, rect: RenderRect, color: RenderColor)
    requires
        frame_fits(*old(frame)),
    ensures
        final(frame).width == old(frame).width,
        final(frame).height == old(frame).height,
        final(frame).pixels@ == painted_rect(old(frame).pixels@, old(frame).width, rect, color, true),
{
    paint_rect(frame, rect, color, true)
}

/// The thickness of a stroke of `width` around `rect`: at least one pixel,
/// at most the rectangle's width and height.
pub open spec fn stroke_thickness(rect: RenderRect, width: u32) -> u32 {
    let w = if width < 1 { 1 } else { width };
    let w = if w < rect.width { w } else { rect.width };
    if w < rect.height { w } else { rect.height }
}

/// The top, bottom, left, and right bands of a stroke around `rect`.
pub open spec fn stroke_bands(rect: RenderRect, width: u32) -> (RenderRect, RenderRect, RenderRect, RenderRect) {
    let t = stroke_thickness(rect, width);
    (
        RenderRect { height: t, ..rect },
        RenderRect { y: (rect.y + ((rect.height - t) as i32)) as i32, height: t, ..rect },
        RenderRect { width: t, ..rect },
        RenderRect { x: (rect.x + ((rect.width - t) as i32)) as i32, width: t, ..rect },
    )
}

/// The far bands of a stroke around `rect` start inside `i32`.
pub open spec fn stroke_fits(rect: RenderRect, width: u32) -> bool {
    let t = stroke_thickness(rect, width);
    rect.width > 0 && rect.height > 0 ==> {
        &&& i32::MIN <= rect.y + ((rect.height - t) as i32) <= i32::MAX
        &&& i32::MIN <= rect.x + ((rect.width - t) as i32) <= i32::MAX
    }
}

/// The frame's pixels with a stroke of `width` drawn around `rect`: its four
/// bands filled in turn; nothing for an empty rectangle.
pub open spec fn stroked_rect(pixels: Seq<u8>, frame_width: u32, rect: RenderRect, width: u32, color: RenderColor) -> Seq<u8> {
    if rect.width == 0 || rect.height == 0 {
        pixels
    } else {
        let (top, bottom, left, right) = stroke_bands(rect, width);
        let p = painted_rect(pixels, frame_width, top, color, false);
        let p = painted_rect(p, frame_width, bottom, color, false);
        let p = painted_rect(p, frame_width, left, color, false);
        painted_rect(p, frame_width, right, color, false)
    }
}

/// Draws the outline of `rect` with lines `width` pixels thick, at least one
/// and at most the rectangle's size.
pub fn stroke_rect(frame: &mut CpuFrame, rect: RenderRect, width: u32, color: RenderColor)
    requires
        frame_fits(*old(frame)),
        stroke_fits(rect, width),
    ensures
        final(frame).width == old(frame).width,
        final(frame).height == old(frame).height,
        final(frame).pixels@ == stroked_rect(old(frame).pixels@, old(frame).width, rect, width, color),
{
    if rect.width == 0 || rect.height == 0 {
        return;
    }
    let thickness = if width < 1 { 1 } else { width };
    let thickness = if thickness < rect.width { thickness } else { rect.width };
    let thickness = if thickness < rect.height { thickness } else { rect.height };
    let bottom_y = rect.y + (rect.height - thickness) as i32;
    let right_x = rect.x + (rect.width - thickness) as i32;
    fill_rect(frame, RenderRect { x: rect.x, y: rect.y, width: rect.width, height: thickness }, color);
    fill_rect(frame, RenderRect { x: rect.x, y: bottom_y, width: rect.width, height: thickness }, color);
    fill_rect(frame, RenderRect { x: rect.x, y: rect.y, width: thickness, height: rect.height }, color);
    fill_rect(frame, RenderRect { x: right_x, y: rect.y, width: thickness, height: rect.height }, color);
}

/// The frame's bytes after `color` is blended, with coverage `alpha`, over
/// the pixel whose bytes start at `start`.
pub open spec fn blended_pixel(pixels: Seq<u8>, start: int, color: RenderColor, alpha: u8) -> Seq<u8> {
    Seq::new(
        pixels.len(),
        |i: int|
            if start <= i < start + 4 {
                blended_byte(color, alpha, i - start, pixels[i])
            } else {
                pixels[i]
            },
    )
}

/// Blends `color` with coverage `alpha` over the pixel whose bytes start at
/// `index`; the pixel becomes opaque.
pub fn blend_pixel(frame: &mut CpuFrame, index: usize, color: RenderColor, alpha: u8)
    requires
        index + 4 <= old(frame).pixels.len(),
    ensures
        final(frame).width == old(frame).width,
        final(frame).height == old(frame).height,
        final(frame).pixels@ == blended_pixel(old(frame).pixels@, index as int, color, alpha),
{
    let red = blend_byte(color.red, frame.pixels[index], alpha);
    let green = blend_byte(color.green, frame.pixels[index + 1], alpha);
    let blue = blend_byte(color.blue, frame.pixels[index + 2], alpha);
    let ghost before = frame.pixels@;
    frame.pixels.set(index, red);
    frame.pixels.set(index + 1, green);
    frame.pixels.set(index + 2, blue);
    frame.pixels.set(index + 3, 255);
    proof {
        assert(frame.pixels@ =~= blended_pixel(before, index as int, color, alpha));
    }
}

/// `v` held at `u32::MAX`.
pub open spec fn saturate_u32(v: int) -> int {
    if v > u32::MAX {
        u32::MAX as int
    } else {
        v
    }
}

/// `a * b`, held at `u32::MAX`.
fn times_held(a: u32, b: u32) -> (r: u32)
    ensures
        r == saturate_u32(a * b),
{
    proof {
        assert(a as u64 * b as u64 <= u32::MAX as u64 * u32::MAX as u64) by (nonlinear_arith)
            requires
                a <= u32::MAX,
                b <= u32::MAX,
        ;
    }
    let product: u64 = a as u64 * b as u64;
    if product > u32::MAX as u64 {
        u32::MAX
    } else {
        product as u32
    }
}

/// The first byte of the source pixel that target pixel `(tx, ty)` of an
/// image of `source_width` by `source_height` pixels, scaled to `bounds`,
/// shows: nearest-neighbour sampling, with each product held at `u32::MAX`.
pub open spec fn image_source_start(bounds: RenderRect, source_width: u32, source_height: u32, tx: int, ty: int) -> int {
    let sy = saturate_u32(ty * source_height) / (bounds.height as int);
    let sx = saturate_u32(tx * source_width) / (bounds.width as int);
    saturate_u32(saturate_u32(saturate_u32(sy * source_width) + sx) * 4)
}

/// The color that target pixel `(tx, ty)` of a scaled image lays over the
/// frame, its alpha scaled by `opacity`; none when the source's buffer ends
/// before that pixel.
pub open spec fn image_sample(
    source: Seq<u8>,
    bounds: RenderRect,
    source_width: u32,
    source_height: u32,
    opacity: u8,
    tx: int,
    ty: int,
) -> Option<RenderColor> {
    let s = image_source_start(bounds, source_width, source_height, tx, ty);
    if s + 4 <= source.len() {
        Some(
            RenderColor {
                red: source[s],
                green: source[s + 1],
                blue: source[s + 2],
                alpha: (source[s + 3] * opacity / 255) as u8,
            },
        )
    } else {
        None
    }
}

/// The frame's pixels with the image drawn over the target pixels in rows
/// before `rows` and, in row `rows`, in columns before `cols`: each frame
/// pixel at offset `(tx, ty)` from the bounds' corner gets its sample
/// blended over it.
pub open spec fn image_drawn_upto(
    pixels: Seq<u8>,
    frame_width: u32,
    bounds: RenderRect,
    source_width: u32,
    source_height: u32,
    source: Seq<u8>,
    opacity: u8,
    rows: int,
    cols: int,
) -> Seq<u8> {
    Seq::new(
        pixels.len(),
        |i: int|
            {
                let tx = pixel_x(i, frame_width) - bounds.x;
                let ty = pixel_y(i, frame_width) - bounds.y;
                if (0 <= ty < rows && 0 <= tx < bounds.width) || (ty == rows && 0 <= tx < cols) {
                    match image_sample(source, bounds, source_width, source_height, opacity, tx, ty) {
                        Some(color) => blended_byte(color, color.alpha, i % 4, pixels[i]),
                        None => pixels[i],
                    }
                } else {
                    pixels[i]
                }
            },
    )
}

/// The frame's pixels with the image, `source_width` by `source_height`
/// RGBA pixels, scaled to `bounds` and blended over them with its alpha
/// times `opacity`; nothing when either size is empty.
pub open spec fn image_drawn(
    pixels: Seq<u8>,
    frame_width: u32,
    bounds: RenderRect,
    source_width: u32,
    source_height: u32,
    source: Seq<u8>,
    opacity: u8,
) -> Seq<u8> {
    if bounds.width == 0 || bounds.height == 0 || source_width == 0 || source_height == 0 {
        pixels
    } else {
        image_drawn_upto(pixels, frame_width, bounds, source_width, source_height, source, opacity, bounds.height as int, 0)
    }
}

/// Draws an RGBA image of `source_width` by `source_height` pixels scaled
/// to `bounds`, nearest neighbour, blending each sample with its alpha times
/// `opacity`. Target pixels outside the frame, and samples past the end of
/// `pixels`, are skipped.
pub fn draw_rgba_bitmap(
    frame: &mut CpuFrame,
    bounds: RenderRect,
    source_width: u32,
    source_height: u32,
    pixels: &[u8],
    opacity: u8,
)
    requires
        frame_fits(*old(frame)),
        bounds.width <= i32::MAX,
        bounds.height <= i32::MAX,
    ensures
        final(frame).width == old(frame).width,
        final(frame).height == old(frame).height,
        final(frame).pixels@ == image_drawn(
            old(frame).pixels@,
            old(frame).width,
            bounds,
            source_width,
            source_height,
            pixels@,
            opacity,
        ),
{
    if bounds.width == 0 || bounds.height == 0 || source_width == 0 || source_height == 0 {
        return;
    }
    let ghost start = frame.pixels@;
    let width = frame.width;
    let height = frame.height;
    let mut ty: u32 = 0;
    while ty < bounds.height
        invariant
            0 <= ty <= bounds.height <= i32::MAX,
            bounds.width <= i32::MAX,
            bounds.width > 0,
            source_width > 0,
            source_height > 0,
            width == frame.width,
            height == frame.height,
            start.len() == width * height * 4,
            width * height * 4 <= u32::MAX,
            frame.pixels@ == image_drawn_upto(
                start,
                width,
                bounds,
                source_width,
                source_height,
                pixels@,
                opacity,
                ty as int,
                0,
            ),
        decreases bounds.height - ty,
    {
        let source_y = times_held(ty, source_height) / bounds.height;
        let mut tx: u32 = 0;
        while tx < bounds.width
            invariant
                0 <= ty < bounds.height <= i32::MAX,
                0 <= tx <= bounds.width <= i32::MAX,
                bounds.width > 0,
                source_width > 0,
                source_height > 0,
                source_y == saturate_u32(ty * source_height) / (bounds.height as int),
                width == frame.width,
                height == frame.height,
                start.len() == width * height * 4,
                width * height * 4 <= u32::MAX,
                frame.pixels@ == image_drawn_upto(
                    start,
                    width,
                    bounds,
                    source_width,
                    source_height,
                    pixels@,
                    opacity,
                    ty as int,
                    tx as int,
                ),
            decreases bounds.width - tx,
        {
            let source_x = times_held(tx, source_width) / bounds.width;
            let source_index = times_held(times_held(source_y, source_width).saturating_add(source_x), 4);
            let ghost before = frame.pixels@;
            let ghost next = image_drawn_upto(
                start,
                width,
                bounds,
                source_width,
                source_height,
                pixels@,
                opacity,
                ty as int,
                tx + 1,
            );
            let x: i64 = bounds.x as i64 + tx as i64;
            let y: i64 = bounds.y as i64 + ty as i64;
            if (source_index as u64) + 4 <= pixels.len() as u64 && 0 <= x && x < width as i64 && 0 <= y && y
                < height as i64 {
                let s = source_index as usize;
                proof {
                    lemma_pixel_start(width, height, x as int, y as int);
                    assert(0 <= y * width <= y * width + x);
                    assert((pixels@[s + 3] as u16) * (opacity as u16) <= 255 * 255) by (nonlinear_arith)
                        requires
                            pixels@[s + 3] <= 255,
                            opacity <= 255,
                    ;
                }
                let alpha = ((pixels[s + 3] as u16) * (opacity as u16) / 255) as u8;
                let color = RenderColor { red: pixels[s], green: pixels[s + 1], blue: pixels[s + 2], alpha };
                let index: usize = ((y as usize) * (width as usize) + (x as usize)) * 4;
                blend_pixel(frame, index, color, alpha);
                proof {
                    assert(image_sample(pixels@, bounds, source_width, source_height, opacity, tx as int, ty as int)
                        == Some(color));
                    assert forall|i: int| 0 <= i < frame.pixels@.len() implies #[trigger] frame.pixels@[i] == next[i] by {
                        lemma_pixel_bytes(i, width, x as int, y as int);
                        if index <= i < index + 4 {
                            assert(i % 4 == i - index);
                        }
                    }
                    assert(frame.pixels@ =~= next);
                }
            } else {
                proof {
                    assert forall|i: int| 0 <= i < frame.pixels@.len() implies #[trigger] frame.pixels@[i] == next[i] by {
                        if width > 0 {
                            lemma_pixel_in_frame(i, width, height);
                        }
                    }
                    assert(frame.pixels@ =~= next);
                }
            }
            tx = tx + 1;
        }
        proof {
            let done = image_drawn_upto(start, width, bounds, source_width, source_height, pixels@, opacity, ty + 1, 0);
            assert(frame.pixels@ =~= done);
        }
        ty = ty + 1;
    }
}

/// What glyph pixel `(gx, gy)` lays over the frame, and with what
/// coverage: for a coverage mask, `color` at the mask's value; for a color
/// bitmap, its own pixel at its own alpha. Nothing where the coverage is
/// zero or a color bitmap's buffer ends early.
pub open spec fn glyph_sample(
    pixels: Seq<u8>,
    format: GlyphBitmapFormat,
    glyph_width: u32,
    color: RenderColor,
    gx: int,
    gy: int,
) -> Option<(RenderColor, u8)> {
    let s = gy * glyph_width + gx;
    match format {
        GlyphBitmapFormat::Alpha => if pixels[s] != 0 {
            Some((color, pixels[s]))
        } else {
            None
        },
        GlyphBitmapFormat::Rgba => if 4 * s + 4 <= pixels.len() && pixels[4 * s + 3] != 0 {
            Some(
                (
                    RenderColor { red: pixels[4 * s], green: pixels[4 * s + 1], blue: pixels[4 * s + 2], alpha: pixels[4 * s + 3] },
                    pixels[4 * s + 3],
                ),
            )
        } else {
            None
        },
    }
}

/// The clip, if any, lets pixel `(px, py)` be drawn: its far edges are the
/// start plus the size, held inside `i32`.
pub open spec fn clip_allows(clip: Option<RenderRect>, px: int, py: int) -> bool {
    match clip {
        None => true,
        Some(c) => {
            &&& c.x <= px
            &&& c.y <= py
            &&& px < saturate_i32(c.x + ((c.width as i32) as int))
            &&& py < saturate_i32(c.y + ((c.height as i32) as int))
        },
    }
}

/// `v` held inside `i32`.
pub open spec fn saturate_i32(v: int) -> int {
    if v > i32::MAX {
        i32::MAX as int
    } else if v < i32::MIN {
        i32::MIN as int
    } else {
        v
    }
}

/// `a + b`, held inside `i32`.
fn plus_held(a: i32, b: i32) -> (r: i32)
    ensures
        r == saturate_i32(a + b),
{
    let sum: i64 = a as i64 + b as i64;
    if sum > i32::MAX as i64 {
        i32::MAX
    } else if sum < i32::MIN as i64 {
        i32::MIN
    } else {
        sum as i32
    }
}

/// The frame's pixels with the glyph drawn at `(x, y)` over its pixels in
/// rows before `rows` and, in row `rows`, in columns before `cols`.
pub open spec fn glyph_drawn_upto(
    frame_pixels: Seq<u8>,
    frame_width: u32,
    x: i32,
    y: i32,
    glyph_width: u32,
    pixels: Seq<u8>,
    format: GlyphBitmapFormat,
    color: RenderColor,
    clip: Option<RenderRect>,
    rows: int,
    cols: int,
) -> Seq<u8> {
    Seq::new(
        frame_pixels.len(),
        |i: int|
            {
                let px = pixel_x(i, frame_width);
                let py = pixel_y(i, frame_width);
                let gx = px - x;
                let gy = py - y;
                if ((0 <= gy < rows && 0 <= gx < glyph_width) || (gy == rows && 0 <= gx < cols)) && clip_allows(
                    clip,
                    px,
                    py,
                ) {
                    match glyph_sample(pixels, format, glyph_width, color, gx, gy) {
                        Some((c, alpha)) => blended_byte(c, alpha, i % 4, frame_pixels[i]),
                        None => frame_pixels[i],
                    }
                } else {
                    frame_pixels[i]
                }
            },
    )
}

/// The glyph fits where it is drawn: its pixels can be numbered in 32 bits,
/// its far edges stay inside `i32`, and a coverage mask holds a byte for
/// each pixel.
pub open spec fn glyph_fits(x: i32, y: i32, glyph_width: u32, glyph_height: u32, pixels: Seq<u8>, format: GlyphBitmapFormat) -> bool {
    &&& glyph_width * glyph_height <= u32::MAX
    &&& x + glyph_width <= i32::MAX + 1
    &&& y + glyph_height <= i32::MAX + 1
    &&& format == GlyphBitmapFormat::Alpha ==> pixels.len() >= glyph_width * glyph_height
}

/// Draws a glyph bitmap with its top-left corner at `(x, y)`, blending each
/// covered pixel that lies in the frame and, when given, in `clip`: a
/// coverage mask tints `color`, a color bitmap brings its own colors.
pub fn draw_glyph_clipped(
    frame: &mut CpuFrame,
    x: i32,
    y: i32,
    glyph_width: u32,
    glyph_height: u32,
    pixels: &[u8],
    format: GlyphBitmapFormat,
    color: RenderColor,
    clip: Option<RenderRect>,
)
    requires
        frame_fits(*old(frame)),
        glyph_fits(x, y, glyph_width, glyph_height, pixels@, format),
    ensures
        final(frame).width == old(frame).width,
        final(frame).height == old(frame).height,
        final(frame).pixels@ == glyph_drawn_upto(
            old(frame).pixels@,
            old(frame).width,
            x,
            y,
            glyph_width,
            pixels@,
            format,
            color,
            clip,
            glyph_height as int,
            0,
        ),
{
    let ghost start = frame.pixels@;
    let width = frame.width;
    let height = frame.height;
    let mut gy: u32 = 0;
    while gy < glyph_height
        invariant
            0 <= gy <= glyph_height,
            glyph_fits(x, y, glyph_width, glyph_height, pixels@, format),
            width == frame.width,
            height == frame.height,
            start.len() == width * height * 4,
            width * height * 4 <= u32::MAX,
            frame.pixels@ == glyph_drawn_upto(start, width, x, y, glyph_width, pixels@, format, color, clip, gy as int, 0),
        decreases glyph_height - gy,
    {
        let mut gx: u32 = 0;
        while gx < glyph_width
            invariant
                0 <= gy < glyph_height,
                0 <= gx <= glyph_width,
                glyph_fits(x, y, glyph_width, glyph_height, pixels@, format),
                width == frame.width,
                height == frame.height,
                start.len() == width * height * 4,
                width * height * 4 <= u32::MAX,
                frame.pixels@ == glyph_drawn_upto(
                    start,
                    width,
                    x,
                    y,
                    glyph_width,
                    pixels@,
                    format,
                    color,
                    clip,
                    gy as int,
                    gx as int,
                ),
            decreases glyph_width - gx,
        {
            let ghost next = glyph_drawn_upto(
                start,
                width,
                x,
                y,
                glyph_width,
                pixels@,
                format,
                color,
                clip,
                gy as int,
                gx + 1,
            );
            let target_x: i64 = x as i64 + gx as i64;
            let target_y: i64 = y as i64 + gy as i64;
            let in_clip = match clip {
                None => true,
                Some(c) => {
                    let right = plus_held(c.x, c.width as i32);
                    let bottom = plus_held(c.y, c.height as i32);
                    !(target_x < c.x as i64 || target_y < c.y as i64 || target_x >= right as i64 || target_y
                        >= bottom as i64)
                },
            };
            proof {
                assert(gy * glyph_width + gx < glyph_width * glyph_height) by (nonlinear_arith)
                    requires
                        gy < glyph_height,
                        gx < glyph_width,
                ;
                assert(0 <= gy * glyph_width) by (nonlinear_arith)
                    requires
                        0 <= gy,
                        0 <= glyph_width,
                ;
            }
            let source: usize = (gy as usize) * (glyph_width as usize) + (gx as usize);
            let sample: Option<(RenderColor, u8)> = match format {
                GlyphBitmapFormat::Alpha => {
                    let alpha = pixels[source];
                    if alpha != 0 {
                        Some((color, alpha))
                    } else {
                        None
                    }
                },
                GlyphBitmapFormat::Rgba => {
                    if (source as u64) * 4 + 4 <= pixels.len() as u64 {
                        let s = source * 4;
                        let alpha = pixels[s + 3];
                        if alpha != 0 {
                            Some((RenderColor { red: pixels[s], green: pixels[s + 1], blue: pixels[s + 2], alpha }, alpha))
                        } else {
                            None
                        }
                    } else {
                        None
                    }
                },
            };
            proof {
                assert(sample == glyph_sample(pixels@, format, glyph_width, color, gx as int, gy as int));
            }
            if 0 <= target_x && target_x < width as i64 && 0 <= target_y && target_y < height as i64 && in_clip {
                match sample {
                    Some((c, alpha)) => {
                        proof {
                            lemma_pixel_start(width, height, target_x as int, target_y as int);
                            assert(0 <= target_y * width <= target_y * width + target_x);
                        }
                        let index: usize = ((target_y as usize) * (width as usize) + (target_x as usize)) * 4;
                        blend_pixel(frame, index, c, alpha);
                        proof {
                            assert forall|i: int| 0 <= i < frame.pixels@.len() implies #[trigger] frame.pixels@[i]
                                == next[i] by {
                                lemma_pixel_bytes(i, width, target_x as int, target_y as int);
                                if index <= i < index + 4 {
                                    assert(i % 4 == i - index);
                                }
                            }
                            assert(frame.pixels@ =~= next);
                        }
                    },
                    None => {
                        proof {
                            assert forall|i: int| 0 <= i < frame.pixels@.len() implies #[trigger] frame.pixels@[i]
                                == next[i] by {
                                lemma_pixel_bytes(i, width, target_x as int, target_y as int);
                            }
                            assert(frame.pixels@ =~= next);
                        }
                    },
                }
            } else {
                proof {
                    assert forall|i: int| 0 <= i < frame.pixels@.len() implies #[trigger] frame.pixels@[i] == next[i] by {
                        if width > 0 {
                            lemma_pixel_in_frame(i, width, height);
                        }
                    }
                    assert(frame.pixels@ =~= next);
                }
            }
            gx = gx + 1;
        }
        proof {
            assert(frame.pixels@ =~= glyph_drawn_upto(
                start,
                width,
                x,
                y,
                glyph_width,
                pixels@,
                format,
                color,
                clip,
                gy + 1,
                0,
            ));
        }
        gy = gy + 1;
    }
}

} // verus!
