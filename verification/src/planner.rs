//! Renderer-independent planning: quad batch kinds, atlas uploads with their
//! edge padding, the cursor overlay taken from a scene, and the rectangle
//! geometry that culling and clipping rest on.

use vstd::prelude::*;
use vstd::string::StringExecFns;
use crate::atlas::{AtlasCacheKey, AtlasEntry};
use crate::fonts::GlyphBitmapFormat;
use crate::render_core::{
    AnimationHandle, AnimationKind, CellPosition, CursorVisual, OverlayKind, RenderCell, RenderCellStyle, RenderColor,
    RenderOffset, RenderRect, RenderScene,
};

verus! {

#[derive(Debug, Clone, Copy, PartialEq, Eq, Structural)]
pub enum QuadBatchKind {
    Background,
    Decoration,
    CursorTrail,
    Selection,
    Cursor,
}

/// Glyph pixels to copy into the atlas at an entry.
#[derive(Debug, Clone, PartialEq, Eq)]
pub struct AtlasUpload {
    pub key: AtlasCacheKey,
    pub entry: AtlasEntry,
    pub pixels: Vec<u8>,
    pub format: GlyphBitmapFormat,
}

/// An upload with one pixel of edge padding, ready for the texture copy.
#[derive(Debug, Clone, PartialEq, Eq)]
pub struct PaddedAtlasUpload {
    pub pixels: Vec<u8>,
    pub bytes_per_row: u32,
    pub rows_per_image: u32,
}

/// The byte length of a `width` by `height` buffer with `channels` bytes a pixel,
/// when it fits in memory.
pub fn pixel_buffer_len(width: u32, height: u32, channels: u32) -> (r: Option<usize>)
    ensures
        width * height * channels <= usize::MAX ==> r == Some((width * height * channels) as usize),
        width * height * channels > usize::MAX ==> r is None,
{
    assert((width as u64) * (height as u64) <= u64::MAX) by (nonlinear_arith)
        requires
            width <= u32::MAX,
            height <= u32::MAX,
    ;
    let pixels: u64 = (width as u64) * (height as u64);
    match pixels.checked_mul(channels as u64) {
        None => {
            assert(width * height * channels > usize::MAX);
            None
        },
        Some(bytes) => if bytes <= usize::MAX as u64 {
            Some(bytes as usize)
        } else {
            None
        },
    }
}

pub open spec fn format_channels(format: GlyphBitmapFormat) -> int {
    match format {
        GlyphBitmapFormat::Alpha => 1,
        GlyphBitmapFormat::Rgba => 4,
    }
}

/// `v - 1` but not below zero, then at most `limit - 1`.
pub open spec fn clamp_source(v: int, limit: int) -> int {
    let s = if v >= 1 { v - 1 } else { 0 };
    if s < limit - 1 { s } else { limit - 1 }
}

/// The source pixel a padded target pixel copies: the nearest glyph pixel.
pub open spec fn padded_source(t: int, padded_width: int, width: int, height: int) -> int {
    clamp_source(t / padded_width, height) * width + clamp_source(t % padded_width, width)
}

/// Whether padding an upload fits every index computation in `u32` and memory,
/// and an RGBA upload holds every pixel its entry covers.
pub open spec fn padded_upload_fits(upload_width: int, upload_height: int, channels: int, format: GlyphBitmapFormat, pixel_len: int) -> bool {
    let pw = upload_width + 2;
    let ph = upload_height + 2;
    &&& upload_width > 0
    &&& upload_height > 0
    &&& pw <= u32::MAX
    &&& ph <= u32::MAX
    &&& pw * ph * channels <= usize::MAX
    &&& pw * ph - 1 <= u32::MAX
    &&& upload_width * upload_height - 1 <= u32::MAX
    &&& pw * channels <= u32::MAX
    &&& format == GlyphBitmapFormat::Rgba ==> 4 * (upload_width * upload_height - 1) <= u32::MAX
        && 4 * (upload_width * upload_height) <= pixel_len
}

/// The padded pixels: each target pixel repeats the nearest glyph pixel, so the
/// padding copies the glyph's edges; alpha pixels past the end of the source read
/// as zero.
pub open spec fn padded_pixels(upload: AtlasUpload) -> Seq<u8> {
    let w = upload.entry.width as int;
    let h = upload.entry.height as int;
    let pw = w + 2;
    let c = format_channels(upload.format);
    Seq::new(
        (pw * (h + 2) * c) as nat,
        |i: int|
            {
                let src = padded_source(i / c, pw, w, h);
                if upload.format == GlyphBitmapFormat::Alpha {
                    if src < upload.pixels@.len() {
                        upload.pixels@[src]
                    } else {
                        0u8
                    }
                } else {
                    upload.pixels@[4 * src + i % c]
                }
            },
    )
}

proof fn lemma_row_index(ty: int, tx: int, pw: int, k: int, c: int)
    requires
        0 <= tx < pw,
        0 <= ty,
        0 <= k < c,
        c == 1 || c == 4,
    ensures
        ((ty * pw + tx) * c + k) / c == ty * pw + tx,
        ((ty * pw + tx) * c + k) % c == k,
        (ty * pw + tx) / pw == ty,
        (ty * pw + tx) % pw == tx,
{
    vstd::arithmetic::div_mod::lemma_fundamental_div_mod_converse((ty * pw + tx) * c + k, c, ty * pw + tx, k);
    vstd::arithmetic::div_mod::lemma_fundamental_div_mod_converse(ty * pw + tx, pw, ty, tx);
}

/// One byte of an RGBA padded upload: channel `k` of the source pixel that
/// target pixel `t` copies.
pub proof fn lemma_padded_rgba_byte(upload: AtlasUpload, t: int, k: int)
    requires
        upload.format == GlyphBitmapFormat::Rgba,
        0 <= k < 4,
        0 <= t,
        0 <= t * 4 + k < padded_pixels(upload).len(),
    ensures
        padded_pixels(upload)[t * 4 + k] == upload.pixels@[4 * padded_source(
            t,
            upload.entry.width as int + 2,
            upload.entry.width as int,
            upload.entry.height as int,
        ) + k],
{
    vstd::arithmetic::div_mod::lemma_fundamental_div_mod_converse(t * 4 + k, 4, t, k);
}

/// Pads an upload by one pixel on every side, repeating its edge pixels;
/// `None` for an empty entry, and when the sizes overflow or an RGBA upload is
/// shorter than its entry.
pub fn padded_atlas_upload(upload: &AtlasUpload) -> (r: Option<PaddedAtlasUpload>)
    ensures
        padded_upload_fits(upload.entry.width as int, upload.entry.height as int, format_channels(upload.format), upload.format, upload.pixels@.len() as int)
            ==> (r matches Some(p) && p.pixels@ == padded_pixels(*upload)
            && p.bytes_per_row == (upload.entry.width + 2) * format_channels(upload.format)
            && p.rows_per_image == upload.entry.height + 2),
        !padded_upload_fits(upload.entry.width as int, upload.entry.height as int, format_channels(upload.format), upload.format, upload.pixels@.len() as int)
            ==> r is None,
{
    let w = upload.entry.width;
    let h = upload.entry.height;
    let source_len = upload.pixels.len();
    if w == 0 || h == 0 {
        return None;
    }
    let channels: u32 = match upload.format {
        GlyphBitmapFormat::Alpha => 1,
        GlyphBitmapFormat::Rgba => 4,
    };
    let padded_width = match w.checked_add(2) {
        Some(v) => v,
        None => return None,
    };
    let padded_height = match h.checked_add(2) {
        Some(v) => v,
        None => return None,
    };
    let len = match pixel_buffer_len(padded_width, padded_height, channels) {
        Some(len) => len,
        None => return None,
    };
    assert((padded_width as u64) * (padded_height as u64) <= u64::MAX) by (nonlinear_arith)
        requires
            padded_width <= u32::MAX,
            padded_height <= u32::MAX,
    ;
    assert((w as u64) * (h as u64) <= u64::MAX) by (nonlinear_arith)
        requires
            w <= u32::MAX,
            h <= u32::MAX,
    ;
    let targets: u64 = (padded_width as u64) * (padded_height as u64);
    let sources: u64 = (w as u64) * (h as u64);
    assert(targets >= 1 && sources >= 1) by (nonlinear_arith)
        requires
            padded_width >= 1,
            padded_height >= 1,
            w >= 1,
            h >= 1,
            targets == padded_width * padded_height,
            sources == w * h,
    ;
    assert(targets == (w + 2) * (h + 2));
    if targets - 1 > u32::MAX as u64 || sources - 1 > u32::MAX as u64 {
        return None;
    }
    let bytes_per_row = match padded_width.checked_mul(channels) {
        Some(v) => v,
        None => return None,
    };
    if channels == 4 {
        if (sources - 1) > (u32::MAX as u64) / 4 || (upload.pixels.len() as u64) / 4 < sources {
            return None;
        }
    }
    let ghost expected = padded_pixels(*upload);
    let mut pixels: Vec<u8> = Vec::new();
    let mut ty: u32 = 0;
    while ty < padded_height
        invariant
            w == upload.entry.width,
            h == upload.entry.height,
            w >= 1,
            h >= 1,
            padded_width == w + 2,
            padded_height == h + 2,
            channels == format_channels(upload.format),
            len == padded_width * padded_height * channels,
            expected == padded_pixels(*upload),
            expected.len() == len,
            sources == w * h,
            sources - 1 <= u32::MAX,
            channels == 4 ==> 4 * sources <= upload.pixels@.len(),
            source_len == upload.pixels@.len(),
            ty <= padded_height,
            pixels@.len() == ty * padded_width * channels,
            forall|i: int| 0 <= i < pixels@.len() ==> #[trigger] pixels@[i] == expected[i],
        decreases padded_height - ty,
    {
        let sy: u32 = if ty >= 1 { ty - 1 } else { 0 };
        let sy: u32 = if sy < h - 1 { sy } else { h - 1 };
        let mut tx: u32 = 0;
        while tx < padded_width
            invariant
                w == upload.entry.width,
                h == upload.entry.height,
                w >= 1,
                h >= 1,
                padded_width == w + 2,
                padded_height == h + 2,
                channels == format_channels(upload.format),
                len == padded_width * padded_height * channels,
                expected == padded_pixels(*upload),
                expected.len() == len,
                sources == w * h,
                sources - 1 <= u32::MAX,
                channels == 4 ==> 4 * sources <= upload.pixels@.len(),
                source_len == upload.pixels@.len(),
                ty < padded_height,
                sy == clamp_source(ty as int, h as int),
                tx <= padded_width,
                pixels@.len() == (ty * padded_width + tx) * channels,
                forall|i: int| 0 <= i < pixels@.len() ==> #[trigger] pixels@[i] == expected[i],
            decreases padded_width - tx,
        {
            let sx: u32 = if tx >= 1 { tx - 1 } else { 0 };
            let sx: u32 = if sx < w - 1 { sx } else { w - 1 };
            proof {
                assert(sy * w + sx <= w * h - 1) by (nonlinear_arith)
                    requires
                        sy <= h - 1,
                        sx <= w - 1,
                        w >= 1,
                        h >= 1,
                ;
                assert((ty * padded_width + tx + 1) * channels <= len) by (nonlinear_arith)
                    requires
                        ty < padded_height,
                        tx < padded_width,
                        len == padded_width * padded_height * channels,
                        channels >= 1,
                ;
                assert(ty * padded_width + tx <= (ty * padded_width + tx) * channels) by (nonlinear_arith)
                    requires
                        channels >= 1,
                        ty >= 0,
                        tx >= 0,
                ;
            }
            let source: u32 = sy * w + sx;
            let t: usize = pixels.len() / (channels as usize);
            let ghost base = pixels@.len();
            proof {
                vstd::arithmetic::div_mod::lemma_fundamental_div_mod_converse(base as int, channels as int, ty * padded_width + tx, 0);
                assert(t == ty * padded_width + tx);
                lemma_row_index(ty as int, tx as int, padded_width as int, 0, channels as int);
                assert(padded_source(t as int, padded_width as int, w as int, h as int) == source);
            }
            if channels == 1 {
                let value = if (source as usize) < upload.pixels.len() {
                    upload.pixels[source as usize]
                } else {
                    0
                };
                pixels.push(value);
            } else {
                proof {
                    assert(4 * source + 4 <= upload.pixels@.len()) by (nonlinear_arith)
                        requires
                            source <= sources - 1,
                            4 * sources <= upload.pixels@.len(),
                    ;
                }
                assert(source_len == upload.pixels@.len());
                let at = (source as usize) * 4;
                let mut k: usize = 0;
                while k < 4
                    invariant
                        k <= 4,
                        at == 4 * source,
                        at + 4 <= upload.pixels@.len(),
                        source_len == upload.pixels@.len(),
                        channels == 4,
                        tx < padded_width,
                        t == ty * padded_width + tx,
                        pixels@.len() == base + k,
                        base == t * 4,
                        padded_source(t as int, padded_width as int, w as int, h as int) == source,
                        expected == padded_pixels(*upload),
                        expected.len() == len,
                        base + 4 <= len,
                        upload.format == GlyphBitmapFormat::Rgba,
                        w == upload.entry.width,
                        h == upload.entry.height,
                        padded_width == w + 2,
                        forall|i: int| 0 <= i < pixels@.len() ==> #[trigger] pixels@[i] == expected[i],
                    decreases 4 - k,
                {
                    proof {
                        lemma_padded_rgba_byte(*upload, t as int, k as int);
                        assert(expected[base + k] == upload.pixels@[4 * source + k]);
                    }
                    pixels.push(upload.pixels[at + k]);
                    assert(pixels@[base + k] == expected[base + k]);
                    k = k + 1;
                }
            }
            tx = tx + 1;
        }
        proof {
            assert((ty * padded_width + padded_width) * channels == (ty + 1) * padded_width * channels) by (nonlinear_arith);
        }
        ty = ty + 1;
    }
    proof {
        assert(ty * padded_width * channels == padded_width * padded_height * channels) by (nonlinear_arith)
            requires
                ty == padded_height,
        ;
        assert(pixels@.len() == len);
    }
    assert(pixels@ =~= expected);
    Some(PaddedAtlasUpload { pixels, bytes_per_row, rows_per_image: padded_height })
}

/// Whether an animation kind belongs to the cursor runtime.
pub open spec fn cursor_owned(kind: AnimationKind) -> bool {
    kind != AnimationKind::OverlayTransition
}

pub fn cursor_runtime_owns(kind: AnimationKind) -> (r: bool)
    ensures
        r == cursor_owned(kind),
{
    !matches!(kind, AnimationKind::OverlayTransition)
}

/// What the cursor overlay pass draws: the cursor, its animations, and the
/// content offset.
#[derive(Debug, Clone, PartialEq, Eq)]
pub struct CursorOverlayFrame {
    pub cursor: Option<CursorVisual>,
    pub animations: Vec<AnimationHandle>,
    pub content_offset: RenderOffset,
}

impl CursorOverlayFrame {
    /// Takes the cursor, the cursor-owned animations in scene order, and the offset.
    pub fn from_scene(scene: &RenderScene) -> (r: CursorOverlayFrame)
        ensures
            r.cursor == scene.cursor,
            r.content_offset == scene.content_offset,
            r.animations@ == scene.animations@.filter(|a: AnimationHandle| cursor_owned(a.kind)),
    {
        let mut animations: Vec<AnimationHandle> = Vec::new();
        let mut i: usize = 0;
        while i < scene.animations.len()
            invariant
                i <= scene.animations@.len(),
                animations@ == scene.animations@.take(i as int).filter(|a: AnimationHandle| cursor_owned(a.kind)),
            decreases scene.animations@.len() - i,
        {
            let animation = scene.animations[i];
            proof {
                reveal_with_fuel(Seq::filter, 1);
                assert(scene.animations@.take((i + 1) as int).drop_last() =~= scene.animations@.take(i as int));
            }
            if cursor_runtime_owns(animation.kind) {
                animations.push(animation);
            }
            i = i + 1;
        }
        assert(scene.animations@.take(i as int) =~= scene.animations@);
        CursorOverlayFrame { cursor: scene.cursor, animations, content_offset: scene.content_offset }
    }
}

/// Padding keeps the glyph: the inner pixels of a padded upload are the upload's
/// pixels, each shifted one row down and one column right.
pub proof fn lemma_padding_keeps_interior(upload: AtlasUpload, x: int, y: int)
    requires
        0 <= x < upload.entry.width,
        0 <= y < upload.entry.height,
    ensures
        padded_source(
            (y + 1) * (upload.entry.width + 2) + (x + 1),
            upload.entry.width + 2,
            upload.entry.width as int,
            upload.entry.height as int,
        ) == y * upload.entry.width + x,
{
    let pw = upload.entry.width + 2;
    lemma_row_index(y + 1, x + 1, pw, 0, 1);
}

/// Padding repeats the edges: each border pixel copies the nearest glyph pixel,
/// so the corners copy the glyph's corners.
pub proof fn lemma_padding_corners(upload: AtlasUpload)
    requires
        upload.entry.width > 0,
        upload.entry.height > 0,
    ensures
        padded_source(0, upload.entry.width + 2, upload.entry.width as int, upload.entry.height as int) == 0,
        padded_source(
            (upload.entry.height + 2) * (upload.entry.width + 2) - 1,
            upload.entry.width + 2,
            upload.entry.width as int,
            upload.entry.height as int,
        ) == upload.entry.width * upload.entry.height - 1,
{
    let w = upload.entry.width as int;
    let h = upload.entry.height as int;
    let pw = w + 2;
    vstd::arithmetic::div_mod::lemma_fundamental_div_mod_converse(0, pw, 0, 0);
    assert(0int / pw == 0 && 0int % pw == 0);
    assert(clamp_source(0, h) == 0 && clamp_source(0, w) == 0);
    assert(padded_source(0, pw, w, h) == 0 * w + 0);
    lemma_row_index(h + 1, w + 1, pw, 0, 1);
    assert((h + 2) * pw - 1 == (h + 1) * pw + (w + 1)) by (nonlinear_arith)
        requires
            pw == w + 2,
    ;
    assert((h - 1) * w + (w - 1) == w * h - 1) by (nonlinear_arith);
}

/// Where a rectangle ends on the x axis, past its last column.
pub open spec fn right_edge(r: RenderRect) -> int {
    r.x + r.width
}

/// Where a rectangle ends on the y axis, past its last row.
pub open spec fn bottom_edge(r: RenderRect) -> int {
    r.y + r.height
}

/// Two rectangles share at least one pixel.
pub open spec fn rects_meet(a: RenderRect, b: RenderRect) -> bool {
    &&& a.x < right_edge(b)
    &&& right_edge(a) > b.x
    &&& a.y < bottom_edge(b)
    &&& bottom_edge(a) > b.y
}

/// Every pixel of `inner` lies in `outer`.
pub open spec fn rect_within(outer: RenderRect, inner: RenderRect) -> bool {
    &&& outer.x <= inner.x
    &&& outer.y <= inner.y
    &&& right_edge(outer) >= right_edge(inner)
    &&& bottom_edge(outer) >= bottom_edge(inner)
}

/// The larger of two integers.
pub open spec fn larger(a: int, b: int) -> int {
    if a >= b {
        a
    } else {
        b
    }
}

/// The smaller of two integers.
pub open spec fn smaller(a: int, b: int) -> int {
    if a <= b {
        a
    } else {
        b
    }
}

/// The pixels two rectangles share, as a rectangle; none when they share
/// none.
pub open spec fn overlap(a: RenderRect, b: RenderRect) -> Option<RenderRect> {
    let x0 = larger(a.x as int, b.x as int);
    let y0 = larger(a.y as int, b.y as int);
    let x1 = smaller(right_edge(a), right_edge(b));
    let y1 = smaller(bottom_edge(a), bottom_edge(b));
    if x0 >= x1 || y0 >= y1 {
        None
    } else {
        Some(RenderRect { x: x0 as i32, y: y0 as i32, width: (x1 - x0) as u32, height: (y1 - y0) as u32 })
    }
}

/// Whether two rectangles share at least one pixel.
pub fn rects_intersect(a: RenderRect, b: RenderRect) -> (r: bool)
    ensures
        r == rects_meet(a, b),
{
    let ax1 = a.x as i64 + a.width as i64;
    let ay1 = a.y as i64 + a.height as i64;
    let bx1 = b.x as i64 + b.width as i64;
    let by1 = b.y as i64 + b.height as i64;
    (a.x as i64) < bx1 && ax1 > b.x as i64 && (a.y as i64) < by1 && ay1 > b.y as i64
}

/// Whether every pixel of `inner` lies in `outer`.
pub fn rect_contains(outer: RenderRect, inner: RenderRect) -> (r: bool)
    ensures
        r == rect_within(outer, inner),
{
    let outer_x1 = outer.x as i64 + outer.width as i64;
    let outer_y1 = outer.y as i64 + outer.height as i64;
    let inner_x1 = inner.x as i64 + inner.width as i64;
    let inner_y1 = inner.y as i64 + inner.height as i64;
    outer.x <= inner.x && outer.y <= inner.y && outer_x1 >= inner_x1 && outer_y1 >= inner_y1
}

/// The pixels two rectangles share; `None` when they share none.
pub fn rect_intersection(a: RenderRect, b: RenderRect) -> (r: Option<RenderRect>)
    ensures
        r == overlap(a, b),
{
    let x0: i64 = if a.x >= b.x { a.x as i64 } else { b.x as i64 };
    let y0: i64 = if a.y >= b.y { a.y as i64 } else { b.y as i64 };
    let ax1 = a.x as i64 + a.width as i64;
    let bx1 = b.x as i64 + b.width as i64;
    let ay1 = a.y as i64 + a.height as i64;
    let by1 = b.y as i64 + b.height as i64;
    let x1 = if ax1 <= bx1 { ax1 } else { bx1 };
    let y1 = if ay1 <= by1 { ay1 } else { by1 };
    if x0 >= x1 || y0 >= y1 {
        return None;
    }
    Some(RenderRect { x: x0 as i32, y: y0 as i32, width: (x1 - x0) as u32, height: (y1 - y0) as u32 })
}

/// A rectangle cut to the clip, when there is one; `None` when nothing of it
/// is left.
pub fn clip_optional_rect(rect: RenderRect, clip: Option<RenderRect>) -> (r: Option<RenderRect>)
    ensures
        r == (match clip {
            None => Some(rect),
            Some(c) => overlap(rect, c),
        }),
{
    match clip {
        None => Some(rect),
        Some(c) => rect_intersection(rect, c),
    }
}

/// Whether `rect` shares a pixel with any of `regions`.
pub fn intersects_any(rect: RenderRect, regions: &Vec<RenderRect>) -> (r: bool)
    ensures
        r == exists|k: int| 0 <= k < regions.len() && rects_meet(rect, #[trigger] regions@[k]),
{
    let mut k: usize = 0;
    while k < regions.len()
        invariant
            0 <= k <= regions.len(),
            forall|j: int| 0 <= j < k ==> !rects_meet(rect, #[trigger] regions@[j]),
        decreases regions.len() - k,
    {
        if rects_intersect(rect, regions[k]) {
            return true;
        }
        k = k + 1;
    }
    false
}

/// Two rectangles with an area share a pixel exactly when their overlap is a
/// rectangle, and that overlap lies in both of them.
pub proof fn lemma_overlap_exactly_when_meeting(a: RenderRect, b: RenderRect)
    requires
        a.width > 0 && a.height > 0,
        b.width > 0 && b.height > 0,
    ensures
        overlap(a, b) is Some <==> rects_meet(a, b),
        overlap(a, b) is Some ==> rect_within(a, overlap(a, b)->0) && rect_within(b, overlap(a, b)->0)
            && rects_meet(a, overlap(a, b)->0),
{
}

/// The overlap of two rectangles does not depend on their order.
pub proof fn lemma_overlap_commutes(a: RenderRect, b: RenderRect)
    ensures
        overlap(a, b) == overlap(b, a),
        rects_meet(a, b) == rects_meet(b, a),
{
}

/// A rectangle that holds another meets whatever the other meets.
pub proof fn lemma_within_meets(outer: RenderRect, inner: RenderRect, other: RenderRect)
    requires
        rect_within(outer, inner),
        rects_meet(inner, other),
    ensures
        rects_meet(outer, other),
{
}

/// The first row of the cells and how many rows they span, from the lowest
/// to the highest; `(0, 0)` for no cells.
pub open spec fn row_bounds_spec(cells: Seq<RenderCell>) -> (int, int) {
    if cells.len() == 0 {
        (0, 0)
    } else {
        let first = cells[lowest_row_index(cells, cells.len() - 1)].position.row;
        let last = cells[highest_row_index(cells, cells.len() - 1)].position.row;
        (first as int, last - first + 1)
    }
}

/// The position of the first cell with the lowest row among the first
/// `k + 1` cells.
pub open spec fn lowest_row_index(cells: Seq<RenderCell>, k: int) -> int
    decreases k,
{
    if k <= 0 {
        0
    } else {
        let m = lowest_row_index(cells, k - 1);
        if cells[k].position.row < cells[m].position.row {
            k
        } else {
            m
        }
    }
}

/// The position of the first cell with the highest row among the first
/// `k + 1` cells.
pub open spec fn highest_row_index(cells: Seq<RenderCell>, k: int) -> int
    decreases k,
{
    if k <= 0 {
        0
    } else {
        let m = highest_row_index(cells, k - 1);
        if cells[k].position.row > cells[m].position.row {
            k
        } else {
            m
        }
    }
}

proof fn lemma_row_index_extremes(cells: Seq<RenderCell>, k: int)
    requires
        0 <= k < cells.len(),
    ensures
        0 <= lowest_row_index(cells, k) <= k,
        0 <= highest_row_index(cells, k) <= k,
        forall|j: int| 0 <= j <= k ==> cells[lowest_row_index(cells, k)].position.row <= #[trigger] cells[j].position.row,
        forall|j: int| 0 <= j <= k ==> cells[highest_row_index(cells, k)].position.row >= #[trigger] cells[j].position.row,
    decreases k,
{
    if k > 0 {
        lemma_row_index_extremes(cells, k - 1);
    }
}

/// The first row of the cells and how many rows lie from it to the last,
/// saturated at `usize::MAX`; `(0, 0)` for no cells.
pub fn cell_row_bounds(cells: &Vec<RenderCell>) -> (r: (i64, usize))
    ensures
        cells.len() == 0 ==> r == (0i64, 0usize),
        cells.len() > 0 ==> {
            &&& r.0 == row_bounds_spec(cells@).0
            &&& r.1 == (if row_bounds_spec(cells@).1 > usize::MAX { usize::MAX as int } else { row_bounds_spec(cells@).1 })
            &&& forall|j: int| 0 <= j < cells.len() ==> r.0 <= #[trigger] cells@[j].position.row
        },
{
    if cells.len() == 0 {
        return (0, 0);
    }
    let mut low: usize = 0;
    let mut high: usize = 0;
    let mut k: usize = 1;
    while k < cells.len()
        invariant
            1 <= k <= cells.len(),
            low == lowest_row_index(cells@, k - 1),
            high == highest_row_index(cells@, k - 1),
        decreases cells.len() - k,
    {
        proof {
            lemma_row_index_extremes(cells@, k - 1);
        }
        if cells[k].position.row < cells[low].position.row {
            low = k;
        }
        if cells[k].position.row > cells[high].position.row {
            high = k;
        }
        k = k + 1;
    }
    proof {
        lemma_row_index_extremes(cells@, cells.len() - 1);
    }
    let first = cells[low].position.row;
    let last = cells[high].position.row;
    let span: i128 = last as i128 - first as i128 + 1;
    let count: usize = if span > usize::MAX as i128 { usize::MAX } else { span as usize };
    (first, count)
}

/// Overlays of these kinds are drawn under the terminal's text.
pub open spec fn behind_text(kind: OverlayKind) -> bool {
    kind == OverlayKind::Decoration || kind == OverlayKind::PromptDecoration || kind == OverlayKind::CommandBlock
        || kind == OverlayKind::InputOutputGroup
}

/// Whether an overlay of `kind` is drawn under the terminal's text:
/// decorations, prompt decorations, command blocks, and input/output groups.
pub fn overlay_draws_behind_terminal_text(kind: OverlayKind) -> (r: bool)
    ensures
        r == behind_text(kind),
{
    match kind {
        OverlayKind::Decoration | OverlayKind::PromptDecoration | OverlayKind::CommandBlock
        | OverlayKind::InputOutputGroup => true,
        _ => false,
    }
}

/// The color of an overlay's label text.
pub open spec fn label_color_spec(kind: OverlayKind) -> RenderColor {
    match kind {
        OverlayKind::Badge => RenderColor { red: 245, green: 248, blue: 252, alpha: 255 },
        OverlayKind::PerformanceOverlay => RenderColor { red: 225, green: 232, blue: 240, alpha: 255 },
        OverlayKind::PromptDecoration | OverlayKind::CommandBlock | OverlayKind::InputOutputGroup => RenderColor {
            red: 214,
            green: 222,
            blue: 232,
            alpha: 255,
        },
        OverlayKind::Selection | OverlayKind::SearchHighlight | OverlayKind::Semantic | OverlayKind::Decoration => RenderColor {
            red: 230,
            green: 236,
            blue: 244,
            alpha: 255,
        },
    }
}

/// The color of an overlay's label text: near-white, tinted by the kind of
/// overlay.
pub fn overlay_label_color(kind: OverlayKind) -> (r: RenderColor)
    ensures
        r == label_color_spec(kind),
{
    match kind {
        OverlayKind::Badge => RenderColor::rgb(245, 248, 252),
        OverlayKind::PerformanceOverlay => RenderColor::rgb(225, 232, 240),
        OverlayKind::PromptDecoration | OverlayKind::CommandBlock | OverlayKind::InputOutputGroup => RenderColor::rgb(
            214,
            222,
            232,
        ),
        OverlayKind::Selection | OverlayKind::SearchHighlight | OverlayKind::Semantic | OverlayKind::Decoration => RenderColor::rgb(
            230,
            236,
            244,
        ),
    }
}

/// A cell as a text run sees it: where it starts, its text, its colors, and
/// its style.
pub open spec fn run_view(cell: RenderCell) -> (CellPosition, Seq<char>, RenderColor, RenderColor, RenderCellStyle) {
    (cell.position, cell.text@, cell.foreground, cell.background, cell.style)
}

/// The columns a run of ASCII text spans: its length, held at `u16::MAX`.
pub open spec fn run_span(text: Seq<char>) -> int {
    if text.len() > u16::MAX {
        u16::MAX as int
    } else {
        text.len() as int
    }
}

/// A cell continues a run: both are ASCII, the cell starts on the run's row
/// right where the run ends (the end held at `u16::MAX`), and it has the
/// run's colors and style.
pub open spec fn continues_run(
    run: (CellPosition, Seq<char>, RenderColor, RenderColor, RenderCellStyle),
    cell: RenderCell,
) -> bool {
    let end = run.0.col + run_span(run.1);
    &&& vstd::utf8::is_ascii_chars(run.1)
    &&& vstd::utf8::is_ascii_chars(cell.text@)
    &&& run.0.row == cell.position.row
    &&& (if end > u16::MAX { u16::MAX as int } else { end }) == cell.position.col
    &&& run.2 == cell.foreground
    &&& run.3 == cell.background
    &&& run.4 == cell.style
}

/// The text runs of the cells, in order: each cell either continues the last
/// run, which takes its text, or starts a run of its own.
pub open spec fn text_runs(cells: Seq<RenderCell>) -> Seq<(CellPosition, Seq<char>, RenderColor, RenderColor, RenderCellStyle)>
    decreases cells.len(),
{
    if cells.len() == 0 {
        Seq::empty()
    } else {
        let runs = text_runs(cells.drop_last());
        let cell = cells.last();
        if runs.len() > 0 && continues_run(runs.last(), cell) {
            let last = runs.last();
            runs.update(runs.len() - 1, (last.0, last.1 + cell.text@, last.2, last.3, last.4))
        } else {
            runs.push(run_view(cell))
        }
    }
}

/// The columns a run of ASCII text spans, held at `u16::MAX`.
fn run_column_span(text: &String) -> (r: u16)
    ensures
        r == run_span(text@),
{
    let length = text.unicode_len();
    if length > u16::MAX as usize {
        u16::MAX
    } else {
        length as u16
    }
}

/// Joins the cells into text runs: a cell that continues the last run (ASCII
/// text right after it on its row, with the same colors and style) adds its
/// text to that run; any other cell starts a run.
pub fn terminal_text_runs(cells: &Vec<RenderCell>) -> (r: Vec<RenderCell>)
    ensures
        r@.map_values(|c: RenderCell| run_view(c)) == text_runs(cells@),
{
    let mut runs: Vec<RenderCell> = Vec::new();
    let mut i: usize = 0;
    while i < cells.len()
        invariant
            0 <= i <= cells.len(),
            runs@.map_values(|c: RenderCell| run_view(c)) == text_runs(cells@.take(i as int)),
        decreases cells.len() - i,
    {
        let ghost before = runs@;
        proof {
            assert(cells@.take(i + 1).drop_last() =~= cells@.take(i as int));
            assert(cells@.take(i + 1).last() == cells@[i as int]);
        }
        let cell = &cells[i];
        let n = runs.len();
        let joins = if n == 0 {
            false
        } else {
            let run = &runs[n - 1];
            let span = run_column_span(&run.text);
            let end: u32 = run.position.col as u32 + span as u32;
            let end: u16 = if end > u16::MAX as u32 { u16::MAX } else { end as u16 };
            run.text.is_ascii() && cell.text.is_ascii() && run.position.row == cell.position.row && end
                == cell.position.col && run.foreground == cell.foreground && run.background == cell.background
                && run.style == cell.style
        };
        proof {
            if n > 0 {
                assert(before.map_values(|c: RenderCell| run_view(c)).last() == run_view(before[n - 1]));
            }
        }
        if joins {
            let mut last = runs.pop().unwrap();
            last.text.append(cell.text.as_str());
            runs.push(last);
            proof {
                assert(runs@.map_values(|c: RenderCell| run_view(c)) =~= text_runs(cells@.take(i + 1)));
            }
        } else {
            runs.push(
                RenderCell {
                    position: cell.position,
                    text: cell.text.clone(),
                    foreground: cell.foreground,
                    background: cell.background,
                    style: cell.style,
                },
            );
            proof {
                assert(runs@.map_values(|c: RenderCell| run_view(c)) =~= text_runs(cells@.take(i + 1)));
            }
        }
        i = i + 1;
    }
    proof {
        assert(cells@.take(i as int) =~= cells@);
    }
    runs
}

/// The texts of the runs, one after another.
pub open spec fn runs_text(runs: Seq<(CellPosition, Seq<char>, RenderColor, RenderColor, RenderCellStyle)>) -> Seq<char>
    decreases runs.len(),
{
    if runs.len() == 0 {
        Seq::empty()
    } else {
        runs_text(runs.drop_last()) + runs.last().1
    }
}

/// The texts of the cells, one after another.
pub open spec fn cells_text(cells: Seq<RenderCell>) -> Seq<char>
    decreases cells.len(),
{
    if cells.len() == 0 {
        Seq::empty()
    } else {
        cells_text(cells.drop_last()) + cells.last().text@
    }
}

/// Joining cells into runs loses no text and adds none, and makes no more
/// runs than there are cells.
pub proof fn lemma_text_runs_keep_text(cells: Seq<RenderCell>)
    ensures
        runs_text(text_runs(cells)) == cells_text(cells),
        text_runs(cells).len() <= cells.len(),
        cells.len() > 0 ==> text_runs(cells).len() > 0,
    decreases cells.len(),
{
    if cells.len() > 0 {
        let rest = cells.drop_last();
        lemma_text_runs_keep_text(rest);
        let runs = text_runs(rest);
        let cell = cells.last();
        if runs.len() > 0 && continues_run(runs.last(), cell) {
            let last = runs.last();
            let joined = runs.update(runs.len() - 1, (last.0, last.1 + cell.text@, last.2, last.3, last.4));
            assert(joined.drop_last() =~= runs.drop_last());
            assert(runs_text(joined) =~= runs_text(runs) + cell.text@);
        } else {
            let pushed = runs.push(run_view(cell));
            assert(pushed.drop_last() =~= runs);
            assert(runs_text(pushed) =~= runs_text(runs) + cell.text@);
        }
    }
}


/// The column `o` characters into a run that starts at column `start`, held
/// at `u16::MAX`.
pub open spec fn column_into(start: u16, o: int) -> int {
    let v = start + (if o > u16::MAX { u16::MAX as int } else { o });
    if v > u16::MAX { u16::MAX as int } else { v }
}

/// The cell's text sits in the run from offset `o`, the cell stands on the
/// run's row that many columns past its start, and the run has the cell's
/// foreground, background and style.
pub open spec fn holds_cell(
    run: (CellPosition, Seq<char>, RenderColor, RenderColor, RenderCellStyle),
    cell: RenderCell,
    o: int,
) -> bool {
    &&& 0 <= o
    &&& o + cell.text@.len() <= run.1.len()
    &&& run.1.subrange(o, o + cell.text@.len()) == cell.text@
    &&& cell.position.row == run.0.row
    &&& cell.position.col == column_into(run.0.col, o)
    &&& cell.foreground == run.2
    &&& cell.background == run.3
    &&& cell.style == run.4
}

/// Some run holds the cell's text with the cell's colors and style.
pub open spec fn kept_in_runs(runs: Seq<(CellPosition, Seq<char>, RenderColor, RenderColor, RenderCellStyle)>, cell: RenderCell) -> bool {
    exists|j: int, o: int| 0 <= j < runs.len() && #[trigger] holds_cell(runs[j], cell, o)
}

/// Joining cells into runs keeps each cell's text with its own colors and
/// style: every cell's text lies in some run whose foreground, background and
/// style are the cell's, so cells of different colors never share a run.
pub proof fn lemma_runs_keep_cell_colors(cells: Seq<RenderCell>)
    ensures
        forall|k: int| 0 <= k < cells.len() ==> kept_in_runs(text_runs(cells), #[trigger] cells[k]),
    decreases cells.len(),
{
    if cells.len() > 0 {
        let rest = cells.drop_last();
        lemma_runs_keep_cell_colors(rest);
        let before = text_runs(rest);
        let runs = text_runs(cells);
        let cell = cells.last();
        let n = cells.len() - 1;
        assert(cells[n] == cell);
        if before.len() > 0 && continues_run(before.last(), cell) {
            let m = before.len() - 1;
            let last = before.last();
            assert(runs == before.update(m, (last.0, last.1 + cell.text@, last.2, last.3, last.4)));
            assert forall|k: int| 0 <= k < cells.len() implies kept_in_runs(runs, #[trigger] cells[k]) by {
                if k < n {
                    assert(cells[k] == rest[k]);
                    assert(kept_in_runs(before, rest[k]));
                    let (j, o) = choose|j: int, o: int| 0 <= j < before.len() && #[trigger] holds_cell(before[j], rest[k], o);
                    if j == m {
                        let t = cells[k].text@;
                        assert((last.1 + cell.text@).subrange(o, o + t.len()) =~= last.1.subrange(o, o + t.len()));
                        assert(holds_cell(runs[j], cells[k], o));
                    } else {
                        assert(holds_cell(runs[j], cells[k], o));
                    }
                } else {
                    let o = last.1.len() as int;
                    assert((last.1 + cell.text@).subrange(o, o + cell.text@.len()) =~= cell.text@);
                    assert(holds_cell(runs[m], cells[k], o));
                }
            }
        } else {
            assert(runs == before.push(run_view(cell)));
            assert forall|k: int| 0 <= k < cells.len() implies kept_in_runs(runs, #[trigger] cells[k]) by {
                if k < n {
                    assert(cells[k] == rest[k]);
                    assert(kept_in_runs(before, rest[k]));
                    let (j, o) = choose|j: int, o: int| 0 <= j < before.len() && #[trigger] holds_cell(before[j], rest[k], o);
                    assert(runs[j] == before[j]);
                    assert(holds_cell(runs[j], cells[k], o));
                } else {
                    assert(cell.text@.subrange(0, cell.text@.len() as int) =~= cell.text@);
                    assert(holds_cell(runs[before.len() as int], cells[k], 0));
                }
            }
        }
    }
}


/// Two cells that a run can join: both ASCII, on one row, the second starting
/// right where the first's text ends (short of the last column), with the
/// same colors and style.
pub open spec fn joinable(a: RenderCell, b: RenderCell) -> bool {
    &&& vstd::utf8::is_ascii_chars(a.text@)
    &&& vstd::utf8::is_ascii_chars(b.text@)
    &&& a.position.row == b.position.row
    &&& a.position.col + a.text@.len() < u16::MAX
    &&& b.position.col == a.position.col + a.text@.len()
    &&& a.foreground == b.foreground
    &&& a.background == b.background
    &&& a.style == b.style
}

/// Some run holds both cells.
pub open spec fn share_run(
    runs: Seq<(CellPosition, Seq<char>, RenderColor, RenderColor, RenderCellStyle)>,
    a: RenderCell,
    b: RenderCell,
) -> bool {
    exists|j: int, o1: int, o2: int|
        #![trigger holds_cell(runs[j], a, o1), holds_cell(runs[j], b, o2)]
        0 <= j < runs.len() && holds_cell(runs[j], a, o1) && holds_cell(runs[j], b, o2)
}

/// The last cell ends the last run, and an ASCII last cell ends an ASCII run.
pub open spec fn ends_last_run(
    runs: Seq<(CellPosition, Seq<char>, RenderColor, RenderColor, RenderCellStyle)>,
    cells: Seq<RenderCell>,
) -> bool {
    cells.len() > 0 ==> {
        &&& runs.len() > 0
        &&& runs.last().1.len() >= cells.last().text@.len()
        &&& holds_cell(runs.last(), cells.last(), runs.last().1.len() - cells.last().text@.len())
        &&& vstd::utf8::is_ascii_chars(cells.last().text@) ==> vstd::utf8::is_ascii_chars(runs.last().1)
    }
}

/// Neighbouring cells that a run can join end up in one run: the runs are as
/// long as the cells allow.
pub proof fn lemma_runs_join_neighbours(cells: Seq<RenderCell>)
    ensures
        ends_last_run(text_runs(cells), cells),
        forall|k: int|
            0 <= k && k + 1 < cells.len() && #[trigger] joinable(cells[k], cells[k + 1]) ==> share_run(
                text_runs(cells),
                cells[k],
                cells[k + 1],
            ),
    decreases cells.len(),
{
    if cells.len() > 0 {
        let rest = cells.drop_last();
        lemma_runs_join_neighbours(rest);
        let before = text_runs(rest);
        let runs = text_runs(cells);
        let cell = cells.last();
        let n = cells.len() - 1;
        assert(cells[n] == cell);
        assert forall|k: int| 0 <= k < n implies cells[k] == rest[k] by {}
        if before.len() > 0 && continues_run(before.last(), cell) {
            let m = before.len() - 1;
            let last = before.last();
            let joined = (last.0, last.1 + cell.text@, last.2, last.3, last.4);
            assert(runs == before.update(m, joined));
            assert(runs.last() == joined);
            let o = last.1.len() as int;
            assert((last.1 + cell.text@).subrange(o, o + cell.text@.len()) =~= cell.text@);
            assert(holds_cell(runs.last(), cell, o));
            assert(vstd::utf8::is_ascii_chars(last.1 + cell.text@)) by {
                assert forall|i: int| 0 <= i < (last.1 + cell.text@).len() implies '\0' <= #[trigger] (last.1 + cell.text@)[i] <= '\u{7f}' by {
                    if i < last.1.len() {
                        assert((last.1 + cell.text@)[i] == last.1[i]);
                    } else {
                        assert((last.1 + cell.text@)[i] == cell.text@[i - last.1.len()]);
                    }
                }
            }
            assert forall|k: int|
                0 <= k && k + 1 < cells.len() && #[trigger] joinable(cells[k], cells[k + 1]) implies share_run(
                runs,
                cells[k],
                cells[k + 1],
            ) by {
                if k + 1 < n {
                    assert(cells[k + 1] == rest[k + 1]);
                    assert(joinable(rest[k], rest[k + 1]));
                    assert(share_run(before, rest[k], rest[k + 1]));
                    let (j, o1, o2) = choose|j: int, o1: int, o2: int|
                        #![trigger holds_cell(before[j], rest[k], o1), holds_cell(before[j], rest[k + 1], o2)]
                        0 <= j < before.len() && holds_cell(before[j], rest[k], o1) && holds_cell(before[j], rest[k + 1], o2);
                    if j == m {
                        let t1 = cells[k].text@;
                        let t2 = cells[k + 1].text@;
                        assert((last.1 + cell.text@).subrange(o1, o1 + t1.len()) =~= last.1.subrange(o1, o1 + t1.len()));
                        assert((last.1 + cell.text@).subrange(o2, o2 + t2.len()) =~= last.1.subrange(o2, o2 + t2.len()));
                        assert(holds_cell(runs[j], cells[k], o1));
                        assert(holds_cell(runs[j], cells[k + 1], o2));
                    } else {
                        assert(holds_cell(runs[j], cells[k], o1));
                        assert(holds_cell(runs[j], cells[k + 1], o2));
                    }
                } else {
                    assert(k == n - 1);
                    let a = cells[k];
                    assert(a == rest.last());
                    let oa = o - a.text@.len();
                    assert(holds_cell(last, a, oa));
                    assert(last.1.subrange(oa, o) == a.text@);
                    assert((last.1 + cell.text@).subrange(oa, oa + a.text@.len()) =~= last.1.subrange(oa, o));
                    assert(holds_cell(runs[m], a, oa));
                    assert(holds_cell(runs[m], cell, o));
                }
            }
        } else {
            assert(runs == before.push(run_view(cell)));
            let m = before.len() as int;
            assert(cell.text@.subrange(0, cell.text@.len() as int) =~= cell.text@);
            assert(holds_cell(runs[m], cell, 0));
            assert forall|k: int|
                0 <= k && k + 1 < cells.len() && #[trigger] joinable(cells[k], cells[k + 1]) implies share_run(
                runs,
                cells[k],
                cells[k + 1],
            ) by {
                if k + 1 < n {
                    assert(cells[k + 1] == rest[k + 1]);
                    assert(joinable(rest[k], rest[k + 1]));
                    assert(share_run(before, rest[k], rest[k + 1]));
                    let (j, o1, o2) = choose|j: int, o1: int, o2: int|
                        #![trigger holds_cell(before[j], rest[k], o1), holds_cell(before[j], rest[k + 1], o2)]
                        0 <= j < before.len() && holds_cell(before[j], rest[k], o1) && holds_cell(before[j], rest[k + 1], o2);
                    assert(runs[j] == before[j]);
                    assert(holds_cell(runs[j], cells[k], o1));
                    assert(holds_cell(runs[j], cells[k + 1], o2));
                } else {
                    assert(k == n - 1);
                    let a = cells[k];
                    assert(a == rest.last());
                    let last = before.last();
                    let oa = last.1.len() - a.text@.len();
                    assert(holds_cell(last, a, oa));
                    assert(vstd::utf8::is_ascii_chars(last.1));
                    assert(oa <= u16::MAX);
                    assert(a.position.col == last.0.col + oa);
                    assert(continues_run(last, cell));
                    assert(false);
                }
            }
        }
    }
}

} // verus!
