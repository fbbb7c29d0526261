//! Animated image and vector cursor assets: what a decode produces, the checks
//! an asset must pass, and the caches that track a decode running elsewhere.

use vstd::prelude::*;
use std::sync::Arc;
use crate::glyph_cache::share;
use crate::render_core::RenderColor;
use crate::text::{append_decimal, decimal_text, str_eq, string_views};

verus! {

pub const CURSOR_VECTOR_FORMAT_VERSION: u16 = 1;
pub const CURSOR_VECTOR_CANVAS_UNITS: u16 = 1000;
pub const CURSOR_VECTOR_MAX_PRIMITIVES: usize = 64;

/// One primitive of a vector cursor, in canvas units.
#[derive(Debug, Clone, Copy, PartialEq, Eq, Structural)]
pub struct CursorVectorPrimitive {
    pub x: u16,
    pub y: u16,
    pub width: u16,
    pub height: u16,
    pub corner_radius: u16,
    pub color: Option<RenderColor>,
}

/// A decoded vector cursor.
#[derive(Debug, Clone, PartialEq, Eq)]
pub struct CursorVectorAsset {
    pub id: u64,
    pub primitives: Vec<CursorVectorPrimitive>,
}

/// A primitive as the vector document writes it.
#[derive(Debug, Clone, Copy, PartialEq, Eq)]
pub struct CursorVectorDocumentPrimitive {
    pub x: u16,
    pub y: u16,
    pub width: u16,
    pub height: u16,
    pub corner_radius: u16,
    pub color: Option<[u8; 4]>,
}

/// A vector cursor document.
#[derive(Debug, Clone, PartialEq, Eq)]
pub struct CursorVectorDocument {
    pub version: u16,
    pub primitives: Vec<CursorVectorDocumentPrimitive>,
}

pub open spec fn sat_add_u16(a: u16, b: u16) -> int {
    if a + b > u16::MAX {
        u16::MAX as int
    } else {
        a + b
    }
}

/// Whether a primitive has an area inside the canvas and a radius at most half of it.
pub open spec fn primitive_fits(p: CursorVectorDocumentPrimitive) -> bool {
    &&& p.width != 0
    &&& p.height != 0
    &&& sat_add_u16(p.x, p.width) <= CURSOR_VECTOR_CANVAS_UNITS
    &&& sat_add_u16(p.y, p.height) <= CURSOR_VECTOR_CANVAS_UNITS
    &&& p.corner_radius <= CURSOR_VECTOR_CANVAS_UNITS / 2
}

pub open spec fn document_color(color: Option<[u8; 4]>) -> Option<RenderColor> {
    match color {
        Some(c) => Some(RenderColor { red: c[0], green: c[1], blue: c[2], alpha: c[3] }),
        None => None,
    }
}

pub open spec fn vector_primitive(p: CursorVectorDocumentPrimitive) -> CursorVectorPrimitive {
    CursorVectorPrimitive {
        x: p.x,
        y: p.y,
        width: p.width,
        height: p.height,
        corner_radius: p.corner_radius,
        color: document_color(p.color),
    }
}

/// The index of the first primitive at or after `i` that does not fit, or the length.
pub open spec fn first_misfit_from(s: Seq<CursorVectorDocumentPrimitive>, i: int) -> int
    decreases s.len() - i,
{
    if i >= s.len() {
        s.len() as int
    } else if !primitive_fits(s[i]) {
        i
    } else {
        first_misfit_from(s, i + 1)
    }
}

/// What a vector document decodes to: its primitives, or the first reason to refuse it.
pub open spec fn vector_decoding(version: u16, s: Seq<CursorVectorDocumentPrimitive>) -> Result<
    Seq<CursorVectorPrimitive>,
    Seq<char>,
> {
    if version != CURSOR_VECTOR_FORMAT_VERSION {
        Err("unsupported cursor vector version "@ + decimal_text(version as nat) + "; expected 1"@)
    } else if s.len() == 0 {
        Err("cursor vector must contain at least one primitive"@)
    } else if s.len() > CURSOR_VECTOR_MAX_PRIMITIVES {
        Err("cursor vector exceeds the 64-primitive limit"@)
    } else if first_misfit_from(s, 0) < s.len() {
        Err("cursor vector primitive "@ + decimal_text(first_misfit_from(s, 0) as nat)
            + " is outside the 1000x1000 canvas or has invalid geometry"@)
    } else {
        Ok(s.map_values(|p: CursorVectorDocumentPrimitive| vector_primitive(p)))
    }
}

proof fn lemma_first_misfit_skip(s: Seq<CursorVectorDocumentPrimitive>, t: int)
    requires
        0 <= t <= s.len(),
        forall|i: int| 0 <= i < t ==> primitive_fits(#[trigger] s[i]),
    ensures
        first_misfit_from(s, 0) == first_misfit_from(s, t),
    decreases t,
{
    if t > 0 {
        lemma_first_misfit_skip(s, t - 1);
        assert(primitive_fits(s[t - 1]));
    }
}

fn primitive_fits_exec(p: &CursorVectorDocumentPrimitive) -> (r: bool)
    ensures
        r == primitive_fits(*p),
{
    let right = p.x.saturating_add(p.width);
    let bottom = p.y.saturating_add(p.height);
    !(p.width == 0 || p.height == 0 || right > CURSOR_VECTOR_CANVAS_UNITS || bottom > CURSOR_VECTOR_CANVAS_UNITS
        || p.corner_radius > CURSOR_VECTOR_CANVAS_UNITS / 2)
}

/// Checks a parsed vector document: its version, its primitive count, and the
/// geometry of each primitive, in that order.
pub fn decode_cursor_vector(document: &CursorVectorDocument) -> (r: Result<Vec<CursorVectorPrimitive>, String>)
    ensures
        match vector_decoding(document.version, document.primitives@) {
            Ok(s) => r matches Ok(v) && v@ == s,
            Err(m) => r matches Err(e) && e@ == m,
        },
{
    if document.version != CURSOR_VECTOR_FORMAT_VERSION {
        let mut message = String::from_str("unsupported cursor vector version ");
        append_decimal(&mut message, document.version as u64);
        message.append("; expected 1");
        return Err(message);
    }
    let n = document.primitives.len();
    if n == 0 {
        return Err(String::from_str("cursor vector must contain at least one primitive"));
    }
    if n > CURSOR_VECTOR_MAX_PRIMITIVES {
        return Err(String::from_str("cursor vector exceeds the 64-primitive limit"));
    }
    let ghost s = document.primitives@;
    let mut primitives: Vec<CursorVectorPrimitive> = Vec::new();
    let mut i: usize = 0;
    while i < n
        invariant
            n == s.len(),
            s == document.primitives@,
            document.version == CURSOR_VECTOR_FORMAT_VERSION,
            0 < n <= CURSOR_VECTOR_MAX_PRIMITIVES,
            i <= n,
            forall|j: int| 0 <= j < i ==> primitive_fits(#[trigger] s[j]),
            primitives@ == s.take(i as int).map_values(|p: CursorVectorDocumentPrimitive| vector_primitive(p)),
        decreases n - i,
    {
        let p = document.primitives[i];
        if !primitive_fits_exec(&p) {
            proof {
                lemma_first_misfit_skip(s, i as int);
                assert(p == s[i as int]);
                assert(first_misfit_from(s, i as int) == i);
            }
            let mut message = String::from_str("cursor vector primitive ");
            append_decimal(&mut message, i as u64);
            message.append(" is outside the 1000x1000 canvas or has invalid geometry");
            return Err(message);
        }
        let color = match p.color {
            Some(c) => Some(RenderColor { red: c[0], green: c[1], blue: c[2], alpha: c[3] }),
            None => None,
        };
        primitives.push(
            CursorVectorPrimitive {
                x: p.x,
                y: p.y,
                width: p.width,
                height: p.height,
                corner_radius: p.corner_radius,
                color,
            },
        );
        proof {
            assert(s.take(i + 1) =~= s.take(i as int).push(s[i as int]));
            assert(primitives@ =~= s.take(i + 1).map_values(|p: CursorVectorDocumentPrimitive| vector_primitive(p)));
        }
        i = i + 1;
    }
    proof {
        lemma_first_misfit_skip(s, n as int);
        assert(s.take(n as int) =~= s);
    }
    Ok(primitives)
}

/// One decoded cursor frame: RGBA bytes, four a pixel.
#[derive(Debug, Clone, PartialEq, Eq)]
pub struct CursorImageFrame {
    pub pixels: Vec<u8>,
}

/// A decoded image cursor: its canvas size and frames.
#[derive(Debug, Clone, PartialEq, Eq)]
pub struct CursorImageAsset {
    pub id: u64,
    pub width: u32,
    pub height: u32,
    pub frames: Vec<CursorImageFrame>,
}

/// The frames of a decoded image and their common canvas size.
#[derive(Debug, Clone, PartialEq, Eq)]
pub struct DecodedCursorFrames {
    pub width: u32,
    pub height: u32,
    pub frames: Vec<CursorImageFrame>,
}

/// A frame as the GIF decoder hands it out: its canvas size and RGBA bytes.
#[derive(Debug, Clone, PartialEq, Eq)]
pub struct RawImageFrame {
    pub width: u32,
    pub height: u32,
    pub pixels: Vec<u8>,
}

/// The kinds of image file the cursor accepts, by their signature.
#[derive(Debug, Clone, Copy, PartialEq, Eq, Structural)]
pub enum CursorImageKind {
    Gif,
    Png,
    /// Another image format the decoder recognizes.
    Other,
    /// No image format the decoder recognizes.
    Unrecognized,
}

pub open spec fn starts_with(bytes: Seq<u8>, prefix: Seq<u8>) -> bool {
    bytes.len() >= prefix.len() && bytes.subrange(0, prefix.len() as int) == prefix
}

pub open spec fn gif_signature(bytes: Seq<u8>) -> bool {
    starts_with(bytes, seq![0x47u8, 0x49, 0x46, 0x38, 0x39, 0x61])
        || starts_with(bytes, seq![0x47u8, 0x49, 0x46, 0x38, 0x37, 0x61])
}

pub open spec fn png_signature(bytes: Seq<u8>) -> bool {
    starts_with(bytes, seq![0x89u8, 0x50, 0x4e, 0x47, 0x0d, 0x0a, 0x1a, 0x0a])
}

/// Whether `image::guess_format` recognizes a format other than PNG and GIF
/// from the leading bytes: JPEG, WebP (`RIFF`, four bytes of any value, then
/// `WEBP`), TIFF in either byte order, DDS, BMP, ICO, Radiance HDR, AVIF (two
/// zero bytes, two of any value, then `ftypavif`), OpenEXR, QOI, the PNM
/// family `P1` to `P7`, and farbfeld.
pub open spec fn other_image_signature(bytes: Seq<u8>) -> bool {
    ||| (bytes.len() >= 12 && bytes.subrange(0, 4) == seq![0x52u8, 0x49, 0x46, 0x46] && bytes.subrange(8, 12) == seq![0x57u8, 0x45, 0x42, 0x50])
    ||| (bytes.len() >= 12 && bytes[0] == 0 && bytes[1] == 0 && bytes.subrange(4, 12) == seq![0x66u8, 0x74, 0x79, 0x70, 0x61, 0x76, 0x69, 0x66])
    ||| starts_with(bytes, seq![0xffu8, 0xd8, 0xff])
    ||| starts_with(bytes, seq![0x4du8, 0x4d, 0x00, 0x2a])
    ||| starts_with(bytes, seq![0x49u8, 0x49, 0x2a, 0x00])
    ||| starts_with(bytes, seq![0x44u8, 0x44, 0x53, 0x20])
    ||| starts_with(bytes, seq![0x42u8, 0x4d])
    ||| starts_with(bytes, seq![0x00u8, 0x00, 0x01, 0x00])
    ||| starts_with(bytes, seq![0x23u8, 0x3f, 0x52, 0x41, 0x44, 0x49, 0x41, 0x4e, 0x43, 0x45])
    ||| starts_with(bytes, seq![0x76u8, 0x2f, 0x31, 0x01])
    ||| starts_with(bytes, seq![0x71u8, 0x6f, 0x69, 0x66])
    ||| starts_with(bytes, seq![0x50u8, 0x31])
    ||| starts_with(bytes, seq![0x50u8, 0x32])
    ||| starts_with(bytes, seq![0x50u8, 0x33])
    ||| starts_with(bytes, seq![0x50u8, 0x34])
    ||| starts_with(bytes, seq![0x50u8, 0x35])
    ||| starts_with(bytes, seq![0x50u8, 0x36])
    ||| starts_with(bytes, seq![0x50u8, 0x37])
    ||| starts_with(bytes, seq![0x66u8, 0x61, 0x72, 0x62, 0x66, 0x65, 0x6c, 0x64])
}

/// What `GifDecoder::new` reads from a GIF: its canvas size, or the decoder's
/// error text.
pub uninterp spec fn gif_opening(bytes: Seq<u8>) -> Result<(u32, u32), Seq<char>>;

/// What `load_from_memory_with_format(.., Png)` then `to_rgba8` give: the size
/// and RGBA bytes, or the decoder's error text.
pub uninterp spec fn png_decoding(bytes: Seq<u8>) -> Result<(u32, u32, Seq<u8>), Seq<char>>;

/// What `DefaultHasher::new()` gives after hashing the byte slice.
/// The value is stable within one build for one target only: `DefaultHasher`'s
/// algorithm may change between Rust releases, and the length prefix it hashes
/// depends on the width of `usize`.
pub uninterp spec fn asset_digest(bytes: Seq<u8>) -> u64;

/// `image::guess_format`, which tries its table of signatures in order: PNG
/// and GIF by their signatures (they cannot both match); another recognized
/// signature is `Other`, none is `Unrecognized`.
#[verifier::external_body]
fn guess_image_kind(bytes: &[u8]) -> (r: CursorImageKind)
    ensures
        r == (if png_signature(bytes@) {
            CursorImageKind::Png
        } else if gif_signature(bytes@) {
            CursorImageKind::Gif
        } else if other_image_signature(bytes@) {
            CursorImageKind::Other
        } else {
            CursorImageKind::Unrecognized
        }),
{
    match image::guess_format(bytes) {
        Ok(image::ImageFormat::Gif) => CursorImageKind::Gif,
        Ok(image::ImageFormat::Png) => CursorImageKind::Png,
        Ok(_) => CursorImageKind::Other,
        Err(_) => CursorImageKind::Unrecognized,
    }
}

/// `image::Frames`, the frame iterator a GIF reader holds, carried opaquely.
#[verifier::external_type_specification]
#[verifier::external_body]
pub struct ExFrames<'a>(image::Frames<'a>);

/// `image::Frame`, the item type of that iterator, carried opaquely.
#[verifier::external_type_specification]
#[verifier::external_body]
pub struct ExFrame(image::Frame);

/// `image::ImageError`, the error type of that iterator, carried opaquely.
#[verifier::external_type_specification]
#[verifier::external_body]
pub struct ExImageError(image::ImageError);

/// What the `index`-th call of `next` on the frame iterator of a GIF (made by
/// `GifDecoder::new` and `into_frames`) gives, counting from zero: a frame's size
/// and RGBA bytes, a decoder error's text, or `None` once the frames are over.
pub uninterp spec fn gif_frame(bytes: Seq<u8>, index: nat) -> Option<Result<(u32, u32, Seq<u8>), Seq<char>>>;

/// The frame iterator of an opened GIF, with the bytes it reads and how many
/// frames have been asked of it.
pub struct GifFrameReader {
    frames: image::Frames<'static>,
    source: Ghost<Seq<u8>>,
    position: Ghost<nat>,
}

impl GifFrameReader {
    /// The GIF bytes the iterator decodes.
    pub closed spec fn source(&self) -> Seq<u8> {
        self.source@
    }

    /// How many times `next` has been called.
    pub closed spec fn position(&self) -> nat {
        self.position@
    }
}

/// `GifDecoder::new` over a copy of the bytes, its `dimensions`, and
/// `into_frames`: the canvas size and the frame iterator, not yet advanced, or
/// the error text.
#[verifier::external_body]
fn open_gif(bytes: &[u8]) -> (r: Result<(u32, u32, GifFrameReader), String>)
    ensures
        match r {
            Ok((width, height, reader)) => gif_opening(bytes@) == Ok::<(u32, u32), Seq<char>>((width, height))
                && reader.source() == bytes@ && reader.position() == 0,
            Err(e) => gif_opening(bytes@) == Err::<(u32, u32), Seq<char>>(e@),
        },
{
    let decoder = image::codecs::gif::GifDecoder::new(std::io::Cursor::new(bytes.to_vec()));
    match decoder {
        Ok(decoder) => {
            let (width, height) = image::ImageDecoder::dimensions(&decoder);
            let frames = image::AnimationDecoder::into_frames(decoder);
            Ok((width, height, GifFrameReader { frames, source: Ghost(bytes@), position: Ghost(0) }))
        },
        Err(error) => Err(error.to_string()),
    }
}

/// `Frames::next` with `Frame::into_buffer`: the next frame's size and RGBA
/// bytes, or its error text, as the GIF's frame at the reader's position.
#[verifier::external_body]
fn next_gif_frame(reader: &mut GifFrameReader) -> (r: Option<Result<RawImageFrame, String>>)
    ensures
        final(reader).source() == old(reader).source(),
        final(reader).position() == old(reader).position() + 1,
        match gif_frame(old(reader).source(), old(reader).position()) {
            None => r is None,
            Some(Ok((width, height, pixels))) => r matches Some(Ok(f)) && f.width == width && f.height == height
                && f.pixels@ == pixels,
            Some(Err(m)) => r matches Some(Err(e)) && e@ == m,
        },
{
    match reader.frames.next() {
        Some(Ok(frame)) => {
            let buffer = frame.into_buffer();
            Some(Ok(RawImageFrame { width: buffer.width(), height: buffer.height(), pixels: buffer.into_raw() }))
        },
        Some(Err(error)) => Some(Err(error.to_string())),
        None => None,
    }
}

/// `load_from_memory_with_format(.., ImageFormat::Png)` then `to_rgba8`.
#[verifier::external_body]
fn decode_png(bytes: &[u8]) -> (r: Result<(u32, u32, Vec<u8>), String>)
    ensures
        match r {
            Ok((width, height, pixels)) => png_decoding(bytes@) == Ok::<(u32, u32, Seq<u8>), Seq<char>>((width, height, pixels@)),
            Err(e) => png_decoding(bytes@) == Err::<(u32, u32, Seq<u8>), Seq<char>>(e@),
        },
{
    match image::load_from_memory_with_format(bytes, image::ImageFormat::Png) {
        Ok(image) => {
            let rgba = image.to_rgba8();
            let (width, height) = rgba.dimensions();
            Ok((width, height, rgba.into_raw()))
        },
        Err(error) => Err(error.to_string()),
    }
}

/// `DefaultHasher::new()` fed the byte slice through `Hash`, then `finish`.
/// The value is stable within one build for one target only: `DefaultHasher`'s
/// algorithm may change between Rust releases, and the length prefix it hashes
/// depends on the width of `usize`.
#[verifier::external_body]
fn asset_id(bytes: &[u8]) -> (r: u64)
    ensures
        r == asset_digest(bytes@),
{
    let mut hasher = std::collections::hash_map::DefaultHasher::new();
    std::hash::Hash::hash(bytes, &mut hasher);
    std::hash::Hasher::finish(&hasher)
}

/// Why an image canvas is refused, if it is.
pub open spec fn dimension_problem(width: u32, height: u32, max_dimension: u32) -> Option<Seq<char>> {
    if width == 0 || height == 0 {
        Some("cursor image dimensions must be non-zero"@)
    } else if width > max_dimension || height > max_dimension {
        Some("cursor image dimensions "@ + decimal_text(width as nat) + "x"@ + decimal_text(height as nat)
            + " exceed the "@ + decimal_text(max_dimension as nat) + "px limit"@)
    } else {
        None
    }
}

/// Refuses an empty canvas or one larger than `max_dimension` on a side.
pub fn validate_cursor_image_dimensions(width: u32, height: u32, max_dimension: u32) -> (r: Result<(), String>)
    ensures
        match dimension_problem(width, height, max_dimension) {
            None => r is Ok,
            Some(m) => r matches Err(e) && e@ == m,
        },
{
    if width == 0 || height == 0 {
        return Err(String::from_str("cursor image dimensions must be non-zero"));
    }
    if width > max_dimension || height > max_dimension {
        let mut message = String::from_str("cursor image dimensions ");
        append_decimal(&mut message, width as u64);
        message.append("x");
        append_decimal(&mut message, height as u64);
        message.append(" exceed the ");
        append_decimal(&mut message, max_dimension as u64);
        message.append("px limit");
        return Err(message);
    }
    Ok(())
}

pub open spec fn ceil_kib(n: int) -> int {
    n / 1024 + if n % 1024 != 0 { 1int } else { 0int }
}

fn ceil_kib_exec(n: usize) -> (r: usize)
    ensures
        r == ceil_kib(n as int),
{
    n / 1024 + if n % 1024 != 0 { 1 } else { 0 }
}

/// The budget message for decoded frames, in whole KiB.
pub open spec fn budget_message(prefix: Seq<char>, max_decoded_bytes: nat) -> Seq<char> {
    prefix + decimal_text(ceil_kib(max_decoded_bytes as int) as nat) + " KiB memory budget"@
}

fn budget_error(prefix: &str, max_decoded_bytes: usize) -> (r: String)
    ensures
        r@ == budget_message(prefix@, max_decoded_bytes as nat),
{
    let mut message = String::from_str(prefix);
    append_decimal(&mut message, ceil_kib_exec(max_decoded_bytes) as u64);
    message.append(" KiB memory budget");
    message
}

/// One more GIF frame for a decode that holds `count` frames and `decoded` bytes:
/// the frame's bytes and the new byte count, or why it is refused (see
/// `accept_gif_frame`).
pub open spec fn gif_frame_step(
    count: nat,
    decoded: int,
    width: u32,
    height: u32,
    max_frames: usize,
    max_decoded_bytes: usize,
    item: Result<(u32, u32, Seq<u8>), Seq<char>>,
) -> Result<(Seq<u8>, int), Seq<char>> {
    if count == max_frames {
        Err("cursor GIF exceeds the "@ + decimal_text(max_frames as nat) + "-frame limit"@)
    } else {
        match item {
            Err(m) => Err("failed to decode GIF cursor frame: "@ + m),
            Ok((frame_width, frame_height, pixels)) => if frame_width != width || frame_height != height {
                Err("cursor GIF frames must use one canvas size"@)
            } else {
                let total: int = if decoded + pixels.len() > usize::MAX {
                    usize::MAX as int
                } else {
                    decoded + pixels.len()
                };
                if total > max_decoded_bytes {
                    Err(budget_message("decoded cursor frames exceed the "@, max_decoded_bytes as nat))
                } else {
                    Ok((pixels, total))
                }
            },
        }
    }
}

/// How many frames a GIF decode asks for at most: one past the frame limit, so
/// that a file over the limit is noticed.
pub open spec fn gif_read_limit(max_frames: usize) -> int {
    if max_frames == usize::MAX {
        usize::MAX as int
    } else {
        max_frames + 1
    }
}

/// The frames kept when the reading stops: none is an error.
pub open spec fn gif_finish(kept: Seq<Seq<u8>>) -> Result<Seq<Seq<u8>>, Seq<char>> {
    if kept.len() == 0 {
        Err("cursor GIF contains no frames"@)
    } else {
        Ok(kept)
    }
}

/// The rest of a GIF decode that has asked for `taken` frames, kept `kept` and
/// counted `decoded` bytes.
pub open spec fn gif_run(
    bytes: Seq<u8>,
    width: u32,
    height: u32,
    max_frames: usize,
    max_decoded_bytes: usize,
    taken: nat,
    kept: Seq<Seq<u8>>,
    decoded: int,
) -> Result<Seq<Seq<u8>>, Seq<char>>
    decreases gif_read_limit(max_frames) - taken,
{
    if taken >= gif_read_limit(max_frames) {
        gif_finish(kept)
    } else {
        match gif_frame(bytes, taken) {
            None => gif_finish(kept),
            Some(item) => match gif_frame_step(kept.len(), decoded, width, height, max_frames, max_decoded_bytes, item) {
                Err(m) => Err(m),
                Ok((pixels, total)) => gif_run(bytes, width, height, max_frames, max_decoded_bytes, taken + 1, kept.push(pixels), total),
            },
        }
    }
}

/// The frames of a GIF of the given canvas, read in order until the frames end or
/// one is refused.
pub open spec fn gif_outcome(bytes: Seq<u8>, width: u32, height: u32, max_frames: usize, max_decoded_bytes: usize) -> Result<Seq<Seq<u8>>, Seq<char>> {
    gif_run(bytes, width, height, max_frames, max_decoded_bytes, 0, Seq::empty(), 0)
}

/// What one more GIF frame does to a decode in progress: past `max_frames`
/// frames, a decoder error, a frame of another canvas size, and a frame that
/// takes the decoded bytes over the budget are refused, in that order;
/// otherwise the frame is kept and its bytes counted.
pub fn accept_gif_frame(
    frames: &mut Vec<CursorImageFrame>,
    decoded_bytes: &mut usize,
    width: u32,
    height: u32,
    max_frames: usize,
    max_decoded_bytes: usize,
    next: Result<RawImageFrame, String>,
) -> (r: Result<(), String>)
    ensures
        old(frames)@.len() == max_frames ==> (r matches Err(e) && e@ == "cursor GIF exceeds the "@
            + decimal_text(max_frames as nat) + "-frame limit"@),
        old(frames)@.len() != max_frames ==> match next {
            Err(m) => r matches Err(e) && e@ == "failed to decode GIF cursor frame: "@ + m@,
            Ok(frame) => if frame.width != width || frame.height != height {
                r matches Err(e) && e@ == "cursor GIF frames must use one canvas size"@
            } else {
                let total: int = if *old(decoded_bytes) + frame.pixels@.len() > usize::MAX {
                    usize::MAX as int
                } else {
                    *old(decoded_bytes) + frame.pixels@.len()
                };
                if total > max_decoded_bytes {
                    r matches Err(e) && e@ == budget_message("decoded cursor frames exceed the "@, max_decoded_bytes as nat)
                } else {
                    &&& r is Ok
                    &&& *final(decoded_bytes) == total
                    &&& final(frames)@ == old(frames)@.push(CursorImageFrame { pixels: frame.pixels })
                }
            },
        },
        r is Err ==> final(frames)@ == old(frames)@,
{
    if frames.len() == max_frames {
        let mut message = String::from_str("cursor GIF exceeds the ");
        append_decimal(&mut message, max_frames as u64);
        message.append("-frame limit");
        return Err(message);
    }
    let frame = match next {
        Ok(frame) => frame,
        Err(error) => {
            let mut message = String::from_str("failed to decode GIF cursor frame: ");
            message.append(error.as_str());
            return Err(message);
        },
    };
    if frame.width != width || frame.height != height {
        return Err(String::from_str("cursor GIF frames must use one canvas size"));
    }
    let total = decoded_bytes.saturating_add(frame.pixels.len());
    if total > max_decoded_bytes {
        return Err(budget_error("decoded cursor frames exceed the ", max_decoded_bytes));
    }
    *decoded_bytes = total;
    frames.push(CursorImageFrame { pixels: frame.pixels });
    Ok(())
}

/// The result of a cursor PNG once decoded: the decoder's error, a canvas
/// the dimension rules refuse, or pixels over the budget are refused, in that
/// order; otherwise the image is the one frame.
pub fn accept_png_image(decoded: Result<(u32, u32, Vec<u8>), String>, max_dimension: u32, max_decoded_bytes: usize) -> (r: Result<
    DecodedCursorFrames,
    String,
>)
    ensures
        match decoded {
            Err(m) => (r matches Err(e) && e@ == "failed to decode PNG cursor: "@ + m@),
            Ok((width, height, pixels)) => match dimension_problem(width, height, max_dimension) {
                Some(m) => r matches Err(e) && e@ == m,
                None => if pixels@.len() > max_decoded_bytes {
                    r matches Err(e) && e@ == budget_message("decoded cursor image exceeds the "@, max_decoded_bytes as nat)
                } else {
                    r matches Ok(d) && d.width == width && d.height == height && d.frames@.len() == 1
                        && d.frames@[0].pixels@ == pixels@
                },
            },
        },
{
    let (width, height, pixels) = match decoded {
        Ok(decoded) => decoded,
        Err(error) => {
            let mut message = String::from_str("failed to decode PNG cursor: ");
            message.append(error.as_str());
            return Err(message);
        },
    };
    match validate_cursor_image_dimensions(width, height, max_dimension) {
        Ok(()) => {},
        Err(message) => return Err(message),
    }
    if pixels.len() > max_decoded_bytes {
        return Err(budget_error("decoded cursor image exceeds the ", max_decoded_bytes));
    }
    Ok(DecodedCursorFrames { width, height, frames: vec![CursorImageFrame { pixels }] })
}

/// The frames of a GIF or PNG cursor image, with each check that refuses one.
/// A GIF is read frame by frame, so that a file over the frame limit or the
/// memory budget stops early.
pub fn decode_cursor_image_frames(bytes: &[u8], max_dimension: u32, max_frames: usize, max_decoded_bytes: usize) -> (r: Result<DecodedCursorFrames, String>)
    ensures
        !png_signature(bytes@) && !gif_signature(bytes@) ==> (r matches Err(e) && e@ == (if other_image_signature(bytes@) {
            "cursor image format is unsupported; use GIF or PNG"@
        } else {
            "cursor image must be a valid GIF or PNG"@
        })),
        png_signature(bytes@) ==> match png_decoding(bytes@) {
            Err(m) => (r matches Err(e) && e@ == "failed to decode PNG cursor: "@ + m),
            Ok((width, height, pixels)) => match dimension_problem(width, height, max_dimension) {
                Some(m) => r matches Err(e) && e@ == m,
                None => if pixels.len() > max_decoded_bytes {
                    r matches Err(e) && e@ == budget_message("decoded cursor image exceeds the "@, max_decoded_bytes as nat)
                } else {
                    r matches Ok(d) && d.width == width && d.height == height && d.frames@.len() == 1
                        && d.frames@[0].pixels@ == pixels
                },
            },
        },
        gif_signature(bytes@) ==> match gif_opening(bytes@) {
            Err(m) => (r matches Err(e) && e@ == "failed to decode GIF cursor: "@ + m),
            Ok((width, height)) => match dimension_problem(width, height, max_dimension) {
                Some(m) => r matches Err(e) && e@ == m,
                None => match gif_outcome(bytes@, width, height, max_frames, max_decoded_bytes) {
                    Err(m) => r matches Err(e) && e@ == m,
                    Ok(kept) => r matches Ok(d) && d.width == width && d.height == height
                        && d.frames@.len() == kept.len()
                        && forall|i: int| 0 <= i < kept.len() ==> #[trigger] d.frames@[i].pixels@ == kept[i],
                },
            },
        },
        gif_signature(bytes@) ==> (r matches Ok(d) ==> 1 <= d.frames@.len() <= max_frames),
{
    match guess_image_kind(bytes) {
        CursorImageKind::Unrecognized => Err(String::from_str("cursor image must be a valid GIF or PNG")),
        CursorImageKind::Other => Err(String::from_str("cursor image format is unsupported; use GIF or PNG")),
        CursorImageKind::Png => accept_png_image(decode_png(bytes), max_dimension, max_decoded_bytes),
        CursorImageKind::Gif => {
            let (width, height, mut iterator) = match open_gif(bytes) {
                Ok(opened) => opened,
                Err(error) => {
                    let mut message = String::from_str("failed to decode GIF cursor: ");
                    message.append(error.as_str());
                    return Err(message);
                },
            };
            match validate_cursor_image_dimensions(width, height, max_dimension) {
                Ok(()) => {},
                Err(message) => return Err(message),
            }
            let limit = max_frames.saturating_add(1);
            let mut frames: Vec<CursorImageFrame> = Vec::new();
            let mut decoded_bytes: usize = 0;
            let mut taken: usize = 0;
            let ghost mut kept: Seq<Seq<u8>> = Seq::empty();
            while taken < limit
                invariant_except_break
                    iterator.position() == taken,
                invariant
                    gif_signature(bytes@),
                    !png_signature(bytes@),
                    gif_opening(bytes@) == Ok::<(u32, u32), Seq<char>>((width, height)),
                    dimension_problem(width, height, max_dimension) is None,
                    iterator.source() == bytes@,
                    limit == gif_read_limit(max_frames),
                    taken <= limit,
                    frames@.len() == taken,
                    taken <= max_frames,
                    kept.len() == taken,
                    forall|i: int| 0 <= i < taken ==> #[trigger] frames@[i].pixels@ == kept[i],
                    gif_outcome(bytes@, width, height, max_frames, max_decoded_bytes)
                        == gif_run(bytes@, width, height, max_frames, max_decoded_bytes, taken as nat, kept, decoded_bytes as int),
                ensures
                    gif_outcome(bytes@, width, height, max_frames, max_decoded_bytes) == gif_finish(kept),
                decreases limit - taken,
            {
                let next = match next_gif_frame(&mut iterator) {
                    Some(next) => next,
                    None => break,
                };
                let ghost item = gif_frame(bytes@, taken as nat).unwrap();
                let ghost step = gif_frame_step(kept.len(), decoded_bytes as int, width, height, max_frames, max_decoded_bytes, item);
                let ghost before = frames@;
                taken = taken + 1;
                match accept_gif_frame(&mut frames, &mut decoded_bytes, width, height, max_frames, max_decoded_bytes, next) {
                    Ok(()) => {
                        proof {
                            kept = kept.push(step->Ok_0.0);
                            assert forall|i: int| 0 <= i < taken implies #[trigger] frames@[i].pixels@ == kept[i] by {
                                if i < taken - 1 {
                                    assert(frames@[i] == before[i]);
                                }
                            }
                        }
                    },
                    Err(message) => return Err(message),
                }
            }
            if frames.len() == 0 {
                return Err(String::from_str("cursor GIF contains no frames"));
            }
            proof {
                assert(gif_finish(kept) == Ok::<Seq<Seq<u8>>, Seq<char>>(kept));
            }
            Ok(DecodedCursorFrames { width, height, frames })
        },
    }
}

/// A request to decode an animated image cursor.
#[derive(Debug, Clone, PartialEq, Eq)]
pub struct AnimatedCursorImageRequest {
    pub path: String,
    pub fps: u16,
    pub max_size_kb: u32,
    pub warn_if_expensive: bool,
}

/// A decoded animated image cursor.
#[derive(Debug, Clone, PartialEq, Eq)]
pub struct DecodedCursorImage {
    pub path: String,
    pub width: u32,
    pub height: u32,
    pub frame_count: u16,
    pub fps: u16,
    pub size_kb: u32,
    pub warnings: Vec<String>,
    pub asset: Arc<CursorImageAsset>,
}

#[derive(Debug, Clone, PartialEq, Eq)]
pub enum AnimatedCursorImageStatus {
    Disabled,
    Loading { path: String },
    Ready(DecodedCursorImage),
    Failed { path: String, message: String },
}

/// A request to decode a vector cursor.
#[derive(Debug, Clone, PartialEq, Eq)]
pub struct CursorVectorRequest {
    pub path: String,
    pub max_size_kb: u32,
}

/// A decoded vector cursor.
#[derive(Debug, Clone, PartialEq, Eq)]
pub struct DecodedCursorVector {
    pub path: String,
    pub size_kb: u32,
    pub asset: Arc<CursorVectorAsset>,
}

#[derive(Debug, Clone, PartialEq, Eq)]
pub enum CursorVectorStatus {
    Disabled,
    Loading { path: String },
    Ready(DecodedCursorVector),
    Failed { path: String, message: String },
}

/// The size of a file in whole KiB, rounded up and capped at `u32::MAX`.
pub open spec fn size_kib(len: nat) -> u32 {
    if ceil_kib(len as int) > u32::MAX {
        u32::MAX
    } else {
        ceil_kib(len as int) as u32
    }
}

fn size_kib_exec(len: usize) -> (r: u32)
    ensures
        r == size_kib(len as nat),
{
    let kib = ceil_kib_exec(len);
    if kib as u64 > u32::MAX as u64 {
        u32::MAX
    } else {
        kib as u32
    }
}

pub open spec fn over_limit_message(kind: Seq<char>, size_kb: u32, max_size_kb: u32) -> Seq<char> {
    "cursor "@ + kind + " is "@ + decimal_text(size_kb as nat) + " KiB, above the configured "@
        + decimal_text(max_size_kb as nat) + " KiB limit"@
}

fn over_limit_error(kind: &str, size_kb: u32, max_size_kb: u32) -> (r: String)
    ensures
        r@ == over_limit_message(kind@, size_kb, max_size_kb),
{
    let mut message = String::from_str("cursor ");
    message.append(kind);
    message.append(" is ");
    append_decimal(&mut message, size_kb as u64);
    message.append(" KiB, above the configured ");
    append_decimal(&mut message, max_size_kb as u64);
    message.append(" KiB limit");
    message
}

/// The decoded-bytes budget of an image: sixteen times its file limit, kept
/// between 4 MiB and 64 MiB.
pub open spec fn decoded_budget(max_size_kb: u32) -> int {
    let v = max_size_kb * 16384;
    if v < 4194304 {
        4194304
    } else if v > 67108864 {
        67108864
    } else {
        v
    }
}

fn decoded_budget_exec(max_size_kb: u32) -> (r: usize)
    ensures
        r == decoded_budget(max_size_kb),
{
    let v = max_size_kb as u64 * 16384;
    let clamped = if v < 4194304 {
        4194304
    } else if v > 67108864 {
        67108864
    } else {
        v
    };
    clamped as usize
}

/// The warnings of an expensive image: a size above three quarters of the
/// limit, and a rate above 30 FPS.
pub open spec fn image_warnings(warn: bool, size_kb: u32, max_size_kb: u32, fps: u16) -> Seq<Seq<char>> {
    let threshold = (if max_size_kb * 3 > u32::MAX { u32::MAX as int } else { max_size_kb * 3 }) / 4;
    let size_warning = if warn && size_kb > threshold {
        seq![
            "cursor image "@ + decimal_text(size_kb as nat) + " KiB is close to the configured "@
                + decimal_text(max_size_kb as nat) + " KiB limit"@,
        ]
    } else {
        Seq::empty()
    };
    if warn && fps > 30 {
        size_warning.push("cursor image FPS "@ + decimal_text(fps as nat) + " exceeds the low-cost 30 FPS range"@)
    } else {
        size_warning
    }
}

fn expense_warnings(warn: bool, size_kb: u32, max_size_kb: u32, fps: u16) -> (r: Vec<String>)
    ensures
        string_views(r@) == image_warnings(warn, size_kb, max_size_kb, fps),
{
    let mut warnings: Vec<String> = Vec::new();
    let tripled = max_size_kb.checked_mul(3);
    let threshold = match tripled {
        Some(t) => t / 4,
        None => u32::MAX / 4,
    };
    if warn && size_kb > threshold {
        let mut message = String::from_str("cursor image ");
        append_decimal(&mut message, size_kb as u64);
        message.append(" KiB is close to the configured ");
        append_decimal(&mut message, max_size_kb as u64);
        message.append(" KiB limit");
        warnings.push(message);
    }
    if warn && fps > 30 {
        let mut message = String::from_str("cursor image FPS ");
        append_decimal(&mut message, fps as u64);
        message.append(" exceeds the low-cost 30 FPS range");
        warnings.push(message);
    }
    assert(string_views(warnings@) =~= image_warnings(warn, size_kb, max_size_kb, fps));
    warnings
}

/// Turns the bytes read for an image cursor into its status: a read error,
/// a file over the size limit, and a decode error fail; a decoded image is
/// ready with its warnings and an asset named by the digest of its bytes.
pub fn decode_cursor_image_request(request: AnimatedCursorImageRequest, read: Result<Vec<u8>, String>) -> (r: AnimatedCursorImageStatus)
    ensures
        match read {
            Err(e) => r matches AnimatedCursorImageStatus::Failed { path, message } && path@ == request.path@
                && message@ == "failed to read cursor image: "@ + e@,
            Ok(bytes) => {
                let kb = size_kib(bytes@.len());
                if kb > request.max_size_kb {
                    r matches AnimatedCursorImageStatus::Failed { path, message } && path@ == request.path@
                        && message@ == over_limit_message("image"@, kb, request.max_size_kb)
                } else if !png_signature(bytes@) && !gif_signature(bytes@) {
                    r matches AnimatedCursorImageStatus::Failed { path, message } && path@ == request.path@
                        && message@ == (if other_image_signature(bytes@) {
                        "cursor image format is unsupported; use GIF or PNG"@
                    } else {
                        "cursor image must be a valid GIF or PNG"@
                    })
                } else {
                    match r {
                        AnimatedCursorImageStatus::Failed { path, .. } => path@ == request.path@,
                        AnimatedCursorImageStatus::Ready(d) => {
                            &&& d.path@ == request.path@
                            &&& d.fps == request.fps
                            &&& d.size_kb == kb
                            &&& string_views(d.warnings@) == image_warnings(request.warn_if_expensive, kb, request.max_size_kb, request.fps)
                            &&& d.asset.id == asset_digest(bytes@)
                            &&& d.width == d.asset.width
                            &&& d.height == d.asset.height
                            &&& 1 <= d.asset.frames@.len() <= 256
                            &&& d.frame_count == d.asset.frames@.len()
                            &&& dimension_problem(d.width, d.height, 512) is None
                        },
                        _ => false,
                    }
                }
            },
        },
{
    let path = request.path;
    let bytes = match read {
        Ok(bytes) => bytes,
        Err(error) => {
            let mut message = String::from_str("failed to read cursor image: ");
            message.append(error.as_str());
            return AnimatedCursorImageStatus::Failed { path, message };
        },
    };
    let size_kb = size_kib_exec(bytes.len());
    if size_kb > request.max_size_kb {
        return AnimatedCursorImageStatus::Failed {
            path,
            message: over_limit_error("image", size_kb, request.max_size_kb),
        };
    }
    let decoded = match decode_cursor_image_frames(bytes.as_slice(), 512, 256, decoded_budget_exec(request.max_size_kb)) {
        Ok(decoded) => decoded,
        Err(message) => return AnimatedCursorImageStatus::Failed { path, message },
    };
    let warnings = expense_warnings(request.warn_if_expensive, size_kb, request.max_size_kb, request.fps);
    let frame_count = decoded.frames.len() as u16;
    let id = asset_id(bytes.as_slice());
    AnimatedCursorImageStatus::Ready(
        DecodedCursorImage {
            path,
            width: decoded.width,
            height: decoded.height,
            frame_count,
            fps: request.fps,
            size_kb,
            warnings,
            asset: Arc::new(CursorImageAsset { id, width: decoded.width, height: decoded.height, frames: decoded.frames }),
        },
    )
}

/// Turns the bytes read for a vector cursor, and their JSON parse, into its
/// status: a read error, a file over the size limit, a parse error, and a
/// refused document fail, in that order.
pub fn decode_cursor_vector_request(
    request: CursorVectorRequest,
    read: Result<Vec<u8>, String>,
    parsed: Result<CursorVectorDocument, String>,
) -> (r: CursorVectorStatus)
    ensures
        match read {
            Err(e) => r matches CursorVectorStatus::Failed { path, message } && path@ == request.path@
                && message@ == "failed to read cursor vector: "@ + e@,
            Ok(bytes) => {
                let kb = size_kib(bytes@.len());
                if kb > request.max_size_kb {
                    r matches CursorVectorStatus::Failed { path, message } && path@ == request.path@
                        && message@ == over_limit_message("vector"@, kb, request.max_size_kb)
                } else {
                    match parsed {
                        Err(e) => r matches CursorVectorStatus::Failed { path, message } && path@ == request.path@
                            && message@ == "cursor vector must be valid Panea JSON: "@ + e@,
                        Ok(document) => match vector_decoding(document.version, document.primitives@) {
                            Err(m) => r matches CursorVectorStatus::Failed { path, message } && path@
                                == request.path@ && message@ == m,
                            Ok(primitives) => r matches CursorVectorStatus::Ready(d) && d.path@ == request.path@
                                && d.size_kb == kb && d.asset.id == asset_digest(bytes@) && d.asset.primitives@
                                == primitives,
                        },
                    }
                }
            },
        },
{
    let path = request.path;
    let bytes = match read {
        Ok(bytes) => bytes,
        Err(error) => {
            let mut message = String::from_str("failed to read cursor vector: ");
            message.append(error.as_str());
            return CursorVectorStatus::Failed { path, message };
        },
    };
    let size_kb = size_kib_exec(bytes.len());
    if size_kb > request.max_size_kb {
        return CursorVectorStatus::Failed { path, message: over_limit_error("vector", size_kb, request.max_size_kb) };
    }
    let document = match parsed {
        Ok(document) => document,
        Err(error) => {
            let mut message = String::from_str("cursor vector must be valid Panea JSON: ");
            message.append(error.as_str());
            return CursorVectorStatus::Failed { path, message };
        },
    };
    match decode_cursor_vector(&document) {
        Ok(primitives) => CursorVectorStatus::Ready(
            DecodedCursorVector {
                path,
                size_kb,
                asset: Arc::new(CursorVectorAsset { id: asset_id(bytes.as_slice()), primitives }),
            },
        ),
        Err(message) => CursorVectorStatus::Failed { path, message },
    }
}

fn copy_strings(v: &Vec<String>) -> (r: Vec<String>)
    ensures
        r@ == v@,
{
    let mut out: Vec<String> = Vec::new();
    let mut i: usize = 0;
    while i < v.len()
        invariant
            i <= v@.len(),
            out@ == v@.take(i as int),
        decreases v@.len() - i,
    {
        out.push(v[i].clone());
        proof {
            assert(v@.take(i + 1) =~= v@.take(i as int).push(v@[i as int]));
        }
        i = i + 1;
    }
    assert(v@.take(i as int) =~= v@);
    out
}

/// Whether two decoded images hold the same values.
pub open spec fn same_decoded_image(a: DecodedCursorImage, b: DecodedCursorImage) -> bool {
    &&& a.path == b.path
    &&& a.width == b.width
    &&& a.height == b.height
    &&& a.frame_count == b.frame_count
    &&& a.fps == b.fps
    &&& a.size_kb == b.size_kb
    &&& a.warnings@ == b.warnings@
    &&& a.asset == b.asset
}

/// Whether two image statuses hold the same values.
pub open spec fn same_image_status(a: AnimatedCursorImageStatus, b: AnimatedCursorImageStatus) -> bool {
    match (a, b) {
        (AnimatedCursorImageStatus::Ready(x), AnimatedCursorImageStatus::Ready(y)) => same_decoded_image(x, y),
        _ => a == b,
    }
}

fn copy_decoded_image(d: &DecodedCursorImage) -> (r: DecodedCursorImage)
    ensures
        same_decoded_image(r, *d),
{
    DecodedCursorImage {
        path: d.path.clone(),
        width: d.width,
        height: d.height,
        frame_count: d.frame_count,
        fps: d.fps,
        size_kb: d.size_kb,
        warnings: copy_strings(&d.warnings),
        asset: share(&d.asset),
    }
}

fn copy_image_status(s: &AnimatedCursorImageStatus) -> (r: AnimatedCursorImageStatus)
    ensures
        same_image_status(r, *s),
{
    match s {
        AnimatedCursorImageStatus::Disabled => AnimatedCursorImageStatus::Disabled,
        AnimatedCursorImageStatus::Loading { path } => AnimatedCursorImageStatus::Loading { path: path.clone() },
        AnimatedCursorImageStatus::Ready(d) => AnimatedCursorImageStatus::Ready(copy_decoded_image(d)),
        AnimatedCursorImageStatus::Failed { path, message } => AnimatedCursorImageStatus::Failed {
            path: path.clone(),
            message: message.clone(),
        },
    }
}

fn copy_vector_status(s: &CursorVectorStatus) -> (r: CursorVectorStatus)
    ensures
        r == *s,
{
    match s {
        CursorVectorStatus::Disabled => CursorVectorStatus::Disabled,
        CursorVectorStatus::Loading { path } => CursorVectorStatus::Loading { path: path.clone() },
        CursorVectorStatus::Ready(d) => CursorVectorStatus::Ready(
            DecodedCursorVector { path: d.path.clone(), size_kb: d.size_kb, asset: share(&d.asset) },
        ),
        CursorVectorStatus::Failed { path, message } => CursorVectorStatus::Failed {
            path: path.clone(),
            message: message.clone(),
        },
    }
}

/// Tracks the animated image cursor while a decode runs elsewhere: the
/// application starts the decode that `request` asks for and hands its result
/// to `poll`.
#[derive(Debug)]
pub struct AnimatedCursorImageCache {
    current: Option<AnimatedCursorImageStatus>,
    pending: bool,
}

impl AnimatedCursorImageCache {
    pub closed spec fn current_spec(&self) -> Option<AnimatedCursorImageStatus> {
        self.current
    }

    /// Whether a decode is running.
    pub closed spec fn pending_spec(&self) -> bool {
        self.pending
    }

    pub fn new() -> (r: AnimatedCursorImageCache)
        ensures
            r.current_spec() is None,
            !r.pending_spec(),
    {
        AnimatedCursorImageCache { current: None, pending: false }
    }

    /// Turns the image cursor off and forgets a running decode.
    pub fn disable(&mut self)
        ensures
            final(self).current_spec() == Some(AnimatedCursorImageStatus::Disabled),
            !final(self).pending_spec(),
    {
        self.current = Some(AnimatedCursorImageStatus::Disabled);
        self.pending = false;
    }

    /// Asks for an image: an empty path fails at once; the image already ready
    /// at the same rate is kept; otherwise the cursor is loading and the result
    /// is `true`, asking the caller to start the decode.
    pub fn request(&mut self, request: &AnimatedCursorImageRequest) -> (start: bool)
        ensures
            request.path@.len() == 0 ==> !start && !final(self).pending_spec() && (final(self).current_spec()
                matches Some(AnimatedCursorImageStatus::Failed { path, message }) && path@ == request.path@
                && message@ == "cursor image path is empty"@),
            request.path@.len() != 0 && (old(self).current_spec() matches Some(
                AnimatedCursorImageStatus::Ready(image),
            ) && image.path@ == request.path@ && image.fps == request.fps) ==> !start && *final(self) == *old(self),
            request.path@.len() != 0 && !(old(self).current_spec() matches Some(
                AnimatedCursorImageStatus::Ready(image),
            ) && image.path@ == request.path@ && image.fps == request.fps) ==> start && final(self).pending_spec()
                && (final(self).current_spec() matches Some(AnimatedCursorImageStatus::Loading { path })
                && path@ == request.path@),
    {
        if request.path.as_str().unicode_len() == 0 {
            self.current = Some(
                AnimatedCursorImageStatus::Failed {
                    path: request.path.clone(),
                    message: String::from_str("cursor image path is empty"),
                },
            );
            self.pending = false;
            return false;
        }
        let same = match &self.current {
            Some(AnimatedCursorImageStatus::Ready(image)) => str_eq(image.path.as_str(), request.path.as_str())
                && image.fps == request.fps,
            _ => false,
        };
        if same {
            return false;
        }
        self.current = Some(AnimatedCursorImageStatus::Loading { path: request.path.clone() });
        self.pending = true;
        true
    }

    /// The decode could not be started.
    pub fn record_start_failure(&mut self, path: &str, error: &str)
        ensures
            !final(self).pending_spec(),
            final(self).current_spec() matches Some(AnimatedCursorImageStatus::Failed { path: p, message })
                && p@ == path@ && message@ == "failed to start cursor image decoder: "@ + error@,
    {
        let mut message = String::from_str("failed to start cursor image decoder: ");
        message.append(error);
        self.current = Some(AnimatedCursorImageStatus::Failed { path: path.to_owned(), message });
        self.pending = false;
    }

    /// Takes the result of a running decode, if one arrived, and reports the
    /// current status (`Disabled` before any request).
    pub fn poll(&mut self, delivered: Option<AnimatedCursorImageStatus>) -> (r: AnimatedCursorImageStatus)
        ensures
            old(self).pending_spec() && delivered is Some ==> final(self).current_spec() == delivered
                && !final(self).pending_spec(),
            !(old(self).pending_spec() && delivered is Some) ==> *final(self) == *old(self),
            same_image_status(
                r,
                match final(self).current_spec() {
                    Some(status) => status,
                    None => AnimatedCursorImageStatus::Disabled,
                },
            ),
    {
        if self.pending {
            if let Some(status) = delivered {
                self.current = Some(status);
                self.pending = false;
            }
        }
        match &self.current {
            Some(status) => copy_image_status(status),
            None => AnimatedCursorImageStatus::Disabled,
        }
    }
}

/// Tracks the vector cursor while a decode runs elsewhere, as the image cache does.
#[derive(Debug)]
pub struct CursorVectorCache {
    current: Option<CursorVectorStatus>,
    pending: bool,
}

impl CursorVectorCache {
    pub closed spec fn current_spec(&self) -> Option<CursorVectorStatus> {
        self.current
    }

    /// Whether a decode is running.
    pub closed spec fn pending_spec(&self) -> bool {
        self.pending
    }

    pub fn new() -> (r: CursorVectorCache)
        ensures
            r.current_spec() is None,
            !r.pending_spec(),
    {
        CursorVectorCache { current: None, pending: false }
    }

    pub fn disable(&mut self)
        ensures
            final(self).current_spec() == Some(CursorVectorStatus::Disabled),
            !final(self).pending_spec(),
    {
        self.current = Some(CursorVectorStatus::Disabled);
        self.pending = false;
    }

    /// Asks for a vector cursor: an empty path fails at once; the vector already
    /// ready from the same path is kept; otherwise the cursor is loading and the
    /// result is `true`, asking the caller to start the decode.
    pub fn request(&mut self, request: &CursorVectorRequest) -> (start: bool)
        ensures
            request.path@.len() == 0 ==> !start && !final(self).pending_spec() && (final(self).current_spec()
                matches Some(CursorVectorStatus::Failed { path, message }) && path@ == request.path@
                && message@ == "cursor vector path is empty"@),
            request.path@.len() != 0 && (old(self).current_spec() matches Some(CursorVectorStatus::Ready(vector))
                && vector.path@ == request.path@) ==> !start && *final(self) == *old(self),
            request.path@.len() != 0 && !(old(self).current_spec() matches Some(CursorVectorStatus::Ready(vector))
                && vector.path@ == request.path@) ==> start && final(self).pending_spec()
                && (final(self).current_spec() matches Some(CursorVectorStatus::Loading { path })
                && path@ == request.path@),
    {
        if request.path.as_str().unicode_len() == 0 {
            self.current = Some(
                CursorVectorStatus::Failed {
                    path: request.path.clone(),
                    message: String::from_str("cursor vector path is empty"),
                },
            );
            self.pending = false;
            return false;
        }
        let same = match &self.current {
            Some(CursorVectorStatus::Ready(vector)) => str_eq(vector.path.as_str(), request.path.as_str()),
            _ => false,
        };
        if same {
            return false;
        }
        self.current = Some(CursorVectorStatus::Loading { path: request.path.clone() });
        self.pending = true;
        true
    }

    /// The decode could not be started.
    pub fn record_start_failure(&mut self, path: &str, error: &str)
        ensures
            !final(self).pending_spec(),
            final(self).current_spec() matches Some(CursorVectorStatus::Failed { path: p, message })
                && p@ == path@ && message@ == "failed to start cursor vector decoder: "@ + error@,
    {
        let mut message = String::from_str("failed to start cursor vector decoder: ");
        message.append(error);
        self.current = Some(CursorVectorStatus::Failed { path: path.to_owned(), message });
        self.pending = false;
    }

    /// Takes the result of a running decode, if one arrived, and reports the
    /// current status (`Disabled` before any request).
    pub fn poll(&mut self, delivered: Option<CursorVectorStatus>) -> (r: CursorVectorStatus)
        ensures
            old(self).pending_spec() && delivered is Some ==> final(self).current_spec() == delivered
                && !final(self).pending_spec(),
            !(old(self).pending_spec() && delivered is Some) ==> *final(self) == *old(self),
            r == match final(self).current_spec() {
                Some(status) => status,
                None => CursorVectorStatus::Disabled,
            },
    {
        if self.pending {
            if let Some(status) = delivered {
                self.current = Some(status);
                self.pending = false;
            }
        }
        match &self.current {
            Some(status) => copy_vector_status(status),
            None => CursorVectorStatus::Disabled,
        }
    }
}

/// Plays the ready image cursor. Instants are nanoseconds from an origin the
/// caller chooses.
#[derive(Debug)]
pub struct AnimatedCursorImageRuntime {
    image: Option<DecodedCursorImage>,
    started_at: u64,
    visible_last_frame: bool,
}

/// The frame shown `elapsed` nanoseconds into an animation of `frame_count`
/// frames at `fps` (zero counts as one frame a second).
pub open spec fn frame_at(elapsed: u64, frame_count: nat, fps: u16) -> int {
    let count = if frame_count == 0 { 1 } else { frame_count };
    if count == 1 {
        0
    } else {
        let frame_micros: int = 1_000_000int / (if fps == 0 { 1int } else { fps as int });
        let index: int = (elapsed as int / 1000) / frame_micros;
        let index: int = if index > usize::MAX { usize::MAX as int } else { index };
        index % (count as int)
    }
}

impl AnimatedCursorImageRuntime {
    pub closed spec fn image_spec(&self) -> Option<DecodedCursorImage> {
        self.image
    }

    pub closed spec fn started_at_spec(&self) -> u64 {
        self.started_at
    }

    pub closed spec fn visible_last_frame_spec(&self) -> bool {
        self.visible_last_frame
    }

    pub fn new(now: u64) -> (r: AnimatedCursorImageRuntime)
        ensures
            r.image_spec() is None,
            r.started_at_spec() == now,
            !r.visible_last_frame_spec(),
    {
        AnimatedCursorImageRuntime { image: None, started_at: now, visible_last_frame: false }
    }

    /// Plays `image` from `now`, unless the same asset plays at the same rate;
    /// reports whether it changed.
    pub fn set_image(&mut self, image: &DecodedCursorImage, now: u64) -> (changed: bool)
        ensures
            (old(self).image_spec() matches Some(current) && current.asset.id == image.asset.id && current.fps
                == image.fps) ==> !changed && *final(self) == *old(self),
            !(old(self).image_spec() matches Some(current) && current.asset.id == image.asset.id && current.fps
                == image.fps) ==> changed && (final(self).image_spec() matches Some(d) && same_decoded_image(d, *image))
                && final(self).started_at_spec() == now
                && final(self).visible_last_frame_spec() == old(self).visible_last_frame_spec(),
    {
        let same = match &self.image {
            Some(current) => current.asset.id == image.asset.id && current.fps == image.fps,
            None => false,
        };
        if same {
            return false;
        }
        self.image = Some(copy_decoded_image(image));
        self.started_at = now;
        true
    }

    /// Stops playing; reports whether an image was playing.
    pub fn clear(&mut self) -> (changed: bool)
        ensures
            changed == old(self).image_spec() is Some,
            final(self).image_spec() is None,
            !final(self).visible_last_frame_spec(),
            final(self).started_at_spec() == old(self).started_at_spec(),
    {
        let changed = self.image.is_some();
        self.image = None;
        self.visible_last_frame = false;
        changed
    }

    /// Records whether the last frame drew the image cursor.
    pub fn record_visibility(&mut self, visible: bool)
        ensures
            final(self).visible_last_frame_spec() == visible,
            final(self).image_spec() == old(self).image_spec(),
            final(self).started_at_spec() == old(self).started_at_spec(),
    {
        self.visible_last_frame = visible;
    }

    /// The frame of the playing image at `now`, capped at `u16::MAX`.
    pub fn frame_index(&self, now: u64) -> (r: Option<u16>)
        ensures
            match self.image_spec() {
                None => r is None,
                Some(image) => {
                    let elapsed = if now >= self.started_at_spec() { (now - self.started_at_spec()) as u64 } else { 0 };
                    let index = frame_at(elapsed, image.asset.frames@.len(), image.fps);
                    r == Some(if index > u16::MAX { u16::MAX } else { index as u16 })
                },
            },
    {
        match &self.image {
            None => None,
            Some(image) => {
                let elapsed = if now >= self.started_at { now - self.started_at } else { 0 };
                let frames = image.asset.frames.len();
                let count = if frames == 0 { 1 } else { frames };
                let index: usize = if count == 1 {
                    0
                } else {
                    let fps: u64 = if image.fps == 0 { 1 } else { image.fps as u64 };
                    let frame_micros = 1_000_000 / fps;
                    assert(frame_micros >= 1) by (nonlinear_arith)
                        requires
                            1 <= fps <= 65535,
                            frame_micros == 1_000_000u64 / fps,
                    ;
                    let raw = (elapsed / 1000) / frame_micros;
                    let capped: usize = if raw > usize::MAX as u64 { usize::MAX } else { raw as usize };
                    capped % count
                };
                Some(if index > u16::MAX as usize { u16::MAX } else { index as u16 })
            },
        }
    }

    /// When the next frame is due, in nanoseconds: one frame period while a
    /// multi-frame image was drawn last frame.
    pub fn next_frame_after(&self) -> (r: Option<u64>)
        ensures
            match self.image_spec() {
                Some(image) => if self.visible_last_frame_spec() && image.asset.frames@.len() > 1 {
                    r == Some(((1_000_000int / (if image.fps == 0 { 1int } else { image.fps as int })) * 1000) as u64)
                } else {
                    r is None
                },
                None => r is None,
            },
    {
        match &self.image {
            Some(image) => if self.visible_last_frame && image.asset.frames.len() > 1 {
                let fps: u64 = if image.fps == 0 { 1 } else { image.fps as u64 };
                Some((1_000_000 / fps) * 1000)
            } else {
                None
            },
            None => None,
        }
    }
}

/// Holds the ready vector cursor.
#[derive(Debug)]
pub struct CursorVectorRuntime {
    vector: Option<DecodedCursorVector>,
}

impl CursorVectorRuntime {
    pub closed spec fn vector_spec(&self) -> Option<DecodedCursorVector> {
        self.vector
    }

    pub fn new() -> (r: CursorVectorRuntime)
        ensures
            r.vector_spec() is None,
    {
        CursorVectorRuntime { vector: None }
    }

    /// Holds `vector`, unless the same asset is held; reports whether it changed.
    pub fn set_vector(&mut self, vector: &DecodedCursorVector) -> (changed: bool)
        ensures
            (old(self).vector_spec() matches Some(current) && current.asset.id == vector.asset.id) ==> !changed
                && *final(self) == *old(self),
            !(old(self).vector_spec() matches Some(current) && current.asset.id == vector.asset.id) ==> changed
                && final(self).vector_spec() == Some(*vector),
    {
        let same = match &self.vector {
            Some(current) => current.asset.id == vector.asset.id,
            None => false,
        };
        if same {
            return false;
        }
        self.vector = Some(DecodedCursorVector { path: vector.path.clone(), size_kb: vector.size_kb, asset: share(&vector.asset) });
        true
    }

    /// Drops the held vector; reports whether one was held.
    pub fn clear(&mut self) -> (changed: bool)
        ensures
            changed == old(self).vector_spec() is Some,
            final(self).vector_spec() is None,
    {
        let changed = self.vector.is_some();
        self.vector = None;
        changed
    }
}

proof fn lemma_no_misfit_from(s: Seq<CursorVectorDocumentPrimitive>, i: int)
    requires
        0 <= i <= s.len(),
        first_misfit_from(s, i) == s.len(),
    ensures
        forall|j: int| i <= j < s.len() ==> primitive_fits(#[trigger] s[j]),
    decreases s.len() - i,
{
    if i < s.len() {
        lemma_no_misfit_from(s, i + 1);
    }
}

proof fn lemma_first_misfit_bounded(s: Seq<CursorVectorDocumentPrimitive>, i: int)
    requires
        0 <= i <= s.len(),
    ensures
        first_misfit_from(s, i) <= s.len(),
    decreases s.len() - i,
{
    if i < s.len() {
        lemma_first_misfit_bounded(s, i + 1);
    }
}

/// An accepted vector cursor has between one and 64 primitives, each with an
/// area inside the 1000 by 1000 canvas.
pub proof fn lemma_accepted_vector_fits_canvas(version: u16, s: Seq<CursorVectorDocumentPrimitive>)
    requires
        vector_decoding(version, s) is Ok,
    ensures
        1 <= s.len() <= CURSOR_VECTOR_MAX_PRIMITIVES,
        forall|j: int| 0 <= j < s.len() ==> primitive_fits(#[trigger] s[j]),
{
    lemma_first_misfit_bounded(s, 0);
    lemma_no_misfit_from(s, 0);
}

/// How many graphic control extension markers (`0x21 0xF9`) begin among the
/// first `n` bytes, each followed by its second byte.
pub open spec fn control_markers(bytes: Seq<u8>, n: int) -> nat
    decreases n,
{
    if n <= 0 {
        0
    } else {
        control_markers(bytes, n - 1) + (if n < bytes.len() && bytes[n - 1] == 0x21 && bytes[n] == 0xF9 {
            1nat
        } else {
            0nat
        })
    }
}

/// The size and frame count that a cursor image's header announces: for a
/// GIF, the little-endian canvas size and the number of graphic control
/// extension markers (at least one, held at `u16::MAX`); for a PNG, the
/// big-endian IHDR size and one frame.
pub open spec fn image_header(bytes: Seq<u8>) -> Option<(u32, u32, u16)> {
    if bytes.len() >= 10 && gif_signature(bytes) {
        let count = control_markers(bytes, bytes.len() - 1);
        let frames = if count < 1 { 1 } else if count > u16::MAX { u16::MAX as int } else { count as int };
        Some(
            (
                (bytes[6] as u32 + 256 * (bytes[7] as u32)) as u32,
                (bytes[8] as u32 + 256 * (bytes[9] as u32)) as u32,
                frames as u16,
            ),
        )
    } else if bytes.len() >= 24 && png_signature(bytes) {
        Some(
            (
                (bytes[16] * 0x1000000 + bytes[17] * 0x10000 + bytes[18] * 0x100 + bytes[19]) as u32,
                (bytes[20] * 0x1000000 + bytes[21] * 0x10000 + bytes[22] * 0x100 + bytes[23]) as u32,
                1u16,
            ),
        )
    } else {
        None
    }
}

/// Reads the size and frame count that a cursor image's header announces,
/// without decoding it; `None` for anything but a GIF or PNG header.
pub fn decode_cursor_image_header(bytes: &[u8]) -> (r: Option<(u32, u32, u16)>)
    ensures
        r == image_header(bytes@),
{
    let n = bytes.len();
    if n >= 10 && bytes[0] == 0x47 && bytes[1] == 0x49 && bytes[2] == 0x46 && bytes[3] == 0x38 && (bytes[4] == 0x37
        || bytes[4] == 0x39) && bytes[5] == 0x61 {
        proof {
            assert(gif_signature(bytes@)) by {
                if bytes@[4] == 0x39 {
                    assert(bytes@.subrange(0, 6) =~= seq![0x47u8, 0x49, 0x46, 0x38, 0x39, 0x61]);
                } else {
                    assert(bytes@.subrange(0, 6) =~= seq![0x47u8, 0x49, 0x46, 0x38, 0x37, 0x61]);
                }
            }
        }
        let mut count: usize = 0;
        let mut i: usize = 0;
        while i + 1 < n
            invariant
                n == bytes@.len(),
                n >= 10,
                0 <= i < n,
                count == control_markers(bytes@, i as int),
                count <= i,
            decreases n - i,
        {
            if bytes[i] == 0x21 && bytes[i + 1] == 0xF9 {
                count = count + 1;
            }
            i = i + 1;
        }
        let frames: u16 = if count < 1 { 1 } else if count > u16::MAX as usize { u16::MAX } else { count as u16 };
        let width: u32 = bytes[6] as u32 + 256 * (bytes[7] as u32);
        let height: u32 = bytes[8] as u32 + 256 * (bytes[9] as u32);
        return Some((width, height, frames));
    }
    proof {
        if n >= 10 && gif_signature(bytes@) {
            let p = bytes@.subrange(0, 6);
            if starts_with(bytes@, seq![0x47u8, 0x49, 0x46, 0x38, 0x39, 0x61]) {
                assert(p[4] == 0x39 && p[0] == 0x47 && p[1] == 0x49 && p[2] == 0x46 && p[3] == 0x38 && p[5] == 0x61);
            } else {
                assert(p[4] == 0x37 && p[0] == 0x47 && p[1] == 0x49 && p[2] == 0x46 && p[3] == 0x38 && p[5] == 0x61);
            }
            assert(false);
        }
    }
    if n >= 24 && bytes[0] == 0x89 && bytes[1] == 0x50 && bytes[2] == 0x4e && bytes[3] == 0x47 && bytes[4] == 0x0d
        && bytes[5] == 0x0a && bytes[6] == 0x1a && bytes[7] == 0x0a {
        proof {
            assert(bytes@.subrange(0, 8) =~= seq![0x89u8, 0x50, 0x4e, 0x47, 0x0d, 0x0a, 0x1a, 0x0a]);
        }
        let width: u32 = (bytes[16] as u32) * 0x1000000 + (bytes[17] as u32) * 0x10000 + (bytes[18] as u32) * 0x100
            + bytes[19] as u32;
        let height: u32 = (bytes[20] as u32) * 0x1000000 + (bytes[21] as u32) * 0x10000 + (bytes[22] as u32) * 0x100
            + bytes[23] as u32;
        return Some((width, height, 1));
    }
    proof {
        if n >= 24 && png_signature(bytes@) {
            let p = bytes@.subrange(0, 8);
            assert(p[0] == 0x89 && p[1] == 0x50 && p[2] == 0x4e && p[3] == 0x47 && p[4] == 0x0d && p[5] == 0x0a
                && p[6] == 0x1a && p[7] == 0x0a);
            assert(false);
        }
    }
    None
}

} // verus!
