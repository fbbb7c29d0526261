//! CPU frames and their binary PPM (P6) encoding, used by the screenshot fixtures.

use vstd::prelude::*;
use vstd::string::StringExecFns;
use crate::platform_core::HostOs;
use crate::text::string_views;

verus! {

/// An RGBA frame produced by the CPU rasterizer.
#[derive(Debug, Clone, PartialEq, Eq)]
pub struct CpuFrame {
    pub width: u32,
    pub height: u32,
    pub pixels: Vec<u8>,
}

#[derive(Debug, Clone, PartialEq, Eq)]
pub enum ScreenshotError {
    UnknownFixture(String),
    InvalidImage(String),
    Render(String),
}

/// How a screenshot compares with its reference.
#[derive(Debug, Clone, Copy, PartialEq, Eq, Structural)]
pub enum ScreenshotDiffKind {
    Exact,
    AntialiasingWithinTolerance,
    MinorPixelDrift,
    TextLayoutFailure,
    DimensionMismatch,
}

/// The key that names the platform's reference screenshots.
pub open spec fn screenshot_platform_key_spec(host: HostOs, wayland_display: bool, x11_display: bool) -> Seq<char> {
    match host {
        HostOs::Windows => "windows"@,
        HostOs::MacOs => "macos"@,
        HostOs::Linux => if wayland_display {
            "linux-wayland"@
        } else if x11_display {
            "linux-x11"@
        } else {
            "linux"@
        },
        HostOs::Other => "unknown"@,
    }
}

/// The key that names the platform's reference screenshots: the operating
/// system, and on Linux the display server that the environment names.
pub fn screenshot_platform_key(host: HostOs, wayland_display: bool, x11_display: bool) -> (r: &'static str)
    ensures
        r@ == screenshot_platform_key_spec(host, wayland_display, x11_display),
{
    match host {
        HostOs::Windows => "windows",
        HostOs::MacOs => "macos",
        HostOs::Linux => if wayland_display {
            "linux-wayland"
        } else if x11_display {
            "linux-x11"
        } else {
            "linux"
        },
        HostOs::Other => "unknown",
    }
}

/// `u8::is_ascii_whitespace`: space, tab, line feed, form feed, carriage return.
pub open spec fn is_ascii_ws(b: u8) -> bool {
    b == 0x20 || b == 0x09 || b == 0x0a || b == 0x0c || b == 0x0d
}

fn ascii_ws(b: u8) -> (r: bool)
    ensures
        r == is_ascii_ws(b),
{
    b == 0x20 || b == 0x09 || b == 0x0a || b == 0x0c || b == 0x0d
}

/// The first index at or after `i` that holds a line feed, or the end.
pub open spec fn comment_end(b: Seq<u8>, i: int) -> int
    decreases b.len() - i,
{
    if i >= b.len() || b[i] == 0x0a {
        i
    } else {
        comment_end(b, i + 1)
    }
}

pub proof fn lemma_comment_end_bounds(b: Seq<u8>, i: int)
    requires
        0 <= i,
    ensures
        i <= comment_end(b, i),
        i <= b.len() ==> comment_end(b, i) <= b.len(),
    decreases b.len() - i,
{
    if !(i >= b.len() || b[i] == 0x0a) {
        lemma_comment_end_bounds(b, i + 1);
    }
}

/// The index after skipping white space and `#` comments from `i`.
pub open spec fn skip_blank(b: Seq<u8>, i: int) -> int
    decreases b.len() - i,
{
    if 0 <= i < b.len() && is_ascii_ws(b[i]) {
        skip_blank(b, i + 1)
    } else if 0 <= i < b.len() && b[i] == 0x23 {
        proof {
            lemma_comment_end_bounds(b, i + 1);
        }
        skip_blank(b, comment_end(b, i + 1))
    } else {
        i
    }
}

/// The end of the token that starts at `s`: the first white space at or after `s`.
pub open spec fn token_end(b: Seq<u8>, s: int) -> int
    decreases b.len() - s,
{
    if 0 <= s < b.len() && !is_ascii_ws(b[s]) {
        token_end(b, s + 1)
    } else {
        s
    }
}

/// The next header token at or after `i`, as a start and an end index.
pub open spec fn next_token(b: Seq<u8>, i: int) -> Option<(int, int)> {
    let s = skip_blank(b, i);
    let e = token_end(b, s);
    if s == e {
        None
    } else {
        Some((s, e))
    }
}

pub proof fn lemma_skip_blank_bounds(b: Seq<u8>, i: int)
    requires
        0 <= i <= b.len(),
    ensures
        i <= skip_blank(b, i) <= b.len(),
    decreases b.len() - i,
{
    if 0 <= i < b.len() && is_ascii_ws(b[i]) {
        lemma_skip_blank_bounds(b, i + 1);
    } else if 0 <= i < b.len() && b[i] == 0x23 {
        lemma_comment_end_bounds(b, i + 1);
        lemma_skip_blank_bounds(b, comment_end(b, i + 1));
    }
}

pub proof fn lemma_token_end_bounds(b: Seq<u8>, s: int)
    requires
        0 <= s <= b.len(),
    ensures
        s <= token_end(b, s) <= b.len(),
    decreases b.len() - s,
{
    if 0 <= s < b.len() && !is_ascii_ws(b[s]) {
        lemma_token_end_bounds(b, s + 1);
    }
}

fn next_ppm_token(bytes: &[u8], index: &mut usize) -> (r: Result<(usize, usize), ScreenshotError>)
    requires
        *old(index) <= bytes@.len(),
    ensures
        match next_token(bytes@, *old(index) as int) {
            None => r matches Err(ScreenshotError::InvalidImage(m)) && m@ == header_incomplete(),
            Some((s, e)) => r == Ok::<(usize, usize), ScreenshotError>((s as usize, e as usize))
                && *final(index) == e && s < e <= bytes@.len(),
        },
{
    let ghost b = bytes@;
    let ghost start_index = *index;
    proof {
        lemma_skip_blank_bounds(b, start_index as int);
    }
    loop
        invariant
            b == bytes@,
            *index <= bytes@.len(),
            skip_blank(b, *index as int) == skip_blank(b, start_index as int),
        ensures
            b == bytes@,
            *index <= bytes@.len(),
            skip_blank(b, start_index as int) == *index as int,
        decreases bytes@.len() - *index,
    {
        if *index < bytes.len() && ascii_ws(bytes[*index]) {
            *index = *index + 1;
        } else if *index < bytes.len() && bytes[*index] == 0x23 {
            let ghost at = *index;
            *index = *index + 1;
            while *index < bytes.len() && bytes[*index] != 0x0a
                invariant
                    b == bytes@,
                    at < *index <= bytes@.len(),
                    comment_end(b, *index as int) == comment_end(b, at + 1),
                decreases bytes@.len() - *index,
            {
                *index = *index + 1;
            }
            assert(*index as int == comment_end(b, *index as int));
        } else {
            break;
        }
    }
    let s = *index;
    proof {
        lemma_token_end_bounds(b, s as int);
    }
    while *index < bytes.len() && !ascii_ws(bytes[*index])
        invariant
            b == bytes@,
            s <= *index <= bytes@.len(),
            token_end(b, *index as int) == token_end(b, s as int),
        decreases bytes@.len() - *index,
    {
        *index = *index + 1;
    }
    if s == *index {
        Err(ScreenshotError::InvalidImage("PPM image header is incomplete".to_owned()))
    } else {
        Ok((s, *index))
    }
}

/// The message of a header that ends before all of its fields.
pub open spec fn header_incomplete() -> Seq<char> {
    "PPM image header is incomplete"@
}


/// Why `u32::from_str` refuses a string.
#[derive(Debug, Clone, Copy, PartialEq, Eq, Structural)]
pub enum IntParseFailure {
    Empty,
    InvalidDigit,
    PosOverflow,
}

/// The text that `ParseIntError` displays for each failure.
pub open spec fn int_failure_text(kind: IntParseFailure) -> Seq<char> {
    match kind {
        IntParseFailure::Empty => "cannot parse integer from empty string"@,
        IntParseFailure::InvalidDigit => "invalid digit found in string"@,
        IntParseFailure::PosOverflow => "number too large to fit in target type"@,
    }
}

pub open spec fn is_digit_byte(b: u8) -> bool {
    0x30 <= b <= 0x39
}

/// Decimal digits read from left to right; the first byte that is not a digit, or
/// the first digit that takes the value past `u32::MAX`, is the failure.
pub open spec fn parse_digits(d: Seq<u8>) -> Result<nat, IntParseFailure>
    decreases d.len(),
{
    if d.len() == 0 {
        Ok(0)
    } else {
        match parse_digits(d.drop_last()) {
            Err(k) => Err(k),
            Ok(v) => if !is_digit_byte(d.last()) {
                Err(IntParseFailure::InvalidDigit)
            } else if v * 10 + (d.last() - 0x30) > u32::MAX {
                Err(IntParseFailure::PosOverflow)
            } else {
                Ok((v * 10 + (d.last() - 0x30)) as nat)
            },
        }
    }
}

/// `u32::from_str` on the bytes of a token: an optional leading `+`, then digits.
pub open spec fn parse_u32_token(t: Seq<u8>) -> Result<nat, IntParseFailure> {
    if t.len() == 0 {
        Err(IntParseFailure::Empty)
    } else if t.len() == 1 && (t[0] == 0x2b || t[0] == 0x2d) {
        Err(IntParseFailure::InvalidDigit)
    } else if t[0] == 0x2b {
        parse_digits(t.drop_first())
    } else {
        parse_digits(t)
    }
}

pub proof fn lemma_parse_digits_bound(d: Seq<u8>)
    ensures
        parse_digits(d) matches Ok(v) ==> v <= u32::MAX,
    decreases d.len(),
{
    if d.len() > 0 {
        lemma_parse_digits_bound(d.drop_last());
    }
}

fn parse_digit_bytes(d: &[u8], lo: usize, hi: usize) -> (r: Result<u32, IntParseFailure>)
    requires
        lo <= hi <= d@.len(),
    ensures
        match parse_digits(d@.subrange(lo as int, hi as int)) {
            Ok(v) => r == Ok::<u32, IntParseFailure>(v as u32),
            Err(k) => r == Err::<u32, IntParseFailure>(k),
        },
{
    let mut acc: u32 = 0;
    let mut i: usize = lo;
    assert(d@.subrange(lo as int, lo as int).len() == 0);
    while i < hi
        invariant
            lo <= i <= hi <= d@.len(),
            parse_digits(d@.subrange(lo as int, i as int)) == Ok::<nat, IntParseFailure>(acc as nat),
        decreases hi - i,
    {
        let ghost prefix = d@.subrange(lo as int, (i + 1) as int);
        assert(prefix.drop_last() =~= d@.subrange(lo as int, i as int));
        assert(prefix.last() == d@[i as int]);
        let c = d[i];
        if !(0x30 <= c && c <= 0x39) {
            proof {
                assert(d@.subrange(lo as int, hi as int).subrange(0, (i - lo + 1) as int) =~= prefix);
                lemma_parse_digits_prefix_error(d@.subrange(lo as int, hi as int), (i - lo) as int);
            }
            return Err(IntParseFailure::InvalidDigit);
        }
        let digit = (c - 0x30) as u32;
        if acc > 429496729 || (acc == 429496729 && digit > 5) {
            proof {
                assert(d@.subrange(lo as int, hi as int).subrange(0, (i - lo + 1) as int) =~= prefix);
                lemma_parse_digits_prefix_error(d@.subrange(lo as int, hi as int), (i - lo) as int);
            }
            return Err(IntParseFailure::PosOverflow);
        }
        acc = acc * 10 + digit;
        i = i + 1;
    }
    Ok(acc)
}

/// A failure on a prefix is the failure of the whole sequence.
pub proof fn lemma_parse_digits_prefix_error(d: Seq<u8>, k: int)
    requires
        0 <= k < d.len(),
        parse_digits(d.subrange(0, k + 1)) is Err,
    ensures
        parse_digits(d) == parse_digits(d.subrange(0, k + 1)),
    decreases d.len(),
{
    if k + 1 < d.len() {
        assert(d.drop_last().subrange(0, k + 1) =~= d.subrange(0, k + 1));
        lemma_parse_digits_prefix_error(d.drop_last(), k);
    } else {
        assert(d.subrange(0, k + 1) =~= d);
    }
}

/// Every byte is below 0x80.
pub open spec fn is_ascii_bytes(t: Seq<u8>) -> bool {
    forall|i: int| 0 <= i < t.len() ==> t[i] < 0x80
}

/// What decoding makes of one numeric header field named `name`.
pub open spec fn parse_field(t: Seq<u8>, name: Seq<char>) -> Result<nat, Seq<char>> {
    if is_ascii_bytes(t) || vstd::utf8::valid_utf8(t) {
        match parse_u32_token(t) {
            Ok(v) => Ok(v),
            Err(k) => Err("invalid PPM "@ + name + ": "@ + int_failure_text(k)),
        }
    } else {
        Err("PPM "@ + name + " token is not valid UTF-8"@)
    }
}

/// Whether `std::str::from_utf8` accepts the bytes.
#[verifier::external_body]
fn utf8_accepts(bytes: &[u8]) -> (r: bool)
    ensures
        r == vstd::utf8::valid_utf8(bytes@),
{
    std::str::from_utf8(bytes).is_ok()
}

fn parse_u32_token_exec(t: &[u8], lo: usize, hi: usize) -> (r: Result<u32, IntParseFailure>)
    requires
        lo <= hi <= t@.len(),
    ensures
        match parse_u32_token(t@.subrange(lo as int, hi as int)) {
            Ok(v) => r == Ok::<u32, IntParseFailure>(v as u32),
            Err(k) => r == Err::<u32, IntParseFailure>(k),
        },
{
    let ghost tok = t@.subrange(lo as int, hi as int);
    if lo == hi {
        return Err(IntParseFailure::Empty);
    }
    if hi - lo == 1 && (t[lo] == 0x2b || t[lo] == 0x2d) {
        return Err(IntParseFailure::InvalidDigit);
    }
    if t[lo] == 0x2b {
        assert(tok.drop_first() =~= t@.subrange(lo + 1, hi as int));
        parse_digit_bytes(t, lo + 1, hi)
    } else {
        parse_digit_bytes(t, lo, hi)
    }
}

fn all_ascii(t: &[u8], lo: usize, hi: usize) -> (r: bool)
    requires
        lo <= hi <= t@.len(),
    ensures
        r == is_ascii_bytes(t@.subrange(lo as int, hi as int)),
{
    let mut i = lo;
    while i < hi
        invariant
            lo <= i <= hi <= t@.len(),
            forall|j: int| lo <= j < i ==> t@[j] < 0x80,
        decreases hi - i,
    {
        if t[i] >= 0x80 {
            assert(t@.subrange(lo as int, hi as int)[i - lo] >= 0x80);
            return false;
        }
        i = i + 1;
    }
    true
}

fn invalid_image(prefix: &str, name: &str, suffix: &str) -> (r: ScreenshotError)
    ensures
        r matches ScreenshotError::InvalidImage(m) && m@ == prefix@ + name@ + suffix@,
{
    let mut message = String::from_str(prefix);
    message.append(name);
    message.append(suffix);
    ScreenshotError::InvalidImage(message)
}

fn int_failure_str(kind: IntParseFailure) -> (r: &'static str)
    ensures
        r@ == int_failure_text(kind),
{
    match kind {
        IntParseFailure::Empty => "cannot parse integer from empty string",
        IntParseFailure::InvalidDigit => "invalid digit found in string",
        IntParseFailure::PosOverflow => "number too large to fit in target type",
    }
}

fn parse_ppm_u32(bytes: &[u8], lo: usize, hi: usize, name: &str) -> (r: Result<u32, ScreenshotError>)
    requires
        lo <= hi <= bytes@.len(),
    ensures
        match parse_field(bytes@.subrange(lo as int, hi as int), name@) {
            Ok(v) => r == Ok::<u32, ScreenshotError>(v as u32),
            Err(m) => r matches Err(ScreenshotError::InvalidImage(msg)) && msg@ == m,
        },
{
    proof {
        lemma_parse_digits_bound(bytes@.subrange(lo as int, hi as int));
        lemma_parse_digits_bound(bytes@.subrange(lo as int, hi as int).drop_first());
    }
    if !all_ascii(bytes, lo, hi) {
        let token = vstd::slice::slice_subrange(bytes, lo, hi);
        if !utf8_accepts(token) {
            return Err(invalid_image("PPM ", name, " token is not valid UTF-8"));
        }
    }
    match parse_u32_token_exec(bytes, lo, hi) {
        Ok(v) => Ok(v),
        Err(kind) => {
            let mut message = String::from_str("invalid PPM ");
            message.append(name);
            message.append(": ");
            message.append(int_failure_str(kind));
            Err(ScreenshotError::InvalidImage(message))
        },
    }
}

/// RGB triples widened to opaque RGBA pixels.
pub open spec fn rgb_to_rgba(rgb: Seq<u8>) -> Seq<u8> {
    Seq::new(
        (rgb.len() / 3 * 4) as nat,
        |i: int|
            if i % 4 == 3 {
                255u8
            } else {
                rgb[(i / 4) * 3 + i % 4]
            },
    )
}

/// Where the raster starts: one white-space byte after the last header token is skipped.
pub open spec fn ppm_payload_start(b: Seq<u8>, e: int) -> int {
    if 0 <= e < b.len() && is_ascii_ws(b[e]) {
        e + 1
    } else {
        e
    }
}

/// The magic token of a binary PPM.
pub open spec fn ppm_magic() -> Seq<u8> {
    seq![0x50u8, 0x36u8]
}

/// The raster checks that follow a well-formed header.
pub open spec fn decode_ppm_raster(b: Seq<u8>, w: nat, h: nat, e3: int) -> Result<(u32, u32, Seq<u8>), Seq<char>> {
    let start = ppm_payload_start(b, e3);
    let expected = w * h * 3;
    if expected > usize::MAX {
        Err("PPM dimensions overflow addressable memory"@)
    } else if start + expected > b.len() {
        Err("PPM image payload is truncated"@)
    } else if w * h * 4 > usize::MAX {
        Err("RGBA dimensions overflow addressable memory"@)
    } else {
        Ok((w as u32, h as u32, rgb_to_rgba(b.subrange(start, start + expected))))
    }
}

/// Decoding of a binary PPM: its width, height and RGBA pixels, or the error message.
pub open spec fn decode_ppm_spec(b: Seq<u8>) -> Result<(u32, u32, Seq<u8>), Seq<char>> {
    match next_token(b, 0) {
        None => Err(header_incomplete()),
        Some((s0, e0)) => if b.subrange(s0, e0) != ppm_magic() {
            Err("expected binary PPM magic P6"@)
        } else {
            match next_token(b, e0) {
                None => Err(header_incomplete()),
                Some((s1, e1)) => match parse_field(b.subrange(s1, e1), "width"@) {
                    Err(m) => Err(m),
                    Ok(w) => match next_token(b, e1) {
                        None => Err(header_incomplete()),
                        Some((s2, e2)) => match parse_field(b.subrange(s2, e2), "height"@) {
                            Err(m) => Err(m),
                            Ok(h) => match next_token(b, e2) {
                                None => Err(header_incomplete()),
                                Some((s3, e3)) => match parse_field(b.subrange(s3, e3), "max channel"@) {
                                    Err(m) => Err(m),
                                    Ok(max) => if max != 255 {
                                        Err("expected max channel value 255"@)
                                    } else {
                                        decode_ppm_raster(b, w, h, e3)
                                    },
                                },
                            },
                        },
                    },
                },
            }
        },
    }
}

pub proof fn lemma_quad_index(i: int, k: int)
    requires
        0 <= i,
        0 <= k < 4,
    ensures
        (4 * i + k) / 4 == i,
        (4 * i + k) % 4 == k,
{
}

fn widen_rgb(bytes: &[u8], start: usize, count: usize) -> (pixels: Vec<u8>)
    requires
        start + count * 3 <= bytes@.len(),
        start + count * 3 <= usize::MAX,
        count * 4 <= usize::MAX,
    ensures
        pixels@ == rgb_to_rgba(bytes@.subrange(start as int, start + count * 3)),
{
    let ghost rgb = bytes@.subrange(start as int, start + count * 3);
    let mut pixels: Vec<u8> = Vec::new();
    let mut i: usize = 0;
    while i < count
        invariant
            i <= count,
            start + count * 3 <= bytes@.len(),
            start + count * 3 <= usize::MAX,
            count * 4 <= usize::MAX,
            rgb == bytes@.subrange(start as int, start + count * 3),
            pixels@.len() == 4 * i,
            forall|j: int| 0 <= j < 4 * i ==> #[trigger] pixels@[j] == rgb_to_rgba(rgb)[j],
        decreases count - i,
    {
        proof {
            assert(i * 3 <= count * 3) by (nonlinear_arith)
                requires
                    i < count,
            ;
            assert(i * 3 + 3 <= count * 3) by (nonlinear_arith)
                requires
                    i < count,
            ;
        }
        let base = start + i * 3;
        proof {
            lemma_quad_index(i as int, 0);
            lemma_quad_index(i as int, 1);
            lemma_quad_index(i as int, 2);
            lemma_quad_index(i as int, 3);
        }
        pixels.push(bytes[base]);
        pixels.push(bytes[base + 1]);
        pixels.push(bytes[base + 2]);
        pixels.push(255);
        i = i + 1;
    }
    assert(pixels@ =~= rgb_to_rgba(rgb));
    pixels
}

impl CpuFrame {
    /// Decodes a binary PPM (P6) with a maximum channel value of 255; comments and
    /// any white space may separate header fields, and one white-space byte ends the
    /// header. Every pixel comes out opaque.
    pub fn decode_ppm(bytes: &[u8]) -> (r: Result<CpuFrame, ScreenshotError>)
        ensures
            match decode_ppm_spec(bytes@) {
                Ok((w, h, p)) => r matches Ok(f) && f.width == w && f.height == h && f.pixels@ == p,
                Err(m) => r matches Err(ScreenshotError::InvalidImage(msg)) && msg@ == m,
            },
    {
        let mut index: usize = 0;
        let (s0, e0) = next_ppm_token(bytes, &mut index)?;
        if !(e0 - s0 == 2 && bytes[s0] == 0x50 && bytes[s0 + 1] == 0x36) {
            proof {
                assert(ppm_magic().len() == 2);
                assert(ppm_magic()[0] == 0x50);
                assert(ppm_magic()[1] == 0x36);
                if bytes@.subrange(s0 as int, e0 as int) == ppm_magic() {
                    assert(bytes@.subrange(s0 as int, e0 as int)[0] == 0x50);
                    assert(bytes@.subrange(s0 as int, e0 as int)[1] == 0x36);
                }
            }
            return Err(ScreenshotError::InvalidImage("expected binary PPM magic P6".to_owned()));
        }
        assert(bytes@.subrange(s0 as int, e0 as int) =~= ppm_magic());
        let (s1, e1) = next_ppm_token(bytes, &mut index)?;
        let width = parse_ppm_u32(bytes, s1, e1, "width")?;
        let (s2, e2) = next_ppm_token(bytes, &mut index)?;
        let height = parse_ppm_u32(bytes, s2, e2, "height")?;
        let (s3, e3) = next_ppm_token(bytes, &mut index)?;
        let max = parse_ppm_u32(bytes, s3, e3, "max channel")?;
        if max != 255 {
            return Err(ScreenshotError::InvalidImage("expected max channel value 255".to_owned()));
        }
        if index < bytes.len() && ascii_ws(bytes[index]) {
            index = index + 1;
        }
        assert((width as u64) * (height as u64) <= u64::MAX) by (nonlinear_arith)
            requires
                width <= u32::MAX,
                height <= u32::MAX,
        ;
        let pixel_count: u64 = (width as u64) * (height as u64);
        assert(pixel_count == width * height);
        if pixel_count > (usize::MAX as u64) / 3 {
            return Err(
                ScreenshotError::InvalidImage("PPM dimensions overflow addressable memory".to_owned()),
            );
        }
        let expected: usize = (pixel_count as usize) * 3;
        if expected > bytes.len() - index {
            return Err(ScreenshotError::InvalidImage("PPM image payload is truncated".to_owned()));
        }
        if pixel_count > (usize::MAX as u64) / 4 {
            return Err(
                ScreenshotError::InvalidImage("RGBA dimensions overflow addressable memory".to_owned()),
            );
        }
        let pixels = widen_rgb(bytes, index, pixel_count as usize);
        Ok(CpuFrame { width, height, pixels })
    }
}


/// The decimal ASCII digits of `n`, without leading zeros.
pub open spec fn decimal_digits(n: nat) -> Seq<u8>
    decreases n,
{
    if n < 10 {
        seq![(0x30 + n) as u8]
    } else {
        decimal_digits(n / 10).push((0x30 + n % 10) as u8)
    }
}

/// The header that `encode_ppm` writes: `P6`, the width, the height and 255,
/// separated by a line feed, a space, a line feed, and ended by a line feed.
pub open spec fn ppm_header(width: u32, height: u32) -> Seq<u8> {
    seq![0x50u8, 0x36u8, 0x0au8] + decimal_digits(width as nat) + seq![0x20u8] + decimal_digits(
        height as nat,
    ) + seq![0x0au8] + decimal_digits(255) + seq![0x0au8]
}

/// The RGB bytes of every whole RGBA pixel.
pub open spec fn rgba_to_rgb(p: Seq<u8>) -> Seq<u8> {
    Seq::new((p.len() / 4 * 3) as nat, |i: int| p[(i / 3) * 4 + i % 3])
}

/// The whole PPM encoding of a frame.
pub open spec fn encode_ppm_spec(width: u32, height: u32, pixels: Seq<u8>) -> Seq<u8> {
    ppm_header(width, height) + rgba_to_rgb(pixels)
}

/// The FNV-1a hash of a byte sequence.
pub open spec fn fnv1a(bytes: Seq<u8>) -> u64
    decreases bytes.len(),
{
    if bytes.len() == 0 {
        14_695_981_039_346_656_037u64
    } else {
        vstd::wrapping::u64_specs::wrapping_mul(
            fnv1a(bytes.drop_last()) ^ (bytes.last() as u64),
            1_099_511_628_211u64,
        )
    }
}

fn push_decimal(out: &mut Vec<u8>, n: u32)
    ensures
        final(out)@ == old(out)@ + decimal_digits(n as nat),
    decreases n,
{
    if n >= 10 {
        push_decimal(out, n / 10);
    }
    out.push((0x30 + n % 10) as u8);
    assert(final(out)@ =~= old(out)@ + decimal_digits(n as nat));
}

pub proof fn lemma_triple_index(i: int, k: int)
    requires
        0 <= i,
        0 <= k < 3,
    ensures
        (3 * i + k) / 3 == i,
        (3 * i + k) % 3 == k,
{
}

impl CpuFrame {
    /// The FNV-1a hash of the pixel bytes.
    pub fn snapshot_hash(&self) -> (r: u64)
        ensures
            r == fnv1a(self.pixels@),
    {
        let mut hash: u64 = 14_695_981_039_346_656_037;
        let mut i: usize = 0;
        while i < self.pixels.len()
            invariant
                i <= self.pixels@.len(),
                hash == fnv1a(self.pixels@.take(i as int)),
            decreases self.pixels@.len() - i,
        {
            assert(self.pixels@.take((i + 1) as int).drop_last() =~= self.pixels@.take(i as int));
            hash = hash ^ (self.pixels[i] as u64);
            hash = hash.wrapping_mul(1_099_511_628_211);
            i = i + 1;
        }
        assert(self.pixels@.take(i as int) =~= self.pixels@);
        hash
    }

    /// Encodes the frame as a binary PPM; the alpha channel is dropped, and a
    /// trailing partial pixel is ignored.
    pub fn encode_ppm(&self) -> (r: Vec<u8>)
        ensures
            r@ == encode_ppm_spec(self.width, self.height, self.pixels@),
    {
        let mut output: Vec<u8> = Vec::new();
        output.push(0x50);
        output.push(0x36);
        output.push(0x0a);
        push_decimal(&mut output, self.width);
        output.push(0x20);
        push_decimal(&mut output, self.height);
        output.push(0x0a);
        push_decimal(&mut output, 255);
        output.push(0x0a);
        let ghost header = output@;
        assert(header =~= ppm_header(self.width, self.height));
        let plen = self.pixels.len();
        let count = plen / 4;
        let ghost rgb = rgba_to_rgb(self.pixels@);
        let mut i: usize = 0;
        while i < count
            invariant
                count == self.pixels@.len() / 4,
                plen == self.pixels@.len(),
                i <= count,
                header == ppm_header(self.width, self.height),
                rgb == rgba_to_rgb(self.pixels@),
                output@.len() == header.len() + 3 * i,
                output@.subrange(0, header.len() as int) == header,
                forall|j: int| 0 <= j < 3 * i ==> #[trigger] output@[header.len() + j] == rgb[j],
            decreases count - i,
        {
            proof {
                assert(4 * i + 3 < self.pixels@.len());
                lemma_triple_index(i as int, 0);
                lemma_triple_index(i as int, 1);
                lemma_triple_index(i as int, 2);
            }
            let base = 4 * i;
            output.push(self.pixels[base]);
            output.push(self.pixels[base + 1]);
            output.push(self.pixels[base + 2]);
            proof {
                assert(output@.subrange(0, header.len() as int) =~= header);
            }
            i = i + 1;
        }
        assert(rgb.len() == 3 * count);
        assert forall|k: int| 0 <= k < output@.len() implies output@[k] == (header + rgb)[k] by {
            if k < header.len() {
                assert(output@.subrange(0, header.len() as int)[k] == output@[k]);
            } else {
                assert(output@[header.len() + (k - header.len())] == rgb[k - header.len()]);
            }
        }
        assert(output@ =~= header + rgb);
        output
    }
}


/// Every pixel with its alpha channel set to 255.
pub open spec fn opaque_pixels(p: Seq<u8>) -> Seq<u8> {
    Seq::new(p.len(), |i: int| if i % 4 == 3 { 255u8 } else { p[i] })
}

pub proof fn lemma_decimal_digits(n: nat)
    ensures
        decimal_digits(n).len() >= 1,
        forall|i: int| 0 <= i < decimal_digits(n).len() ==> is_digit_byte(#[trigger] decimal_digits(n)[i]),
        n <= u32::MAX ==> parse_digits(decimal_digits(n)) == Ok::<nat, IntParseFailure>(n),
    decreases n,
{
    if n >= 10 {
        lemma_decimal_digits(n / 10);
        let d = decimal_digits(n);
        assert(d.drop_last() =~= decimal_digits(n / 10));
        assert(forall|i: int| 0 <= i < d.len() - 1 ==> d[i] == decimal_digits(n / 10)[i]);
        assert(d.last() == (0x30 + n % 10) as u8);
        assert(d.last() - 0x30 == n % 10);
        assert((n / 10) * 10 + n % 10 == n);
        if n <= u32::MAX {
            assert(parse_digits(d.drop_last()) == Ok::<nat, IntParseFailure>(n / 10));
            assert(is_digit_byte(d.last()));
            assert(parse_digits(d) == Ok::<nat, IntParseFailure>(n));
        }
    } else {
        let d = decimal_digits(n);
        assert(d.drop_last() =~= Seq::<u8>::empty());
        assert(d.last() - 0x30 == n);
        assert(parse_digits(d.drop_last()) == Ok::<nat, IntParseFailure>(0));
        assert(is_digit_byte(d.last()));
        assert(parse_digits(d) == Ok::<nat, IntParseFailure>(n));
    }
}

pub proof fn lemma_token_run(b: Seq<u8>, s: int, e: int)
    requires
        0 <= s <= e <= b.len(),
        forall|j: int| s <= j < e ==> !is_ascii_ws(#[trigger] b[j]),
        e == b.len() || is_ascii_ws(b[e]),
    ensures
        token_end(b, s) == e,
    decreases e - s,
{
    if s < e {
        lemma_token_run(b, s + 1, e);
    }
}

/// A decimal field between white space is read back as its value.
pub proof fn lemma_decimal_token(b: Seq<u8>, s: int, n: nat, name: Seq<char>)
    requires
        n <= u32::MAX,
        0 <= s,
        s + decimal_digits(n).len() < b.len(),
        b.subrange(s, s + decimal_digits(n).len()) == decimal_digits(n),
        is_ascii_ws(b[s + decimal_digits(n).len()]),
    ensures
        skip_blank(b, s) == s,
        token_end(b, s) == s + decimal_digits(n).len(),
        next_token(b, s) == Some((s, s + decimal_digits(n).len())),
        parse_field(decimal_digits(n), name) == Ok::<nat, Seq<char>>(n),
{
    let d = decimal_digits(n);
    lemma_decimal_digits(n);
    assert forall|j: int| s <= j < s + d.len() implies !is_ascii_ws(#[trigger] b[j]) by {
        assert(b[j] == b.subrange(s, s + d.len())[j - s]);
        assert(is_digit_byte(d[j - s]));
    }
    assert(b[s] == d[0]);
    lemma_token_run(b, s, s + d.len());
    assert(is_ascii_bytes(d)) by {
        assert forall|i: int| 0 <= i < d.len() implies d[i] < 0x80 by {
            assert(is_digit_byte(d[i]));
        }
    }
    assert(is_digit_byte(d[0]));
}

/// Decoding what `encode_ppm` wrote gives back the frame, with every pixel opaque.
pub proof fn lemma_ppm_roundtrip(width: u32, height: u32, pixels: Seq<u8>)
    requires
        pixels.len() == width * height * 4,
        width * height * 4 <= usize::MAX,
    ensures
        decode_ppm_spec(encode_ppm_spec(width, height, pixels)) == Ok::<(u32, u32, Seq<u8>), Seq<char>>(
            (width, height, opaque_pixels(pixels)),
        ),
{
    let dw = decimal_digits(width as nat);
    let dh = decimal_digits(height as nat);
    let dm = decimal_digits(255);
    lemma_decimal_digits(width as nat);
    lemma_decimal_digits(height as nat);
    lemma_decimal_digits(255);
    let rgb = rgba_to_rgb(pixels);
    let h = ppm_header(width, height);
    let b = encode_ppm_spec(width, height, pixels);
    let e1: int = 3int + dw.len();
    let s2: int = e1 + 1;
    let e2: int = s2 + dh.len();
    let s3: int = e2 + 1;
    let e3: int = s3 + dm.len();
    assert(h.len() == e3 + 1);
    assert(b.len() == h.len() + rgb.len());
    assert forall|i: int| 0 <= i < h.len() implies b[i] == h[i] by {}
    // the magic
    assert(b[0] == 0x50);
    assert(b[1] == 0x36);
    assert(b[2] == 0x0a);
    assert(skip_blank(b, 0) == 0);
    lemma_token_run(b, 0, 2);
    assert(b.subrange(0, 2) =~= ppm_magic());
    assert(next_token(b, 0) == Some((0int, 2int)));
    // the width
    assert(b.subrange(3, e1) =~= dw);
    assert(b[e1] == 0x20);
    lemma_decimal_token(b, 3, width as nat, "width"@);
    assert(skip_blank(b, 2) == skip_blank(b, 3));
    assert(next_token(b, 2) == Some((3int, e1)));
    // the height
    assert(b.subrange(s2, e2) =~= dh);
    assert(b[e2] == 0x0a);
    lemma_decimal_token(b, s2, height as nat, "height"@);
    assert(skip_blank(b, e1) == skip_blank(b, s2));
    assert(next_token(b, e1) == Some((s2, e2)));
    // the maximum channel value
    assert(b.subrange(s3, e3) =~= dm);
    assert(b[e3] == 0x0a);
    lemma_decimal_token(b, s3, 255, "max channel"@);
    assert(skip_blank(b, e2) == skip_blank(b, s3));
    assert(next_token(b, e2) == Some((s3, e3)));
    // the raster
    assert(ppm_payload_start(b, e3) == h.len());
    assert(rgb.len() == width * height * 3);
    assert(b.subrange(h.len() as int, h.len() + width * height * 3) =~= rgb);
    let out = rgb_to_rgba(rgb);
    assert(out.len() == pixels.len());
    assert forall|i: int| 0 <= i < out.len() implies out[i] == opaque_pixels(pixels)[i] by {
        let q = i / 4;
        let k = i % 4;
        lemma_quad_index(q, k);
        assert(i == 4 * q + k);
        if k != 3 {
            lemma_triple_index(q, k);
            assert(out[i] == rgb[3 * q + k]);
            assert(rgb[3 * q + k] == pixels[4 * q + k]);
        }
    }
    assert(out =~= opaque_pixels(pixels));
}

/// How two frames of one size differ over their RGB channels.
#[derive(Debug, Clone, Copy, PartialEq, Eq, Structural)]
pub struct PixelDifference {
    pub total_pixels: u64,
    pub different_pixels: u64,
    /// The sum of the channel differences, saturated at `u64::MAX`.
    pub total_delta: u64,
    pub max_channel_delta: u8,
}

pub open spec fn channel_delta(e: Seq<u8>, a: Seq<u8>, i: int, c: int) -> int {
    let x = e[4 * i + c] as int;
    let y = a[4 * i + c] as int;
    if x >= y {
        x - y
    } else {
        y - x
    }
}

pub open spec fn pixel_changed(e: Seq<u8>, a: Seq<u8>, i: int) -> bool {
    channel_delta(e, a, i, 0) > 0 || channel_delta(e, a, i, 1) > 0 || channel_delta(e, a, i, 2) > 0
}

/// Over the first `k` pixel pairs: how many differ, the summed channel
/// difference, and the largest one.
pub open spec fn difference_over(e: Seq<u8>, a: Seq<u8>, k: int) -> (int, int, int)
    decreases k,
{
    if k <= 0 {
        (0, 0, 0)
    } else {
        let (count, sum, max) = difference_over(e, a, k - 1);
        let i = k - 1;
        let d0 = channel_delta(e, a, i, 0);
        let d1 = channel_delta(e, a, i, 1);
        let d2 = channel_delta(e, a, i, 2);
        let m01 = if d0 >= d1 { d0 } else { d1 };
        let m = if m01 >= d2 { m01 } else { d2 };
        (
            count + if pixel_changed(e, a, i) { 1int } else { 0int },
            sum + d0 + d1 + d2,
            if max >= m { max } else { m },
        )
    }
}

/// Counting differing pixels: the count over `k` pixel pairs grows by one
/// over `k - 1` exactly when pair `k - 1` differs in its red, green or blue
/// byte; and a channel difference anywhere means some pixel is counted.
pub proof fn lemma_differing_pixels_counted(e: Seq<u8>, a: Seq<u8>, k: int)
    requires
        0 < k,
        4 * k <= e.len(),
        4 * k <= a.len(),
    ensures
        difference_over(e, a, k).0 == difference_over(e, a, k - 1).0 + (if e[4 * (k - 1)] != a[4 * (k - 1)]
            || e[4 * (k - 1) + 1] != a[4 * (k - 1) + 1] || e[4 * (k - 1) + 2] != a[4 * (k - 1) + 2] {
            1int
        } else {
            0int
        }),
        difference_over(e, a, k).2 > 0 ==> difference_over(e, a, k).0 > 0,
        difference_over(e, a, k).0 == 0 <==> forall|i: int, c: int|
            0 <= i < k && 0 <= c < 3 ==> #[trigger] e[4 * i + c] == #[trigger] a[4 * i + c],
    decreases k,
{
    lemma_difference_bounds(e, a, k - 1);
    if k > 1 {
        lemma_differing_pixels_counted(e, a, k - 1);
    }
    let i = k - 1;
    if difference_over(e, a, k).0 == 0 {
        assert forall|j: int, c: int| 0 <= j < k && 0 <= c < 3 implies #[trigger] e[4 * j + c] == #[trigger] a[4 * j + c] by {
            if j < i {
                assert(difference_over(e, a, k - 1).0 == 0);
            } else {
                assert(c == 0 || c == 1 || c == 2);
            }
        }
    }
    if forall|j: int, c: int| 0 <= j < k && 0 <= c < 3 ==> #[trigger] e[4 * j + c] == #[trigger] a[4 * j + c] {
        assert(e[4 * i] == a[4 * i]);
        assert(e[4 * i + 1] == a[4 * i + 1]);
        assert(e[4 * i + 2] == a[4 * i + 2]);
        if k > 1 {
            assert forall|j: int, c: int| 0 <= j < k - 1 && 0 <= c < 3 implies #[trigger] e[4 * j + c] == #[trigger] a[4 * j + c] by {
                assert(e[4 * j + c] == a[4 * j + c]);
            }
        }
    }
}

/// The size of the difference between two bytes.
pub open spec fn byte_gap(x: u8, y: u8) -> int {
    if x >= y { x - y } else { y - x }
}

/// The summed difference grows, pixel by pixel, by the red, green and blue
/// gaps; the largest difference is as large as every channel gap and is one
/// of them (or zero with no pixels).
pub proof fn lemma_channel_gaps_summed_and_bounded(e: Seq<u8>, a: Seq<u8>, k: int)
    requires
        0 < k,
        4 * k <= e.len(),
        4 * k <= a.len(),
    ensures
        difference_over(e, a, k).1 == difference_over(e, a, k - 1).1 + byte_gap(e[4 * (k - 1)], a[4 * (k - 1)]) + byte_gap(
            e[4 * (k - 1) + 1],
            a[4 * (k - 1) + 1],
        ) + byte_gap(e[4 * (k - 1) + 2], a[4 * (k - 1) + 2]),
        forall|i: int, c: int|
            0 <= i < k && 0 <= c < 3 ==> byte_gap(#[trigger] e[4 * i + c], #[trigger] a[4 * i + c]) <= difference_over(e, a, k).2,
        exists|i: int, c: int| 0 <= i < k && 0 <= c < 3 && byte_gap(#[trigger] e[4 * i + c], #[trigger] a[4 * i + c]) == difference_over(e, a, k).2,
    decreases k,
{
    if k > 1 {
        lemma_channel_gaps_summed_and_bounded(e, a, k - 1);
    }
    let i = k - 1;
    let d0 = byte_gap(e[4 * i], a[4 * i]);
    let d1 = byte_gap(e[4 * i + 1], a[4 * i + 1]);
    let d2 = byte_gap(e[4 * i + 2], a[4 * i + 2]);
    assert(channel_delta(e, a, i, 0) == d0);
    assert(channel_delta(e, a, i, 1) == d1);
    assert(channel_delta(e, a, i, 2) == d2);
    assert forall|j: int, c: int| 0 <= j < k && 0 <= c < 3 implies byte_gap(#[trigger] e[4 * j + c], #[trigger] a[4 * j + c])
        <= difference_over(e, a, k).2 by {
        if j == i {
            assert(c == 0 || c == 1 || c == 2);
        }
    }
    let max = difference_over(e, a, k).2;
    lemma_difference_bounds(e, a, k - 1);
    let m01 = if d0 >= d1 { d0 } else { d1 };
    let m = if m01 >= d2 { m01 } else { d2 };
    assert(max == (if difference_over(e, a, k - 1).2 >= m { difference_over(e, a, k - 1).2 } else { m }));
    if k > 1 && max == difference_over(e, a, k - 1).2 {
        let (j, c) = choose|j: int, c: int| 0 <= j < k - 1 && 0 <= c < 3 && byte_gap(#[trigger] e[4 * j + c], #[trigger] a[4 * j + c])
            == difference_over(e, a, k - 1).2;
        assert(byte_gap(e[4 * j + c], a[4 * j + c]) == max);
    } else if max == d0 {
        assert(byte_gap(e[4 * i + 0], a[4 * i + 0]) == max);
    } else if max == d1 {
        assert(byte_gap(e[4 * i + 1], a[4 * i + 1]) == max);
    } else {
        assert(byte_gap(e[4 * i + 2], a[4 * i + 2]) == max);
    }
}

/// The number of pixel pairs two buffers compare: whole four-byte pixels of the
/// shorter one.
pub open spec fn compared_pixels(e: Seq<u8>, a: Seq<u8>) -> int {
    let n = e.len() / 4;
    let m = a.len() / 4;
    if n <= m {
        n as int
    } else {
        m as int
    }
}

proof fn lemma_difference_bounds(e: Seq<u8>, a: Seq<u8>, k: int)
    requires
        0 <= k,
    ensures
        0 <= difference_over(e, a, k).0 <= k,
        0 <= difference_over(e, a, k).1,
        0 <= difference_over(e, a, k).2 <= 255,
    decreases k,
{
    if k > 0 {
        lemma_difference_bounds(e, a, k - 1);
    }
}

fn abs_diff(x: u8, y: u8) -> (r: u8)
    ensures
        r == (if x >= y { x - y } else { y - x }),
{
    if x >= y {
        x - y
    } else {
        y - x
    }
}

/// Compares two frames: `None` when their sizes differ; otherwise, over their
/// RGB channels, the pixels that differ, the summed and the largest channel
/// difference.
pub fn pixel_difference(expected: &CpuFrame, actual: &CpuFrame) -> (r: Option<PixelDifference>)
    ensures
        (expected.width != actual.width || expected.height != actual.height) ==> r is None,
        (expected.width == actual.width && expected.height == actual.height) ==> ({
            let (count, sum, max) = difference_over(expected.pixels@, actual.pixels@, compared_pixels(expected.pixels@, actual.pixels@));
            r == Some(PixelDifference {
                total_pixels: (expected.width * expected.height) as u64,
                different_pixels: count as u64,
                total_delta: if sum > u64::MAX { u64::MAX } else { sum as u64 },
                max_channel_delta: max as u8,
            })
        }),
{
    if expected.width != actual.width || expected.height != actual.height {
        return None;
    }
    let n = if expected.pixels.len() / 4 <= actual.pixels.len() / 4 {
        expected.pixels.len() / 4
    } else {
        actual.pixels.len() / 4
    };
    let ghost e = expected.pixels@;
    let ghost a = actual.pixels@;
    let mut different_pixels: u64 = 0;
    let mut total_delta: u64 = 0;
    let mut max_channel_delta: u8 = 0;
    let mut i: usize = 0;
    while i < n
        invariant
            n == compared_pixels(e, a),
            e.len() <= usize::MAX,
            a.len() <= usize::MAX,
            e == expected.pixels@,
            a == actual.pixels@,
            i <= n,
            different_pixels == difference_over(e, a, i as int).0,
            total_delta == (if difference_over(e, a, i as int).1 > u64::MAX {
                u64::MAX as int
            } else {
                difference_over(e, a, i as int).1
            }),
            max_channel_delta == difference_over(e, a, i as int).2,
        decreases n - i,
    {
        proof {
            lemma_difference_bounds(e, a, i as int);
            lemma_difference_bounds(e, a, i + 1);
            assert(4 * (e.len() / 4) <= e.len());
            assert(4 * (a.len() / 4) <= a.len());
            assert(4 * i + 4 <= e.len() && 4 * i + 4 <= a.len());
        }
        let base = 4 * i;
        let d0 = abs_diff(expected.pixels[base], actual.pixels[base]);
        let d1 = abs_diff(expected.pixels[base + 1], actual.pixels[base + 1]);
        let d2 = abs_diff(expected.pixels[base + 2], actual.pixels[base + 2]);
        if d0 > 0 || d1 > 0 || d2 > 0 {
            different_pixels = different_pixels + 1;
        }
        total_delta = total_delta.saturating_add(d0 as u64);
        total_delta = total_delta.saturating_add(d1 as u64);
        total_delta = total_delta.saturating_add(d2 as u64);
        let m01 = if d0 >= d1 { d0 } else { d1 };
        let m = if m01 >= d2 { m01 } else { d2 };
        if m > max_channel_delta {
            max_channel_delta = m;
        }
        i = i + 1;
    }
    proof {
        lemma_difference_bounds(e, a, n as int);
    }
    assert((expected.width as u64) * (expected.height as u64) <= u64::MAX) by (nonlinear_arith)
        requires
            expected.width <= u32::MAX,
            expected.height <= u32::MAX,
    ;
    Some(
        PixelDifference {
            total_pixels: (expected.width as u64) * (expected.height as u64),
            different_pixels,
            total_delta,
            max_channel_delta,
        },
    )
}

/// What a screenshot fixture shows.
#[derive(Debug, Clone, Copy, PartialEq, Eq, Structural)]
pub enum ScreenshotFixtureKind {
    AsciiGrid,
    TruecolorGrid,
    TextStyles,
    CjkWide,
    Emoji,
    CursorStates,
    CursorImage,
    SelectionStates,
    PromptDecorations,
    CommandBlocks,
    MultiplePanes,
    TransparencyOpacity,
    FullscreenChrome,
}

/// The names of the screenshot fixtures, in capture order.
pub open spec fn fixture_names() -> Seq<Seq<char>> {
    seq![
        "ascii-grid"@,
        "truecolor-grid"@,
        "text-styles"@,
        "cjk-wide"@,
        "emoji"@,
        "cursor-states"@,
        "cursor-image"@,
        "selection-states"@,
        "prompt-decorations"@,
        "command-blocks"@,
        "multiple-panes"@,
        "transparency-opacity"@,
        "fullscreen-chrome-hidden"@,
        "fullscreen-chrome-half"@,
        "fullscreen-chrome-visible"@,
        "fullscreen-chrome-close-hover"@,
        "fullscreen-chrome-no-controls"@
    ]
}

/// What each screenshot fixture shows, in the order of `fixture_names`.
pub open spec fn fixture_descriptions() -> Seq<Seq<char>> {
    seq![
        "plain ASCII grid with cursor"@,
        "deterministic truecolor foreground/background cells"@,
        "bold, italic, underline, and strikethrough groundwork"@,
        "wide CJK and mixed Latin text"@,
        "emoji, modifiers, variation selectors, and ZWJ samples"@,
        "block, beam, underline, hollow, and inactive cursor shapes"@,
        "decoded custom image cursor composited as an overlay"@,
        "selection highlight cells over terminal content"@,
        "semantic prompt decoration overlays"@,
        "semantic command block overlays"@,
        "split-pane style visual composition"@,
        "semi-transparent overlays blended over terminal cells"@,
        "fullscreen terminal with client chrome fully hidden"@,
        "fullscreen terminal with client chrome half revealed"@,
        "fullscreen terminal with client chrome fully revealed"@,
        "fullscreen terminal with close control hovered"@,
        "fullscreen terminal chrome without window controls"@
    ]
}

/// The kind of each screenshot fixture, in the order of `fixture_names`.
pub open spec fn fixture_kinds() -> Seq<ScreenshotFixtureKind> {
    seq![
        ScreenshotFixtureKind::AsciiGrid,
        ScreenshotFixtureKind::TruecolorGrid,
        ScreenshotFixtureKind::TextStyles,
        ScreenshotFixtureKind::CjkWide,
        ScreenshotFixtureKind::Emoji,
        ScreenshotFixtureKind::CursorStates,
        ScreenshotFixtureKind::CursorImage,
        ScreenshotFixtureKind::SelectionStates,
        ScreenshotFixtureKind::PromptDecorations,
        ScreenshotFixtureKind::CommandBlocks,
        ScreenshotFixtureKind::MultiplePanes,
        ScreenshotFixtureKind::TransparencyOpacity,
        ScreenshotFixtureKind::FullscreenChrome,
        ScreenshotFixtureKind::FullscreenChrome,
        ScreenshotFixtureKind::FullscreenChrome,
        ScreenshotFixtureKind::FullscreenChrome,
        ScreenshotFixtureKind::FullscreenChrome
    ]
}

/// The names of the screenshot fixtures, in capture order.
pub fn screenshot_fixture_names() -> (r: Vec<String>)
    ensures
        string_views(r@) == fixture_names(),
{
    let mut names: Vec<String> = Vec::new();
    names.push(String::from_str("ascii-grid"));
    names.push(String::from_str("truecolor-grid"));
    names.push(String::from_str("text-styles"));
    names.push(String::from_str("cjk-wide"));
    names.push(String::from_str("emoji"));
    names.push(String::from_str("cursor-states"));
    names.push(String::from_str("cursor-image"));
    names.push(String::from_str("selection-states"));
    names.push(String::from_str("prompt-decorations"));
    names.push(String::from_str("command-blocks"));
    names.push(String::from_str("multiple-panes"));
    names.push(String::from_str("transparency-opacity"));
    names.push(String::from_str("fullscreen-chrome-hidden"));
    names.push(String::from_str("fullscreen-chrome-half"));
    names.push(String::from_str("fullscreen-chrome-visible"));
    names.push(String::from_str("fullscreen-chrome-close-hover"));
    names.push(String::from_str("fullscreen-chrome-no-controls"));
    proof {
        assert(string_views(names@) =~= fixture_names());
    }
    names
}

/// What each screenshot fixture shows, in the order of the names.
pub fn screenshot_fixture_descriptions() -> (r: Vec<String>)
    ensures
        string_views(r@) == fixture_descriptions(),
{
    let mut descriptions: Vec<String> = Vec::new();
    descriptions.push(String::from_str("plain ASCII grid with cursor"));
    descriptions.push(String::from_str("deterministic truecolor foreground/background cells"));
    descriptions.push(String::from_str("bold, italic, underline, and strikethrough groundwork"));
    descriptions.push(String::from_str("wide CJK and mixed Latin text"));
    descriptions.push(String::from_str("emoji, modifiers, variation selectors, and ZWJ samples"));
    descriptions.push(String::from_str("block, beam, underline, hollow, and inactive cursor shapes"));
    descriptions.push(String::from_str("decoded custom image cursor composited as an overlay"));
    descriptions.push(String::from_str("selection highlight cells over terminal content"));
    descriptions.push(String::from_str("semantic prompt decoration overlays"));
    descriptions.push(String::from_str("semantic command block overlays"));
    descriptions.push(String::from_str("split-pane style visual composition"));
    descriptions.push(String::from_str("semi-transparent overlays blended over terminal cells"));
    descriptions.push(String::from_str("fullscreen terminal with client chrome fully hidden"));
    descriptions.push(String::from_str("fullscreen terminal with client chrome half revealed"));
    descriptions.push(String::from_str("fullscreen terminal with client chrome fully revealed"));
    descriptions.push(String::from_str("fullscreen terminal with close control hovered"));
    descriptions.push(String::from_str("fullscreen terminal chrome without window controls"));
    proof {
        assert(string_views(descriptions@) =~= fixture_descriptions());
    }
    descriptions
}

/// The kind of each screenshot fixture, in the order of the names.
pub fn screenshot_fixture_kinds() -> (r: Vec<ScreenshotFixtureKind>)
    ensures
        r@ == fixture_kinds(),
{
    let mut kinds: Vec<ScreenshotFixtureKind> = Vec::new();
    kinds.push(ScreenshotFixtureKind::AsciiGrid);
    kinds.push(ScreenshotFixtureKind::TruecolorGrid);
    kinds.push(ScreenshotFixtureKind::TextStyles);
    kinds.push(ScreenshotFixtureKind::CjkWide);
    kinds.push(ScreenshotFixtureKind::Emoji);
    kinds.push(ScreenshotFixtureKind::CursorStates);
    kinds.push(ScreenshotFixtureKind::CursorImage);
    kinds.push(ScreenshotFixtureKind::SelectionStates);
    kinds.push(ScreenshotFixtureKind::PromptDecorations);
    kinds.push(ScreenshotFixtureKind::CommandBlocks);
    kinds.push(ScreenshotFixtureKind::MultiplePanes);
    kinds.push(ScreenshotFixtureKind::TransparencyOpacity);
    kinds.push(ScreenshotFixtureKind::FullscreenChrome);
    kinds.push(ScreenshotFixtureKind::FullscreenChrome);
    kinds.push(ScreenshotFixtureKind::FullscreenChrome);
    kinds.push(ScreenshotFixtureKind::FullscreenChrome);
    kinds.push(ScreenshotFixtureKind::FullscreenChrome);
    proof {
        assert(kinds@ =~= fixture_kinds());
    }
    kinds
}

} // verus!
