use panea::cursor_assets::accept_png_image;
use panea::cursor_assets::{
    decode_cursor_image_header,
    decode_cursor_image_frames, decode_cursor_image_request, decode_cursor_vector,
    decode_cursor_vector_request, validate_cursor_image_dimensions, AnimatedCursorImageCache,
    AnimatedCursorImageRequest, AnimatedCursorImageRuntime, AnimatedCursorImageStatus,
    CursorVectorCache, CursorVectorDocument, CursorVectorDocumentPrimitive, CursorVectorRequest,
    CursorVectorRuntime, CursorVectorStatus,
};
use panea::render_core::RenderColor;

fn png_bytes(width: u32, height: u32) -> Vec<u8> {
    let image = image::RgbaImage::from_pixel(width, height, image::Rgba([1, 2, 3, 4]));
    let mut out = std::io::Cursor::new(Vec::new());
    image.write_to(&mut out, image::ImageFormat::Png).expect("encode png");
    out.into_inner()
}

fn gif_bytes(frames: usize) -> Vec<u8> {
    let mut out = Vec::new();
    {
        let mut encoder = image::codecs::gif::GifEncoder::new(&mut out);
        for index in 0..frames {
            let buffer = image::RgbaImage::from_pixel(2, 2, image::Rgba([index as u8, 0, 0, 255]));
            encoder.encode_frame(image::Frame::new(buffer)).expect("encode frame");
        }
    }
    out
}

fn primitive(x: u16, width: u16) -> CursorVectorDocumentPrimitive {
    CursorVectorDocumentPrimitive { x, y: 0, width, height: 10, corner_radius: 0, color: Some([1, 2, 3, 4]) }
}

#[test]
fn vector_documents_are_checked_in_order() {
    let good = CursorVectorDocument { version: 1, primitives: vec![primitive(0, 10)] };
    let primitives = decode_cursor_vector(&good).expect("fits");
    assert_eq!(primitives.len(), 1);
    assert_eq!(primitives[0].color, Some(RenderColor { red: 1, green: 2, blue: 3, alpha: 4 }));

    let version = CursorVectorDocument { version: 2, primitives: vec![primitive(0, 10)] };
    assert_eq!(decode_cursor_vector(&version).unwrap_err(), "unsupported cursor vector version 2; expected 1");
    let empty = CursorVectorDocument { version: 1, primitives: Vec::new() };
    assert_eq!(decode_cursor_vector(&empty).unwrap_err(), "cursor vector must contain at least one primitive");
    let many = CursorVectorDocument { version: 1, primitives: vec![primitive(0, 10); 65] };
    assert_eq!(decode_cursor_vector(&many).unwrap_err(), "cursor vector exceeds the 64-primitive limit");
    let outside = CursorVectorDocument {
        version: 1,
        primitives: vec![primitive(0, 10), primitive(995, 10), primitive(0, 0)],
    };
    assert_eq!(
        decode_cursor_vector(&outside).unwrap_err(),
        "cursor vector primitive 1 is outside the 1000x1000 canvas or has invalid geometry"
    );
    let saturating = CursorVectorDocument { version: 1, primitives: vec![primitive(u16::MAX, 1)] };
    assert!(decode_cursor_vector(&saturating).is_err());
}

#[test]
fn image_dimensions_must_be_positive_and_bounded() {
    assert!(validate_cursor_image_dimensions(1, 512, 512).is_ok());
    assert_eq!(
        validate_cursor_image_dimensions(0, 5, 512).unwrap_err(),
        "cursor image dimensions must be non-zero"
    );
    assert_eq!(
        validate_cursor_image_dimensions(600, 5, 512).unwrap_err(),
        "cursor image dimensions 600x5 exceed the 512px limit"
    );
}

#[test]
fn png_and_gif_cursors_decode_to_rgba_frames() {
    let png = decode_cursor_image_frames(&png_bytes(3, 2), 512, 256, 1 << 20).expect("png");
    assert_eq!((png.width, png.height, png.frames.len()), (3, 2, 1));
    assert_eq!(png.frames[0].pixels.len(), 3 * 2 * 4);

    let gif = decode_cursor_image_frames(&gif_bytes(3), 512, 256, 1 << 20).expect("gif");
    assert_eq!((gif.width, gif.height, gif.frames.len()), (2, 2, 3));

    assert_eq!(
        decode_cursor_image_frames(&gif_bytes(3), 512, 2, 1 << 20).unwrap_err(),
        "cursor GIF exceeds the 2-frame limit"
    );
    assert_eq!(
        decode_cursor_image_frames(&gif_bytes(3), 512, 256, 20).unwrap_err(),
        "decoded cursor frames exceed the 1 KiB memory budget"
    );
    assert_eq!(
        decode_cursor_image_frames(&png_bytes(600, 1), 512, 256, 1 << 30).unwrap_err(),
        "cursor image dimensions 600x1 exceed the 512px limit"
    );
    assert_eq!(
        decode_cursor_image_frames(b"not an image", 512, 256, 1 << 20).unwrap_err(),
        "cursor image must be a valid GIF or PNG"
    );
    assert_eq!(
        decode_cursor_image_frames(b"BM a bitmap header", 512, 256, 1 << 20).unwrap_err(),
        "cursor image format is unsupported; use GIF or PNG"
    );
}

fn image_request(path: &str, fps: u16, max_size_kb: u32) -> AnimatedCursorImageRequest {
    AnimatedCursorImageRequest { path: path.to_owned(), fps, max_size_kb, warn_if_expensive: true }
}

#[test]
fn image_requests_report_size_read_and_decode_outcomes() {
    match decode_cursor_image_request(image_request("a.gif", 60, 1), Ok(gif_bytes(2))) {
        AnimatedCursorImageStatus::Ready(image) => {
            assert_eq!(image.path, "a.gif");
            assert_eq!(image.frame_count, 2);
            assert_eq!(image.asset.frames.len(), 2);
            assert_eq!(image.size_kb, 1);
            assert_eq!(
                image.warnings,
                vec![
                    "cursor image 1 KiB is close to the configured 1 KiB limit".to_owned(),
                    "cursor image FPS 60 exceeds the low-cost 30 FPS range".to_owned(),
                ]
            );
        }
        other => panic!("expected a ready image, got {other:?}"),
    }
    assert_eq!(
        decode_cursor_image_request(image_request("a.gif", 10, 1), Err("denied".to_owned())),
        AnimatedCursorImageStatus::Failed {
            path: "a.gif".to_owned(),
            message: "failed to read cursor image: denied".to_owned()
        }
    );
    assert_eq!(
        decode_cursor_image_request(image_request("a.gif", 10, 1), Ok(vec![0; 2048])),
        AnimatedCursorImageStatus::Failed {
            path: "a.gif".to_owned(),
            message: "cursor image is 2 KiB, above the configured 1 KiB limit".to_owned()
        }
    );
}

#[test]
fn image_cache_starts_one_decode_per_new_request() {
    let mut cache = AnimatedCursorImageCache::new();
    assert_eq!(cache.poll(None), AnimatedCursorImageStatus::Disabled);
    assert!(!cache.request(&image_request("", 10, 64)));
    assert!(matches!(cache.poll(None), AnimatedCursorImageStatus::Failed { .. }));

    assert!(cache.request(&image_request("a.gif", 10, 64)));
    assert_eq!(cache.poll(None), AnimatedCursorImageStatus::Loading { path: "a.gif".to_owned() });
    let ready = decode_cursor_image_request(image_request("a.gif", 10, 64), Ok(gif_bytes(1)));
    assert!(matches!(cache.poll(Some(ready)), AnimatedCursorImageStatus::Ready(_)));
    assert!(!cache.request(&image_request("a.gif", 10, 64)));
    assert!(cache.request(&image_request("a.gif", 20, 64)));
    cache.record_start_failure("a.gif", "no threads");
    assert_eq!(
        cache.poll(None),
        AnimatedCursorImageStatus::Failed {
            path: "a.gif".to_owned(),
            message: "failed to start cursor image decoder: no threads".to_owned()
        }
    );
    cache.disable();
    assert_eq!(cache.poll(None), AnimatedCursorImageStatus::Disabled);
}

#[test]
fn image_runtime_paces_multi_frame_images() {
    let image = match decode_cursor_image_request(image_request("a.gif", 10, 64), Ok(gif_bytes(4))) {
        AnimatedCursorImageStatus::Ready(image) => image,
        other => panic!("expected a ready image, got {other:?}"),
    };
    let mut runtime = AnimatedCursorImageRuntime::new(0);
    assert_eq!(runtime.frame_index(5), None);
    assert!(runtime.set_image(&image, 1_000));
    assert!(!runtime.set_image(&image, 2_000));
    assert_eq!(runtime.next_frame_after(), None);
    runtime.record_visibility(true);
    assert_eq!(runtime.next_frame_after(), Some(100_000_000));
    assert_eq!(runtime.frame_index(1_000), Some(0));
    assert_eq!(runtime.frame_index(1_000 + 250_000_000), Some(2));
    assert_eq!(runtime.frame_index(1_000 + 450_000_000), Some(0));
    assert!(runtime.clear());
    assert!(!runtime.clear());
}

#[test]
fn vector_requests_and_cache() {
    let document = CursorVectorDocument { version: 1, primitives: vec![primitive(0, 10)] };
    let request = CursorVectorRequest { path: "c.json".to_owned(), max_size_kb: 4 };
    let status = decode_cursor_vector_request(request.clone(), Ok(b"{}".to_vec()), Ok(document.clone()));
    let vector = match &status {
        CursorVectorStatus::Ready(vector) => vector.clone(),
        other => panic!("expected a ready vector, got {other:?}"),
    };
    assert_eq!(vector.size_kb, 1);
    assert_eq!(vector.asset.primitives.len(), 1);
    assert_eq!(
        decode_cursor_vector_request(request.clone(), Ok(b"x".to_vec()), Err("expected value".to_owned())),
        CursorVectorStatus::Failed {
            path: "c.json".to_owned(),
            message: "cursor vector must be valid Panea JSON: expected value".to_owned()
        }
    );

    let mut cache = CursorVectorCache::new();
    assert!(cache.request(&request));
    assert!(matches!(cache.poll(Some(status)), CursorVectorStatus::Ready(_)));
    assert!(!cache.request(&request));

    let mut runtime = CursorVectorRuntime::new();
    assert!(runtime.set_vector(&vector));
    assert!(!runtime.set_vector(&vector));
    assert!(runtime.clear());
}

#[test]
fn image_headers_announce_size_and_frames() {
    let mut gif = b"GIF89a".to_vec();
    gif.extend_from_slice(&[0x10, 0x01, 0x20, 0x00]);
    gif.extend_from_slice(&[0x00, 0x21, 0xF9, 0x04, 0x21, 0xF9, 0x21]);
    assert_eq!(decode_cursor_image_header(&gif), Some((272, 32, 2)));

    let bare = b"GIF87a\x02\x00\x03\x00".to_vec();
    assert_eq!(decode_cursor_image_header(&bare), Some((2, 3, 1)));

    let mut png = vec![0x89, 0x50, 0x4e, 0x47, 0x0d, 0x0a, 0x1a, 0x0a, 0, 0, 0, 13, b'I', b'H', b'D', b'R'];
    png.extend_from_slice(&[0, 0, 1, 0, 0, 0, 0, 48]);
    assert_eq!(decode_cursor_image_header(&png), Some((256, 48, 1)));

    assert_eq!(decode_cursor_image_header(b"GIF89a\x01"), None);
    assert_eq!(decode_cursor_image_header(b"not an image at all, really"), None);
}

#[test]
fn other_recognized_signatures_are_unsupported_and_near_misses_unrecognized() {
    let unsupported = "cursor image format is unsupported; use GIF or PNG";
    let unrecognized = "cursor image must be a valid GIF or PNG";
    assert_eq!(decode_cursor_image_frames(b"RIFF\x01\x02\x03\x04WEBPVP8 ", 512, 256, 1 << 20).unwrap_err(), unsupported);
    assert_eq!(decode_cursor_image_frames(b"RIFF\x01\x02\x03\x04WEBX", 512, 256, 1 << 20).unwrap_err(), unrecognized);
    assert_eq!(decode_cursor_image_frames(b"\0\0\x12\x34ftypavif", 512, 256, 1 << 20).unwrap_err(), unsupported);
    assert_eq!(decode_cursor_image_frames(b"\0\x01\x12\x34ftypavif", 512, 256, 1 << 20).unwrap_err(), unrecognized);
    assert_eq!(decode_cursor_image_frames(b"P6\n1 1\n255\n", 512, 256, 1 << 20).unwrap_err(), unsupported);
    assert_eq!(decode_cursor_image_frames(b"P8", 512, 256, 1 << 20).unwrap_err(), unrecognized);
    assert_eq!(decode_cursor_image_frames(b"farbfeld", 512, 256, 1 << 20).unwrap_err(), unsupported);
    assert_eq!(decode_cursor_image_frames(b"GIF88a", 512, 256, 1 << 20).unwrap_err(), unrecognized);
}

#[test]
fn a_decoded_png_becomes_one_frame_within_the_budget() {
    assert_eq!(
        accept_png_image(Err("bad header".to_owned()), 64, 1000).err(),
        Some("failed to decode PNG cursor: bad header".to_owned())
    );
    let decoded = accept_png_image(Ok((2, 2, vec![7; 16])), 64, 1000).expect("accepted");
    assert_eq!((decoded.width, decoded.height), (2, 2));
    assert_eq!(decoded.frames.len(), 1);
    assert_eq!(decoded.frames[0].pixels, vec![7; 16]);
    let over = accept_png_image(Ok((2, 2, vec![7; 16])), 64, 8).err().expect("refused");
    assert!(over.starts_with("decoded cursor image exceeds the "));
    assert!(accept_png_image(Ok((0, 2, Vec::new())), 64, 8).is_err());
}
