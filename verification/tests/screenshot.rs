use soorat::screenshot::{encode_pixels, strip_alpha, ScreenshotFormat};
use soorat::error::RenderError;

#[test]
fn encode_pixels_roundtrip_png() {
    // 2x2 red square
    let rgba = vec![
        255, 0, 0, 255, 255, 0, 0, 255, //
        255, 0, 0, 255, 255, 0, 0, 255,
    ];
    let encoded = encode_pixels(2, 2, &rgba, ScreenshotFormat::Png).unwrap();
    // PNG magic bytes
    assert_eq!(&encoded[..4], &[0x89, 0x50, 0x4E, 0x47]);
}

#[test]
fn encode_pixels_jpeg() {
    let rgba = vec![0u8; 4 * 4 * 4]; // 4x4 black
    let encoded = encode_pixels(4, 4, &rgba, ScreenshotFormat::Jpeg).unwrap();
    // JPEG magic bytes
    assert_eq!(&encoded[..2], &[0xFF, 0xD8]);
}

#[test]
fn encode_pixels_size_mismatch() {
    let rgba = vec![0u8; 10]; // wrong size for any image
    let err = encode_pixels(2, 2, &rgba, ScreenshotFormat::Png);
    assert!(err.is_err());
    let msg = err.unwrap_err().to_string();
    assert!(msg.contains("size mismatch"));
}

#[test]
fn screenshot_format_extension() {
    assert_eq!(ScreenshotFormat::Png.extension(), "png");
    assert_eq!(ScreenshotFormat::Jpeg.extension(), "jpg");
    assert_eq!(ScreenshotFormat::Bmp.extension(), "bmp");
}

#[test]
fn screenshot_format_default_is_png() {
    assert_eq!(ScreenshotFormat::default(), ScreenshotFormat::Png);
}

#[test]
fn encode_pixels_bmp_magic() {
    let rgba = vec![10u8; 3 * 2 * 4];
    let encoded = encode_pixels(3, 2, &rgba, ScreenshotFormat::Bmp).unwrap();
    assert_eq!(&encoded[..2], b"BM");
    assert!(encoded.len() > rgba.len() / 2);
}

#[test]
fn encode_pixels_mismatch_message_exact() {
    let err = encode_pixels(2, 3, &[0u8; 7], ScreenshotFormat::Jpeg).unwrap_err();
    match &err {
        RenderError::Screenshot(m) => {
            assert_eq!(m, "pixel buffer size mismatch: expected 2x3x4=24, got 7")
        }
        other => panic!("unexpected error {other:?}"),
    }
    assert_eq!(
        err.to_string(),
        "screenshot failed: pixel buffer size mismatch: expected 2x3x4=24, got 7"
    );
}

#[test]
fn encode_pixels_empty_image_png() {
    // a 0x0 image has an empty, correctly sized buffer
    let result = encode_pixels(0, 0, &[], ScreenshotFormat::Png);
    match result {
        Ok(bytes) => assert_eq!(&bytes[..4], &[0x89, 0x50, 0x4E, 0x47]),
        Err(RenderError::Screenshot(m)) => assert!(m.starts_with("encode failed: ")),
        Err(other) => panic!("unexpected error {other:?}"),
    }
}

#[test]
fn strip_alpha_drops_every_fourth_byte() {
    let rgba = [1u8, 2, 3, 4, 5, 6, 7, 8, 9];
    assert_eq!(strip_alpha(&rgba), vec![1, 2, 3, 5, 6, 7]);
    assert_eq!(strip_alpha(&[]), Vec::<u8>::new());
}

#[test]
fn encode_error_carries_the_encoders_message() {
    let mut out = std::io::Cursor::new(Vec::new());
    let outside = image::write_buffer_with_format(
        &mut out,
        &[],
        0,
        0,
        image::ExtendedColorType::Rgba8,
        image::ImageFormat::Png,
    );
    match (outside, encode_pixels(0, 0, &[], ScreenshotFormat::Png)) {
        (Err(e), Err(RenderError::Screenshot(m))) => {
            assert_eq!(m, format!("encode failed: {e}"))
        }
        (Ok(()), Ok(bytes)) => assert_eq!(bytes, out.into_inner()),
        (a, b) => panic!("encoder and library disagree: {:?} / {:?}", a.is_ok(), b.is_ok()),
    }
}
