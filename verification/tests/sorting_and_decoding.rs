use soorat::color::hex_channels;
use soorat::error::RenderError;
use soorat::screenshot::{encode_pixels, ScreenshotFormat};
use soorat::sprite::z_sort_order;
use soorat::texture::decode_texture;

#[test]
fn z_order_sorts_ascending() {
    assert_eq!(z_sort_order(&[2, 0, 1]), vec![1, 2, 0]);
    assert!(z_sort_order(&[]).is_empty());
}

#[test]
fn z_order_is_stable() {
    assert_eq!(z_sort_order(&[0, 0, 0]), vec![0, 1, 2]);
    assert_eq!(z_sort_order(&[1, 0, 1, 0]), vec![1, 3, 0, 2]);
}

#[test]
fn z_order_large_batch() {
    let z: Vec<i32> = (0..1000).map(|i| 1000 - i).collect();
    let order = z_sort_order(&z);
    assert_eq!(order.len(), 1000);
    assert_eq!(z[order[0]], 1);
    assert_eq!(z[order[999]], 1000);
    let mut seen = vec![false; 1000];
    for &i in &order {
        assert!(!seen[i]);
        seen[i] = true;
    }
}

#[test]
fn z_order_negative_and_extreme_keys() {
    assert_eq!(z_sort_order(&[i32::MAX, -5, i32::MIN, -5]), vec![2, 1, 3, 0]);
}

#[test]
fn hex_channel_split() {
    assert_eq!(hex_channels(0xFF8040FF), (0xFF, 0x80, 0x40, 0xFF));
    assert_eq!(hex_channels(0), (0, 0, 0, 0));
    assert_eq!(hex_channels(0x01020304), (1, 2, 3, 4));
}

#[test]
fn png_roundtrip_through_decoder() {
    let rgba: Vec<u8> = (0..2 * 3 * 4).map(|i| (i * 10) as u8).collect();
    let png = encode_pixels(2, 3, &rgba, ScreenshotFormat::Png).unwrap();
    let (pixels, width, height) = decode_texture(&png).unwrap();
    assert_eq!((width, height), (2, 3));
    assert_eq!(pixels, rgba);
}

#[test]
fn bmp_roundtrip_through_decoder() {
    let rgba: Vec<u8> = (0..4 * 4).map(|i| (i * 7) as u8).collect();
    let bmp = encode_pixels(2, 2, &rgba, ScreenshotFormat::Bmp).unwrap();
    let (pixels, width, height) = decode_texture(&bmp).unwrap();
    assert_eq!((width, height), (2, 2));
    assert_eq!(pixels, rgba);
}

#[test]
fn decode_garbage_is_texture_error() {
    match decode_texture(&[1, 2, 3, 4, 5]) {
        Err(RenderError::Texture(m)) => assert!(!m.is_empty()),
        other => panic!("unexpected {:?}", other.map(|t| t.1)),
    }
}

#[test]
fn decode_error_carries_the_decoders_message() {
    let garbage = [1u8, 2, 3, 4, 5];
    let expected = image::load_from_memory(&garbage).unwrap_err().to_string();
    match decode_texture(&garbage) {
        Err(RenderError::Texture(m)) => assert_eq!(m, expected),
        other => panic!("unexpected {:?}", other.map(|t| t.1)),
    }
}

#[test]
fn decoded_texture_passes_the_upload_check() {
    let rgba: Vec<u8> = (0..3 * 2 * 4).map(|i| (i * 5) as u8).collect();
    let png = encode_pixels(3, 2, &rgba, ScreenshotFormat::Png).unwrap();
    let (pixels, width, height) = decode_texture(&png).unwrap();
    assert_eq!(pixels.len(), 4 * width as usize * height as usize);
    assert!(soorat::texture::check_rgba_upload(&pixels, width, height).is_ok());
}
