use image_similarity::error::ImageError;
use image_similarity::pixels::{normalize, PixelEncoding, RawImage};

#[test]
fn normalize_rgba_is_identity() {
    let data: Vec<u8> = vec![
        1, 2, 3, 4, 10, 20, 30, 40, 100, 110, 120, 130, 200, 210, 220, 230,
    ];
    let img = RawImage {
        width: 2,
        height: 2,
        encoding: PixelEncoding::Rgba8,
        data: data.clone(),
    };
    let out = normalize(&img).unwrap();
    assert_eq!(out.width, 2);
    assert_eq!(out.height, 2);
    assert_eq!(out.data, data);
}

#[test]
fn normalize_rgb_adds_opaque_alpha() {
    let img = RawImage {
        width: 1,
        height: 2,
        encoding: PixelEncoding::Rgb8,
        data: vec![1, 2, 3, 4, 5, 6],
    };
    let out = normalize(&img).unwrap();
    assert_eq!(out.data, vec![1, 2, 3, 255, 4, 5, 6, 255]);
}

#[test]
fn normalize_luma_replicates_intensity() {
    let img = RawImage {
        width: 2,
        height: 1,
        encoding: PixelEncoding::Luma8,
        data: vec![9, 200],
    };
    let out = normalize(&img).unwrap();
    assert_eq!(out.data, vec![9, 9, 9, 255, 200, 200, 200, 255]);
}

#[test]
fn normalize_luma_alpha_preserves_alpha() {
    let img = RawImage {
        width: 2,
        height: 1,
        encoding: PixelEncoding::LumaA8,
        data: vec![50, 100, 60, 200],
    };
    let out = normalize(&img).unwrap();
    assert_eq!(out.data, vec![50, 50, 50, 100, 60, 60, 60, 200]);
}

#[test]
fn normalize_rejects_unsupported_encoding() {
    let img = RawImage {
        width: 1,
        height: 1,
        encoding: PixelEncoding::Other,
        data: vec![0, 0],
    };
    let err = match normalize(&img) {
        Ok(_) => panic!("an unsupported layout must be rejected"),
        Err(e) => e,
    };
    assert_eq!(err, ImageError::UnsupportedEncoding);
    assert_eq!(err.message(), "unsupported pixel encoding");
}
