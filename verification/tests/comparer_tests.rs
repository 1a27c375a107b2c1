use std::io::Cursor;

use image_similarity::comparer::ImagesComparer;
use image_similarity::error::ImageError;

fn png_rgba(width: u32, height: u32, f: impl Fn(u32, u32) -> [u8; 4]) -> Vec<u8> {
    let img = image::RgbaImage::from_fn(width, height, |x, y| image::Rgba(f(x, y)));
    let mut buf: Vec<u8> = Vec::new();
    img.write_to(&mut Cursor::new(&mut buf), image::ImageFormat::Png)
        .unwrap();
    buf
}

fn png_rgb(width: u32, height: u32, f: impl Fn(u32, u32) -> [u8; 3]) -> Vec<u8> {
    let img = image::RgbImage::from_fn(width, height, |x, y| image::Rgb(f(x, y)));
    let mut buf: Vec<u8> = Vec::new();
    img.write_to(&mut Cursor::new(&mut buf), image::ImageFormat::Png)
        .unwrap();
    buf
}

/// The similarity percentage the command-line front end derives from the
/// difference terms.
fn similarity(terms: &[i32]) -> f32 {
    let mut aggregate: f32 = 0.0;
    for &t in terms {
        aggregate += (t as f32).sqrt();
    }
    let max_total = 256.0 * 3.0 * 100.0;
    let pct = 100.0 - (aggregate as f64 / max_total) * 100.0;
    (pct as f32).clamp(0.0, 100.0)
}

#[test]
fn solid_red_against_itself_is_fully_similar() {
    let bytes = png_rgba(32, 32, |_, _| [255, 0, 0, 255]);
    let comparer = ImagesComparer::new(&vec![bytes.clone(), bytes]).unwrap();
    assert_eq!(comparer.image_count(), 2);
    assert!(comparer.fingerprint_at(0).is_empty());
    assert!(comparer.fingerprint_at(1).is_empty());
    let terms = comparer.difference_terms();
    assert!(terms.is_empty());
    assert_eq!(similarity(&terms), 100.0);
}

#[test]
fn solid_black_vs_solid_white_is_indistinguishable() {
    // Both fingerprints are empty: solid colors have no internal
    // transitions, so the comparison cannot tell them apart.
    let black = png_rgba(32, 32, |_, _| [0, 0, 0, 255]);
    let white = png_rgba(32, 32, |_, _| [255, 255, 255, 255]);
    let comparer = ImagesComparer::new(&vec![black, white]).unwrap();
    assert!(comparer.fingerprint_at(0).is_empty());
    assert!(comparer.fingerprint_at(1).is_empty());
    let terms = comparer.difference_terms();
    assert!(terms.is_empty());
    assert_eq!(similarity(&terms), 100.0);
}

/// Four colored quadrants; `last` is the color of the bottom-right one.
fn quadrants(x: u32, y: u32, last: [u8; 4]) -> [u8; 4] {
    match (x < 16, y < 16) {
        (true, true) => [200, 0, 0, 255],
        (false, true) => [0, 200, 0, 255],
        (true, false) => [0, 0, 200, 255],
        (false, false) => last,
    }
}

#[test]
fn quadrant_difference_is_strictly_between_bounds() {
    let base = png_rgba(32, 32, |x, y| quadrants(x, y, [200, 200, 0, 255]));
    let changed = png_rgba(32, 32, |x, y| quadrants(x, y, [50, 50, 50, 255]));
    let comparer = ImagesComparer::new(&vec![changed, base]).unwrap();
    assert!(!comparer.fingerprint_at(0).is_empty());
    let terms = comparer.difference_terms();
    let total: f64 = terms.iter().map(|&t| f64::from(t)).sum();
    assert!(total > 0.0);
    for &t in &terms {
        assert!((0..=130050).contains(&t));
    }
    let pct = similarity(&terms);
    assert!(pct > 0.0 && pct < 100.0);
}

#[test]
fn rgb_and_rgba_sources_normalize_alike() {
    let as_rgba = png_rgba(32, 32, |x, y| {
        if x < 16 && y < 16 {
            [10, 200, 30, 255]
        } else {
            [200, 10, 30, 255]
        }
    });
    let as_rgb = png_rgb(32, 32, |x, y| {
        if x < 16 && y < 16 {
            [10, 200, 30]
        } else {
            [200, 10, 30]
        }
    });
    let comparer = ImagesComparer::new(&vec![as_rgba, as_rgb]).unwrap();
    assert_eq!(comparer.fingerprint_at(0), comparer.fingerprint_at(1));
    let terms = comparer.difference_terms();
    assert!(terms.iter().all(|&t| t == 0));
    assert_eq!(similarity(&terms), 100.0);
}

#[test]
fn jpeg_solid_color_decodes_and_fingerprints_empty() {
    let img = image::RgbImage::from_pixel(32, 32, image::Rgb([100, 150, 200]));
    let mut buf: Vec<u8> = Vec::new();
    img.write_to(&mut Cursor::new(&mut buf), image::ImageFormat::Jpeg)
        .unwrap();
    let comparer = ImagesComparer::new(&vec![buf.clone(), buf]).unwrap();
    assert!(comparer.fingerprint_at(0).is_empty());
    assert!(comparer.difference_terms().is_empty());
}

#[test]
fn undecodable_bytes_give_decode_error() {
    let garbage = vec![1u8, 2, 3, 4, 5];
    let err = match ImagesComparer::new(&vec![garbage]) {
        Ok(_) => panic!("garbage bytes must not decode"),
        Err(e) => e,
    };
    assert_eq!(err, ImageError::Decode);
    assert_eq!(err.message(), "failed to open or decode the image");
}

#[test]
fn sixteen_bit_png_is_an_unsupported_encoding() {
    let img = image::DynamicImage::ImageRgb16(image::ImageBuffer::from_pixel(
        8,
        8,
        image::Rgb([1000u16, 2000, 3000]),
    ));
    let mut buf: Vec<u8> = Vec::new();
    img.write_to(&mut Cursor::new(&mut buf), image::ImageFormat::Png)
        .unwrap();
    let err = match ImagesComparer::new(&vec![buf]) {
        Ok(_) => panic!("a 16-bit pixel layout must be rejected"),
        Err(e) => e,
    };
    assert_eq!(err, ImageError::UnsupportedEncoding);
}

#[test]
fn compare_records_truncated_difference_for_first_image() {
    let base = png_rgba(32, 32, |x, y| quadrants(x, y, [200, 200, 0, 255]));
    let changed = png_rgba(32, 32, |x, y| quadrants(x, y, [50, 50, 50, 255]));
    let mut comparer = ImagesComparer::new(&vec![changed, base]).unwrap();
    assert!(!comparer.compare_with_first);
    let terms = comparer.difference_terms();
    let mut aggregate: f32 = 0.0;
    for &t in &terms {
        aggregate += (t as f32).sqrt();
    }
    let diff = aggregate as i32;
    comparer.compare(diff);
    assert_eq!(comparer.metadata_at(0).get(&1), Some(&diff));
    assert!(comparer.metadata_at(1).is_empty());
}
