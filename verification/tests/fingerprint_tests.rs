use image_similarity::fingerprint::{extract_fingerprint, ColorDelta};

fn grid_of(pixels: &[[u8; 4]]) -> Vec<u8> {
    let mut out = Vec::new();
    for p in pixels {
        out.extend_from_slice(p);
    }
    out
}

#[test]
fn uniform_grid_has_empty_fingerprint() {
    let grid = vec![7u8; 1024];
    let fp = extract_fingerprint(&grid);
    assert!(fp.is_empty());
}

#[test]
fn single_transition_yields_one_delta() {
    let mut pixels = vec![[5u8, 6, 7, 255]; 256];
    pixels[0] = [1, 2, 3, 255];
    let grid = grid_of(&pixels);
    let fp = extract_fingerprint(&grid);
    // Squares: (25, 36, 49) after (1, 4, 9).
    assert_eq!(fp, vec![ColorDelta { r: 24, g: 32, b: 40 }]);
}

#[test]
fn alternating_grid_reaches_maximum_length() {
    let mut pixels = vec![[0u8, 0, 0, 255]; 256];
    for (i, p) in pixels.iter_mut().enumerate() {
        if i % 2 == 1 {
            *p = [255, 255, 255, 255];
        }
    }
    let grid = grid_of(&pixels);
    let fp = extract_fingerprint(&grid);
    assert_eq!(fp.len(), 255);
    assert_eq!(fp[0], ColorDelta { r: 65025, g: 65025, b: 65025 });
    assert_eq!(fp[1], ColorDelta { r: -65025, g: -65025, b: -65025 });
}

#[test]
fn short_buffer_falls_back_to_black() {
    // Only cell 0 exists; every later cell counts as opaque black.
    let grid = vec![10u8, 10, 10, 255];
    let fp = extract_fingerprint(&grid);
    assert_eq!(fp, vec![ColorDelta { r: -100, g: -100, b: -100 }]);
}

#[test]
fn empty_buffer_has_empty_fingerprint() {
    let grid: Vec<u8> = Vec::new();
    let fp = extract_fingerprint(&grid);
    assert!(fp.is_empty());
}

#[test]
fn partial_trailing_pixel_counts_as_black() {
    // 4 full pixels and 2 stray bytes: cell 4 is already out of range.
    let mut grid = vec![3u8; 16];
    grid.push(200);
    grid.push(200);
    let fp = extract_fingerprint(&grid);
    // Cells 0..=3 share one color; cell 4 drops to black; the rest stay black.
    assert_eq!(fp, vec![ColorDelta { r: -9, g: -9, b: -9 }]);
}
