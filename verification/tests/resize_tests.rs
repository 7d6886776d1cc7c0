use wanipaper::config::ResizeKind;
use wanipaper::pixmap::Pixmap;
use wanipaper::resize::{cover_dims_checked, resize, resize_ok_check};

/// A solid-colour image.
fn solid(width: u32, height: u32, rgba: [u8; 4]) -> Pixmap {
    let mut data = Vec::new();
    for _ in 0..width * height {
        data.extend_from_slice(&rgba);
    }
    Pixmap { width, height, data }
}

/// An image whose top half is one colour and bottom half another.
fn halves(width: u32, height: u32, top: [u8; 4], bottom: [u8; 4]) -> Pixmap {
    let mut data = Vec::new();
    for y in 0..height {
        for _ in 0..width {
            if y < height / 2 {
                data.extend_from_slice(&top);
            } else {
                data.extend_from_slice(&bottom);
            }
        }
    }
    Pixmap { width, height, data }
}

fn pixel(img: &Pixmap, x: u32, y: u32) -> [u8; 4] {
    let base = (4 * (y * img.width + x)) as usize;
    [img.data[base], img.data[base + 1], img.data[base + 2], img.data[base + 3]]
}

const RED: [u8; 4] = [255, 0, 0, 255];
const BLUE: [u8; 4] = [0, 0, 255, 255];

#[test]
fn stretch_dims_exact_upscale() {
    let img = solid(4, 4, RED);
    let out = resize(&img, 8, 2, ResizeKind::Stretch);
    assert_eq!(out.width, 8);
    assert_eq!(out.height, 2);
    assert_eq!(out.data.len(), 8 * 2 * 4);
}

#[test]
fn stretch_dims_exact_downscale() {
    let img = solid(4, 4, BLUE);
    let out = resize(&img, 2, 2, ResizeKind::Stretch);
    assert_eq!(out.width, 2);
    assert_eq!(out.height, 2);
    assert_eq!(pixel(&out, 0, 0), BLUE);
}

#[test]
fn cover_dims_exact_upscale() {
    let img = solid(4, 4, RED);
    let out = resize(&img, 10, 6, ResizeKind::Cover);
    assert_eq!(out.width, 10);
    assert_eq!(out.height, 6);
    assert_eq!(out.data.len(), 10 * 6 * 4);
}

#[test]
fn cover_dims_exact_downscale() {
    let img = solid(16, 8, BLUE);
    let out = resize(&img, 3, 5, ResizeKind::Cover);
    assert_eq!(out.width, 3);
    assert_eq!(out.height, 5);
}

#[test]
fn cover_scaled_dimensions_square_to_wide() {
    // A square source against a 200x100 target scales to 200x200.
    let dims = cover_dims_checked(100, 100, 200, 100).unwrap();
    assert_eq!(dims, (200, 200));
}

#[test]
fn cover_square_source_crops_rows_only() {
    // 100x100 source, 200x100 target: the scaled image is 200x200 and rows
    // 50..150 are kept, columns not cropped. The red top half and blue
    // bottom half of the source must both survive into the result.
    let img = halves(100, 100, RED, BLUE);
    let out = resize(&img, 200, 100, ResizeKind::Cover);
    assert_eq!(out.width, 200);
    assert_eq!(out.height, 100);
    // Rows 0..50 of the result come from the red half, rows 50..100 from
    // the blue half; sample well inside each band and at both column edges.
    assert_eq!(pixel(&out, 10, 10), RED);
    assert_eq!(pixel(&out, 0, 10), RED);
    assert_eq!(pixel(&out, 199, 10), RED);
    assert_eq!(pixel(&out, 10, 90), BLUE);
    assert_eq!(pixel(&out, 199, 90), BLUE);
}

#[test]
fn stretch_changes_dimensions_really() {
    let img = solid(1, 1, RED);
    let out = resize(&img, 2, 2, ResizeKind::Stretch);
    assert_eq!(out.width, 2);
    assert_eq!(out.height, 2);
    assert_eq!(pixel(&out, 1, 1), RED);
}

#[test]
fn zero_area_target_yields_empty_buffer() {
    let img = solid(4, 4, RED);
    let out = resize(&img, 0, 5, ResizeKind::Cover);
    assert_eq!(out.width, 0);
    assert_eq!(out.height, 5);
    assert_eq!(out.data.len(), 0);
    let out2 = resize(&img, 5, 0, ResizeKind::Stretch);
    assert_eq!(out2.width, 5);
    assert_eq!(out2.height, 0);
    assert_eq!(out2.data.len(), 0);
}

#[test]
fn resize_ok_check_accepts_ordinary_sizes() {
    let img = solid(4, 4, RED);
    assert!(resize_ok_check(&img, 1920, 1080, ResizeKind::Cover));
    assert!(resize_ok_check(&img, 1920, 1080, ResizeKind::Stretch));
    assert!(resize_ok_check(&img, 0, 0, ResizeKind::Cover));
}

#[test]
fn resize_ok_check_rejects_oversized_targets() {
    // A 1x4 source covering a 65536-wide, 1-tall target needs a scaled
    // height of 262144, whose buffer exceeds the engine's byte bound.
    let img = solid(1, 4, RED);
    assert!(!resize_ok_check(&img, 65536, 1, ResizeKind::Cover));
    // Stretch to 65536x65536 likewise exceeds the byte bound.
    assert!(!resize_ok_check(&img, 65536, 65536, ResizeKind::Stretch));
}
