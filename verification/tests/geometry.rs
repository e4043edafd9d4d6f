//! Geometry: spacer-row arithmetic, row remapping, and the fitter's
//! target-size computation.

use servicepoint_render::fit::{calc_scaled_size_keep_aspect, resize_gray, to_grayscale, SourceImage};
use servicepoint_render::grid::{Bitmap, GrayImage};
use servicepoint_render::spacers::{calc_height_without_spacers, remove_spacers};

fn bitmap_of(width: usize, height: usize, bits: Vec<bool>) -> Bitmap {
    assert_eq!(bits.len(), width * height);
    Bitmap { width, height, bits }
}

#[test]
fn spacer_height_formula_example() {
    // H = 44, T = 8, S = 4: three full 12-row periods and a remainder of
    // 8 leave 3 * 4 = 12 spacer rows, so 32 rows remain.
    assert_eq!(calc_height_without_spacers(44), 32);
}

#[test]
fn spacer_height_full_canvas() {
    // The default working canvas maps back to the device height.
    assert_eq!(calc_height_without_spacers(236), 160);
}

#[test]
fn spacer_height_small_cases() {
    assert_eq!(calc_height_without_spacers(0), 0);
    assert_eq!(calc_height_without_spacers(8), 8);
    // A remainder reaching into a trailing spacer is dropped.
    assert_eq!(calc_height_without_spacers(11), 8);
    assert_eq!(calc_height_without_spacers(12), 8);
    assert_eq!(calc_height_without_spacers(13), 9);
}

#[test]
fn remove_spacers_skips_gap_rows() {
    // 1 tile column wide, 44 rows: rows 12..20 (the second tile) are set.
    let width = 8;
    let height = 44;
    let mut bits = vec![false; width * height];
    for y in 12..20 {
        for x in 0..width {
            bits[y * width + x] = true;
        }
    }
    let source = bitmap_of(width, height, bits);
    let result = remove_spacers(source);
    assert_eq!(result.width, 8);
    assert_eq!(result.height, 32);
    // Output rows 8..16 come from source rows 12..20; everything else is
    // clear.
    for y in 0..32 {
        for x in 0..width {
            let expected = (8..16).contains(&y);
            assert_eq!(result.bits[y * width + x], expected, "row {y}");
        }
    }
}

#[test]
fn aspect_fit_exact_canvas() {
    // A frame already shaped like the canvas scales to the full canvas.
    assert_eq!(calc_scaled_size_keep_aspect(448, 160, 448, 236), (448, 160));
}

#[test]
fn aspect_fit_square_rounds_width_up() {
    // A square frame is height-constrained: width 236 rounds up to 240.
    assert_eq!(calc_scaled_size_keep_aspect(100, 100, 448, 236), (240, 236));
}

#[test]
fn aspect_fit_wide_frame() {
    // A 2:1 frame is width-constrained: height = round(100 * 448 / 200).
    assert_eq!(calc_scaled_size_keep_aspect(200, 100, 448, 236), (448, 224));
}

#[test]
fn aspect_fit_extreme_banner_collapses() {
    // A 10000x1 banner scales to zero rows.
    assert_eq!(calc_scaled_size_keep_aspect(10000, 1, 448, 236), (448, 0));
}

#[test]
fn grayscale_conversion_uses_luma_weights() {
    // One pixel each of red, green, blue, white, black.
    let frame = SourceImage {
        width: 5,
        height: 1,
        rgb: vec![255, 0, 0, 0, 255, 0, 0, 0, 255, 255, 255, 255, 0, 0, 0],
    };
    let gray = to_grayscale(&frame);
    assert_eq!(gray.width, 5);
    assert_eq!(gray.height, 1);
    // (2126 * R + 7152 * G + 722 * B) / 10000
    assert_eq!(gray.data, vec![54, 182, 18, 255, 0]);
}

#[test]
fn resize_preserves_uniform_image() {
    let img = GrayImage {
        width: 16,
        height: 16,
        data: vec![100; 256],
    };
    let small = resize_gray(&img, 8, 8);
    assert_eq!(small.width, 8);
    assert_eq!(small.height, 8);
    assert_eq!(small.data.len(), 64);
    assert!(small.data.iter().all(|&v| v == 100));
}
