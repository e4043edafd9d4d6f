//! The single stages: histogram and median, tone correction, the two
//! convolution filters, and both binarizer modes.

use servicepoint_render::dither::{
    gray_to_bit, ostromoukhov_dither, threshold_binarize, ERROR_DIFFUSION_MATRIX,
};
use servicepoint_render::filter::{blur, sharpen};
use servicepoint_render::grid::GrayImage;
use servicepoint_render::tone::{histogram_correction, make_histogram, median_brightness};

fn gray_of(width: usize, height: usize, data: Vec<u8>) -> GrayImage {
    assert_eq!(data.len(), width * height);
    GrayImage { width, height, data }
}

#[test]
fn histogram_counts_samples() {
    let img = gray_of(4, 1, vec![7, 7, 200, 0]);
    let h = make_histogram(&img);
    assert_eq!(h.len(), 256);
    assert_eq!(h[7], 2);
    assert_eq!(h[200], 1);
    assert_eq!(h[0], 1);
    assert_eq!(h[1], 0);
}

#[test]
fn median_of_four_values() {
    // Half of 4 samples is 2; the cumulative count reaches 2 at 20.
    let img = gray_of(4, 1, vec![10, 20, 30, 40]);
    assert_eq!(median_brightness(&img), 20);
}

#[test]
fn median_of_uniform_image() {
    let img = gray_of(8, 8, vec![91; 64]);
    assert_eq!(median_brightness(&img), 91);
}

#[test]
fn median_of_empty_image() {
    let img = gray_of(0, 0, vec![]);
    assert_eq!(median_brightness(&img), 0);
}

#[test]
fn tone_correction_is_identity_on_tiny_frames() {
    // Fewer samples than one adjustment unit: all three scans hit their
    // caps at brightness 0 and the remap reduces to the identity.
    let data: Vec<u8> = (0..64).map(|i| (i * 4) as u8).collect();
    let mut img = gray_of(8, 8, data.clone());
    histogram_correction(&mut img);
    assert_eq!(img.data, data);
}

#[test]
fn tone_correction_stretches_contrast() {
    // 320 samples: the adjustment unit is 320 / 160 = 2. Ten zeros keep
    // mincut and minshift at 0; the bulk at 100 pulls maxshift to its
    // floor of 192, so v' = (2 * v * 255) / 384.
    let mut data = vec![100u8; 320];
    for slot in data.iter_mut().take(10) {
        *slot = 0;
    }
    let mut img = gray_of(8, 40, data);
    histogram_correction(&mut img);
    for (i, &v) in img.data.iter().enumerate() {
        let expected = if i < 10 { 0 } else { 132 };
        assert_eq!(v, expected, "sample {i}");
    }
}

#[test]
fn tone_correction_preserves_sample_order() {
    // The remap is affine with a positive factor: samples that were in
    // non-decreasing order stay in non-decreasing order.
    let mut data: Vec<u8> = (0..=255).collect();
    data.extend(std::iter::repeat(128).take(320 - 256));
    let mut img = gray_of(8, 40, data);
    histogram_correction(&mut img);
    for i in 1..256 {
        assert!(img.data[i - 1] <= img.data[i], "order broken at {i}");
    }
}

#[test]
fn blur_averages_inner_pixel_and_copies_border() {
    let mut data = vec![100u8; 9];
    data[4] = 200;
    let source = gray_of(3, 3, data);
    let mut destination = gray_of(3, 3, vec![0; 9]);
    blur(&source, &mut destination);
    // Center: (8 * 200 + 8 * 100) / 16 = 150; the ring is copied.
    assert_eq!(destination.data, vec![100, 100, 100, 100, 150, 100, 100, 100, 100]);
}

#[test]
fn sharpen_amplifies_inner_pixel_and_copies_border() {
    let mut data = vec![100u8; 9];
    data[4] = 120;
    let source = gray_of(3, 3, data);
    let mut destination = gray_of(3, 3, vec![0; 9]);
    sharpen(&source, &mut destination);
    // Center: 9 * 120 - 8 * 100 = 280, clamped to 255; the ring is copied.
    assert_eq!(destination.data, vec![100, 100, 100, 100, 255, 100, 100, 100, 100]);
}

#[test]
fn sharpen_clamps_to_zero() {
    let mut data = vec![100u8; 9];
    data[4] = 20;
    let source = gray_of(3, 3, data);
    let mut destination = gray_of(3, 3, vec![0; 9]);
    sharpen(&source, &mut destination);
    // Center: 9 * 20 - 8 * 100 = -620, clamped to 0.
    assert_eq!(destination.data[4], 0);
}

#[test]
fn gray_to_bit_thresholds_and_reports_error() {
    assert_eq!(gray_to_bit(200, 127), (true, 55));
    assert_eq!(gray_to_bit(127, 127), (false, 127));
    assert_eq!(gray_to_bit(128, 127), (true, 127));
    assert_eq!(gray_to_bit(0, 127), (false, 0));
    assert_eq!(gray_to_bit(255, 127), (true, 0));
}

#[test]
fn threshold_all_set_above_median() {
    // A single sample's median is 0, so the one pixel exceeds it.
    let img = gray_of(1, 1, vec![5]);
    let bitmap = threshold_binarize(&img);
    assert_eq!(bitmap.bits, vec![true]);
}

#[test]
fn threshold_all_clear_at_median() {
    // In a uniform image every sample equals the median, and the strict
    // comparison clears every bit.
    let img = gray_of(8, 8, vec![7; 64]);
    let bitmap = threshold_binarize(&img);
    assert_eq!(bitmap.width, 8);
    assert_eq!(bitmap.height, 8);
    assert!(bitmap.bits.iter().all(|&b| !b));
}

#[test]
fn threshold_splits_at_median() {
    let img = gray_of(4, 1, vec![10, 20, 200, 250]);
    // Median is 20: bits above it are set.
    let bitmap = threshold_binarize(&img);
    assert_eq!(bitmap.bits, vec![false, false, true, true]);
}

#[test]
fn dither_uniform_bright_image() {
    // 16x16 uniform 200 with bias 127: the first visited pixel emits 1
    // (200 > 127) with error 55 diffused per the table, and the frame
    // dithers mostly on. Error diffusion preserves average brightness,
    // so the set fraction lands near 200/255 of the pixels.
    assert_eq!(ERROR_DIFFUSION_MATRIX[55], [27, 22, 6]);
    let img = gray_of(16, 16, vec![200; 256]);
    let bitmap = ostromoukhov_dither(img, 127);
    assert_eq!(bitmap.width, 16);
    assert_eq!(bitmap.height, 16);
    assert!(bitmap.bits[0]);
    let set = bitmap.bits.iter().filter(|&&b| b).count();
    assert!(set >= 190 && set <= 212, "set count {set}/256 far from 200");
}

#[test]
fn dither_uniform_dark_image() {
    let img = gray_of(16, 16, vec![30; 256]);
    let bitmap = ostromoukhov_dither(img, 127);
    assert!(!bitmap.bits[0]);
    let set = bitmap.bits.iter().filter(|&&b| b).count();
    assert!(set * 10 < 256 * 3, "set fraction {set}/256 not below 30%");
}

#[test]
fn dither_midtone_balances() {
    // A midtone frame should emit set bits at roughly the tone's rate.
    let img = gray_of(16, 16, vec![128; 256]);
    let bitmap = ostromoukhov_dither(img, 127);
    let set = bitmap.bits.iter().filter(|&&b| b).count();
    assert!(set > 64 && set < 192, "set fraction {set}/256 far from half");
}
