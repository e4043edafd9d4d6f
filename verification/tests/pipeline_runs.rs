//! The pipeline end to end: geometry of the output, error cases,
//! configuration defaults, and repeatability.

use servicepoint_render::cli::ImageProcessingOptions;
use servicepoint_render::fit::SourceImage;
use servicepoint_render::pipeline::{ImageProcessingPipeline, RenderError};

fn uniform_frame(width: usize, height: usize, r: u8, g: u8, b: u8) -> SourceImage {
    let mut rgb = Vec::with_capacity(3 * width * height);
    for _ in 0..width * height {
        rgb.push(r);
        rgb.push(g);
        rgb.push(b);
    }
    SourceImage { width, height, rgb }
}

#[test]
fn options_default_enables_every_stage() {
    let o = ImageProcessingOptions::default();
    assert!(!o.no_hist);
    assert!(!o.no_blur);
    assert!(!o.no_sharp);
    assert!(!o.no_dither);
    assert!(!o.no_spacers);
    assert!(!o.no_aspect);
    assert_eq!(o.dither_bias, 127);
}

#[test]
fn pipeline_canvas_geometry() {
    let with_spacers = ImageProcessingPipeline::new(ImageProcessingOptions::default());
    assert_eq!(with_spacers.render_width, 448);
    assert_eq!(with_spacers.render_height, 236);

    let without = ImageProcessingPipeline::new(ImageProcessingOptions {
        no_spacers: true,
        ..ImageProcessingOptions::default()
    });
    assert_eq!(without.render_height, 160);
}

#[test]
fn process_produces_device_raster() {
    let pipeline = ImageProcessingPipeline::new(ImageProcessingOptions::default());
    let frame = uniform_frame(448, 236, 200, 200, 200);
    let bitmap = pipeline.process(frame).unwrap();
    assert_eq!(bitmap.width, 448);
    assert_eq!(bitmap.height, 160);
    assert_eq!(bitmap.bits.len(), 448 * 160);
}

#[test]
fn process_without_spacer_removal_keeps_canvas_height() {
    let pipeline = ImageProcessingPipeline::new(ImageProcessingOptions {
        no_spacers: true,
        ..ImageProcessingOptions::default()
    });
    let frame = uniform_frame(448, 160, 120, 130, 140);
    let bitmap = pipeline.process(frame).unwrap();
    assert_eq!(bitmap.width, 448);
    assert_eq!(bitmap.height, 160);
}

#[test]
fn process_keeps_aspect_width_multiple_of_tile() {
    let pipeline = ImageProcessingPipeline::new(ImageProcessingOptions::default());
    let frame = uniform_frame(100, 100, 60, 60, 60);
    let bitmap = pipeline.process(frame).unwrap();
    // Square frame: height-constrained fit of 236 rows, width rounded up
    // to the next tile multiple, then the spacer rows removed.
    assert_eq!(bitmap.width, 240);
    assert_eq!(bitmap.width % 8, 0);
    assert_eq!(bitmap.height, 160);
}

#[test]
fn process_rejects_empty_frame() {
    let pipeline = ImageProcessingPipeline::new(ImageProcessingOptions::default());
    let frame = SourceImage { width: 0, height: 0, rgb: vec![] };
    assert!(matches!(pipeline.process(frame), Err(RenderError::EmptyFrame)));
}

#[test]
fn process_rejects_degenerate_aspect() {
    let pipeline = ImageProcessingPipeline::new(ImageProcessingOptions::default());
    let frame = uniform_frame(10000, 1, 9, 9, 9);
    assert!(matches!(pipeline.process(frame), Err(RenderError::DegenerateGeometry)));
}

#[test]
fn process_stretches_when_aspect_disabled() {
    let pipeline = ImageProcessingPipeline::new(ImageProcessingOptions {
        no_aspect: true,
        no_spacers: true,
        ..ImageProcessingOptions::default()
    });
    let frame = uniform_frame(10000, 1, 9, 9, 9);
    let bitmap = pipeline.process(frame).unwrap();
    assert_eq!(bitmap.width, 448);
    assert_eq!(bitmap.height, 160);
}

#[test]
fn process_twice_gives_identical_output() {
    // Same input, same configuration, no shared mutable state: the two
    // final bitmaps are bit-identical.
    let pipeline = ImageProcessingPipeline::new(ImageProcessingOptions::default());
    let first = pipeline.process(uniform_frame(320, 200, 13, 130, 213)).unwrap();
    let second = pipeline.process(uniform_frame(320, 200, 13, 130, 213)).unwrap();
    assert_eq!(first.width, second.width);
    assert_eq!(first.height, second.height);
    assert_eq!(first.bits, second.bits);
}

#[test]
fn process_threshold_mode() {
    let pipeline = ImageProcessingPipeline::new(ImageProcessingOptions {
        no_dither: true,
        no_hist: true,
        no_blur: true,
        no_sharp: true,
        ..ImageProcessingOptions::default()
    });
    // Uniform frame: every sample equals the median, so no bit is set.
    let bitmap = pipeline.process(uniform_frame(448, 236, 99, 99, 99)).unwrap();
    assert!(bitmap.bits.iter().all(|&b| !b));
}

#[test]
fn process_dither_bias_extremes() {
    // Bias 255 can never be exceeded: every bit stays clear.
    let pipeline = ImageProcessingPipeline::new(ImageProcessingOptions {
        dither_bias: 255,
        no_hist: true,
        no_blur: true,
        no_sharp: true,
        ..ImageProcessingOptions::default()
    });
    let bitmap = pipeline.process(uniform_frame(448, 236, 200, 200, 200)).unwrap();
    assert!(bitmap.bits.iter().all(|&b| !b));
}
