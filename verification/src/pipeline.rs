//! The whole rendering pipeline: fit the source frame onto the working
//! canvas, tone-correct, filter, binarize, and remove the spacer rows.

use vstd::prelude::*;

use crate::cli::ImageProcessingOptions;
use crate::dither::{dither_spec, ostromoukhov_dither, threshold_binarize, threshold_spec};
use crate::filter::{blur, blur_spec, sharpen, sharpen_spec};
use crate::fit::{
    calc_scaled_size_keep_aspect, resize_gray, scaled_size_keep_aspect, to_grayscale, SourceImage,
};
use crate::grid::{Bitmap, GrayImage};
use crate::spacers::{height_without_spacers, remove_spacers, remove_spacers_spec};
use crate::tone::{histogram_correction, median_spec, tone_correct_spec};
use crate::{PIXEL_HEIGHT, PIXEL_WIDTH, SPACER_HEIGHT, TILE_HEIGHT};

verus! {

/// Why a frame could not be rendered.
#[derive(Debug, PartialEq, Eq, Structural)]
pub enum RenderError {
    /// The source frame has zero width or height.
    EmptyFrame,
    /// The aspect-preserving fit collapsed the frame to zero rows or
    /// columns.
    DegenerateGeometry,
}

/// The grayscale processing chain: tone correction, blur, sharpen, each
/// applied unless switched off.
pub open spec fn grayscale_processing_spec(
    s: Seq<u8>,
    w: int,
    h: int,
    o: ImageProcessingOptions,
) -> Seq<u8> {
    let s1 = if !o.no_hist {
        tone_correct_spec(s)
    } else {
        s
    };
    let s2 = if !o.no_blur {
        blur_spec(s1, w, h)
    } else {
        s1
    };
    if !o.no_sharp {
        sharpen_spec(s2, w, h)
    } else {
        s2
    }
}

/// The binarizer: a global threshold at the median brightness, or
/// serpentine error-diffusion dithering.
pub open spec fn binarize_spec(s: Seq<u8>, w: int, h: int, o: ImageProcessingOptions) -> Seq<
    bool,
> {
    if o.no_dither {
        threshold_spec(s, median_spec(s))
    } else {
        dither_spec(s, w, h, o.dither_bias)
    }
}

/// The whole rendering core on a working image of the canvas geometry:
/// grayscale processing, binarization, and spacer removal.
pub open spec fn render_spec(s: Seq<u8>, w: int, h: int, o: ImageProcessingOptions) -> Seq<bool> {
    let bits = binarize_spec(grayscale_processing_spec(s, w, h, o), w, h, o);
    if o.no_spacers {
        bits
    } else {
        remove_spacers_spec(bits, w, h)
    }
}

/// Height of the final raster produced from a working canvas of height
/// `h`.
pub open spec fn rendered_height(h: int, o: ImageProcessingOptions) -> int {
    if o.no_spacers {
        h
    } else {
        height_without_spacers(h)
    }
}

/// The pipeline instance: the configuration and the fixed working-canvas
/// geometry derived from it.
pub struct ImageProcessingPipeline {
    pub options: ImageProcessingOptions,
    pub render_width: usize,
    pub render_height: usize,
}

impl ImageProcessingPipeline {
    /// The canvas is the device raster, padded with gap rows unless
    /// spacer removal is disabled.
    pub open spec fn wf(self) -> bool {
        &&& self.render_width == PIXEL_WIDTH
        &&& self.render_height == PIXEL_HEIGHT + if self.options.no_spacers {
            0int
        } else {
            (SPACER_HEIGHT * (TILE_HEIGHT - 1)) as int
        }
    }

    /// Target dimensions the fitter maps a source frame of the given size
    /// to.
    pub open spec fn scaled_dims(self, sw: int, sh: int) -> (int, int) {
        if self.options.no_aspect {
            (self.render_width as int, self.render_height as int)
        } else {
            scaled_size_keep_aspect(sw, sh, self.render_width as int, self.render_height as int)
        }
    }

    /// Build a pipeline for the given configuration: the working canvas
    /// is the device raster plus one gap's worth of rows between every
    /// pair of adjacent tile rows, unless spacer removal is disabled.
    pub fn new(options: ImageProcessingOptions) -> (r: ImageProcessingPipeline)
        ensures
            r.options == options,
            r.wf(),
    {
        let height = PIXEL_HEIGHT + if options.no_spacers {
            0
        } else {
            SPACER_HEIGHT * (TILE_HEIGHT - 1)
        };
        ImageProcessingPipeline { options, render_width: PIXEL_WIDTH, render_height: height }
    }

    /// The fitter: convert the frame to grayscale and resample it onto
    /// the working canvas, preserving aspect ratio unless disabled. A
    /// zero-dimension frame, or one whose fit collapses to zero rows or
    /// columns, is rejected.
    pub fn resize_grayscale(&self, frame: &SourceImage) -> (r: Result<GrayImage, RenderError>)
        requires
            self.wf(),
            frame.wf(),
        ensures
            ({
                let dims = self.scaled_dims(frame.width as int, frame.height as int);
                &&& (r is Ok <==> frame.width > 0 && frame.height > 0 && dims.0 > 0 && dims.1 > 0)
                &&& (frame.width == 0 || frame.height == 0 ==> r == Err::<
                    GrayImage,
                    RenderError,
                >(RenderError::EmptyFrame))
                &&& (frame.width > 0 && frame.height > 0 && (dims.0 == 0 || dims.1 == 0)
                    ==> r == Err::<GrayImage, RenderError>(RenderError::DegenerateGeometry))
                &&& (r is Ok ==> r->Ok_0.wf() && r->Ok_0.width == dims.0 && r->Ok_0.height
                    == dims.1 && dims.0 % 8 == 0)
            }),
    {
        if frame.width == 0 || frame.height == 0 {
            return Err(RenderError::EmptyFrame);
        }
        let (scaled_width, scaled_height) = if self.options.no_aspect {
            (self.render_width, self.render_height)
        } else {
            calc_scaled_size_keep_aspect(
                frame.width,
                frame.height,
                self.render_width,
                self.render_height,
            )
        };
        if scaled_width == 0 || scaled_height == 0 {
            return Err(RenderError::DegenerateGeometry);
        }
        let gray = to_grayscale(frame);
        proof {
            vstd::arithmetic::mul::lemma_mul_upper_bound(
                scaled_width as int,
                448,
                scaled_height as int,
                65536,
            );
        }
        Ok(resize_gray(&gray, scaled_width, scaled_height))
    }

    /// The grayscale processing chain, in canonical order: tone
    /// correction, then blur, then sharpen, each unless switched off.
    pub fn grayscale_processing(&self, frame: GrayImage) -> (r: GrayImage)
        requires
            frame.wf(),
        ensures
            r.width == frame.width,
            r.height == frame.height,
            r.wf(),
            r.data@ == grayscale_processing_spec(
                frame.data@,
                frame.width as int,
                frame.height as int,
                self.options,
            ),
    {
        let mut frame = frame;
        if !self.options.no_hist {
            histogram_correction(&mut frame);
        }
        if !self.options.no_blur {
            let mut destination = GrayImage::new_filled(frame.width, frame.height, 0);
            blur(&frame, &mut destination);
            frame = destination;
        }
        if !self.options.no_sharp {
            let mut destination = GrayImage::new_filled(frame.width, frame.height, 0);
            sharpen(&frame, &mut destination);
            frame = destination;
        }
        frame
    }

    /// The binarizer: a global threshold at the median brightness when
    /// dithering is disabled, else serpentine error diffusion at the
    /// configured bias.
    pub fn grayscale_to_bitmap(&self, orig: GrayImage) -> (r: Bitmap)
        requires
            orig.wf(),
            orig.width % 8 == 0,
        ensures
            r.width == orig.width,
            r.height == orig.height,
            r.wf(),
            r.bits@ == binarize_spec(
                orig.data@,
                orig.width as int,
                orig.height as int,
                self.options,
            ),
    {
        if self.options.no_dither {
            threshold_binarize(&orig)
        } else {
            ostromoukhov_dither(orig, self.options.dither_bias)
        }
    }

    /// Render one frame to the final device raster: fit, process, and
    /// binarize it, then delete the gap rows unless spacer removal is
    /// disabled. The output width is the fitted width, a multiple of the
    /// tile width; the output height follows the spacer geometry formula.
    pub fn process(&self, frame: SourceImage) -> (r: Result<Bitmap, RenderError>)
        requires
            self.wf(),
            frame.wf(),
        ensures
            ({
                let dims = self.scaled_dims(frame.width as int, frame.height as int);
                &&& (r is Ok <==> frame.width > 0 && frame.height > 0 && dims.0 > 0 && dims.1 > 0)
                &&& (frame.width == 0 || frame.height == 0 ==> r == Err::<
                    Bitmap,
                    RenderError,
                >(RenderError::EmptyFrame))
                &&& (frame.width > 0 && frame.height > 0 && (dims.0 == 0 || dims.1 == 0)
                    ==> r == Err::<Bitmap, RenderError>(RenderError::DegenerateGeometry))
                &&& (r is Ok ==> r->Ok_0.wf() && r->Ok_0.width == dims.0 && r->Ok_0.width % 8 == 0
                    && r->Ok_0.height == rendered_height(dims.1, self.options))
                &&& (r is Ok ==> exists|g: Seq<u8>|
                    g.len() == dims.0 * dims.1 && #[trigger] render_spec(
                        g,
                        dims.0,
                        dims.1,
                        self.options,
                    ) == r->Ok_0.bits@)
            }),
    {
        let fitted = match self.resize_grayscale(&frame) {
            Ok(g) => g,
            Err(e) => { return Err(e) },
        };
        let ghost dims = self.scaled_dims(frame.width as int, frame.height as int);
        let ghost fitted_view = fitted.data@;
        let processed = self.grayscale_processing(fitted);
        let bitmap = self.grayscale_to_bitmap(processed);
        let result = if !self.options.no_spacers {
            remove_spacers(bitmap)
        } else {
            bitmap
        };
        proof {
            assert(render_spec(fitted_view, dims.0, dims.1, self.options) == result.bits@);
        }
        Ok(result)
    }
}

/// The rendering core is a pure function of the working image and the
/// configuration: two runs over the same samples with the same options
/// produce bit-identical output, whatever buffers either run scratched.
pub proof fn lemma_render_deterministic(
    r1: Seq<bool>,
    r2: Seq<bool>,
    s: Seq<u8>,
    w: int,
    h: int,
    o: ImageProcessingOptions,
)
    requires
        r1 == render_spec(s, w, h, o),
        r2 == render_spec(s, w, h, o),
    ensures
        r1 == r2,
{
}

} // verus!
