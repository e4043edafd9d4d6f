//! The fitter: grayscale conversion of the source frame, target-size
//! computation (optionally preserving aspect ratio, with the width held
//! to a multiple of the tile width), and low-pass resampling onto the
//! working canvas.

use vstd::prelude::*;

use crate::grid::GrayImage;
use image::buffer::ConvertBuffer;
use vstd::arithmetic::div_mod::{
    lemma_div_is_ordered, lemma_fundamental_div_mod, lemma_fundamental_div_mod_converse,
    lemma_fundamental_div_mod_converse_div, lemma_mod_division_less_than_divisor,
};
use vstd::arithmetic::mul::lemma_mul_is_commutative;

verus! {

/// A decoded color frame: interleaved 8-bit RGB triples, row-major.
pub struct SourceImage {
    pub width: usize,
    pub height: usize,
    pub rgb: Vec<u8>,
}

impl SourceImage {
    /// Three samples per pixel, and dimensions a raster library can take.
    pub open spec fn wf(self) -> bool {
        &&& self.rgb@.len() == 3 * (self.width * self.height)
        &&& 3 * (self.width * self.height) <= usize::MAX
        &&& self.width <= u32::MAX
        &&& self.height <= u32::MAX
    }
}

/// Luminance of one RGB pixel as the image library computes it for 8-bit
/// samples: integer arithmetic with the ITU-R BT.709 weights.
pub open spec fn luma_of(r: u8, g: u8, b: u8) -> u8 {
    ((2126 * (r as int) + 7152 * (g as int) + 722 * (b as int)) / 10000) as u8
}

/// The grayscale plane of a whole RGB frame.
pub open spec fn grayscale_spec(rgb: Seq<u8>, n: int) -> Seq<u8> {
    Seq::new(n as nat, |i: int| luma_of(rgb[3 * i], rgb[3 * i + 1], rgb[3 * i + 2]))
}

/// Relies on the image crate's `ConvertBuffer` from `Rgb<u8>` to
/// `Luma<u8>`: each output sample is `(2126*R + 7152*G + 722*B) / 10000`.
#[verifier::external_body]
fn rgb_to_luma(width: usize, height: usize, rgb: &Vec<u8>) -> (r: Vec<u8>)
    requires
        rgb@.len() == 3 * (width * height),
        width <= u32::MAX,
        height <= u32::MAX,
    ensures
        r@.len() == width * height,
        forall|i: int|
            0 <= i < r@.len() ==> r@[i] == luma_of(rgb@[3 * i], rgb@[3 * i + 1], rgb@[3 * i + 2]),
{
    let img: image::RgbImage =
        image::ImageBuffer::from_raw(width as u32, height as u32, rgb.clone()).unwrap();
    let gray: image::GrayImage = img.convert();
    gray.into_raw()
}

/// Relies on fast_image_resize's `Resizer` with its default Lanczos3
/// convolution: a low-pass resample whose output buffer holds exactly one
/// sample per destination pixel. Its convolution weights pass through
/// platform floating point, so nothing is assumed about the samples.
#[verifier::external_body]
fn resize_luma(src: &Vec<u8>, src_w: usize, src_h: usize, dst_w: usize, dst_h: usize) -> (r: Vec<
    u8,
>)
    requires
        src@.len() == src_w * src_h,
        1 <= src_w <= u32::MAX,
        1 <= src_h <= u32::MAX,
        1 <= dst_w <= u32::MAX,
        1 <= dst_h <= u32::MAX,
    ensures
        r@.len() == dst_w * dst_h,
{
    let s = fast_image_resize::images::Image::from_vec_u8(
        src_w as u32,
        src_h as u32,
        src.clone(),
        fast_image_resize::PixelType::U8,
    ).unwrap();
    let mut d = fast_image_resize::images::Image::new(
        dst_w as u32,
        dst_h as u32,
        fast_image_resize::PixelType::U8,
    );
    let opts = fast_image_resize::ResizeOptions::default();
    fast_image_resize::Resizer::new().resize(&s, &mut d, &opts).unwrap();
    d.into_vec()
}

/// Convert a color frame to its single-channel grayscale plane.
pub fn to_grayscale(frame: &SourceImage) -> (g: GrayImage)
    requires
        frame.wf(),
    ensures
        g.width == frame.width,
        g.height == frame.height,
        g.wf(),
        g.data@ == grayscale_spec(frame.rgb@, (frame.width * frame.height) as int),
{
    let data = rgb_to_luma(frame.width, frame.height, &frame.rgb);
    proof {
        assert(data@ =~= grayscale_spec(frame.rgb@, (frame.width * frame.height) as int));
    }
    GrayImage { width: frame.width, height: frame.height, data }
}

/// Resample a grayscale image to the given dimensions; only the output
/// geometry is pinned, since the resampling kernel runs through platform
/// floating point.
pub fn resize_gray(img: &GrayImage, dst_w: usize, dst_h: usize) -> (r: GrayImage)
    requires
        img.wf(),
        1 <= img.width <= u32::MAX,
        1 <= img.height <= u32::MAX,
        1 <= dst_w <= u32::MAX,
        1 <= dst_h <= u32::MAX,
        dst_w * dst_h <= usize::MAX,
    ensures
        r.width == dst_w,
        r.height == dst_h,
        r.wf(),
{
    let data = resize_luma(&img.data, img.width, img.height, dst_w, dst_h);
    GrayImage { width: dst_w, height: dst_h, data }
}

/// Quotient of `a / b` rounded to the nearest integer, halves up.
pub open spec fn round_div(a: int, b: int) -> int {
    (2 * a + b) / (2 * b)
}

/// Round a width up to the next multiple of the tile width.
pub open spec fn round_up_to_tile(w: int) -> int {
    if w % 8 == 0 {
        w
    } else {
        w + (8 - w % 8)
    }
}

/// Target dimensions that fit a source frame into the canvas while
/// preserving its aspect ratio: scale by the tighter of the two ratios,
/// round to nearest, and hold the width to a multiple of the tile width
/// (rounding up, favoring a slightly worse fit).
pub open spec fn scaled_size_keep_aspect(sw: int, sh: int, tw: int, th: int) -> (int, int) {
    if tw * sh <= th * sw {
        (tw, round_div(sh * tw, sw))
    } else {
        (round_up_to_tile(round_div(sw * th, sh)), th)
    }
}

/// `round_div(a, b)` never exceeds `q` when `a <= q * b`.
proof fn lemma_round_div_bounded(a: int, b: int, q: int)
    requires
        0 <= a,
        1 <= b,
        0 <= q,
        a <= q * b,
    ensures
        0 <= round_div(a, b) <= q,
{
    assert(2 * a + b <= q * (2 * b) + b) by (nonlinear_arith)
        requires
            a <= q * b,
    ;
    lemma_div_is_ordered(2 * a + b, q * (2 * b) + b, 2 * b);
    lemma_fundamental_div_mod_converse_div(q * (2 * b) + b, 2 * b, q, b);
    vstd::arithmetic::div_mod::lemma_div_pos_is_pos(2 * a + b, 2 * b);
}

/// Compute the aspect-preserving target size for a source frame.
pub fn calc_scaled_size_keep_aspect(
    source_width: usize,
    source_height: usize,
    target_width: usize,
    target_height: usize,
) -> (r: (usize, usize))
    requires
        1 <= source_width <= u32::MAX,
        1 <= source_height <= u32::MAX,
        1 <= target_width <= 65536,
        target_width % 8 == 0,
        1 <= target_height <= 65536,
    ensures
        r.0 == scaled_size_keep_aspect(
            source_width as int,
            source_height as int,
            target_width as int,
            target_height as int,
        ).0,
        r.1 == scaled_size_keep_aspect(
            source_width as int,
            source_height as int,
            target_width as int,
            target_height as int,
        ).1,
        r.0 <= target_width,
        r.1 <= target_height,
        r.0 % 8 == 0,
{
    let sw = source_width as u64;
    let sh = source_height as u64;
    let tw = target_width as u64;
    let th = target_height as u64;
    proof {
        vstd::arithmetic::mul::lemma_mul_upper_bound(tw as int, 65536, sh as int, u32::MAX as int);
        vstd::arithmetic::mul::lemma_mul_upper_bound(th as int, 65536, sw as int, u32::MAX as int);
        vstd::arithmetic::mul::lemma_mul_upper_bound(sh as int, u32::MAX as int, tw as int, 65536);
        vstd::arithmetic::mul::lemma_mul_upper_bound(sw as int, u32::MAX as int, th as int, 65536);
    }
    if tw * sh <= th * sw {
        let num = 2 * (sh * tw) + sw;
        let den = 2 * sw;
        let height = num / den;
        proof {
            lemma_mul_is_commutative(tw as int, sh as int);
            assert(sh * tw <= th * sw) by (nonlinear_arith)
                requires
                    tw * sh <= th * sw,
                    sh * tw == tw * sh,
            ;
            lemma_round_div_bounded(sh as int * tw, sw as int, th as int);
        }
        (target_width, height as usize)
    } else {
        let num = 2 * (sw * th) + sh;
        let den = 2 * sh;
        let raw64 = num / den;
        proof {
            lemma_mul_is_commutative(th as int, sw as int);
            assert(sw * th <= tw * sh) by (nonlinear_arith)
                requires
                    th * sw < tw * sh,
                    sw * th == th * sw,
            ;
            lemma_round_div_bounded(sw as int * th, sh as int, tw as int);
        }
        let raw = raw64 as usize;
        if raw % 8 != 0 {
            proof {
                lemma_fundamental_div_mod(raw as int, 8);
                lemma_mod_division_less_than_divisor(raw as int, 8);
                lemma_fundamental_div_mod(target_width as int, 8);
                let m = raw as int / 8;
                let q = target_width as int / 8;
                assert(8 * m + 8 <= 8 * q) by (nonlinear_arith)
                    requires
                        8 * m + (raw as int % 8) <= 8 * q,
                        0 < raw as int % 8 < 8,
                ;
                lemma_fundamental_div_mod_converse(raw as int + (8 - raw as int % 8), 8, m + 1, 0);
            }
            let width = raw + (8 - raw % 8);
            (width, target_height)
        } else {
            (raw, target_height)
        }
    }
}

} // verus!
