//! The two 3x3 convolution passes: center-weighted blur and unsharp-mask
//! sharpen. The outermost ring of pixels is copied unchanged, since a
//! full 3x3 neighborhood is unavailable there.

use vstd::prelude::*;

use crate::grid::{lemma_raster_index_in_bounds, raster_index, GrayImage};
use vstd::arithmetic::div_mod::lemma_fundamental_div_mod_converse;

verus! {

/// Whether (x, y) lies on the outermost row or column of a w-by-h raster.
pub open spec fn is_border(w: int, h: int, x: int, y: int) -> bool {
    x == 0 || y == 0 || x == w - 1 || y == h - 1
}

/// Blur at an inner pixel: 3x3 weights {1,1,1,1,8,1,1,1,1}, normalized by 16.
pub open spec fn blur_at(s: Seq<u8>, w: int, x: int, y: int) -> u8 {
    let sum = s[raster_index(w, x - 1, y - 1)] + s[raster_index(w, x, y - 1)] + s[raster_index(
        w,
        x + 1,
        y - 1,
    )] + s[raster_index(w, x - 1, y)] + 8 * s[raster_index(w, x, y)] + s[raster_index(w, x + 1, y)]
        + s[raster_index(w, x - 1, y + 1)] + s[raster_index(w, x, y + 1)] + s[raster_index(
        w,
        x + 1,
        y + 1,
    )];
    (sum / 16) as u8
}

/// Sharpen at an inner pixel: 3x3 weights {-1,...,9,...,-1}, clamped to
/// the 8-bit range.
pub open spec fn sharpen_at(s: Seq<u8>, w: int, x: int, y: int) -> u8 {
    let t = 9 * s[raster_index(w, x, y)] - s[raster_index(w, x - 1, y - 1)] - s[raster_index(
        w,
        x,
        y - 1,
    )] - s[raster_index(w, x + 1, y - 1)] - s[raster_index(w, x - 1, y)] - s[raster_index(
        w,
        x + 1,
        y,
    )] - s[raster_index(w, x - 1, y + 1)] - s[raster_index(w, x, y + 1)] - s[raster_index(
        w,
        x + 1,
        y + 1,
    )];
    if t <= 0 {
        0u8
    } else if t >= 255 {
        255u8
    } else {
        t as u8
    }
}

/// The whole blur pass: border pixels copied, inner pixels convolved.
pub open spec fn blur_spec(s: Seq<u8>, w: int, h: int) -> Seq<u8> {
    Seq::new(
        s.len(),
        |i: int|
            if is_border(w, h, i % w, i / w) {
                s[i]
            } else {
                blur_at(s, w, i % w, i / w)
            },
    )
}

/// The whole sharpen pass: border pixels copied, inner pixels convolved.
pub open spec fn sharpen_spec(s: Seq<u8>, w: int, h: int) -> Seq<u8> {
    Seq::new(
        s.len(),
        |i: int|
            if is_border(w, h, i % w, i / w) {
                s[i]
            } else {
                sharpen_at(s, w, i % w, i / w)
            },
    )
}

/// Center-weighted box blur of `source` into `destination`, never in
/// place; the border ring is copied unchanged.
pub fn blur(source: &GrayImage, destination: &mut GrayImage)
    requires
        source.wf(),
        old(destination).wf(),
        source.width == old(destination).width,
        source.height == old(destination).height,
    ensures
        final(destination).width == source.width,
        final(destination).height == source.height,
        final(destination).wf(),
        final(destination).data@ == blur_spec(
            source.data@,
            source.width as int,
            source.height as int,
        ),
{
    let w = source.width;
    let h = source.height;
    let ghost bspec = blur_spec(source.data@, w as int, h as int);
    let mut y: usize = 0;
    while y < h
        invariant
            source.wf(),
            destination.wf(),
            source.width == w,
            source.height == h,
            destination.width == w,
            destination.height == h,
            bspec == blur_spec(source.data@, w as int, h as int),
            y <= h,
            forall|i: int| 0 <= i < y * (w as int) ==> destination.data@[i] == bspec[i],
        decreases h - y,
    {
        let mut x: usize = 0;
        while x < w
            invariant
                source.wf(),
                destination.wf(),
                source.width == w,
                source.height == h,
                destination.width == w,
                destination.height == h,
                bspec == blur_spec(source.data@, w as int, h as int),
                y < h,
                x <= w,
                forall|i: int| 0 <= i < y * (w as int) + x ==> destination.data@[i] == bspec[i],
            decreases w - x,
        {
            let val: u8 = if x == 0 || y == 0 || x == w - 1 || y == h - 1 {
                source.get(x, y)
            } else {
                let sum: u32 = source.get(x - 1, y - 1) as u32 + source.get(x, y - 1) as u32
                    + source.get(x + 1, y - 1) as u32 + source.get(x - 1, y) as u32 + 8
                    * source.get(x, y) as u32 + source.get(x + 1, y) as u32 + source.get(
                    x - 1,
                    y + 1,
                ) as u32 + source.get(x, y + 1) as u32 + source.get(x + 1, y + 1) as u32;
                (sum / 16) as u8
            };
            proof {
                lemma_raster_index_in_bounds(w as int, h as int, x as int, y as int);
                lemma_fundamental_div_mod_converse(
                    (y as int) * (w as int) + (x as int),
                    w as int,
                    y as int,
                    x as int,
                );
                assert(val == bspec[(y as int) * (w as int) + (x as int)]);
            }
            destination.set(x, y, val);
            x = x + 1;
        }
        proof {
            assert((y + 1) * (w as int) == y * (w as int) + w) by (nonlinear_arith);
        }
        y = y + 1;
    }
    proof {
        assert(h * (w as int) == (w as int) * (h as int)) by (nonlinear_arith);
        assert(destination.data@ =~= bspec);
    }
}

/// Unsharp-mask sharpen of `source` into `destination`, never in place;
/// the border ring is copied unchanged.
pub fn sharpen(source: &GrayImage, destination: &mut GrayImage)
    requires
        source.wf(),
        old(destination).wf(),
        source.width == old(destination).width,
        source.height == old(destination).height,
    ensures
        final(destination).width == source.width,
        final(destination).height == source.height,
        final(destination).wf(),
        final(destination).data@ == sharpen_spec(
            source.data@,
            source.width as int,
            source.height as int,
        ),
{
    let w = source.width;
    let h = source.height;
    let ghost sspec = sharpen_spec(source.data@, w as int, h as int);
    let mut y: usize = 0;
    while y < h
        invariant
            source.wf(),
            destination.wf(),
            source.width == w,
            source.height == h,
            destination.width == w,
            destination.height == h,
            sspec == sharpen_spec(source.data@, w as int, h as int),
            y <= h,
            forall|i: int| 0 <= i < y * (w as int) ==> destination.data@[i] == sspec[i],
        decreases h - y,
    {
        let mut x: usize = 0;
        while x < w
            invariant
                source.wf(),
                destination.wf(),
                source.width == w,
                source.height == h,
                destination.width == w,
                destination.height == h,
                sspec == sharpen_spec(source.data@, w as int, h as int),
                y < h,
                x <= w,
                forall|i: int| 0 <= i < y * (w as int) + x ==> destination.data@[i] == sspec[i],
            decreases w - x,
        {
            let val: u8 = if x == 0 || y == 0 || x == w - 1 || y == h - 1 {
                source.get(x, y)
            } else {
                let t: i32 = 9 * source.get(x, y) as i32 - source.get(x - 1, y - 1) as i32
                    - source.get(x, y - 1) as i32 - source.get(x + 1, y - 1) as i32 - source.get(
                    x - 1,
                    y,
                ) as i32 - source.get(x + 1, y) as i32 - source.get(x - 1, y + 1) as i32
                    - source.get(x, y + 1) as i32 - source.get(x + 1, y + 1) as i32;
                if t <= 0 {
                    0
                } else if t >= 255 {
                    255
                } else {
                    t as u8
                }
            };
            proof {
                lemma_raster_index_in_bounds(w as int, h as int, x as int, y as int);
                lemma_fundamental_div_mod_converse(
                    (y as int) * (w as int) + (x as int),
                    w as int,
                    y as int,
                    x as int,
                );
                assert(val == sspec[(y as int) * (w as int) + (x as int)]);
            }
            destination.set(x, y, val);
            x = x + 1;
        }
        proof {
            assert((y + 1) * (w as int) == y * (w as int) + w) by (nonlinear_arith);
        }
        y = y + 1;
    }
    proof {
        assert(h * (w as int) == (w as int) * (h as int)) by (nonlinear_arith);
        assert(destination.data@ =~= sspec);
    }
}

/// Both filter passes leave the outermost row and column of the image
/// exactly equal to the source.
pub proof fn lemma_filter_preserves_border(s: Seq<u8>, w: int, h: int, x: int, y: int)
    requires
        s.len() == w * h,
        0 <= x < w,
        0 <= y < h,
        is_border(w, h, x, y),
    ensures
        blur_spec(s, w, h)[raster_index(w, x, y)] == s[raster_index(w, x, y)],
        sharpen_spec(s, w, h)[raster_index(w, x, y)] == s[raster_index(w, x, y)],
{
    lemma_raster_index_in_bounds(w, h, x, y);
    lemma_fundamental_div_mod_converse(y * w + x, w, y, x);
}

} // verus!
