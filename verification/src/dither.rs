//! The binarizer: global-threshold mode and serpentine error-diffusion
//! (Ostromoukhov) dithering driven by a fixed calibrated coefficient table.

use vstd::prelude::*;

use crate::grid::{lemma_raster_index_in_bounds, Bitmap, GrayImage};
use crate::tone::{median_spec, median_brightness};
use vstd::arithmetic::div_mod::{lemma_fundamental_div_mod, lemma_fundamental_div_mod_converse};
use vstd::arithmetic::mul::{lemma_mul_inequality, lemma_mul_is_commutative};

verus! {

/// Calibrated diffusion coefficients, indexed by quantization error:
/// entry `e` holds the weights pushed forward, below-behind, and below.
/// Fixed empirical calibration data: an opaque asset, not re-derived.
#[verifier::opaque]
pub const ERROR_DIFFUSION_MATRIX: [[i16; 3]; 256] = [
    [0, 1, 0],
    [1, 0, 0],
    [1, 0, 1],
    [2, 0, 1],
    [2, 0, 2],
    [3, 0, 2],
    [4, 0, 2],
    [4, 1, 2],
    [5, 1, 2],
    [5, 2, 2],
    [5, 3, 2],
    [6, 3, 2],
    [6, 3, 3],
    [7, 3, 3],
    [7, 4, 3],
    [8, 4, 3],
    [8, 5, 3],
    [9, 5, 3],
    [9, 5, 4],
    [10, 6, 3],
    [10, 6, 4],
    [11, 7, 3],
    [11, 7, 4],
    [11, 8, 4],
    [12, 7, 5],
    [12, 7, 6],
    [12, 7, 7],
    [12, 7, 8],
    [12, 7, 9],
    [13, 7, 9],
    [13, 7, 10],
    [13, 7, 11],
    [13, 7, 12],
    [14, 7, 12],
    [14, 8, 12],
    [15, 8, 12],
    [15, 9, 12],
    [16, 9, 12],
    [16, 10, 12],
    [17, 10, 12],
    [17, 11, 12],
    [18, 12, 11],
    [19, 12, 11],
    [19, 13, 11],
    [20, 13, 11],
    [20, 14, 11],
    [21, 15, 10],
    [22, 15, 10],
    [22, 17, 9],
    [23, 17, 9],
    [24, 18, 8],
    [24, 19, 8],
    [25, 19, 8],
    [26, 20, 7],
    [26, 21, 7],
    [27, 22, 6],
    [28, 23, 5],
    [28, 24, 5],
    [29, 25, 4],
    [30, 26, 3],
    [31, 26, 3],
    [31, 28, 2],
    [32, 28, 2],
    [33, 29, 1],
    [34, 30, 0],
    [33, 31, 1],
    [32, 33, 1],
    [32, 33, 2],
    [31, 34, 3],
    [30, 36, 3],
    [29, 37, 4],
    [29, 37, 5],
    [28, 39, 5],
    [32, 34, 7],
    [37, 29, 8],
    [42, 23, 10],
    [46, 19, 11],
    [51, 13, 12],
    [52, 14, 13],
    [53, 13, 12],
    [53, 14, 13],
    [54, 14, 13],
    [55, 14, 13],
    [55, 14, 13],
    [56, 15, 14],
    [57, 14, 13],
    [56, 15, 15],
    [55, 17, 15],
    [54, 18, 16],
    [53, 20, 16],
    [52, 21, 17],
    [52, 22, 17],
    [51, 24, 17],
    [50, 25, 18],
    [49, 27, 18],
    [47, 29, 19],
    [48, 29, 19],
    [48, 29, 20],
    [49, 29, 20],
    [49, 30, 20],
    [50, 31, 20],
    [50, 31, 20],
    [51, 31, 20],
    [51, 31, 21],
    [52, 31, 21],
    [52, 32, 21],
    [53, 32, 21],
    [53, 32, 22],
    [55, 32, 21],
    [56, 31, 22],
    [58, 31, 21],
    [59, 30, 22],
    [61, 30, 21],
    [62, 29, 22],
    [64, 29, 21],
    [65, 28, 22],
    [67, 28, 21],
    [68, 27, 22],
    [70, 27, 21],
    [71, 26, 22],
    [73, 26, 21],
    [75, 25, 21],
    [76, 25, 21],
    [78, 24, 21],
    [80, 23, 21],
    [81, 23, 21],
    [83, 22, 21],
    [85, 21, 20],
    [85, 22, 21],
    [85, 22, 22],
    [84, 24, 22],
    [84, 24, 23],
    [84, 25, 23],
    [83, 27, 23],
    [83, 28, 23],
    [82, 29, 24],
    [82, 30, 24],
    [81, 31, 25],
    [80, 32, 26],
    [80, 33, 26],
    [79, 35, 26],
    [79, 36, 26],
    [78, 37, 27],
    [77, 38, 28],
    [77, 39, 28],
    [76, 41, 28],
    [75, 42, 29],
    [75, 43, 29],
    [74, 44, 30],
    [74, 45, 30],
    [75, 46, 30],
    [75, 46, 30],
    [76, 46, 30],
    [76, 46, 31],
    [77, 46, 31],
    [77, 47, 31],
    [78, 47, 31],
    [78, 47, 32],
    [79, 47, 32],
    [79, 48, 32],
    [80, 49, 32],
    [83, 46, 32],
    [86, 44, 32],
    [90, 42, 31],
    [93, 40, 31],
    [96, 39, 30],
    [100, 36, 30],
    [103, 35, 29],
    [106, 33, 29],
    [110, 30, 29],
    [113, 29, 28],
    [114, 29, 28],
    [115, 29, 28],
    [115, 29, 28],
    [116, 30, 29],
    [117, 29, 28],
    [117, 30, 29],
    [118, 30, 29],
    [119, 30, 29],
    [109, 43, 27],
    [100, 57, 23],
    [90, 71, 20],
    [80, 85, 17],
    [70, 99, 14],
    [74, 98, 12],
    [78, 97, 10],
    [81, 96, 9],
    [85, 95, 7],
    [89, 94, 5],
    [92, 93, 4],
    [96, 92, 2],
    [100, 91, 0],
    [100, 90, 2],
    [100, 88, 5],
    [100, 87, 7],
    [99, 86, 10],
    [99, 85, 12],
    [99, 84, 14],
    [99, 82, 17],
    [98, 81, 20],
    [98, 80, 22],
    [98, 79, 24],
    [98, 77, 27],
    [98, 76, 29],
    [97, 75, 32],
    [97, 73, 35],
    [97, 72, 37],
    [96, 71, 40],
    [96, 69, 43],
    [96, 67, 46],
    [96, 66, 48],
    [95, 65, 51],
    [95, 63, 54],
    [95, 61, 57],
    [94, 60, 60],
    [94, 58, 63],
    [94, 57, 65],
    [93, 55, 69],
    [93, 54, 71],
    [93, 52, 74],
    [92, 51, 77],
    [92, 49, 80],
    [91, 47, 84],
    [91, 46, 86],
    [93, 49, 82],
    [96, 52, 77],
    [98, 55, 73],
    [101, 58, 68],
    [104, 61, 63],
    [106, 65, 58],
    [109, 68, 53],
    [111, 71, 49],
    [114, 74, 44],
    [116, 78, 39],
    [118, 76, 40],
    [119, 74, 42],
    [120, 73, 43],
    [122, 71, 44],
    [123, 69, 46],
    [124, 67, 48],
    [125, 66, 49],
    [127, 64, 50],
    [128, 62, 52],
    [129, 60, 54],
    [131, 58, 55],
    [132, 57, 56],
    [136, 47, 63],
    [139, 38, 70],
    [143, 29, 76],
    [147, 19, 83],
    [151, 9, 90],
    [154, 0, 97],
    [160, 0, 92],
    [171, 0, 82],
    [183, 0, 71],
    [184, 0, 71],
];

/// Quantize one grayscale sample against a bias, returning the emitted bit
/// and the quantization error (distance from the emitted extreme).
pub fn gray_to_bit(old_pixel: u8, bias: u8) -> (r: (bool, u8))
    ensures
        r.0 == (old_pixel > bias),
        r.1 == if old_pixel > bias {
            255 - old_pixel
        } else {
            old_pixel as int
        },
{
    let destination_value = old_pixel > bias;
    let error = if destination_value {
        255 - old_pixel
    } else {
        old_pixel
    };
    (destination_value, error)
}

/// Clamp an integer to the 8-bit sample range.
pub open spec fn clamp_u8(v: int) -> u8 {
    if v <= 0 {
        0u8
    } else if v >= 255 {
        255u8
    } else {
        v as u8
    }
}

/// Linear index visited at step `k` of the serpentine scan: even rows run
/// left to right, odd rows right to left.
pub open spec fn serp_pos(w: int, k: int) -> int {
    let y = k / w;
    let r = k % w;
    if y % 2 == 0 {
        y * w + r
    } else {
        y * w + (w - 1 - r)
    }
}

/// Scan direction of the row that step `k` falls in.
pub open spec fn serp_dir(w: int, k: int) -> int {
    if (k / w) % 2 == 0 {
        1
    } else {
        -1
    }
}

/// Add a diffusion coefficient to the sample at `to`, clamped; targets
/// outside the buffer are skipped.
pub open spec fn diffuse_to(buf: Seq<u8>, to: int, c: int) -> Seq<u8> {
    if 0 <= to < buf.len() {
        buf.update(to, clamp_u8(buf[to] + c))
    } else {
        buf
    }
}

/// The three coefficients diffused for quantization error `err`; negated
/// when the emitted bit was set.
pub open spec fn dither_coeffs(err: u8, bit: bool) -> (int, int, int) {
    let e = ERROR_DIFFUSION_MATRIX[err as int];
    if bit {
        (-e[0], -e[1], -e[2])
    } else {
        (e[0] as int, e[1] as int, e[2] as int)
    }
}

/// One step of error diffusion: emit the bit for the visited sample and
/// push the quantization error to the forward, below-behind, and below
/// neighbors, skipping targets outside the buffer and the row below the
/// last row.
pub open spec fn dither_step(
    buf: Seq<u8>,
    bits: Seq<bool>,
    w: int,
    h: int,
    bias: u8,
    k: int,
) -> (Seq<u8>, Seq<bool>) {
    let pos = serp_pos(w, k);
    let dir = serp_dir(w, k);
    let v = buf[pos];
    let bit = v > bias;
    let err = if bit {
        (255 - v) as u8
    } else {
        v
    };
    let c = dither_coeffs(err, bit);
    let bits1 = bits.update(pos, bit);
    let buf1 = diffuse_to(buf, pos + dir, c.0);
    let buf2 = if k / w == h - 1 {
        buf1
    } else {
        diffuse_to(diffuse_to(buf1, pos + w - dir, c.1), pos + w, c.2)
    };
    (buf2, bits1)
}

/// State of the error buffer and the emitted bits after the first `k`
/// steps of the serpentine scan over the initial samples `init`.
pub open spec fn dither_state(init: Seq<u8>, w: int, h: int, bias: u8, k: int) -> (
    Seq<u8>,
    Seq<bool>,
)
    decreases k,
{
    if k <= 0 {
        (init, Seq::new(init.len(), |i: int| false))
    } else {
        let prev = dither_state(init, w, h, bias, k - 1);
        dither_step(prev.0, prev.1, w, h, bias, k - 1)
    }
}

/// The bits that serpentine error diffusion emits for a whole frame.
pub open spec fn dither_spec(init: Seq<u8>, w: int, h: int, bias: u8) -> Seq<bool> {
    dither_state(init, w, h, bias, w * h).1
}

/// Row and column recovered from a step index.
proof fn lemma_rowcol(w: int, h: int, k: int)
    requires
        w >= 1,
        0 <= k < w * h,
    ensures
        0 <= k / w < h,
        0 <= k % w < w,
        k == (k / w) * w + (k % w),
{
    lemma_fundamental_div_mod(k, w);
    vstd::arithmetic::div_mod::lemma_mod_division_less_than_divisor(k, w);
    vstd::arithmetic::div_mod::lemma_div_pos_is_pos(k, w);
    lemma_mul_is_commutative(w, k / w);
    if k / w >= h {
        lemma_mul_inequality(h, k / w, w);
        lemma_mul_is_commutative(w, h);
        assert(false);
    }
}

/// The position visited at step `k` lies inside the row `k / w`.
proof fn lemma_serp_pos_bounds(w: int, h: int, k: int)
    requires
        w >= 1,
        0 <= k < w * h,
    ensures
        (k / w) * w <= serp_pos(w, k) < (k / w) * w + w,
        0 <= serp_pos(w, k) < w * h,
{
    lemma_rowcol(w, h, k);
    lemma_raster_index_in_bounds(w, h, serp_pos(w, k) - (k / w) * w, k / w);
}

/// Add coefficient `c` to the sample at `to`, clamped to the 8-bit range.
fn diffuse_at(buf: &mut Vec<u8>, to: usize, c: i32)
    requires
        to < old(buf)@.len(),
        -32768 <= c <= 32768,
    ensures
        final(buf)@ == old(buf)@.update(to as int, clamp_u8(old(buf)@[to as int] + c)),
{
    let nv: i32 = buf[to] as i32 + c;
    let clamped: u8 = if nv <= 0 {
        0
    } else if nv >= 255 {
        255
    } else {
        nv as u8
    };
    buf.set(to, clamped);
}

/// Emit the bit for the sample at `position` and diffuse its quantization
/// error to the still-unvisited neighbors.
fn ostromoukhov_dither_pixel(
    source: &mut Vec<u8>,
    destination: &mut Vec<bool>,
    position: usize,
    width: usize,
    height: usize,
    last_row: bool,
    forward: bool,
    bias: u8,
    Ghost(k): Ghost<int>,
)
    requires
        width >= 1,
        width * height <= usize::MAX,
        old(source)@.len() == width * height,
        old(destination)@.len() == width * height,
        0 <= k < (width as int) * (height as int),
        position == serp_pos(width as int, k),
        forward == ((k / (width as int)) % 2 == 0),
        last_row == (k / (width as int) == height - 1),
    ensures
        ({
            let st = dither_step(
                old(source)@,
                old(destination)@,
                width as int,
                height as int,
                bias,
                k,
            );
            final(source)@ == st.0 && final(destination)@ == st.1
        }),
{
    let ghost w = width as int;
    let ghost h = height as int;
    let ghost q = k / w;
    proof {
        lemma_rowcol(w, h, k);
        lemma_serp_pos_bounds(w, h, k);
        lemma_mul_is_commutative(w, h);
        if !last_row {
            assert((position as int) + w < w * h) by (nonlinear_arith)
                requires
                    (position as int) < q * w + w,
                    0 <= q <= h - 2,
                    w >= 1,
            ;
            assert(position + width < width * height);
        }
    }

    let v = source[position];
    let (bit, err) = gray_to_bit(v, bias);
    destination.set(position, bit);

    let e = ERROR_DIFFUSION_MATRIX[err as usize];
    let c0: i32 = if bit {
        -(e[0] as i32)
    } else {
        e[0] as i32
    };
    let c1: i32 = if bit {
        -(e[1] as i32)
    } else {
        e[1] as i32
    };
    let c2: i32 = if bit {
        -(e[2] as i32)
    } else {
        e[2] as i32
    };

    let ghost st = dither_step(old(source)@, old(destination)@, w, h, bias, k);
    let ghost dir = serp_dir(w, k);
    let ghost coeffs = dither_coeffs(err, bit);
    let ghost buf1 = diffuse_to(old(source)@, position + dir, coeffs.0);

    if forward {
        if position + 1 < source.len() {
            diffuse_at(source, position + 1, c0);
        }
    } else {
        if position >= 1 {
            diffuse_at(source, position - 1, c0);
        }
    }
    assert(source@ == buf1);

    if !last_row {
        proof {
            assert((position as int) + w < w * h) by (nonlinear_arith)
                requires
                    (position as int) < q * w + w,
                    0 <= q <= h - 2,
                    w >= 1,
            ;
        }
        let below = position + width;
        if forward {
            diffuse_at(source, below - 1, c1);
        } else {
            if below + 1 < source.len() {
                diffuse_at(source, below + 1, c1);
            }
        }
        assert(source@ == diffuse_to(buf1, position + w - dir, coeffs.1));
        diffuse_at(source, below, c2);
    }
    assert(source@ == st.0);
    assert(destination@ == st.1);
}

/// Binarize a frame by serpentine error-diffusion dithering: even rows
/// run left to right, odd rows right to left, and each emitted bit's
/// quantization error is pushed to unvisited neighbors through the
/// calibrated coefficient table.
pub fn ostromoukhov_dither(source: GrayImage, bias: u8) -> (r: Bitmap)
    requires
        source.wf(),
        source.width % 8 == 0,
    ensures
        r.width == source.width,
        r.height == source.height,
        r.wf(),
        r.bits@ == dither_spec(source.data@, source.width as int, source.height as int, bias),
{
    let width = source.width;
    let height = source.height;
    let ghost init = source.data@;
    let ghost w = width as int;
    let ghost h = height as int;

    let mut buf = source.data;
    if width == 0 || height == 0 {
        let bits: Vec<bool> = Vec::new();
        proof {
            assert(w * h == 0) by (nonlinear_arith)
                requires
                    w == 0 || h == 0,
            ;
            assert(bits@ =~= dither_spec(init, w, h, bias));
        }
        return Bitmap { width, height, bits };
    }
    let count = buf.len();
    let mut bits: Vec<bool> = Vec::new();
    let mut i: usize = 0;
    while i < count
        invariant
            i <= count,
            bits@.len() == i,
            forall|j: int| 0 <= j < i ==> bits@[j] == false,
        decreases count - i,
    {
        bits.push(false);
        i = i + 1;
    }
    proof {
        assert(bits@ =~= Seq::new(init.len(), |j: int| false));
        assert(dither_state(init, w, h, bias, 0) == (init, bits@));
    }

    let mut y: usize = 0;
    while y < height
        invariant
            w == width as int,
            h == height as int,
            width >= 1,
            height >= 1,
            width * height <= usize::MAX,
            init.len() == width * height,
            buf@.len() == width * height,
            bits@.len() == width * height,
            y <= height,
            buf@ == dither_state(init, w, h, bias, (y as int) * w).0,
            bits@ == dither_state(init, w, h, bias, (y as int) * w).1,
        decreases height - y,
    {
        proof {
            lemma_mul_is_commutative(w, h);
            lemma_mul_inequality(y as int + 1, h, w);
            assert((y as int + 1) * w == (y as int) * w + w) by (nonlinear_arith);
            assert((y as int) * w + w <= width * height);
            assert((y as int) * w >= 0) by (nonlinear_arith)
                requires
                    y >= 0,
                    w >= 1,
            ;
        }
        let start = y * width;
        let last_row = y == height - 1;
        let mut x: usize = 0;
        if y % 2 == 0 {
            while x < width
                invariant
                    w == width as int,
                    h == height as int,
                    width >= 1,
                    height >= 1,
                    width * height <= usize::MAX,
                    init.len() == width * height,
                    buf@.len() == width * height,
                    bits@.len() == width * height,
                    y < height,
                    y % 2 == 0,
                    start == y * width,
                    start + width <= width * height,
                    last_row == (y == height - 1),
                    x <= width,
                    buf@ == dither_state(init, w, h, bias, (start + x) as int).0,
                    bits@ == dither_state(init, w, h, bias, (start + x) as int).1,
                decreases width - x,
            {
                let ghost k = (start + x) as int;
                proof {
                    lemma_fundamental_div_mod_converse(k, w, y as int, x as int);
                    assert(k / w == y as int && k % w == x as int);
                    assert(serp_pos(w, k) == k);
                    assert(0 <= k < w * h) by (nonlinear_arith)
                        requires
                            0 <= k,
                            k < (y as int) * w + w,
                            y as int <= h - 1,
                            w >= 1,
                    ;
                }
                ostromoukhov_dither_pixel(
                    &mut buf,
                    &mut bits,
                    start + x,
                    width,
                    height,
                    last_row,
                    true,
                    bias,
                    Ghost(k),
                );
                proof {
                    lemma_serp_pos_bounds(w, h, k);
                    let prev = dither_state(init, w, h, bias, k);
                    assert(dither_state(init, w, h, bias, k + 1) == dither_step(
                        prev.0,
                        prev.1,
                        w,
                        h,
                        bias,
                        k,
                    ));
                }
                x = x + 1;
            }
        } else {
            while x < width
                invariant
                    w == width as int,
                    h == height as int,
                    width >= 1,
                    height >= 1,
                    width * height <= usize::MAX,
                    init.len() == width * height,
                    buf@.len() == width * height,
                    bits@.len() == width * height,
                    y < height,
                    y % 2 == 1,
                    start == y * width,
                    start + width <= width * height,
                    last_row == (y == height - 1),
                    x <= width,
                    buf@ == dither_state(init, w, h, bias, (start + x) as int).0,
                    bits@ == dither_state(init, w, h, bias, (start + x) as int).1,
                decreases width - x,
            {
                let ghost k = (start + x) as int;
                proof {
                    lemma_fundamental_div_mod_converse(k, w, y as int, x as int);
                    assert(k / w == y as int && k % w == x as int);
                    assert(serp_pos(w, k) == (y as int) * w + (w - 1 - x));
                    assert(0 <= k < w * h) by (nonlinear_arith)
                        requires
                            0 <= k,
                            k < (y as int) * w + w,
                            y as int <= h - 1,
                            w >= 1,
                    ;
                }
                ostromoukhov_dither_pixel(
                    &mut buf,
                    &mut bits,
                    start + (width - 1 - x),
                    width,
                    height,
                    last_row,
                    false,
                    bias,
                    Ghost(k),
                );
                proof {
                    lemma_serp_pos_bounds(w, h, k);
                    let prev = dither_state(init, w, h, bias, k);
                    assert(dither_state(init, w, h, bias, k + 1) == dither_step(
                        prev.0,
                        prev.1,
                        w,
                        h,
                        bias,
                        k,
                    ));
                }
                x = x + 1;
            }
        }
        proof {
            assert((y as int + 1) * w == (y as int) * w + w) by (nonlinear_arith);
        }
        y = y + 1;
    }
    proof {
        lemma_mul_is_commutative(h, w);
        assert((y as int) * w == w * h);
    }
    Bitmap { width, height, bits }
}


/// Threshold binarization: one bit per sample, set exactly when the
/// sample exceeds the cutoff.
pub open spec fn threshold_spec(s: Seq<u8>, cutoff: u8) -> Seq<bool> {
    s.map_values(|v: u8| v > cutoff)
}

/// Binarize a frame by a single global threshold at its median
/// brightness.
pub fn threshold_binarize(image: &GrayImage) -> (r: Bitmap)
    requires
        image.wf(),
    ensures
        r.width == image.width,
        r.height == image.height,
        r.wf(),
        r.bits@ == threshold_spec(image.data@, median_spec(image.data@)),
{
    let cutoff = median_brightness(image);
    let mut bits: Vec<bool> = Vec::new();
    let mut i: usize = 0;
    while i < image.data.len()
        invariant
            image.wf(),
            cutoff == median_spec(image.data@),
            i <= image.data@.len(),
            bits@.len() == i,
            forall|j: int| 0 <= j < i ==> bits@[j] == (image.data@[j] > cutoff),
        decreases image.data@.len() - i,
    {
        let v = image.data[i];
        bits.push(v > cutoff);
        i = i + 1;
    }
    proof {
        assert(bits@ =~= threshold_spec(image.data@, median_spec(image.data@)));
    }
    Bitmap { width: image.width, height: image.height, bits }
}

/// Threshold binarization of an image whose every sample exceeds the
/// computed median yields an all-set bitmap; of one whose every sample
/// is below it, an all-clear bitmap.
pub proof fn lemma_threshold_extremes(s: Seq<u8>)
    ensures
        (forall|i: int| 0 <= i < s.len() ==> s[i] > median_spec(s)) ==> (forall|i: int|
            0 <= i < s.len() ==> threshold_spec(s, median_spec(s))[i]),
        (forall|i: int| 0 <= i < s.len() ==> s[i] < median_spec(s)) ==> (forall|i: int|
            0 <= i < s.len() ==> !threshold_spec(s, median_spec(s))[i]),
{
    assert forall|i: int| 0 <= i < s.len() implies threshold_spec(s, median_spec(s))[i] == (s[i]
        > median_spec(s)) by {}
}

} // verus!
