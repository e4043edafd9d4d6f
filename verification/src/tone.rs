//! Per-frame histogram, median brightness, and the robust contrast
//! stretch (tone correction) derived from the histogram.

use vstd::prelude::*;

use crate::grid::GrayImage;
use crate::PIXEL_HEIGHT;

verus! {

/// Number of samples in `s` equal to `v`.
pub open spec fn count_eq(s: Seq<u8>, v: u8) -> int
    decreases s.len(),
{
    if s.len() == 0 {
        0
    } else {
        count_eq(s.drop_last(), v) + if s.last() == v {
            1int
        } else {
            0int
        }
    }
}

/// Number of samples in `s` at most `v`.
pub open spec fn count_le(s: Seq<u8>, v: u8) -> int
    decreases s.len(),
{
    if s.len() == 0 {
        0
    } else {
        count_le(s.drop_last(), v) + if s.last() <= v {
            1int
        } else {
            0int
        }
    }
}

/// Number of samples in `s` at least `v`.
pub open spec fn count_ge(s: Seq<u8>, v: u8) -> int
    decreases s.len(),
{
    if s.len() == 0 {
        0
    } else {
        count_ge(s.drop_last(), v) + if s.last() >= v {
            1int
        } else {
            0int
        }
    }
}

pub proof fn lemma_count_eq_bounds(s: Seq<u8>, v: u8)
    ensures
        0 <= count_eq(s, v) <= s.len(),
    decreases s.len(),
{
    if s.len() > 0 {
        lemma_count_eq_bounds(s.drop_last(), v);
    }
}

pub proof fn lemma_count_le_bounds(s: Seq<u8>, v: u8)
    ensures
        0 <= count_le(s, v) <= s.len(),
    decreases s.len(),
{
    if s.len() > 0 {
        lemma_count_le_bounds(s.drop_last(), v);
    }
}

pub proof fn lemma_count_ge_bounds(s: Seq<u8>, v: u8)
    ensures
        0 <= count_ge(s, v) <= s.len(),
    decreases s.len(),
{
    if s.len() > 0 {
        lemma_count_ge_bounds(s.drop_last(), v);
    }
}

/// Extending a prefix by one sample changes exactly the matching count.
proof fn lemma_count_eq_take_step(s: Seq<u8>, i: int, v: u8)
    requires
        0 <= i < s.len(),
    ensures
        count_eq(s.take(i + 1), v) == count_eq(s.take(i), v) + if s[i] == v {
            1int
        } else {
            0int
        },
{
    assert(s.take(i + 1).drop_last() =~= s.take(i));
    assert(s.take(i + 1).last() == s[i]);
}

/// Counting at most `b` splits into counting below and counting exactly `b`.
pub proof fn lemma_count_le_unfold(s: Seq<u8>, b: u8)
    ensures
        count_le(s, b) == if b == 0 {
            count_eq(s, 0)
        } else {
            count_le(s, (b - 1) as u8) + count_eq(s, b)
        },
    decreases s.len(),
{
    if s.len() > 0 {
        lemma_count_le_unfold(s.drop_last(), b);
    }
}

/// Counting at least `b` splits into counting above and counting exactly `b`.
pub proof fn lemma_count_ge_unfold(s: Seq<u8>, b: u8)
    ensures
        count_ge(s, b) == if b == 255 {
            count_eq(s, 255)
        } else {
            count_ge(s, (b + 1) as u8) + count_eq(s, b)
        },
    decreases s.len(),
{
    if s.len() > 0 {
        lemma_count_ge_unfold(s.drop_last(), b);
    }
}

/// Every 8-bit sample is at most 255.
pub proof fn lemma_count_le_full(s: Seq<u8>)
    ensures
        count_le(s, 255) == s.len(),
    decreases s.len(),
{
    if s.len() > 0 {
        lemma_count_le_full(s.drop_last());
    }
}

/// 256-bucket histogram: bucket `v` counts the samples equal to `v`.
pub fn make_histogram(image: &GrayImage) -> (h: Vec<usize>)
    requires
        image.wf(),
    ensures
        h@.len() == 256,
        forall|v: u8| h@[v as int] == count_eq(image.data@, v),
{
    let mut h: Vec<usize> = Vec::new();
    let mut b: usize = 0;
    while b < 256
        invariant
            b <= 256,
            h@.len() == b,
            forall|j: int| 0 <= j < b ==> h@[j] == 0,
        decreases 256 - b,
    {
        h.push(0);
        b = b + 1;
    }
    let s = Ghost(image.data@);
    assert(forall|v: u8| count_eq(s@.take(0), v) == 0);
    let mut i: usize = 0;
    while i < image.data.len()
        invariant
            image.wf(),
            s@ == image.data@,
            i <= s@.len(),
            h@.len() == 256,
            forall|v: u8| h@[v as int] == count_eq(s@.take(i as int), v),
        decreases image.data@.len() - i,
    {
        let v = image.data[i];
        proof {
            assert forall|u: u8|
                count_eq(s@.take(i + 1), u) == count_eq(s@.take(i as int), u) + if s@[i as int]
                    == u {
                    1int
                } else {
                    0int
                } by {
                lemma_count_eq_take_step(s@, i as int, u);
            }
            lemma_count_eq_bounds(s@.take(i as int), v);
            assert(s@.take(i as int).len() == i);
        }
        let old_count = h[v as usize];
        h.set(v as usize, old_count + 1);
        i = i + 1;
    }
    proof {
        assert(s@.take(s@.len() as int) =~= s@);
    }
    h
}

/// Least brightness at which the cumulative pixel count reaches `thr`,
/// scanning upward from `b`; 255 if no earlier brightness reaches it.
pub open spec fn first_reaching(s: Seq<u8>, thr: int, b: int) -> int
    decreases 255 - b,
{
    if b >= 255 {
        255
    } else if count_le(s, b as u8) >= thr {
        b
    } else {
        first_reaching(s, thr, b + 1)
    }
}

/// Greatest brightness at which the count of pixels at least that bright
/// reaches `thr`, scanning downward from `b`; 0 if none reaches it.
pub open spec fn first_from_top(s: Seq<u8>, thr: int, b: int) -> int
    decreases b,
{
    if b <= 0 {
        0
    } else if count_ge(s, b as u8) >= thr {
        b
    } else {
        first_from_top(s, thr, b - 1)
    }
}

proof fn lemma_first_reaching_pin(s: Seq<u8>, thr: int, j: int, b: int)
    requires
        0 <= j <= b <= 255,
        forall|c: int| j <= c < b ==> #[trigger] count_le(s, c as u8) < thr,
        b == 255 || count_le(s, b as u8) >= thr,
    ensures
        first_reaching(s, thr, j) == b,
    decreases b - j,
{
    if j < b {
        lemma_first_reaching_pin(s, thr, j + 1, b);
    }
}

proof fn lemma_first_from_top_pin(s: Seq<u8>, thr: int, j: int, b: int)
    requires
        0 <= b <= j <= 255,
        forall|c: int| b < c <= j ==> #[trigger] count_ge(s, c as u8) < thr,
        b == 0 || count_ge(s, b as u8) >= thr,
    ensures
        first_from_top(s, thr, j) == b,
    decreases j - b,
{
    if j > b {
        lemma_first_from_top_pin(s, thr, j - 1, b);
    }
}

/// Median brightness of `s`: the least `b` whose cumulative count
/// reaches half the number of samples.
pub open spec fn median_spec(s: Seq<u8>) -> u8 {
    first_reaching(s, s.len() as int / 2, 0) as u8
}

/// Least brightness `r` such that the number of samples at most `r` is at
/// least half the total sample count.
pub fn median_brightness(image: &GrayImage) -> (r: u8)
    requires
        image.wf(),
    ensures
        r == median_spec(image.data@),
        count_le(image.data@, r) >= image.data@.len() as int / 2,
        forall|b: u8| b < r ==> count_le(image.data@, b) < image.data@.len() as int / 2,
{
    let h = make_histogram(image);
    let midpoint = image.data.len() / 2;
    let s = Ghost(image.data@);

    let mut cum: usize = 0;
    let mut b: usize = 0;
    while b < 255
        invariant
            s@ == image.data@,
            s@.len() <= usize::MAX,
            h@.len() == 256,
            forall|v: u8| h@[v as int] == count_eq(s@, v),
            midpoint == s@.len() as int / 2,
            b <= 255,
            cum == if b == 0 {
                0int
            } else {
                count_le(s@, (b - 1) as u8)
            },
            forall|c: int| 0 <= c < b ==> #[trigger] count_le(s@, c as u8) < midpoint,
        decreases 255 - b,
    {
        proof {
            lemma_count_le_unfold(s@, b as u8);
            lemma_count_le_bounds(s@, b as u8);
            lemma_count_eq_bounds(s@, b as u8);
            assert(h@[(b as u8) as int] == count_eq(s@, b as u8));
            assert((b as u8) as int == b as int);
            assert(cum + h@[b as int] == count_le(s@, b as u8));
            assert(cum + h@[b as int] <= s@.len());
        }
        cum = cum + h[b];
        assert(cum == count_le(s@, b as u8));
        if cum >= midpoint {
            proof {
                lemma_first_reaching_pin(s@, midpoint as int, 0, b as int);
                assert forall|c: u8| c < b implies count_le(s@, c) < midpoint by {
                    assert(count_le(s@, (c as int) as u8) < midpoint);
                }
            }
            return b as u8;
        }
        b = b + 1;
    }
    proof {
        lemma_first_reaching_pin(s@, midpoint as int, 0, 255);
        lemma_count_le_full(s@);
        assert forall|c: u8| c < 255 implies count_le(s@, c) < midpoint by {
            assert(count_le(s@, (c as int) as u8) < midpoint);
        }
    }
    255
}

/// The three scan results that parameterize the affine brightness remap
/// `value' = clamp(((2 * value - mincut) * (255 + minshift)) / (2 * maxshift) - minshift, 0, 255)`.
#[derive(Clone, Copy)]
pub struct ToneCorrection {
    pub mincut: u8,
    pub minshift: u8,
    pub maxshift: u8,
}

impl ToneCorrection {
    /// The caps and the floor that the three scans enforce; the floor on
    /// `maxshift` keeps the remap's divisor positive.
    pub open spec fn wf(self) -> bool {
        &&& self.mincut <= 20
        &&& self.minshift <= 64
        &&& 192 <= self.maxshift
    }
}

/// One "row's worth" of pixels: the histogram tail size that the scans
/// discount as outliers.
pub open spec fn adjustment_unit(s: Seq<u8>) -> int {
    s.len() as int / PIXEL_HEIGHT as int
}

/// First brightness whose cumulative count reaches one adjustment unit,
/// capped at 20.
pub open spec fn mincut_spec(s: Seq<u8>) -> int {
    let f = first_reaching(s, adjustment_unit(s), 0);
    if f < 20 {
        f
    } else {
        20
    }
}

/// First brightness whose cumulative count reaches two adjustment units,
/// capped at 64.
pub open spec fn minshift_spec(s: Seq<u8>) -> int {
    let f = first_reaching(s, 2 * adjustment_unit(s), 0);
    if f < 64 {
        f
    } else {
        64
    }
}

/// First brightness from the top whose downward cumulative count reaches
/// two adjustment units, floored at 192.
pub open spec fn maxshift_spec(s: Seq<u8>) -> int {
    let f = first_from_top(s, 2 * adjustment_unit(s), 255);
    if f > 192 {
        f
    } else {
        192
    }
}

/// The correction that one frame's histogram determines.
pub open spec fn correction_spec(s: Seq<u8>) -> ToneCorrection {
    ToneCorrection {
        mincut: mincut_spec(s) as u8,
        minshift: minshift_spec(s) as u8,
        maxshift: maxshift_spec(s) as u8,
    }
}

proof fn lemma_first_reaching_range(s: Seq<u8>, thr: int, j: int)
    requires
        0 <= j <= 255,
    ensures
        j <= first_reaching(s, thr, j) <= 255,
    decreases 255 - j,
{
    if j < 255 && count_le(s, j as u8) < thr {
        lemma_first_reaching_range(s, thr, j + 1);
    }
}

proof fn lemma_first_from_top_range(s: Seq<u8>, thr: int, j: int)
    requires
        0 <= j <= 255,
    ensures
        0 <= first_from_top(s, thr, j) <= j,
    decreases j,
{
    if j > 0 && count_ge(s, j as u8) < thr {
        lemma_first_from_top_range(s, thr, j - 1);
    }
}

/// The affine remap of one brightness sample under a correction,
/// in exact integer arithmetic, clamped to the 8-bit range.
pub open spec fn tone_map(c: ToneCorrection, v: u8) -> u8 {
    let num = 2 * (v as int) - c.mincut;
    if num <= 0 {
        0u8
    } else {
        let t = (num * (255 + c.minshift)) / (2 * c.maxshift);
        if t <= c.minshift {
            0u8
        } else if t - c.minshift >= 255 {
            255u8
        } else {
            (t - c.minshift) as u8
        }
    }
}

/// Scan the histogram upward and return the first brightness whose
/// cumulative count reaches `thr`, or 255.
fn scan_cumulative(h: &Vec<usize>, thr: usize, Ghost(s): Ghost<Seq<u8>>) -> (r: u8)
    requires
        s.len() <= usize::MAX,
        h@.len() == 256,
        forall|v: u8| h@[v as int] == count_eq(s, v),
    ensures
        r as int == first_reaching(s, thr as int, 0),
{
    let mut cum: usize = 0;
    let mut b: usize = 0;
    while b < 255
        invariant
            s.len() <= usize::MAX,
            h@.len() == 256,
            forall|v: u8| h@[v as int] == count_eq(s, v),
            b <= 255,
            cum == if b == 0 {
                0int
            } else {
                count_le(s, (b - 1) as u8)
            },
            forall|c: int| 0 <= c < b ==> #[trigger] count_le(s, c as u8) < thr,
        decreases 255 - b,
    {
        proof {
            lemma_count_le_unfold(s, b as u8);
            lemma_count_le_bounds(s, b as u8);
            lemma_count_eq_bounds(s, b as u8);
            assert(h@[(b as u8) as int] == count_eq(s, b as u8));
            assert((b as u8) as int == b as int);
            assert(cum + h@[b as int] == count_le(s, b as u8));
            assert(cum + h@[b as int] <= s.len());
        }
        cum = cum + h[b];
        assert(cum == count_le(s, b as u8));
        if cum >= thr {
            proof {
                lemma_first_reaching_pin(s, thr as int, 0, b as int);
            }
            return b as u8;
        }
        b = b + 1;
    }
    proof {
        lemma_first_reaching_pin(s, thr as int, 0, 255);
    }
    255
}

/// Scan the histogram downward and return the first brightness from the
/// top whose downward cumulative count reaches `thr`, or 0.
fn scan_from_top(h: &Vec<usize>, thr: usize, Ghost(s): Ghost<Seq<u8>>) -> (r: u8)
    requires
        s.len() <= usize::MAX,
        h@.len() == 256,
        forall|v: u8| h@[v as int] == count_eq(s, v),
    ensures
        r as int == first_from_top(s, thr as int, 255),
{
    let mut cum: usize = 0;
    let mut b: usize = 255;
    while b > 0
        invariant
            s.len() <= usize::MAX,
            h@.len() == 256,
            forall|v: u8| h@[v as int] == count_eq(s, v),
            b <= 255,
            cum == if b == 255 {
                0int
            } else {
                count_ge(s, (b + 1) as u8)
            },
            forall|c: int| b < c <= 255 ==> #[trigger] count_ge(s, c as u8) < thr,
        decreases b,
    {
        proof {
            lemma_count_ge_unfold(s, b as u8);
            lemma_count_ge_bounds(s, b as u8);
            lemma_count_eq_bounds(s, b as u8);
            assert(h@[(b as u8) as int] == count_eq(s, b as u8));
            assert((b as u8) as int == b as int);
            assert(cum + h@[b as int] == count_ge(s, b as u8));
            assert(cum + h@[b as int] <= s.len());
        }
        cum = cum + h[b];
        assert(cum == count_ge(s, b as u8));
        if cum >= thr {
            proof {
                lemma_first_from_top_pin(s, thr as int, 255, b as int);
            }
            return b as u8;
        }
        b = b - 1;
    }
    proof {
        lemma_first_from_top_pin(s, thr as int, 255, 0);
    }
    0
}

/// Derive the tone correction from a frame's histogram: discount one
/// adjustment unit of dark outliers and two units at either extreme
/// before stretching the remaining range.
pub fn determine_histogram_correction(image: &GrayImage, histogram: &Vec<usize>) -> (c:
    ToneCorrection)
    requires
        image.wf(),
        histogram@.len() == 256,
        forall|v: u8| histogram@[v as int] == count_eq(image.data@, v),
    ensures
        c == correction_spec(image.data@),
        c.wf(),
{
    let s = Ghost(image.data@);
    let unit = image.data.len() / PIXEL_HEIGHT;
    proof {
        vstd::arithmetic::div_mod::lemma_div_is_ordered(
            s@.len() as int,
            usize::MAX as int,
            PIXEL_HEIGHT as int,
        );
    }
    let double_unit = 2 * unit;

    let mincut_raw = scan_cumulative(histogram, unit, s);
    let mincut = if mincut_raw < 20 {
        mincut_raw
    } else {
        20
    };

    let minshift_raw = scan_cumulative(histogram, double_unit, s);
    let minshift = if minshift_raw < 64 {
        minshift_raw
    } else {
        64
    };

    let maxshift_raw = scan_from_top(histogram, double_unit, s);
    let maxshift = if maxshift_raw > 192 {
        maxshift_raw
    } else {
        192
    };

    proof {
        lemma_first_reaching_range(s@, unit as int, 0);
        lemma_first_reaching_range(s@, double_unit as int, 0);
        lemma_first_from_top_range(s@, double_unit as int, 255);
    }
    ToneCorrection { mincut, minshift, maxshift }
}

/// Remap every sample of the image under the correction, in place.
pub fn apply_histogram_correction(image: &mut GrayImage, correction: ToneCorrection)
    requires
        old(image).wf(),
        correction.wf(),
    ensures
        final(image).width == old(image).width,
        final(image).height == old(image).height,
        final(image).wf(),
        final(image).data@.len() == old(image).data@.len(),
        forall|i: int|
            0 <= i < old(image).data@.len() ==> final(image).data@[i] == tone_map(
                correction,
                old(image).data@[i],
            ),
{
    let ghost orig = image.data@;
    let mut i: usize = 0;
    while i < image.data.len()
        invariant
            image.wf(),
            image.width == old(image).width,
            image.height == old(image).height,
            image.data@.len() == orig.len(),
            correction.wf(),
            i <= orig.len(),
            forall|j: int| i <= j < orig.len() ==> image.data@[j] == orig[j],
            forall|j: int| 0 <= j < i ==> image.data@[j] == tone_map(correction, orig[j]),
        decreases orig.len() - i,
    {
        let v = image.data[i];
        let num = 2 * (v as i32) - (correction.mincut as i32);
        let out: u8 = if num <= 0 {
            0
        } else {
            let nu: u32 = num as u32;
            let weight: u32 = 255 + correction.minshift as u32;
            proof {
                assert(nu * weight <= 510 * 319) by (nonlinear_arith)
                    requires
                        nu <= 510,
                        weight <= 319,
                ;
            }
            let t: u32 = (nu * weight) / (2 * correction.maxshift as u32);
            if t <= correction.minshift as u32 {
                0
            } else {
                let shifted = t - correction.minshift as u32;
                if shifted >= 255 {
                    255
                } else {
                    shifted as u8
                }
            }
        };
        assert(out == tone_map(correction, orig[i as int]));
        image.data.set(i, out);
        i = i + 1;
    }
}

/// The whole tone-correction stage as a function on the sample sequence.
pub open spec fn tone_correct_spec(s: Seq<u8>) -> Seq<u8> {
    s.map_values(|v: u8| tone_map(correction_spec(s), v))
}

/// Tone-correct the image in place: build its histogram, derive the
/// correction, and remap every sample.
pub fn histogram_correction(image: &mut GrayImage)
    requires
        old(image).wf(),
    ensures
        final(image).width == old(image).width,
        final(image).height == old(image).height,
        final(image).wf(),
        final(image).data@ == tone_correct_spec(old(image).data@),
{
    let histogram = make_histogram(image);
    let correction = determine_histogram_correction(image, &histogram);
    apply_histogram_correction(image, correction);
    proof {
        assert(image.data@ =~= tone_correct_spec(old(image).data@));
    }
}

/// Tone correction is a monotonic non-decreasing function of input
/// brightness: the affine remap preserves the order of samples.
pub proof fn lemma_tone_map_monotonic(c: ToneCorrection, v1: u8, v2: u8)
    requires
        c.wf(),
        v1 <= v2,
    ensures
        tone_map(c, v1) <= tone_map(c, v2),
{
    let num1 = 2 * (v1 as int) - c.mincut;
    let num2 = 2 * (v2 as int) - c.mincut;
    if num1 > 0 {
        vstd::arithmetic::mul::lemma_mul_inequality(num1, num2, 255 + c.minshift);
        vstd::arithmetic::div_mod::lemma_div_is_ordered(
            num1 * (255 + c.minshift),
            num2 * (255 + c.minshift),
            2 * c.maxshift,
        );
        vstd::arithmetic::div_mod::lemma_div_pos_is_pos(num1 * (255 + c.minshift), 2 * c.maxshift);
        vstd::arithmetic::mul::lemma_mul_nonnegative(num1, 255 + c.minshift);
    }
}

} // verus!
