//! Removal of the synthetic gap rows: the working canvas carries extra
//! rows standing in for the physical spacers between tile rows, and this
//! stage deletes them, producing the raster of the true device geometry.

use vstd::prelude::*;

use crate::grid::{lemma_raster_index_in_bounds, Bitmap};
use crate::{SPACER_HEIGHT, TILE_SIZE};
use vstd::arithmetic::div_mod::{
    lemma_fundamental_div_mod, lemma_fundamental_div_mod_converse,
    lemma_mod_division_less_than_divisor,
};
use vstd::arithmetic::mul::{lemma_mul_inequality, lemma_mul_is_commutative};

verus! {

/// Total height of the synthetic gap rows in a working canvas of height
/// `h`: one spacer after every full tile row, plus whatever a trailing
/// partial period holds beyond one tile height.
pub open spec fn total_spacer_height(h: int) -> int {
    let period = (TILE_SIZE + SPACER_HEIGHT) as int;
    let full = h / period;
    let rem = h % period;
    full * (SPACER_HEIGHT as int) + if rem > TILE_SIZE {
        rem - TILE_SIZE
    } else {
        0
    }
}

/// Height of the raster after the gap rows are removed.
pub open spec fn height_without_spacers(h: int) -> int {
    h - total_spacer_height(h)
}

/// Source row that output row `r` is copied from: every full tile of
/// output rows skips one spacer of source rows.
pub open spec fn spacer_src_row(r: int) -> int {
    r + (SPACER_HEIGHT as int) * (r / (TILE_SIZE as int))
}

/// The whole spacer-removal stage as a function on the bit sequence.
pub open spec fn remove_spacers_spec(bits: Seq<bool>, w: int, h: int) -> Seq<bool> {
    Seq::new(
        (height_without_spacers(h) * w) as nat,
        |i: int| bits[spacer_src_row(i / w) * w + i % w],
    )
}

/// The removed height is between zero and the canvas height.
pub proof fn lemma_spacer_height_bounds(h: int)
    requires
        h >= 0,
    ensures
        0 <= total_spacer_height(h) <= h,
        0 <= height_without_spacers(h) <= h,
{
    lemma_fundamental_div_mod(h, 12);
    lemma_mod_division_less_than_divisor(h, 12);
    vstd::arithmetic::div_mod::lemma_div_pos_is_pos(h, 12);
    let full = h / 12;
    let rem = h % 12;
    assert(full * 4 + if rem > 8 {
        rem - 8
    } else {
        0int
    } <= 12 * full + rem) by (nonlinear_arith)
        requires
            full >= 0,
            rem >= 0,
    ;
    assert(full * 4 >= 0) by (nonlinear_arith)
        requires
            full >= 0,
    ;
}

/// Every output row's source row lies inside the working canvas.
pub proof fn lemma_spacer_src_row_bounds(h: int, r: int)
    requires
        h >= 0,
        0 <= r < height_without_spacers(h),
    ensures
        0 <= spacer_src_row(r) < h,
{
    lemma_fundamental_div_mod(h, 12);
    lemma_mod_division_less_than_divisor(h, 12);
    lemma_fundamental_div_mod(r, 8);
    lemma_mod_division_less_than_divisor(r, 8);
    vstd::arithmetic::div_mod::lemma_div_pos_is_pos(r, 8);
    let full = h / 12;
    let rem = h % 12;
    let a = r / 8;
    let b = r % 8;
    assert(spacer_src_row(r) == 12 * a + b);
    if rem > 8 {
        assert(r < 8 * full + 8);
        assert(a <= full) by (nonlinear_arith)
            requires
                8 * a + b == r,
                0 <= b < 8,
                r < 8 * full + 8,
        ;
        assert(12 * a + b < 12 * full + rem) by (nonlinear_arith)
            requires
                0 <= a <= full,
                0 <= b < 8,
                rem > 8,
        ;
    } else {
        assert(r < 8 * full + rem);
        assert(12 * a + b < 12 * full + rem) by (nonlinear_arith)
            requires
                8 * a + b == r,
                0 <= b < 8,
                0 <= rem <= 8,
                full >= 0,
                r < 8 * full + rem,
        ;
    }
}

/// Height of the device raster that a working canvas of `height` rows
/// maps to once the gap rows are removed.
pub fn calc_height_without_spacers(height: usize) -> (r: usize)
    ensures
        r == height_without_spacers(height as int),
{
    let full_tile_rows_with_spacers = height / (TILE_SIZE + SPACER_HEIGHT);
    let remaining_pixel_rows = height % (TILE_SIZE + SPACER_HEIGHT);
    proof {
        lemma_spacer_height_bounds(height as int);
        lemma_fundamental_div_mod(height as int, 12);
        lemma_mod_division_less_than_divisor(height as int, 12);
        assert(full_tile_rows_with_spacers * 4 <= height) by (nonlinear_arith)
            requires
                12 * (full_tile_rows_with_spacers as int) <= height,
                full_tile_rows_with_spacers >= 0,
        ;
    }
    let total_spacer = full_tile_rows_with_spacers * SPACER_HEIGHT + if remaining_pixel_rows
        > TILE_SIZE {
        remaining_pixel_rows - TILE_SIZE
    } else {
        0
    };
    height - total_spacer
}

/// Delete the gap rows: walk the canvas row by row, and after every
/// `TILE_SIZE` output rows advance the source cursor by `SPACER_HEIGHT`
/// extra rows. Column count is unchanged.
pub fn remove_spacers(source: Bitmap) -> (r: Bitmap)
    requires
        source.wf(),
    ensures
        r.width == source.width,
        r.height == height_without_spacers(source.height as int),
        r.wf(),
        r.bits@ == remove_spacers_spec(source.bits@, source.width as int, source.height as int),
        forall|x: int, ry: int|
            0 <= x < r.width && 0 <= ry < r.height ==> r.at(x, ry) == source.at(
                x,
                spacer_src_row(ry),
            ),
{
    let width = source.width;
    let height = source.height;
    let ghost w = width as int;
    let ghost h = height as int;
    let result_height = calc_height_without_spacers(height);
    proof {
        lemma_spacer_height_bounds(h);
        lemma_mul_inequality(result_height as int, h, w);
        lemma_mul_is_commutative(h, w);
        lemma_mul_is_commutative(result_height as int, w);
    }
    let ghost rspec = remove_spacers_spec(source.bits@, w, h);
    let mut result = Bitmap::new_filled(width, result_height, false);

    let mut source_y: usize = 0;
    let mut result_y: usize = 0;
    while result_y < result_height
        invariant
            w == width as int,
            h == height as int,
            source.wf(),
            source.width == width,
            source.height == height,
            result.wf(),
            result.width == width,
            result.height == result_height,
            result_height == height_without_spacers(h),
            rspec == remove_spacers_spec(source.bits@, w, h),
            result_y <= result_height,
            source_y == if result_y == 0 {
                0int
            } else {
                spacer_src_row(result_y - 1) + 1
            },
            forall|i: int| 0 <= i < result_y * w ==> result.bits@[i] == rspec[i],
        decreases result_height - result_y,
    {
        proof {
            let r = result_y as int;
            lemma_spacer_height_bounds(h);
            lemma_spacer_src_row_bounds(h, r);
            if r != 0 {
                lemma_fundamental_div_mod(r, 8);
                lemma_mod_division_less_than_divisor(r, 8);
                if r % 8 == 0 {
                    lemma_fundamental_div_mod_converse(r - 1, 8, r / 8 - 1, 7);
                } else {
                    lemma_fundamental_div_mod_converse(r - 1, 8, r / 8, r % 8 - 1);
                }
            }
            if r != 0 && r % 8 == 0 {
                assert(source_y + SPACER_HEIGHT == spacer_src_row(r));
            } else {
                assert(source_y == spacer_src_row(r));
            }
        }
        if result_y != 0 && result_y % TILE_SIZE == 0 {
            source_y = source_y + SPACER_HEIGHT;
        }
        assert(source_y == spacer_src_row(result_y as int));
        assert(source_y < height);
        let mut x: usize = 0;
        while x < width
            invariant
                w == width as int,
                h == height as int,
                source.wf(),
                source.width == width,
                source.height == height,
                result.wf(),
                result.width == width,
                result.height == result_height,
                result_height == height_without_spacers(h),
                rspec == remove_spacers_spec(source.bits@, w, h),
                result_y < result_height,
                source_y == spacer_src_row(result_y as int),
                source_y < height,
                x <= width,
                forall|i: int| 0 <= i < result_y * w + x ==> result.bits@[i] == rspec[i],
            decreases width - x,
        {
            let bit = source.get(x, source_y);
            proof {
                let k = (result_y as int) * w + x;
                lemma_raster_index_in_bounds(w, result_height as int, x as int, result_y as int);
                lemma_mul_is_commutative(w, result_height as int);
                lemma_fundamental_div_mod_converse(k, w, result_y as int, x as int);
                assert(rspec[k] == source.bits@[spacer_src_row(result_y as int) * w + x]);
            }
            result.set(x, result_y, bit);
            x = x + 1;
        }
        proof {
            assert((result_y as int + 1) * w == (result_y as int) * w + w) by (nonlinear_arith);
        }
        source_y = source_y + 1;
        result_y = result_y + 1;
    }
    proof {
        lemma_mul_is_commutative(result_height as int, w);
        assert(result.bits@ =~= rspec);
        assert forall|x: int, ry: int|
            0 <= x < result.width && 0 <= ry < result.height implies result.at(x, ry) == source.at(
            x,
            spacer_src_row(ry),
        ) by {
            let k = ry * w + x;
            lemma_raster_index_in_bounds(w, result_height as int, x, ry);
            lemma_fundamental_div_mod_converse(k, w, ry, x);
            lemma_spacer_src_row_bounds(h, ry);
        }
    }
    result
}

} // verus!
