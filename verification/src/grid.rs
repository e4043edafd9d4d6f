//! The two raster types the pipeline works on: an 8-bit grayscale image
//! and a 1-bit bitmap, both row-major.

use vstd::prelude::*;

verus! {

/// Single-channel image of 8-bit brightness samples, row-major.
pub struct GrayImage {
    pub width: usize,
    pub height: usize,
    pub data: Vec<u8>,
}

/// Row-major index of column `x`, row `y` in a raster of width `w`.
pub open spec fn raster_index(w: int, x: int, y: int) -> int {
    y * w + x
}

/// Any in-bounds row-major index lies below `w * h`.
pub proof fn lemma_raster_index_in_bounds(w: int, h: int, x: int, y: int)
    requires
        0 <= x < w,
        0 <= y < h,
    ensures
        0 <= raster_index(w, x, y) < w * h,
{
    assert(0 <= y * w + x < w * h) by (nonlinear_arith)
        requires
            0 <= x < w,
            0 <= y < h,
    ;
}

impl GrayImage {
    /// The buffer holds exactly one sample per pixel.
    pub open spec fn wf(self) -> bool {
        &&& self.data@.len() == self.width * self.height
        &&& self.width * self.height <= usize::MAX
    }

    /// Sample at column `x`, row `y`.
    pub open spec fn at(self, x: int, y: int) -> u8 {
        self.data@[raster_index(self.width as int, x, y)]
    }

    /// Fresh image with every sample set to `value`.
    pub fn new_filled(width: usize, height: usize, value: u8) -> (r: GrayImage)
        requires
            width * height <= usize::MAX,
        ensures
            r.width == width,
            r.height == height,
            r.wf(),
            forall|i: int| 0 <= i < r.data@.len() ==> r.data@[i] == value,
    {
        let count = width * height;
        let mut data: Vec<u8> = Vec::new();
        let mut i: usize = 0;
        while i < count
            invariant
                i <= count,
                data@.len() == i,
                forall|j: int| 0 <= j < i ==> data@[j] == value,
            decreases count - i,
        {
            data.push(value);
            i = i + 1;
        }
        GrayImage { width, height, data }
    }

    pub fn get(&self, x: usize, y: usize) -> (v: u8)
        requires
            self.wf(),
            x < self.width,
            y < self.height,
        ensures
            v == self.at(x as int, y as int),
    {
        proof {
            lemma_raster_index_in_bounds(
                self.width as int,
                self.height as int,
                x as int,
                y as int,
            );
        }
        self.data[y * self.width + x]
    }

    pub fn set(&mut self, x: usize, y: usize, v: u8)
        requires
            old(self).wf(),
            x < old(self).width,
            y < old(self).height,
        ensures
            final(self).width == old(self).width,
            final(self).height == old(self).height,
            final(self).wf(),
            final(self).data@ == old(self).data@.update(
                raster_index(old(self).width as int, x as int, y as int),
                v,
            ),
    {
        proof {
            lemma_raster_index_in_bounds(
                self.width as int,
                self.height as int,
                x as int,
                y as int,
            );
        }
        let i = y * self.width + x;
        self.data.set(i, v);
    }
}

/// Image of single-bit cells, row-major; the binarized output raster.
pub struct Bitmap {
    pub width: usize,
    pub height: usize,
    pub bits: Vec<bool>,
}

impl Bitmap {
    /// The buffer holds exactly one bit per cell.
    pub open spec fn wf(self) -> bool {
        &&& self.bits@.len() == self.width * self.height
        &&& self.width * self.height <= usize::MAX
    }

    /// Bit at column `x`, row `y`.
    pub open spec fn at(self, x: int, y: int) -> bool {
        self.bits@[raster_index(self.width as int, x, y)]
    }

    /// Fresh bitmap with every bit set to `value`.
    pub fn new_filled(width: usize, height: usize, value: bool) -> (r: Bitmap)
        requires
            width * height <= usize::MAX,
        ensures
            r.width == width,
            r.height == height,
            r.wf(),
            forall|i: int| 0 <= i < r.bits@.len() ==> r.bits@[i] == value,
    {
        let count = width * height;
        let mut bits: Vec<bool> = Vec::new();
        let mut i: usize = 0;
        while i < count
            invariant
                i <= count,
                bits@.len() == i,
                forall|j: int| 0 <= j < i ==> bits@[j] == value,
            decreases count - i,
        {
            bits.push(value);
            i = i + 1;
        }
        Bitmap { width, height, bits }
    }

    pub fn get(&self, x: usize, y: usize) -> (v: bool)
        requires
            self.wf(),
            x < self.width,
            y < self.height,
        ensures
            v == self.at(x as int, y as int),
    {
        proof {
            lemma_raster_index_in_bounds(
                self.width as int,
                self.height as int,
                x as int,
                y as int,
            );
        }
        self.bits[y * self.width + x]
    }

    pub fn set(&mut self, x: usize, y: usize, v: bool)
        requires
            old(self).wf(),
            x < old(self).width,
            y < old(self).height,
        ensures
            final(self).width == old(self).width,
            final(self).height == old(self).height,
            final(self).wf(),
            final(self).bits@ == old(self).bits@.update(
                raster_index(old(self).width as int, x as int, y as int),
                v,
            ),
    {
        proof {
            lemma_raster_index_in_bounds(
                self.width as int,
                self.height as int,
                x as int,
                y as int,
            );
        }
        let i = y * self.width + x;
        self.bits.set(i, v);
    }
}

} // verus!
