//! Rendering pipeline for a tiled 1-bit dot-matrix display.
//!
//! A source raster frame is fitted onto the display's working canvas,
//! tone-corrected from a per-frame histogram, optionally blurred and
//! sharpened, reduced to one bit per pixel by thresholding or serpentine
//! error-diffusion dithering, and finally stripped of the synthetic rows
//! that stand in for the physical gaps between the display's tile rows.

use vstd::prelude::*;

pub mod cli;
pub mod dither;
pub mod filter;
pub mod fit;
pub mod grid;
pub mod pipeline;
pub mod spacers;
pub mod tone;

verus! {

/// Width and height of one display tile, in pixels.
pub const TILE_SIZE: usize = 8;

/// Number of tile columns of the display.
pub const TILE_WIDTH: usize = 56;

/// Number of tile rows of the display.
pub const TILE_HEIGHT: usize = 20;

/// Width of the display in pixels.
pub const PIXEL_WIDTH: usize = 448;

/// Height of the display in pixels.
pub const PIXEL_HEIGHT: usize = 160;

/// Height of the physical gap between two adjacent tile rows, in pixel rows.
pub const SPACER_HEIGHT: usize = 4;

} // verus!
