//! Verified core of a tiled, double-buffered Game of Life renderer.
//!
//! A very large logical cell grid is split into hardware-sized tiles; two
//! generations of tiled storage are kept and a flipping index selects the
//! current one.  This crate holds the host-side logic that must be exactly
//! right for the GPU pipeline around it to make sense: tile-grid geometry and
//! addressing, the transition rule and a reference simulation over the packed
//! tiled storage, profiler sample accounting, the uniform dirty-flag state
//! machine, and navigation input mapping.

use vstd::prelude::*;

pub mod frame;
pub mod input;
pub mod life;
pub mod profiler;
pub mod tiling;
pub mod uniform;

verus! {

/// Cells are packed one bit each, 32 per 32-bit storage word.
pub const BITS_PER_PIXEL: u32 = 32;

/// Logical world width and height in cells, as configured at build time.
pub const WORLD_WIDTH: u32 = 1u32 << 16u32;

} // verus!
