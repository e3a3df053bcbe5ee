//! The shape of the motion-compensation inner loop.
use vstd::prelude::*;

verus! {

/// Row stride of the strip pixel buffers.
pub const MC_ROW_STRIDE: usize = 0xb0;

/// Rows of one band.
pub const MC_BAND_ROWS: usize = 4;

/// Pixels of one column group.
pub const MC_COLUMN_GROUP_PIXELS: usize = 4;

} // verus!
