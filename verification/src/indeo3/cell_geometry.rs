//! Recovering a cell's rectangle from its destination address.
use super::mc_kernel::MC_ROW_STRIDE;
use vstd::prelude::*;

verus! {

/// Pixels of a column group.
pub const CELL_PIXELS_PER_COLUMN_GROUP: u32 = 4;

/// Rows of a row band.
pub const CELL_PIXELS_PER_ROW_BAND: u32 = 4;

/// The pixel width of a column-group count; `None` for zero.
pub fn cell_width_from_column_group_count(cl_inner: u8) -> (r: Option<u32>)
    ensures
        r is Some <==> cl_inner > 0,
        r matches Some(w) ==> w == 4 * cl_inner,
{
    if cl_inner == 0 {
        return None;
    }
    Some(cl_inner as u32 * CELL_PIXELS_PER_COLUMN_GROUP)
}

/// The pixel height of a row-band count; `None` for zero.
pub fn cell_height_from_row_band_count(row_band_count: u8) -> (r: Option<u32>)
    ensures
        r is Some <==> row_band_count > 0,
        r matches Some(h) ==> h == 4 * row_band_count,
{
    if row_band_count == 0 {
        return None;
    }
    Some(row_band_count as u32 * CELL_PIXELS_PER_ROW_BAND)
}

/// The row-band count: the top byte of the register.
pub fn row_band_count_from_ch_register(ch_register: u32) -> (r: u8)
    ensures
        r == ch_register as int / 0x100_0000,
{
    (ch_register / 0x100_0000) as u8
}

/// A cell's top-left pixel within its strip.
#[derive(Debug, Clone, Copy, PartialEq, Eq, Structural)]
pub struct CellCoords {
    /// The column, below the row stride.
    pub cell_x: u32,
    /// The row.
    pub cell_y: u32,
}

/// The coordinates of an address at or after the strip base. The row is
/// kept to 32 bits.
pub open spec fn coords_of(dst_addr: int, strip_base: int) -> CellCoords {
    CellCoords {
        cell_x: ((dst_addr - strip_base) % (MC_ROW_STRIDE as int)) as u32,
        cell_y: ((dst_addr - strip_base) / (MC_ROW_STRIDE as int) % 0x1_0000_0000) as u32,
    }
}

/// The coordinates of a destination address; `None` below the strip base.
pub fn cell_coords_from_dst_addr(dst_addr: usize, strip_base: usize) -> (r: Option<CellCoords>)
    ensures
        r is Some <==> dst_addr >= strip_base,
        r matches Some(c) ==> c == coords_of(dst_addr as int, strip_base as int),
{
    if dst_addr < strip_base {
        return None;
    }
    let offset: u64 = (dst_addr - strip_base) as u64;
    Some(
        CellCoords {
            cell_x: (offset % MC_ROW_STRIDE as u64) as u32,
            cell_y: (offset / MC_ROW_STRIDE as u64 % 0x1_0000_0000) as u32,
        },
    )
}

/// The address of a pixel gives its coordinates back.
pub proof fn coords_round_trip(strip_base: int, x: u32, y: u32)
    requires
        x < MC_ROW_STRIDE,
    ensures
        coords_of(strip_base + y * MC_ROW_STRIDE + x, strip_base) == (CellCoords {
            cell_x: x,
            cell_y: y,
        }),
{
    assert(y * MC_ROW_STRIDE == y * 0xb0);
}

/// The coordinates of an address give the address back, where the row
/// fits 32 bits.
pub proof fn address_round_trip(dst_addr: int, strip_base: int)
    requires
        strip_base <= dst_addr < strip_base + 0xb0 * 0x1_0000_0000,
    ensures
        ({
            let c = coords_of(dst_addr, strip_base);
            strip_base + c.cell_y * 0xb0 + c.cell_x == dst_addr && c.cell_x < MC_ROW_STRIDE
        }),
{
}

/// A cell's rectangle within its strip.
#[derive(Debug, Clone, Copy, PartialEq, Eq, Structural)]
pub struct CellRect {
    /// The top-left pixel.
    pub coords: CellCoords,
    /// The pixel width.
    pub width: u32,
    /// The pixel height.
    pub height: u32,
}

/// Why a rectangle cannot be recovered.
#[derive(Debug, Clone, Copy, PartialEq, Eq, Structural)]
pub enum CellRectDecodeError {
    /// The address is below the strip base.
    DestAddressBelowStripBase,
    /// The column-group count is zero.
    ZeroColumnGroupCount,
    /// The row-band count is zero.
    ZeroRowBandCount,
    /// A dimension overflows 32 bits.
    DimensionOverflow,
}

/// The rectangle of its parts: a zero count is an error, the column-group
/// count first.
pub open spec fn rect_of(coords: CellCoords, cl_inner: u8, row_band_count: u8) -> Result<
    CellRect,
    CellRectDecodeError,
> {
    if cl_inner == 0 {
        Err(CellRectDecodeError::ZeroColumnGroupCount)
    } else if row_band_count == 0 {
        Err(CellRectDecodeError::ZeroRowBandCount)
    } else {
        Ok(
            CellRect {
                coords,
                width: (4 * cl_inner) as u32,
                height: (4 * row_band_count) as u32,
            },
        )
    }
}

impl CellRect {
    /// Assemble a rectangle from its parts.
    pub fn from_parts(coords: CellCoords, cl_inner: u8, row_band_count: u8) -> (r: Result<
        Self,
        CellRectDecodeError,
    >)
        ensures
            r == rect_of(coords, cl_inner, row_band_count),
    {
        let width: u32 = match cell_width_from_column_group_count(cl_inner) {
            Some(w) => w,
            None => return Err(CellRectDecodeError::ZeroColumnGroupCount),
        };
        let height: u32 = match cell_height_from_row_band_count(row_band_count) {
            Some(h) => h,
            None => return Err(CellRectDecodeError::ZeroRowBandCount),
        };
        Ok(CellRect { coords, width, height })
    }
}

/// Recover a cell's rectangle from its destination address and counts.
pub fn reverse_decompose(
    dst_addr: usize,
    strip_base: usize,
    cl_inner: u8,
    row_band_count: u8,
) -> (r:
    Result<CellRect, CellRectDecodeError>)
    ensures
        r == if dst_addr < strip_base {
            Err::<CellRect, CellRectDecodeError>(CellRectDecodeError::DestAddressBelowStripBase)
        } else {
            rect_of(coords_of(dst_addr as int, strip_base as int), cl_inner, row_band_count)
        },
{
    match cell_coords_from_dst_addr(dst_addr, strip_base) {
        Some(coords) => CellRect::from_parts(coords, cl_inner, row_band_count),
        None => Err(CellRectDecodeError::DestAddressBelowStripBase),
    }
}

/// A cell is four pixels wide for each column group and four rows high for
/// each row band; one without columns is refused, and then one without
/// rows.
pub proof fn cells_count_in_fours(coords: CellCoords, cl_inner: u8, row_band_count: u8)
    ensures
        match rect_of(coords, cl_inner, row_band_count) {
            Ok(r) => {
                &&& cl_inner > 0
                &&& row_band_count > 0
                &&& r.coords == coords
                &&& r.width == 4 * cl_inner
                &&& r.height == 4 * row_band_count
            },
            Err(CellRectDecodeError::ZeroColumnGroupCount) => cl_inner == 0,
            Err(CellRectDecodeError::ZeroRowBandCount) => cl_inner > 0 && row_band_count == 0,
            Err(_) => false,
        },
{
}

} // verus!
