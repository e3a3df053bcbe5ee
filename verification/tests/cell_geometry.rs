use oxideav_indeo::indeo3::cell_geometry::{
    cell_coords_from_dst_addr, cell_height_from_row_band_count, cell_width_from_column_group_count,
    reverse_decompose, row_band_count_from_ch_register, CELL_PIXELS_PER_COLUMN_GROUP,
    CELL_PIXELS_PER_ROW_BAND, CellCoords, CellRect, CellRectDecodeError,
};
use oxideav_indeo::indeo3::mc_kernel::{MC_BAND_ROWS, MC_COLUMN_GROUP_PIXELS, MC_ROW_STRIDE};

#[test]
fn column_group_factor_is_four() {
    assert_eq!(CELL_PIXELS_PER_COLUMN_GROUP, 4);
    assert_eq!(CELL_PIXELS_PER_COLUMN_GROUP, MC_COLUMN_GROUP_PIXELS as u32);
}

#[test]
fn row_band_factor_is_four() {
    assert_eq!(CELL_PIXELS_PER_ROW_BAND, 4);
    assert_eq!(CELL_PIXELS_PER_ROW_BAND, MC_BAND_ROWS as u32);
}

#[test]
fn cell_width_one_column_group() {
    assert_eq!(cell_width_from_column_group_count(1), Some(4));
}

#[test]
fn cell_width_full_strip_width() {
    assert_eq!(cell_width_from_column_group_count(44), Some(176));
}

#[test]
fn cell_width_typical_chroma_cell() {
    assert_eq!(cell_width_from_column_group_count(10), Some(40));
}

#[test]
fn cell_width_zero_column_group_rejected() {
    assert_eq!(cell_width_from_column_group_count(0), None);
}

#[test]
fn cell_width_max_byte_does_not_overflow() {
    assert_eq!(cell_width_from_column_group_count(0xff), Some(0xff * 4));
}

#[test]
fn cell_height_one_row_band() {
    assert_eq!(cell_height_from_row_band_count(1), Some(4));
}

#[test]
fn cell_height_typical_strip_height() {
    assert_eq!(cell_height_from_row_band_count(10), Some(40));
}

#[test]
fn cell_height_zero_row_band_rejected() {
    assert_eq!(cell_height_from_row_band_count(0), None);
}

#[test]
fn cell_height_max_byte_does_not_overflow() {
    assert_eq!(cell_height_from_row_band_count(0xff), Some(0xff * 4));
}

#[test]
fn row_band_count_extracts_upper_byte_of_ch_register() {
    assert_eq!(row_band_count_from_ch_register(0x0A_00_00_00), 10);
}

#[test]
fn row_band_count_ignores_lower_bytes() {
    assert_eq!(row_band_count_from_ch_register(0x0A_FF_FF_FF), 10);
}

#[test]
fn row_band_count_zero_for_zero_ch() {
    assert_eq!(row_band_count_from_ch_register(0), 0);
}

#[test]
fn row_band_count_max_byte_extraction() {
    assert_eq!(row_band_count_from_ch_register(0xFF_00_00_00), 0xFF);
}

#[test]
fn coords_at_strip_base_is_zero_zero() {
    let c = cell_coords_from_dst_addr(0x10_0000, 0x10_0000).unwrap();
    assert_eq!(c.cell_x, 0);
    assert_eq!(c.cell_y, 0);
}

#[test]
fn coords_one_row_below_base() {
    let c = cell_coords_from_dst_addr(0x10_0000 + MC_ROW_STRIDE, 0x10_0000).unwrap();
    assert_eq!(c.cell_x, 0);
    assert_eq!(c.cell_y, 1);
}

#[test]
fn coords_within_first_row() {
    let c = cell_coords_from_dst_addr(0x10_0000 + 4, 0x10_0000).unwrap();
    assert_eq!(c.cell_x, 4);
    assert_eq!(c.cell_y, 0);
}

#[test]
fn coords_arbitrary_strip_position() {
    let strip_base = 0x20_0000;
    let dst_addr = strip_base + 7 * MC_ROW_STRIDE + 16;
    let c = cell_coords_from_dst_addr(dst_addr, strip_base).unwrap();
    assert_eq!(c.cell_x, 16);
    assert_eq!(c.cell_y, 7);
}

#[test]
fn coords_at_last_column_of_strip_row() {
    let strip_base = 0x30_0000;
    let dst_addr = strip_base + MC_ROW_STRIDE - 1;
    let c = cell_coords_from_dst_addr(dst_addr, strip_base).unwrap();
    assert_eq!(c.cell_x, (MC_ROW_STRIDE - 1) as u32);
    assert_eq!(c.cell_x, 175);
    assert_eq!(c.cell_y, 0);
}

#[test]
fn coords_below_strip_base_returns_none() {
    assert_eq!(cell_coords_from_dst_addr(0x10_0000, 0x10_0001), None);
}

#[test]
fn rect_assembles_full_strip_cell() {
    let coords = CellCoords {
        cell_x: 0,
        cell_y: 0,
    };
    let rect = CellRect::from_parts(coords, 44, 10).unwrap();
    assert_eq!(rect.coords, coords);
    assert_eq!(rect.width, 176);
    assert_eq!(rect.height, 40);
}

#[test]
fn rect_assembles_typical_intra_cell() {
    let coords = CellCoords {
        cell_x: 32,
        cell_y: 8,
    };
    let rect = CellRect::from_parts(coords, 4, 4).unwrap();
    assert_eq!(rect.coords.cell_x, 32);
    assert_eq!(rect.coords.cell_y, 8);
    assert_eq!(rect.width, 16);
    assert_eq!(rect.height, 16);
}

#[test]
fn rect_rejects_zero_column_group_count() {
    let coords = CellCoords {
        cell_x: 0,
        cell_y: 0,
    };
    assert_eq!(
        CellRect::from_parts(coords, 0, 4),
        Err(CellRectDecodeError::ZeroColumnGroupCount)
    );
}

#[test]
fn rect_rejects_zero_row_band_count() {
    let coords = CellCoords {
        cell_x: 0,
        cell_y: 0,
    };
    assert_eq!(
        CellRect::from_parts(coords, 4, 0),
        Err(CellRectDecodeError::ZeroRowBandCount)
    );
}

#[test]
fn reverse_decompose_full_chain_strip_origin() {
    let r = reverse_decompose(0x10_0000, 0x10_0000, 4, 4).unwrap();
    assert_eq!(r.coords.cell_x, 0);
    assert_eq!(r.coords.cell_y, 0);
    assert_eq!(r.width, 16);
    assert_eq!(r.height, 16);
}

#[test]
fn reverse_decompose_arbitrary_position_and_size() {
    let strip_base = 0x20_0000;
    let dst_addr = strip_base + 4 * MC_ROW_STRIDE + 8;
    let r = reverse_decompose(dst_addr, strip_base, 2, 2).unwrap();
    assert_eq!(r.coords.cell_x, 8);
    assert_eq!(r.coords.cell_y, 4);
    assert_eq!(r.width, 8);
    assert_eq!(r.height, 8);
}

#[test]
fn reverse_decompose_propagates_below_base_error() {
    assert_eq!(
        reverse_decompose(0x10_0000, 0x10_0001, 4, 4),
        Err(CellRectDecodeError::DestAddressBelowStripBase)
    );
}

#[test]
fn reverse_decompose_propagates_zero_column_group_error() {
    assert_eq!(
        reverse_decompose(0x10_0000, 0x10_0000, 0, 4),
        Err(CellRectDecodeError::ZeroColumnGroupCount)
    );
}

#[test]
fn reverse_decompose_propagates_zero_row_band_error() {
    assert_eq!(
        reverse_decompose(0x10_0000, 0x10_0000, 4, 0),
        Err(CellRectDecodeError::ZeroRowBandCount)
    );
}

#[test]
fn modulus_aligns_with_mc_row_stride() {
    let strip_base = 0x40_0000;
    let dst_addr = strip_base + MC_ROW_STRIDE - 1;
    let c = cell_coords_from_dst_addr(dst_addr, strip_base).unwrap();
    assert_eq!(c.cell_x, (MC_ROW_STRIDE - 1) as u32);
    assert_eq!(c.cell_y, 0);
}

#[test]
fn forward_reverse_round_trip_at_arbitrary_coords() {
    let strip_base = 0x50_0000_usize;
    let cell_x = 24;
    let cell_y = 9;
    let dst_addr = strip_base + (cell_y as usize) * MC_ROW_STRIDE + cell_x as usize;
    let c = cell_coords_from_dst_addr(dst_addr, strip_base).unwrap();
    assert_eq!(c.cell_x, cell_x);
    assert_eq!(c.cell_y, cell_y);
}

#[test]
fn cell_width_consistent_with_column_group_pixels() {
    assert_eq!(
        cell_width_from_column_group_count(1).unwrap() as usize,
        MC_COLUMN_GROUP_PIXELS
    );
}

#[test]
fn cell_height_consistent_with_band_rows() {
    assert_eq!(
        cell_height_from_row_band_count(1).unwrap() as usize,
        MC_BAND_ROWS
    );
}
