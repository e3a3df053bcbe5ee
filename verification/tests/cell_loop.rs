use oxideav_indeo::indeo3::cell_loop::{
    advance_row, dispatch_cell_preamble, iterate_column_rows, read_cell_position_dword,
    read_cl_row_counter, CELL_BANK_LEN, CELL_DATA_TABLE, CELL_POSITION_MAX, CELL_POSITION_TABLE,
    CH_CONTROL_LUT, CL_ROW_COUNTER_LUT, CellLoopPreamble, CellLoopState, CodebookBankView,
    INTRA_CONTEXT_CLEAR_MASK, INTRA_CONTEXT_FLAG, MIRROR_TABLE_OFFSET, SLOT_INDEX_LUT,
};
use oxideav_indeo::indeo3::reconstruct::PREDICTOR_ROW_STRIDE;

fn synth_bank() -> Vec<u8> {
    (0..CELL_BANK_LEN)
        .map(|i| (i.wrapping_mul(7).wrapping_add(13)) as u8)
        .collect()
}

#[test]
fn bank_layout_constants_match_spec_table() {
    assert_eq!(CL_ROW_COUNTER_LUT, 0x000);
    assert_eq!(CH_CONTROL_LUT, 0x100);
    assert_eq!(SLOT_INDEX_LUT, 0x200);
    assert_eq!(CELL_DATA_TABLE, 0x300);
    assert_eq!(CELL_POSITION_TABLE, 0x700);
    assert_eq!(MIRROR_TABLE_OFFSET, 0xb00);
    assert_eq!(CELL_BANK_LEN, 0x1300);
}

#[test]
fn sanity_check_constants_match_spec() {
    assert_eq!(CELL_POSITION_MAX, 0xf423f);
    assert_eq!(CELL_POSITION_MAX, 999_999);
    assert_eq!(INTRA_CONTEXT_CLEAR_MASK, !INTRA_CONTEXT_FLAG);
    assert_eq!(INTRA_CONTEXT_FLAG, 0x40000000);
}

#[test]
fn codebook_bank_view_picks_mirror_when_stack_empty() {
    assert_eq!(
        CodebookBankView::from_cell_stack_top(0),
        CodebookBankView::Mirror
    );
    assert!(CodebookBankView::Mirror.is_mirror());
    assert_eq!(CodebookBankView::Mirror.bank_base_offset(), 0xb00);

    for v in [1u32, 0x1869f, 0xdead_beef, u32::MAX] {
        assert_eq!(
            CodebookBankView::from_cell_stack_top(v),
            CodebookBankView::Primary
        );
    }
    assert!(!CodebookBankView::Primary.is_mirror());
    assert_eq!(CodebookBankView::Primary.bank_base_offset(), 0);
}

#[test]
fn read_cl_row_counter_reads_byte_at_index() {
    let bank = synth_bank();
    assert_eq!(read_cl_row_counter(&bank, 0), Some(13));
    assert_eq!(read_cl_row_counter(&bank, 1), Some(20));
    let expected = (255u32 * 7 + 13) as u8;
    assert_eq!(read_cl_row_counter(&bank, 255), Some(expected));
}

#[test]
fn read_cl_row_counter_rejects_short_slice() {
    let short = vec![0u8; 100];
    assert_eq!(read_cl_row_counter(&short, 99), Some(0));
    assert_eq!(read_cl_row_counter(&short, 100), None);
    assert_eq!(read_cl_row_counter(&short, 255), None);
}

#[test]
fn read_cell_position_dword_reads_le_four_bytes() {
    let mut bank = vec![0u8; CELL_BANK_LEN];
    let cl: u8 = 5;
    let value: u32 = 0xdead_beef;
    let off = CELL_DATA_TABLE + 4 * cl as usize;
    bank[off..off + 4].copy_from_slice(&value.to_le_bytes());
    assert_eq!(read_cell_position_dword(&bank, cl), Some(value));
    assert!(read_cell_position_dword(&bank, 255).is_some());
}

#[test]
fn dispatch_cell_preamble_picks_mirror_view_when_stack_empty() {
    let mut bank = vec![0u8; CELL_BANK_LEN];
    let cl: u8 = 3;
    let pos: u32 = 0x10;
    let off = MIRROR_TABLE_OFFSET + CELL_DATA_TABLE + 4 * cl as usize;
    bank[off..off + 4].copy_from_slice(&pos.to_le_bytes());
    bank[MIRROR_TABLE_OFFSET + cl as usize] = 7;

    let pre = dispatch_cell_preamble(&bank, /* cell_stack_top */ 0, cl, 0);
    let state = pre.state().expect("ready");
    assert_eq!(state.bank_view, CodebookBankView::Mirror);
    assert_eq!(state.cl_inner, 7);
    assert_eq!(state.cell_position_offset, pos);
}

#[test]
fn dispatch_cell_preamble_picks_primary_view_when_stack_nonzero() {
    let mut bank = vec![0u8; CELL_BANK_LEN];
    let cl: u8 = 11;
    let pos: u32 = 0xa0;
    let off = CELL_DATA_TABLE + 4 * cl as usize;
    bank[off..off + 4].copy_from_slice(&pos.to_le_bytes());
    bank[cl as usize] = 4;

    let pre = dispatch_cell_preamble(&bank, /* cell_stack_top */ 0x1234, cl, 0);
    let state = pre.state().expect("ready");
    assert_eq!(state.bank_view, CodebookBankView::Primary);
    assert_eq!(state.cl_inner, 4);
    assert_eq!(state.cell_position_offset, pos);
}

#[test]
fn dispatch_cell_preamble_clears_intra_context_flag() {
    let mut bank = vec![0u8; CELL_BANK_LEN];
    bank[CELL_DATA_TABLE..CELL_DATA_TABLE + 4].copy_from_slice(&1u32.to_le_bytes());
    bank[0] = 1;
    let ecx_in: u32 = 0xffffffff;
    let pre = dispatch_cell_preamble(&bank, 1, 0, ecx_in);
    let state = pre.state().expect("ready");
    assert_eq!(state.ecx_post_clear, ecx_in & !INTRA_CONTEXT_FLAG);
    assert_eq!(state.ecx_post_clear & INTRA_CONTEXT_FLAG, 0);
    assert!(state.vq_data_flag());
}

#[test]
fn dispatch_cell_preamble_faults_on_out_of_range_position() {
    let mut bank = vec![0u8; CELL_BANK_LEN];
    let cl: u8 = 0;
    let pos: u32 = CELL_POSITION_MAX;
    bank[CELL_DATA_TABLE..CELL_DATA_TABLE + 4].copy_from_slice(&pos.to_le_bytes());
    bank[0] = 1;
    let pre = dispatch_cell_preamble(&bank, 1, cl, 0);
    assert_eq!(pre, CellLoopPreamble::CellPositionFault { offset: pos });
    assert!(!pre.is_ready());

    let pos: u32 = CELL_POSITION_MAX + 1;
    bank[CELL_DATA_TABLE..CELL_DATA_TABLE + 4].copy_from_slice(&pos.to_le_bytes());
    let pre = dispatch_cell_preamble(&bank, 1, cl, 0);
    assert_eq!(pre, CellLoopPreamble::CellPositionFault { offset: pos });

    let pos: u32 = CELL_POSITION_MAX - 1;
    bank[CELL_DATA_TABLE..CELL_DATA_TABLE + 4].copy_from_slice(&pos.to_le_bytes());
    let pre = dispatch_cell_preamble(&bank, 1, cl, 0);
    assert!(pre.is_ready());
}

#[test]
fn vq_data_flag_reads_bit_31() {
    let s = CellLoopState {
        cl_inner: 1,
        cell_position_offset: 0,
        bank_view: CodebookBankView::Primary,
        ecx_post_clear: 0x80000000,
    };
    assert!(s.vq_data_flag());
    let s = CellLoopState {
        cl_inner: 1,
        cell_position_offset: 0,
        bank_view: CodebookBankView::Primary,
        ecx_post_clear: 0x7fffffff,
    };
    assert!(!s.vq_data_flag());
}

#[test]
fn advance_row_advances_by_row_stride_when_more_rows_remain() {
    let adv = advance_row(4, 0x100, 0x4).unwrap();
    assert_eq!(adv.cl_after, 3);
    assert_eq!(adv.edi_after, 0x100 + PREDICTOR_ROW_STRIDE);
    assert!(!adv.end_of_column);

    let adv = advance_row(2, 0x200, 0x4).unwrap();
    assert_eq!(adv.cl_after, 1);
    assert_eq!(adv.edi_after, 0x200 + PREDICTOR_ROW_STRIDE);
    assert!(!adv.end_of_column);
}

#[test]
fn advance_row_advances_by_column_step_at_end_of_column() {
    let adv = advance_row(1, 0x300, 0x4).unwrap();
    assert_eq!(adv.cl_after, 0);
    assert_eq!(adv.edi_after, 0x300 + 0x4);
    assert!(adv.end_of_column);
}

#[test]
fn advance_row_rejects_zero_counter() {
    assert!(advance_row(0, 0x100, 0x4).is_none());
}

#[test]
fn iterate_column_rows_lists_every_row() {
    let rows = iterate_column_rows(4, 0x100, 4);
    assert_eq!(rows.len(), 4);
    assert_eq!(
        rows,
        vec![
            (4u8, 0x100usize),
            (3u8, 0x100 + PREDICTOR_ROW_STRIDE),
            (2u8, 0x100 + 2 * PREDICTOR_ROW_STRIDE),
            (1u8, 0x100 + 3 * PREDICTOR_ROW_STRIDE),
        ]
    );
}

#[test]
fn iterate_column_rows_handles_single_row_columns() {
    let rows = iterate_column_rows(1, 0x200, 0x4);
    assert_eq!(rows, vec![(1u8, 0x200usize)]);
}

#[test]
fn iterate_column_rows_handles_empty_column() {
    let rows = iterate_column_rows(0, 0x200, 0x4);
    assert!(rows.is_empty());
}

#[test]
fn iterate_column_rows_for_full_8_row_cell() {
    let rows = iterate_column_rows(8, 0, 0x10);
    assert_eq!(rows.len(), 8);
    let expected_edi: Vec<usize> = (0..8).map(|i| i * PREDICTOR_ROW_STRIDE).collect();
    let actual_edi: Vec<usize> = rows.iter().map(|(_, e)| *e).collect();
    assert_eq!(actual_edi, expected_edi);
    let expected_cl: Vec<u8> = (1..=8).rev().collect();
    let actual_cl: Vec<u8> = rows.iter().map(|(c, _)| *c).collect();
    assert_eq!(actual_cl, expected_cl);
}

#[test]
fn dispatch_then_iterate_round_trip() {
    let mut bank = vec![0u8; CELL_BANK_LEN];
    let cl: u8 = 10;
    let pos: u32 = 0x200;
    let off = MIRROR_TABLE_OFFSET + CELL_DATA_TABLE + 4 * cl as usize;
    bank[off..off + 4].copy_from_slice(&pos.to_le_bytes());
    bank[MIRROR_TABLE_OFFSET + cl as usize] = 5;

    let state = dispatch_cell_preamble(&bank, 0, cl, 0)
        .state()
        .copied()
        .expect("ready");
    assert_eq!(state.bank_view, CodebookBankView::Mirror);
    assert_eq!(state.cl_inner, 5);
    assert_eq!(state.cell_position_offset, pos);

    let rows = iterate_column_rows(state.cl_inner, state.cell_position_offset as usize, 8);
    assert_eq!(rows.len(), 5);
    assert_eq!(rows[0].1, pos as usize);
    assert_eq!(
        rows.last().unwrap().1,
        pos as usize + 4 * PREDICTOR_ROW_STRIDE
    );
}
