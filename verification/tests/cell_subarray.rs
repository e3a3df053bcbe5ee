use oxideav_indeo::indeo3::cell_subarray::{
    cell_stack_array_offset, cell_stack_slot_offset, CELL_STACK_BEGIN_OFFSET, CELL_STACK_ENTRY_SIZE,
    CELL_STACK_MAX_ENTRIES, CellStackReadSite, CellStackTopDispatch, PER_CELL_EDGE_HEIGHT_STEP,
    PER_CELL_EDGE_PREV_BR_NEXT_OFFSET, PER_CELL_EDGE_PREV_BR_OFFSET, PER_CELL_EDGE_ROW_STRIDE,
};
use oxideav_indeo::indeo3::strip_context::{
    CELL_SUBARRAY_BEGIN, STRIP_SLOT_COUNT, STRIP_SLOT_STRIDE,
};

#[test]
fn cell_stack_entry_size_matches_4_byte_dword() {
    assert_eq!(CELL_STACK_ENTRY_SIZE, 4);
}

#[test]
fn cell_stack_begin_offset_matches_slot_field_constant() {
    assert_eq!(CELL_STACK_BEGIN_OFFSET, 0x40);
    assert_eq!(CELL_STACK_BEGIN_OFFSET, CELL_SUBARRAY_BEGIN);
}

#[test]
fn cell_stack_max_entries_matches_spec_derivation() {
    assert_eq!(CELL_STACK_MAX_ENTRIES, 240);
    assert_eq!(
        CELL_STACK_MAX_ENTRIES,
        (STRIP_SLOT_STRIDE - CELL_STACK_BEGIN_OFFSET) / CELL_STACK_ENTRY_SIZE
    );
}

#[test]
fn per_cell_edge_byte_offsets_match_spec() {
    assert_eq!(PER_CELL_EDGE_PREV_BR_OFFSET, 0x24);
    assert_eq!(PER_CELL_EDGE_PREV_BR_NEXT_OFFSET, 0x28);
    assert_eq!(
        PER_CELL_EDGE_PREV_BR_NEXT_OFFSET - PER_CELL_EDGE_PREV_BR_OFFSET,
        CELL_STACK_ENTRY_SIZE
    );
}

#[test]
fn per_cell_edge_row_stride_matches_spec_b0() {
    assert_eq!(PER_CELL_EDGE_ROW_STRIDE, 0xb0);
}

#[test]
fn per_cell_edge_height_step_matches_spec() {
    assert_eq!(PER_CELL_EDGE_HEIGHT_STEP, 4);
}

#[test]
fn cell_stack_slot_offset_at_zero_is_subarray_begin() {
    assert_eq!(cell_stack_slot_offset(0), Some(0x40));
}

#[test]
fn cell_stack_slot_offset_strides_by_4_bytes() {
    for k in 0..16 {
        assert_eq!(cell_stack_slot_offset(k), Some(0x40 + 4 * k));
    }
    assert_eq!(
        cell_stack_slot_offset(CELL_STACK_MAX_ENTRIES - 1),
        Some(0x3fc)
    );
}

#[test]
fn cell_stack_slot_offset_rejects_out_of_bounds() {
    assert_eq!(cell_stack_slot_offset(CELL_STACK_MAX_ENTRIES), None);
    assert_eq!(cell_stack_slot_offset(241), None);
    assert_eq!(cell_stack_slot_offset(usize::MAX), None);
}

#[test]
fn cell_stack_slot_offset_is_always_within_slot_stride() {
    for k in 0..CELL_STACK_MAX_ENTRIES {
        let off = cell_stack_slot_offset(k).unwrap();
        assert!(off < STRIP_SLOT_STRIDE);
        assert!(off >= CELL_STACK_BEGIN_OFFSET);
    }
}

#[test]
fn cell_stack_array_offset_combines_slot_and_entry() {
    assert_eq!(cell_stack_array_offset(0, 0), Some(0x40));
    assert_eq!(cell_stack_array_offset(1, 0), Some(0x440));
    assert_eq!(cell_stack_array_offset(3, 5), Some(0xc54));
    let expected = 31 * STRIP_SLOT_STRIDE + 0x40 + 4 * (CELL_STACK_MAX_ENTRIES - 1);
    assert_eq!(
        cell_stack_array_offset(31, CELL_STACK_MAX_ENTRIES - 1),
        Some(expected)
    );
}

#[test]
fn cell_stack_array_offset_rejects_out_of_range_slot() {
    assert_eq!(cell_stack_array_offset(STRIP_SLOT_COUNT, 0), None);
    assert_eq!(cell_stack_array_offset(usize::MAX, 0), None);
}

#[test]
fn cell_stack_array_offset_rejects_out_of_range_entry() {
    assert_eq!(cell_stack_array_offset(0, CELL_STACK_MAX_ENTRIES), None);
    assert_eq!(cell_stack_array_offset(0, 1000), None);
    assert_eq!(cell_stack_array_offset(5, 240), None);
}

#[test]
fn cell_stack_array_offset_is_within_array_byte_range() {
    let array_len = STRIP_SLOT_COUNT * STRIP_SLOT_STRIDE;
    for slot in 0..STRIP_SLOT_COUNT {
        for entry in [0usize, 1, 16, 100, CELL_STACK_MAX_ENTRIES - 1] {
            let off = cell_stack_array_offset(slot, entry).unwrap();
            assert!(off < array_len, "slot={} entry={}", slot, entry);
        }
    }
}

#[test]
fn read_site_source_slot_top_does_not_branch_to_strip_edge() {
    let site = CellStackReadSite::SourceSlotTop;
    assert!(!site.zero_means_strip_edge());
    assert!(!site.zero_means_mirror_bank());
    assert!(!site.uses_dest_slot_base());
}

#[test]
fn read_site_dest_slot_top_branches_to_strip_edge_on_zero() {
    let site = CellStackReadSite::DestSlotTop;
    assert!(site.zero_means_strip_edge());
    assert!(!site.zero_means_mirror_bank());
    assert!(site.uses_dest_slot_base());
}

#[test]
fn read_site_cell_position_probe_selects_mirror_bank_on_zero() {
    let site = CellStackReadSite::CellPositionProbe;
    assert!(!site.zero_means_strip_edge());
    assert!(site.zero_means_mirror_bank());
    assert!(site.uses_dest_slot_base());
}

#[test]
fn dispatch_zero_top_is_strip_edge_branch() {
    let d = CellStackTopDispatch::from_dest_slot_top(0);
    assert_eq!(d, CellStackTopDispatch::StripEdgeFixup);
    assert!(d.is_strip_edge());
    assert!(!d.is_inter_cell());
    assert_eq!(d.cell_data_ptr(), None);
}

#[test]
fn dispatch_nonzero_top_is_inter_cell_branch() {
    let d = CellStackTopDispatch::from_dest_slot_top(0xdead_beef);
    assert_eq!(
        d,
        CellStackTopDispatch::InterCellFixup {
            cell_data_ptr: 0xdead_beef,
        }
    );
    assert!(!d.is_strip_edge());
    assert!(d.is_inter_cell());
    assert_eq!(d.cell_data_ptr(), Some(0xdead_beef));
}

#[test]
fn dispatch_minimum_nonzero_is_inter_cell() {
    let d = CellStackTopDispatch::from_dest_slot_top(1);
    assert!(d.is_inter_cell());
    assert_eq!(d.cell_data_ptr(), Some(1));
}

#[test]
fn dispatch_max_nonzero_is_inter_cell() {
    let d = CellStackTopDispatch::from_dest_slot_top(u32::MAX);
    assert!(d.is_inter_cell());
    assert_eq!(d.cell_data_ptr(), Some(u32::MAX));
}
