use oxideav_indeo::indeo3::bank_select::{BANK_INVERSION_DELTA, Bank, McBankAssignment};
use oxideav_indeo::indeo3::header::FrameFlags;
use oxideav_indeo::indeo3::picture_layer::{PLANE_COUNT, PLANE_IDX_U, PLANE_IDX_V, PLANE_IDX_Y};
use oxideav_indeo::indeo3::strip_context::{
    strip_slot_index, PRIMARY_BANK_SLOTS, SECONDARY_BANK_SLOTS,
};

#[test]
fn inversion_delta_equals_primary_minus_secondary_y() {
    assert_eq!(
        PRIMARY_BANK_SLOTS[PLANE_IDX_Y] - SECONDARY_BANK_SLOTS[PLANE_IDX_Y],
        BANK_INVERSION_DELTA,
    );
}

#[test]
fn inversion_delta_equals_primary_minus_secondary_v() {
    assert_eq!(
        PRIMARY_BANK_SLOTS[PLANE_IDX_V] - SECONDARY_BANK_SLOTS[PLANE_IDX_V],
        BANK_INVERSION_DELTA,
    );
}

#[test]
fn inversion_delta_equals_primary_minus_secondary_u() {
    assert_eq!(
        PRIMARY_BANK_SLOTS[PLANE_IDX_U] - SECONDARY_BANK_SLOTS[PLANE_IDX_U],
        BANK_INVERSION_DELTA,
    );
}

#[test]
fn inversion_delta_value_is_three() {
    assert_eq!(BANK_INVERSION_DELTA, 3);
}

#[test]
fn bank_from_buffer_selector_clear_is_primary() {
    let flags = FrameFlags(0x0000);
    assert_eq!(Bank::from_buffer_selector(flags), Bank::Primary);
}

#[test]
fn bank_from_buffer_selector_set_is_secondary() {
    let flags = FrameFlags(0x0200);
    assert_eq!(Bank::from_buffer_selector(flags), Bank::Secondary);
}

#[test]
fn bank_from_buffer_selector_other_bits_irrelevant() {
    let flags = FrameFlags(0xfdff);
    assert_eq!(Bank::from_buffer_selector(flags), Bank::Primary);
    let flags = FrameFlags(0xffff);
    assert_eq!(Bank::from_buffer_selector(flags), Bank::Secondary);
}

#[test]
fn bank_opposite_swaps_primary_and_secondary() {
    assert_eq!(Bank::Primary.opposite(), Bank::Secondary);
    assert_eq!(Bank::Secondary.opposite(), Bank::Primary);
}

#[test]
fn bank_opposite_is_involution() {
    assert_eq!(Bank::Primary.opposite().opposite(), Bank::Primary);
    assert_eq!(Bank::Secondary.opposite().opposite(), Bank::Secondary);
}

#[test]
fn bank_predicates_partition_the_two_variants() {
    assert!(Bank::Primary.is_primary());
    assert!(!Bank::Primary.is_secondary());
    assert!(Bank::Secondary.is_secondary());
    assert!(!Bank::Secondary.is_primary());
}

#[test]
fn bank_slot_for_plane_primary_matches_spec_table() {
    assert_eq!(Bank::Primary.slot_for_plane(PLANE_IDX_Y), Some(3));
    assert_eq!(Bank::Primary.slot_for_plane(PLANE_IDX_V), Some(4));
    assert_eq!(Bank::Primary.slot_for_plane(PLANE_IDX_U), Some(5));
}

#[test]
fn bank_slot_for_plane_secondary_matches_spec_table() {
    assert_eq!(Bank::Secondary.slot_for_plane(PLANE_IDX_Y), Some(0));
    assert_eq!(Bank::Secondary.slot_for_plane(PLANE_IDX_V), Some(1));
    assert_eq!(Bank::Secondary.slot_for_plane(PLANE_IDX_U), Some(2));
}

#[test]
fn bank_slot_for_plane_rejects_out_of_range_plane_idx() {
    for plane_idx in PLANE_COUNT..(PLANE_COUNT + 4) {
        assert_eq!(Bank::Primary.slot_for_plane(plane_idx), None);
        assert_eq!(Bank::Secondary.slot_for_plane(plane_idx), None);
    }
}

#[test]
fn bank_slot_for_plane_primary_minus_secondary_is_inversion_delta() {
    for plane_idx in 0..PLANE_COUNT {
        let primary = Bank::Primary.slot_for_plane(plane_idx).unwrap();
        let secondary = Bank::Secondary.slot_for_plane(plane_idx).unwrap();
        assert_eq!(primary - secondary, BANK_INVERSION_DELTA);
    }
}

#[test]
fn resolve_primary_y_writes_slot_3_reads_slot_0() {
    let flags = FrameFlags(0x0000);
    let a = McBankAssignment::resolve(flags, PLANE_IDX_Y).unwrap();
    assert_eq!(a.plane_idx, PLANE_IDX_Y);
    assert_eq!(a.dst_bank, Bank::Primary);
    assert_eq!(a.dst_slot, 3);
    assert_eq!(a.src_slot, 0);
}

#[test]
fn resolve_secondary_y_writes_slot_0_reads_slot_3() {
    let flags = FrameFlags(0x0200);
    let a = McBankAssignment::resolve(flags, PLANE_IDX_Y).unwrap();
    assert_eq!(a.plane_idx, PLANE_IDX_Y);
    assert_eq!(a.dst_bank, Bank::Secondary);
    assert_eq!(a.dst_slot, 0);
    assert_eq!(a.src_slot, 3);
}

#[test]
fn resolve_primary_v_writes_slot_4_reads_slot_1() {
    let flags = FrameFlags(0x0000);
    let a = McBankAssignment::resolve(flags, PLANE_IDX_V).unwrap();
    assert_eq!(a.dst_slot, 4);
    assert_eq!(a.src_slot, 1);
}

#[test]
fn resolve_secondary_v_writes_slot_1_reads_slot_4() {
    let flags = FrameFlags(0x0200);
    let a = McBankAssignment::resolve(flags, PLANE_IDX_V).unwrap();
    assert_eq!(a.dst_slot, 1);
    assert_eq!(a.src_slot, 4);
}

#[test]
fn resolve_primary_u_writes_slot_5_reads_slot_2() {
    let flags = FrameFlags(0x0000);
    let a = McBankAssignment::resolve(flags, PLANE_IDX_U).unwrap();
    assert_eq!(a.dst_slot, 5);
    assert_eq!(a.src_slot, 2);
}

#[test]
fn resolve_secondary_u_writes_slot_2_reads_slot_5() {
    let flags = FrameFlags(0x0200);
    let a = McBankAssignment::resolve(flags, PLANE_IDX_U).unwrap();
    assert_eq!(a.dst_slot, 2);
    assert_eq!(a.src_slot, 5);
}

#[test]
fn resolve_rejects_out_of_range_plane_idx() {
    let flags = FrameFlags(0x0000);
    for plane_idx in PLANE_COUNT..(PLANE_COUNT + 4) {
        assert!(McBankAssignment::resolve(flags, plane_idx).is_none());
    }
}

#[test]
fn resolve_src_bank_equals_dst_bank_opposite() {
    for raw in [0x0000u16, 0x0200u16] {
        let flags = FrameFlags(raw);
        for plane_idx in 0..PLANE_COUNT {
            let a = McBankAssignment::resolve(flags, plane_idx).unwrap();
            assert_eq!(a.src_bank(), a.dst_bank.opposite());
        }
    }
}

#[test]
fn resolve_is_never_self_copy() {
    for raw in [0x0000u16, 0x0200u16] {
        let flags = FrameFlags(raw);
        for plane_idx in 0..PLANE_COUNT {
            let a = McBankAssignment::resolve(flags, plane_idx).unwrap();
            assert!(!a.is_self_copy());
        }
    }
}

#[test]
fn resolve_slot_delta_is_bank_inversion_delta() {
    for raw in [0x0000u16, 0x0200u16] {
        let flags = FrameFlags(raw);
        for plane_idx in 0..PLANE_COUNT {
            let a = McBankAssignment::resolve(flags, plane_idx).unwrap();
            assert_eq!(a.slot_delta(), BANK_INVERSION_DELTA);
        }
    }
}

#[test]
fn resolve_dst_slot_agrees_with_strip_slot_index() {
    for raw in [0x0000u16, 0x0200u16] {
        let flags = FrameFlags(raw);
        for plane_idx in 0..PLANE_COUNT {
            let a = McBankAssignment::resolve(flags, plane_idx).unwrap();
            let expected = strip_slot_index(plane_idx, flags.buffer_selector()).unwrap();
            assert_eq!(a.dst_slot, expected);
        }
    }
}

#[test]
fn resolve_src_slot_is_strip_slot_index_with_inverted_buffer_selector() {
    for raw in [0x0000u16, 0x0200u16] {
        let flags = FrameFlags(raw);
        let inverted = !flags.buffer_selector();
        for plane_idx in 0..PLANE_COUNT {
            let a = McBankAssignment::resolve(flags, plane_idx).unwrap();
            let expected = strip_slot_index(plane_idx, inverted).unwrap();
            assert_eq!(a.src_slot, expected);
        }
    }
}

#[test]
fn ping_pong_two_frame_dst_becomes_src_on_next_frame() {
    for plane_idx in 0..PLANE_COUNT {
        let frame_n = McBankAssignment::resolve(FrameFlags(0x0000), plane_idx).unwrap();
        let frame_np1 = McBankAssignment::resolve(FrameFlags(0x0200), plane_idx).unwrap();
        assert_eq!(frame_n.dst_slot, frame_np1.src_slot);
        assert_eq!(frame_n.src_slot, frame_np1.dst_slot);
    }
}

#[test]
fn ping_pong_two_frame_banks_swap() {
    for plane_idx in 0..PLANE_COUNT {
        let frame_n = McBankAssignment::resolve(FrameFlags(0x0000), plane_idx).unwrap();
        let frame_np1 = McBankAssignment::resolve(FrameFlags(0x0200), plane_idx).unwrap();
        assert_eq!(frame_n.dst_bank, frame_np1.src_bank());
        assert_eq!(frame_n.src_bank(), frame_np1.dst_bank);
    }
}
