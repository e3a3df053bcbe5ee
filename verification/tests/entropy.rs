use oxideav_indeo::indeo3::entropy::{
    apply_continuation_xor, continuation_needed, fb_category, fb_category_table, variant_entry_rva,
    ARENA_BAND_STRIDE, CONTINUATION_XOR, DyadAddress, FbCategory, FbCounter, HighNibbleAction,
    JumpTable, JumpTableEntry, LITERAL_MODE_MAX, LiteralMode, ModeByte, ModeByteKind, PositionClass,
    RLE_ESCAPE_MIN, RleEscape, VARIANT_A_ENTRY, VARIANT_B_ENTRY, VARIANT_C_ENTRY, VARIANT_D_ENTRY,
};
use oxideav_indeo::indeo3::vq::CellVariant;

#[test]
fn literal_vs_escape_boundary() {
    assert!(ModeByte::classify(0xF7).is_literal());
    assert!(ModeByte::classify(0xF8).is_escape());
    assert!(ModeByte::classify(0x00).is_literal());
    assert!(ModeByte::classify(0xFF).is_escape());
    assert_eq!(LITERAL_MODE_MAX, 0xF7);
    assert_eq!(RLE_ESCAPE_MIN, 0xF8);
}

#[test]
fn literal_mode_nibble_split() {
    let m = LiteralMode::from_byte(0x35);
    assert_eq!(m.high_nibble, 3);
    assert_eq!(m.low_nibble, 5);
    assert_eq!(m.jump_table_offset, 12);
    assert_eq!(m.arena_band_offset, 5 * ARENA_BAND_STRIDE);
    assert!(!m.low_nibble_bit3);
    assert_eq!(m.jump_table(), JumpTable::Second);
}

#[test]
fn literal_mode_bit3_selects_first_table() {
    let m = LiteralMode::from_byte(0x08);
    assert!(m.low_nibble_bit3);
    assert_eq!(m.jump_table(), JumpTable::First);
    assert_eq!(m.jump_table().base_rva(), 0x1000_6bd4);
    let m = LiteralMode::from_byte(0x07);
    assert!(!m.low_nibble_bit3);
    assert_eq!(m.jump_table(), JumpTable::Second);
    assert_eq!(m.jump_table().base_rva(), 0x1000_6c50);
}

#[test]
fn high_nibble_action_categories() {
    assert_eq!(
        HighNibbleAction::from_high_nibble(0x0),
        HighNibbleAction::DyadPrimary
    );
    assert_eq!(
        HighNibbleAction::from_high_nibble(0x1),
        HighNibbleAction::SinglePixelFill
    );
    for hn in 0x2..=0xF {
        assert_eq!(
            HighNibbleAction::from_high_nibble(hn),
            HighNibbleAction::Other
        );
    }
}

#[test]
fn first_jump_table_entries_match_spec_3_2() {
    let t = JumpTable::First;
    assert_eq!(t.entry(0x0), JumpTableEntry::Handler(0x1000_6c14));
    assert_eq!(t.entry(0x1), JumpTableEntry::Handler(0x1000_6c90));
    assert_eq!(t.entry(0x2), JumpTableEntry::Fault);
    assert_eq!(t.entry(0x3), JumpTableEntry::Handler(0x1000_6c14));
    assert_eq!(t.entry(0x4), JumpTableEntry::Handler(0x1000_72bb));
    for hn in 0x5..=0x9 {
        assert_eq!(t.entry(hn), JumpTableEntry::Fault, "first[{hn:#x}]");
    }
    assert_eq!(t.entry(0xA), JumpTableEntry::Handler(0x1000_6c14));
    assert_eq!(t.entry(0xB), JumpTableEntry::Handler(0x1000_771c));
    assert_eq!(t.entry(0xC), JumpTableEntry::Handler(0x1000_7710));
    for hn in 0xD..=0xF {
        assert_eq!(t.entry(hn), JumpTableEntry::Fault, "first[{hn:#x}]");
    }
}

#[test]
fn second_jump_table_entries_match_spec_3_2() {
    let t = JumpTable::Second;
    assert_eq!(t.entry(0x0), JumpTableEntry::Handler(0x1000_6c9c));
    assert_eq!(t.entry(0x1), JumpTableEntry::Handler(0x1000_6c90));
    assert_eq!(t.entry(0x2), JumpTableEntry::Fault);
    assert_eq!(t.entry(0x3), JumpTableEntry::Handler(0x1000_72c7));
    assert_eq!(t.entry(0x4), JumpTableEntry::Handler(0x1000_72bb));
    for hn in 0x5..=0x9 {
        assert_eq!(t.entry(hn), JumpTableEntry::Unspecified, "second[{hn:#x}]");
    }
    assert_eq!(t.entry(0xA), JumpTableEntry::Handler(0x1000_7a9b));
    assert_eq!(t.entry(0xB), JumpTableEntry::Handler(0x1000_771c));
    assert_eq!(t.entry(0xC), JumpTableEntry::Handler(0x1000_7710));
    for hn in 0xD..=0xF {
        assert_eq!(t.entry(hn), JumpTableEntry::Fault, "second[{hn:#x}]");
    }
}

#[test]
fn jump_table_entry_index_masks_to_four_bits() {
    assert_eq!(JumpTable::First.entry(0x10), JumpTable::First.entry(0x0));
    assert_eq!(JumpTable::Second.entry(0x1F), JumpTable::Second.entry(0xF));
}

#[test]
fn shared_entries_identical_across_both_tables() {
    for hn in [0x1u8, 0x2, 0x4, 0xB, 0xC, 0xD, 0xE, 0xF] {
        assert_eq!(
            JumpTable::First.entry(hn),
            JumpTable::Second.entry(hn),
            "shared[{hn:#x}]"
        );
    }
}

#[test]
fn divergent_entries_differ_per_bit3() {
    for hn in [0x0u8, 0x3, 0xA] {
        assert_ne!(
            JumpTable::First.entry(hn),
            JumpTable::Second.entry(hn),
            "divergent[{hn:#x}]"
        );
    }
}

#[test]
fn dispatch_entry_combines_bit3_and_high_nibble() {
    assert_eq!(
        LiteralMode::from_byte(0x08).dispatch_entry(),
        JumpTableEntry::Handler(0x1000_6c14)
    );
    assert_eq!(
        LiteralMode::from_byte(0x00).dispatch_entry(),
        JumpTableEntry::Handler(0x1000_6c9c)
    );
    assert!(LiteralMode::from_byte(0x20).is_fault());
    assert!(LiteralMode::from_byte(0x28).is_fault());
}

#[test]
fn jump_table_entry_accessors() {
    assert!(JumpTableEntry::Fault.is_fault());
    assert!(!JumpTableEntry::Handler(0x1000_6c14).is_fault());
    assert!(!JumpTableEntry::Unspecified.is_fault());
    assert_eq!(
        JumpTableEntry::Handler(0x1000_6c14).handler_rva(),
        Some(0x1000_6c14)
    );
    assert_eq!(JumpTableEntry::Fault.handler_rva(), None);
    assert_eq!(JumpTableEntry::Unspecified.handler_rva(), None);
}

#[test]
fn classify_literal_carries_mode() {
    match ModeByte::classify(0x0A).kind {
        ModeByteKind::Literal(m) => {
            assert_eq!(m.byte, 0x0A);
            assert_eq!(m.high_nibble, 0);
            assert_eq!(m.low_nibble, 0xA);
        }
        ModeByteKind::Escape(_) => panic!("0x0A must be literal"),
    }
}

#[test]
fn all_eight_escapes_round_trip() {
    for byte in 0xF8..=0xFF {
        let e = RleEscape::from_byte(byte).unwrap();
        assert_eq!(e.byte(), byte);
    }
    assert_eq!(RleEscape::from_byte(0xF7), None);
}

#[test]
fn only_fb_consumes_extra_byte() {
    assert_eq!(RleEscape::Fb.extra_bytes(), 1);
    for byte in 0xF8..=0xFF {
        let e = RleEscape::from_byte(byte).unwrap();
        if e == RleEscape::Fb {
            assert_eq!(e.extra_bytes(), 1);
        } else {
            assert_eq!(e.extra_bytes(), 0);
        }
    }
}

#[test]
fn first_position_accepts_all_escapes() {
    for byte in 0xF8..=0xFF {
        let e = RleEscape::from_byte(byte).unwrap();
        assert!(e.accepted_at(PositionClass::CellFirst), "{byte:#x}");
        assert!(e.accepted_at(PositionClass::RowFirst), "{byte:#x}");
    }
}

#[test]
fn continuation1_acceptance_matrix() {
    let p = PositionClass::Continuation1;
    assert!(!RleEscape::F8.accepted_at(p));
    assert!(!RleEscape::F9.accepted_at(p));
    assert!(!RleEscape::Fa.accepted_at(p));
    assert!(RleEscape::Fb.accepted_at(p));
    assert!(RleEscape::Fc.accepted_at(p));
    assert!(RleEscape::Fd.accepted_at(p));
    assert!(RleEscape::Fe.accepted_at(p));
    assert!(!RleEscape::Ff.accepted_at(p));
}

#[test]
fn continuation2_drops_fe() {
    let p = PositionClass::Continuation2;
    assert!(RleEscape::Fb.accepted_at(p));
    assert!(RleEscape::Fc.accepted_at(p));
    assert!(RleEscape::Fd.accepted_at(p));
    assert!(!RleEscape::Fe.accepted_at(p));
    assert!(!RleEscape::Ff.accepted_at(p));
    assert!(!RleEscape::F8.accepted_at(p));
}

#[test]
fn continuation3_drops_fd_too() {
    let p = PositionClass::Continuation3;
    assert!(RleEscape::Fb.accepted_at(p));
    assert!(RleEscape::Fc.accepted_at(p));
    assert!(!RleEscape::Fd.accepted_at(p));
    assert!(!RleEscape::Fe.accepted_at(p));
}

#[test]
fn fbfcfd_accepted_at_every_position() {
    for p in [
        PositionClass::CellFirst,
        PositionClass::RowFirst,
        PositionClass::Continuation1,
        PositionClass::Continuation2,
    ] {
        assert!(RleEscape::Fb.accepted_at(p));
        assert!(RleEscape::Fc.accepted_at(p));
    }
    assert!(RleEscape::Fd.accepted_at(PositionClass::Continuation2));
    assert!(!RleEscape::Fd.accepted_at(PositionClass::Continuation3));
    assert!(RleEscape::Fb.accepted_at(PositionClass::Continuation3));
    assert!(RleEscape::Fc.accepted_at(PositionClass::Continuation3));
}

#[test]
fn dyad_address_layout() {
    let m = LiteralMode::from_byte(0x05);
    let a = DyadAddress::new(m, 3);
    assert_eq!(a.band_base, 5 * ARENA_BAND_STRIDE);
    assert_eq!(a.primary_offset, 5 * 2048 + 4 * 3 + 0x400);
    assert_eq!(a.secondary_offset, 5 * 2048 + 4 * 3 + 0x402);
    assert_eq!(a.secondary_offset - a.primary_offset, 2);
}

#[test]
fn continuation_needed_on_sign_bit() {
    assert!(!continuation_needed(0x0000_0001));
    assert!(!continuation_needed(0x7FFF_FFFF));
    assert!(continuation_needed(0x8000_0000));
    assert!(continuation_needed(0xFFFF_FFFF));
}

#[test]
fn continuation_xor_backs_out_sign() {
    assert_eq!(CONTINUATION_XOR, 0x8000_8000);
    assert_eq!(apply_continuation_xor(0x0000_0000), 0x8000_8000);
    assert_eq!(apply_continuation_xor(0x8000_8000), 0x0000_0000);
}

#[test]
fn fb_category_table_matches_spec_ranges() {
    let t = fb_category_table();
    for (c, &v) in t.iter().enumerate() {
        let expect = match c {
            0x00 => 0x00,
            0x01..=0x1F => 0x04,
            0x20 => 0x00,
            0x21..=0x3F => 0x08,
            _ => 0x00,
        };
        assert_eq!(v, expect, "counter {c:#x}");
    }
}

#[test]
fn fb_category_classifier() {
    assert_eq!(fb_category(0x00), FbCategory::Zero);
    assert_eq!(fb_category(0x01), FbCategory::Copy);
    assert_eq!(fb_category(0x1F), FbCategory::Copy);
    assert_eq!(fb_category(0x20), FbCategory::Zero);
    assert_eq!(fb_category(0x21), FbCategory::MarkSkipped);
    assert_eq!(fb_category(0x3F), FbCategory::MarkSkipped);
    assert_eq!(fb_category(0x40), FbCategory::Zero);
    assert_eq!(fb_category(0xFF), FbCategory::Zero);
    assert_eq!(FbCategory::Zero.value(), 0x00);
    assert_eq!(FbCategory::Copy.value(), 0x04);
    assert_eq!(FbCategory::MarkSkipped.value(), 0x08);
}

#[test]
fn fb_counter_decode() {
    let c = FbCounter::decode(0x03);
    assert_eq!(c.cells_to_skip, 4);
    assert!(c.copy_from_reference);
    assert!(c.reserved_bits_zero);
    assert_eq!(c.category, FbCategory::Copy);

    let c = FbCounter::decode(0x25);
    assert_eq!(c.cells_to_skip, 6);
    assert!(!c.copy_from_reference);
    assert_eq!(c.category, FbCategory::MarkSkipped);

    let c = FbCounter::decode(0x00);
    assert_eq!(c.cells_to_skip, 1);
    assert!(c.copy_from_reference);
    assert_eq!(c.category, FbCategory::Zero);

    let c = FbCounter::decode(0xC0);
    assert!(!c.reserved_bits_zero);
    assert_eq!(c.category, FbCategory::Zero);
}

#[test]
fn variant_entry_rvas() {
    assert_eq!(variant_entry_rva(CellVariant::Plain), VARIANT_A_ENTRY);
    assert_eq!(variant_entry_rva(CellVariant::WithEdge), VARIANT_B_ENTRY);
    assert_eq!(variant_entry_rva(CellVariant::DoubledRow), VARIANT_C_ENTRY);
    assert_eq!(
        variant_entry_rva(CellVariant::FullyDoubled),
        VARIANT_D_ENTRY
    );
}

#[test]
fn fb_handler_rvas() {
    assert_eq!(FbCategory::Zero.handler_rva(), 0x1000_6d34);
    assert_eq!(FbCategory::Copy.handler_rva(), 0x1000_6d39);
    assert_eq!(FbCategory::MarkSkipped.handler_rva(), 0x1000_6d97);
}

#[test]
fn position_class_base_rvas() {
    assert_eq!(
        PositionClass::CellFirst.variant_a_row0_base_rva(),
        0x1000_68ec
    );
    assert_eq!(
        PositionClass::Continuation1.variant_a_row0_base_rva(),
        0x1000_6a60
    );
    assert_eq!(
        PositionClass::Continuation3.variant_a_row0_base_rva(),
        0x1000_6b64
    );
}
