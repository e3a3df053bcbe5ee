use oxideav_indeo::indeo3::bank_select::Bank;
use oxideav_indeo::indeo3::frame_finalise::{
    BUFFER_SELECTOR_MASK, DecodeReturn, FRAME_NUMBER_CONTINUITY_CHECK_RVA,
    FRAME_NUMBER_SEEK_PATH_RVA, FrameContinuity, FrameFinalisation, PERFORMS_BUFFER_ROTATION,
    SAVED_FRAME_FLAGS_SLOT_OFFSET, SAVED_FRAME_FLAGS_STORE_RVA, SAVED_FRAME_NUMBER_SLOT_OFFSET,
    SAVED_FRAME_NUMBER_STORE_RVA, SavedFrameFlags, SavedFrameNumber,
};
use oxideav_indeo::indeo3::header::{
    COMBINED_HEADER_LEN, FrameHeader, MAGIC_FRMH, MIN_DIMENSION, REQUIRED_DEC_VERSION,
};

fn make_header(frame_number: u32, frame_flags: u16) -> FrameHeader {
    let mut buf = [0u8; COMBINED_HEADER_LEN];
    let unknown1: u32 = 0;
    let frame_size: u32 = COMBINED_HEADER_LEN as u32;
    let check_sum = frame_number ^ unknown1 ^ frame_size ^ MAGIC_FRMH;
    buf[0x00..0x04].copy_from_slice(&frame_number.to_le_bytes());
    buf[0x04..0x08].copy_from_slice(&unknown1.to_le_bytes());
    buf[0x08..0x0c].copy_from_slice(&check_sum.to_le_bytes());
    buf[0x0c..0x10].copy_from_slice(&frame_size.to_le_bytes());
    let bsh = 0x10;
    buf[bsh..bsh + 2].copy_from_slice(&REQUIRED_DEC_VERSION.to_le_bytes());
    buf[bsh + 2..bsh + 4].copy_from_slice(&(frame_flags | 0x0004).to_le_bytes());
    buf[bsh + 4..bsh + 8].copy_from_slice(&0x100u32.to_le_bytes());
    buf[bsh + 0x0c..bsh + 0x0e].copy_from_slice(&MIN_DIMENSION.to_le_bytes());
    buf[bsh + 0x0e..bsh + 0x10].copy_from_slice(&MIN_DIMENSION.to_le_bytes());
    FrameHeader::parse(&buf).expect("test header parses")
}

#[test]
fn slot_offsets_and_rvas_match_spec_6() {
    assert_eq!(SAVED_FRAME_FLAGS_SLOT_OFFSET, 0x434);
    assert_eq!(SAVED_FRAME_NUMBER_SLOT_OFFSET, 0x474);
    assert_eq!(SAVED_FRAME_FLAGS_STORE_RVA, 0x1000_42c1);
    assert_eq!(SAVED_FRAME_NUMBER_STORE_RVA, 0x1000_42a3);
    assert_eq!(FRAME_NUMBER_CONTINUITY_CHECK_RVA, 0x1000_41f8);
    assert_eq!(FRAME_NUMBER_SEEK_PATH_RVA, 0x1000_4220);
}

#[test]
fn no_explicit_buffer_rotation_per_6_4() {
    assert!(!PERFORMS_BUFFER_ROTATION);
}

#[test]
fn saved_flags_bit9_drives_next_frame_bank() {
    let h = make_header(0, 0x0000);
    let saved = SavedFrameFlags::capture(&h);
    assert!(!saved.buffer_selector());
    assert_eq!(saved.next_frame_read_bank(), Bank::Primary);

    let h = make_header(0, BUFFER_SELECTOR_MASK);
    let saved = SavedFrameFlags::capture(&h);
    assert!(saved.buffer_selector());
    assert_eq!(saved.next_frame_read_bank(), Bank::Secondary);
}

#[test]
fn buffer_selector_mask_is_bit9() {
    assert_eq!(BUFFER_SELECTOR_MASK, 1 << 9);
}

#[test]
fn continuity_sequential_when_incoming_is_saved_plus_one() {
    let saved = SavedFrameNumber { frame_number: 41 };
    assert_eq!(saved.classify(42), FrameContinuity::Sequential);
    assert!(saved.classify(42).is_sequential());
}

#[test]
fn continuity_discontinuous_on_gap_repeat_or_reverse() {
    let saved = SavedFrameNumber { frame_number: 41 };
    assert_eq!(saved.classify(43), FrameContinuity::Discontinuous);
    assert_eq!(saved.classify(41), FrameContinuity::Discontinuous);
    assert_eq!(saved.classify(0), FrameContinuity::Discontinuous);
    assert!(!saved.classify(43).is_sequential());
}

#[test]
fn continuity_wraps_at_u32_max() {
    let saved = SavedFrameNumber {
        frame_number: u32::MAX,
    };
    assert_eq!(saved.classify(0), FrameContinuity::Sequential);
    assert_eq!(saved.classify(1), FrameContinuity::Discontinuous);
}

#[test]
fn captured_frame_number_round_trips() {
    let h = make_header(0x1234_5678, 0x0000);
    let saved = SavedFrameNumber::capture(&h);
    assert_eq!(saved.frame_number, 0x1234_5678);
}

#[test]
fn decode_return_codes_match_6_3() {
    assert_eq!(DecodeReturn::Success.code(), 0);
    assert_eq!(DecodeReturn::InputError.code(), -100);
    assert_eq!(DecodeReturn::InputError.code(), 0xffff_ff9c_u32 as i32);
    assert_eq!(DecodeReturn::RepeatPrevious.code(), 1);
    assert_eq!(DecodeReturn::PlaneFault(3).code(), 3);
}

#[test]
fn decode_return_is_success_only_for_zero() {
    assert!(DecodeReturn::Success.is_success());
    assert!(!DecodeReturn::InputError.is_success());
    assert!(!DecodeReturn::RepeatPrevious.is_success());
    assert!(!DecodeReturn::PlaneFault(3).is_success());
}

#[test]
fn finalise_bundles_all_three_updates() {
    let h = make_header(7, BUFFER_SELECTOR_MASK);
    let fin = FrameFinalisation::finalise(&h, DecodeReturn::Success);
    assert_eq!(fin.saved_frame_number.frame_number, 7);
    assert!(fin.saved_flags.buffer_selector());
    assert_eq!(fin.saved_flags.next_frame_read_bank(), Bank::Secondary);
    assert_eq!(fin.return_value, DecodeReturn::Success);
    assert!(fin.return_value.is_success());
}

#[test]
fn finalise_captures_slots_regardless_of_fault_return() {
    let h = make_header(9, 0x0000);
    let fin = FrameFinalisation::finalise(&h, DecodeReturn::PlaneFault(3));
    assert_eq!(fin.saved_frame_number.frame_number, 9);
    assert_eq!(fin.saved_flags.next_frame_read_bank(), Bank::Primary);
    assert_eq!(fin.return_value.code(), 3);
    assert!(!fin.return_value.is_success());
}

#[test]
fn saved_pair_feeds_next_frame_continuity_and_bank() {
    let frame_n = make_header(100, 0x0000);
    let fin = FrameFinalisation::finalise(&frame_n, DecodeReturn::Success);
    assert_eq!(fin.saved_flags.next_frame_read_bank(), Bank::Primary);
    assert!(fin.saved_frame_number.classify(101).is_sequential());
    assert!(!fin.saved_frame_number.classify(105).is_sequential());
}
