use oxideav_indeo::indeo3::bank_select::Bank;
use oxideav_indeo::indeo3::decoder::{DecoderError, Indeo3Decoder};
use oxideav_indeo::indeo3::frame_session::{FrameAdmission, SessionError};
use oxideav_indeo::indeo3::header::{
    COMBINED_HEADER_LEN, FRAME_HEADER_LEN, MAGIC_FRMH, NULL_FRAME_DATA_SIZE_BITS,
    REQUIRED_DEC_VERSION,
};

const INTRA: u16 = 0x0004;
const BUF_SEL: u16 = 0x0200;

fn skipped_frame(frame_number: u32, frame_flags: u16, data_size_bits: u32) -> Vec<u8> {
    let mut buf = vec![0u8; COMBINED_HEADER_LEN];
    let unknown1: u32 = 0;
    let frame_size: u32 = COMBINED_HEADER_LEN as u32;
    let check_sum = frame_number ^ unknown1 ^ frame_size ^ MAGIC_FRMH;
    buf[0x00..0x04].copy_from_slice(&frame_number.to_le_bytes());
    buf[0x04..0x08].copy_from_slice(&unknown1.to_le_bytes());
    buf[0x08..0x0c].copy_from_slice(&check_sum.to_le_bytes());
    buf[0x0c..0x10].copy_from_slice(&frame_size.to_le_bytes());
    let b = FRAME_HEADER_LEN;
    buf[b..b + 2].copy_from_slice(&REQUIRED_DEC_VERSION.to_le_bytes());
    buf[b + 2..b + 4].copy_from_slice(&frame_flags.to_le_bytes());
    buf[b + 4..b + 8].copy_from_slice(&data_size_bits.to_le_bytes());
    buf[b + 0x0c..b + 0x0e].copy_from_slice(&64u16.to_le_bytes());
    buf[b + 0x0e..b + 0x10].copy_from_slice(&64u16.to_le_bytes());
    let neg = 0x8000_0000u32;
    buf[b + 0x10..b + 0x14].copy_from_slice(&neg.to_le_bytes());
    buf[b + 0x14..b + 0x18].copy_from_slice(&neg.to_le_bytes());
    buf[b + 0x18..b + 0x1c].copy_from_slice(&neg.to_le_bytes());
    buf
}

const DATA: u32 = 4096;

#[test]
fn new_decoder_is_empty() {
    let d = Indeo3Decoder::new();
    assert!(d.is_empty());
    assert!(d.previous_frame().is_none());
}

#[test]
fn first_inter_frame_is_rejected() {
    let mut d = Indeo3Decoder::new();
    let err = d.decode(&skipped_frame(0, 0x0000, DATA)).unwrap_err();
    assert!(matches!(
        err,
        DecoderError::Session(SessionError::FirstFrameNotIntra { .. })
    ));
    assert!(d.is_empty());
    assert!(d.previous_frame().is_none());
}

#[test]
fn first_intra_frame_decodes_and_is_held() {
    let mut d = Indeo3Decoder::new();
    let out = d.decode(&skipped_frame(0, INTRA, DATA)).expect("first");
    assert_eq!(out.admission.admission, FrameAdmission::FirstFrame);
    assert!(!out.repeated_previous);
    assert!(out.frame.is_empty());
    assert!(out.is_resync_point());
    assert!(!d.is_empty());
    assert!(d.previous_frame().is_some());
}

#[test]
fn decoder_null_frame_repeats_previous_output() {
    let mut d = Indeo3Decoder::new();
    d.decode(&skipped_frame(0, INTRA, DATA)).expect("first");
    let prev_ptr = d.previous_frame().cloned();
    let out = d
        .decode(&skipped_frame(1, 0x0000, NULL_FRAME_DATA_SIZE_BITS))
        .expect("null repeat");
    assert_eq!(out.admission.admission, FrameAdmission::NullRepeat);
    assert!(out.repeated_previous);
    assert_eq!(out.admission.return_value.code(), 1);
    assert_eq!(Some(out.frame.clone()), prev_ptr);
}

#[test]
fn sequential_frames_each_replace_previous() {
    let mut d = Indeo3Decoder::new();
    let o0 = d.decode(&skipped_frame(0, INTRA, DATA)).expect("0");
    assert!(!o0.repeated_previous);
    let o1 = d.decode(&skipped_frame(1, 0x0000, DATA)).expect("1");
    assert_eq!(o1.admission.admission, FrameAdmission::Sequential);
    assert!(!o1.repeated_previous);
}

#[test]
fn decoder_read_bank_follows_previous_frame_bit9() {
    let mut d = Indeo3Decoder::new();
    d.decode(&skipped_frame(0, INTRA | BUF_SEL, DATA))
        .expect("first");
    let out = d.decode(&skipped_frame(1, 0x0000, DATA)).expect("seq");
    assert_eq!(out.read_bank(), Bank::Secondary);
}

#[test]
fn seek_to_inter_is_rejected_and_keeps_previous() {
    let mut d = Indeo3Decoder::new();
    d.decode(&skipped_frame(0, INTRA, DATA)).expect("first");
    let held = d.previous_frame().cloned();
    let err = d.decode(&skipped_frame(10, 0x0000, DATA)).unwrap_err();
    assert!(matches!(
        err,
        DecoderError::Session(SessionError::SeekNotIntra { .. })
    ));
    assert_eq!(d.previous_frame().cloned(), held);
}

#[test]
fn full_sequence_drives_output() {
    let mut d = Indeo3Decoder::new();

    let o0 = d.decode(&skipped_frame(0, INTRA, DATA)).expect("0");
    assert_eq!(o0.admission.admission, FrameAdmission::FirstFrame);

    let o1 = d
        .decode(&skipped_frame(1, 0x0000, NULL_FRAME_DATA_SIZE_BITS))
        .expect("1");
    assert!(o1.repeated_previous);

    let o2 = d.decode(&skipped_frame(2, 0x0000, DATA)).expect("2");
    assert_eq!(o2.admission.admission, FrameAdmission::Sequential);
    assert!(!o2.repeated_previous);

    let o3 = d.decode(&skipped_frame(20, INTRA, DATA)).expect("20");
    assert_eq!(o3.admission.admission, FrameAdmission::Seek);
    assert!(o3.is_resync_point());
}
