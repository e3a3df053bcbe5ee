use oxideav_indeo::indeo3::bank_select::Bank;
use oxideav_indeo::indeo3::frame_finalise::{DecodeReturn, FrameContinuity};
use oxideav_indeo::indeo3::frame_session::{DecodeSession, FrameAdmission, SessionError};
use oxideav_indeo::indeo3::header::{
    COMBINED_HEADER_LEN, FRAME_HEADER_LEN, MAGIC_FRMH, NULL_FRAME_DATA_SIZE_BITS,
    REQUIRED_DEC_VERSION,
};

fn make_frame(frame_number: u32, frame_flags: u16, data_size_bits: u32) -> Vec<u8> {
    let mut buf = vec![0u8; COMBINED_HEADER_LEN];
    let unknown1: u32 = 0;
    let frame_size: u32 = COMBINED_HEADER_LEN as u32;
    let check_sum = frame_number ^ unknown1 ^ frame_size ^ MAGIC_FRMH;
    buf[0x00..0x04].copy_from_slice(&frame_number.to_le_bytes());
    buf[0x04..0x08].copy_from_slice(&unknown1.to_le_bytes());
    buf[0x08..0x0c].copy_from_slice(&check_sum.to_le_bytes());
    buf[0x0c..0x10].copy_from_slice(&frame_size.to_le_bytes());
    let b = FRAME_HEADER_LEN;
    buf[b..b + 2].copy_from_slice(&REQUIRED_DEC_VERSION.to_le_bytes());
    buf[b + 2..b + 4].copy_from_slice(&frame_flags.to_le_bytes());
    buf[b + 4..b + 8].copy_from_slice(&data_size_bits.to_le_bytes());
    buf[b + 0x0c..b + 0x0e].copy_from_slice(&64u16.to_le_bytes());
    buf[b + 0x0e..b + 0x10].copy_from_slice(&64u16.to_le_bytes());
    buf
}

const INTRA: u16 = 0x0004;
const BUF_SEL: u16 = 0x0200;
const DATA: u32 = 4096;

#[test]
fn empty_session_has_no_saved_state() {
    let s = DecodeSession::new();
    assert!(s.is_empty());
    assert_eq!(s.saved_frame_number(), None);
    assert_eq!(s.next_read_bank(), None);
}

#[test]
fn first_frame_must_be_intra() {
    let mut s = DecodeSession::new();
    let inter = make_frame(0, 0x0000, DATA);
    let err = s.admit_frame(&inter).unwrap_err();
    assert_eq!(
        err,
        SessionError::FirstFrameNotIntra {
            frame_flags: 0x0000
        }
    );
    assert!(s.is_empty());
}

#[test]
fn null_first_frame_is_rejected() {
    let mut s = DecodeSession::new();
    let null = make_frame(0, INTRA, NULL_FRAME_DATA_SIZE_BITS);
    let err = s.admit_frame(&null).unwrap_err();
    assert!(matches!(err, SessionError::FirstFrameNotIntra { .. }));
    assert!(s.is_empty());
}

#[test]
fn first_intra_frame_is_admitted_and_sets_baseline() {
    let mut s = DecodeSession::new();
    let intra = make_frame(0, INTRA, DATA);
    let a = s.admit_frame(&intra).expect("first INTRA admits");
    assert_eq!(a.admission, FrameAdmission::FirstFrame);
    assert_eq!(a.return_value, DecodeReturn::Success);
    assert_eq!(a.continuity, None);
    assert_eq!(a.frame_number, 0);
    assert!(a.carries_picture());
    assert!(a.admission.is_resync_point());
    assert!(!s.is_empty());
    assert_eq!(s.saved_frame_number(), Some(0));
    assert_eq!(s.next_read_bank(), Some(Bank::Primary));
}

#[test]
fn first_frame_read_bank_follows_own_bit9() {
    let mut s = DecodeSession::new();
    let intra = make_frame(0, INTRA | BUF_SEL, DATA);
    let a = s.admit_frame(&intra).expect("admits");
    assert_eq!(a.read_bank, Bank::Secondary);
}

#[test]
fn sequential_inter_frame_is_admitted() {
    let mut s = DecodeSession::new();
    s.admit_frame(&make_frame(0, INTRA, DATA)).expect("first");
    let a = s.admit_frame(&make_frame(1, 0x0000, DATA)).expect("seq inter");
    assert_eq!(a.admission, FrameAdmission::Sequential);
    assert_eq!(a.continuity, Some(FrameContinuity::Sequential));
    assert_eq!(a.return_value, DecodeReturn::Success);
    assert!(a.carries_picture());
    assert!(!a.admission.is_resync_point());
    assert_eq!(s.saved_frame_number(), Some(1));
}

#[test]
fn frame_session_read_bank_follows_previous_frame_bit9() {
    let mut s = DecodeSession::new();
    s.admit_frame(&make_frame(0, INTRA | BUF_SEL, DATA))
        .expect("first");
    let a = s.admit_frame(&make_frame(1, 0x0000, DATA)).expect("seq");
    assert_eq!(a.read_bank, Bank::Secondary);
    let a = s.admit_frame(&make_frame(2, 0x0000, DATA)).expect("seq");
    assert_eq!(a.read_bank, Bank::Primary);
}

#[test]
fn frame_session_null_frame_repeats_previous_output() {
    let mut s = DecodeSession::new();
    s.admit_frame(&make_frame(0, INTRA, DATA)).expect("first");
    let a = s
        .admit_frame(&make_frame(1, 0x0000, NULL_FRAME_DATA_SIZE_BITS))
        .expect("null repeat");
    assert_eq!(a.admission, FrameAdmission::NullRepeat);
    assert_eq!(a.return_value, DecodeReturn::RepeatPrevious);
    assert_eq!(a.return_value.code(), 1);
    assert!(!a.carries_picture());
    assert_eq!(s.saved_frame_number(), Some(1));
}

#[test]
fn null_frame_advances_baseline_even_out_of_sequence() {
    let mut s = DecodeSession::new();
    s.admit_frame(&make_frame(0, INTRA, DATA)).expect("first");
    let a = s
        .admit_frame(&make_frame(9, 0x0000, NULL_FRAME_DATA_SIZE_BITS))
        .expect("null");
    assert_eq!(a.admission, FrameAdmission::NullRepeat);
    assert_eq!(a.continuity, Some(FrameContinuity::Discontinuous));
    assert_eq!(s.saved_frame_number(), Some(9));
}

#[test]
fn seek_to_intra_frame_is_admitted() {
    let mut s = DecodeSession::new();
    s.admit_frame(&make_frame(0, INTRA, DATA)).expect("first");
    let a = s.admit_frame(&make_frame(10, INTRA, DATA)).expect("seek intra");
    assert_eq!(a.admission, FrameAdmission::Seek);
    assert_eq!(a.continuity, Some(FrameContinuity::Discontinuous));
    assert_eq!(a.return_value, DecodeReturn::Success);
    assert!(a.admission.is_resync_point());
    assert_eq!(s.saved_frame_number(), Some(10));
}

#[test]
fn seek_to_inter_frame_is_rejected() {
    let mut s = DecodeSession::new();
    s.admit_frame(&make_frame(0, INTRA, DATA)).expect("first");
    let err = s.admit_frame(&make_frame(10, 0x0000, DATA)).unwrap_err();
    assert_eq!(
        err,
        SessionError::SeekNotIntra {
            saved_frame_number: 0,
            incoming_frame_number: 10,
            frame_flags: 0x0000,
        }
    );
    assert_eq!(s.saved_frame_number(), Some(0));
}

#[test]
fn periodic_intra_counts_as_intra_for_seek() {
    let mut s = DecodeSession::new();
    s.admit_frame(&make_frame(0, INTRA, DATA)).expect("first");
    let err = s.admit_frame(&make_frame(5, 0x0001, DATA)).unwrap_err();
    assert!(matches!(err, SessionError::SeekNotIntra { .. }));
    let a = s.admit_frame(&make_frame(5, 0x0005, DATA)).expect("intra seek");
    assert_eq!(a.admission, FrameAdmission::Seek);
}

#[test]
fn malformed_header_is_typed_error() {
    let mut s = DecodeSession::new();
    let err = s.admit_frame(&[0u8; 4]).unwrap_err();
    assert!(matches!(err, SessionError::Header(_)));
    assert!(s.is_empty());
}

#[test]
fn full_sequence_threads_state() {
    let mut s = DecodeSession::new();

    let a0 = s.admit_frame(&make_frame(0, INTRA, DATA)).expect("0");
    assert_eq!(a0.admission, FrameAdmission::FirstFrame);

    let a1 = s.admit_frame(&make_frame(1, 0x0000, DATA)).expect("1");
    assert_eq!(a1.admission, FrameAdmission::Sequential);

    let a2 = s
        .admit_frame(&make_frame(2, 0x0000, NULL_FRAME_DATA_SIZE_BITS))
        .expect("2");
    assert_eq!(a2.admission, FrameAdmission::NullRepeat);

    let a3 = s.admit_frame(&make_frame(3, 0x0000, DATA)).expect("3");
    assert_eq!(a3.admission, FrameAdmission::Sequential);

    let a4 = s.admit_frame(&make_frame(20, INTRA, DATA)).expect("20");
    assert_eq!(a4.admission, FrameAdmission::Seek);

    assert_eq!(s.saved_frame_number(), Some(20));
}
