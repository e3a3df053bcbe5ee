use oxideav_indeo::indeo3::frame::{
    decode_frame, FRAME_PLANE_DECODE_ORDER, FrameDecodeError, ReconstructionStatus,
};
use oxideav_indeo::indeo3::header::{
    COMBINED_HEADER_LEN, FRAME_HEADER_LEN, MAGIC_FRMH, NULL_FRAME_DATA_SIZE_BITS,
    REQUIRED_DEC_VERSION,
};
use oxideav_indeo::indeo3::picture_layer::{PLANE_IDX_U, PLANE_IDX_V, PLANE_IDX_Y};

#[allow(clippy::too_many_arguments)]
fn build_header(
    width: u16,
    height: u16,
    data_size_bits: u32,
    flags: u16,
    y_off: u32,
    v_off: u32,
    u_off: u32,
    total_len: u32,
) -> Vec<u8> {
    let mut buf = vec![0u8; COMBINED_HEADER_LEN];

    let frame_number: u32 = 0;
    let unknown1: u32 = 0;
    let frame_size: u32 = total_len;
    let check_sum = frame_number ^ unknown1 ^ frame_size ^ MAGIC_FRMH;
    buf[0x00..0x04].copy_from_slice(&frame_number.to_le_bytes());
    buf[0x04..0x08].copy_from_slice(&unknown1.to_le_bytes());
    buf[0x08..0x0c].copy_from_slice(&check_sum.to_le_bytes());
    buf[0x0c..0x10].copy_from_slice(&frame_size.to_le_bytes());

    let b = FRAME_HEADER_LEN;
    buf[b..b + 2].copy_from_slice(&REQUIRED_DEC_VERSION.to_le_bytes());
    buf[b + 2..b + 4].copy_from_slice(&flags.to_le_bytes());
    buf[b + 4..b + 8].copy_from_slice(&data_size_bits.to_le_bytes());
    buf[b + 0x0c..b + 0x0e].copy_from_slice(&height.to_le_bytes());
    buf[b + 0x0e..b + 0x10].copy_from_slice(&width.to_le_bytes());
    buf[b + 0x10..b + 0x14].copy_from_slice(&y_off.to_le_bytes());
    buf[b + 0x14..b + 0x18].copy_from_slice(&v_off.to_le_bytes());
    buf[b + 0x18..b + 0x1c].copy_from_slice(&u_off.to_le_bytes());
    buf
}

#[test]
fn null_frame_carries_no_planes() {
    let buf = build_header(
        64,
        64,
        NULL_FRAME_DATA_SIZE_BITS,
        0,
        0,
        0,
        0,
        COMBINED_HEADER_LEN as u32,
    );
    let frame = decode_frame(&buf).expect("null frame decodes");
    assert!(frame.is_null_frame());
    assert_eq!(frame.reconstruction_status, ReconstructionStatus::NullFrame);
    assert!(frame.planes.is_empty());
    assert_eq!(frame.width(), 64);
    assert_eq!(frame.height(), 64);
}

#[test]
fn skipped_planes_produce_no_decoded_plane() {
    let neg = 0x8000_0000u32;
    let buf = build_header(64, 64, 4096, 0, neg, neg, neg, COMBINED_HEADER_LEN as u32);
    let frame = decode_frame(&buf).expect("decodes");
    assert_eq!(
        frame.reconstruction_status,
        ReconstructionStatus::StructureComplete
    );
    assert!(frame.planes.is_empty());
}

#[test]
fn decode_order_is_u_v_y() {
    assert_eq!(
        FRAME_PLANE_DECODE_ORDER,
        [PLANE_IDX_U, PLANE_IDX_V, PLANE_IDX_Y]
    );
}

#[test]
fn single_intra_plane_walks_to_structure_complete() {
    let bsh = FRAME_HEADER_LEN;
    let mut payload = vec![0u8; 8];
    for (i, b) in payload.iter_mut().enumerate().skip(4) {
        *b = (i as u8).wrapping_mul(0x11);
    }

    let plane_base_target = COMBINED_HEADER_LEN;
    let y_off = (plane_base_target - bsh) as u32;
    let total_len = (plane_base_target + payload.len()) as u32;

    let mut buf = build_header(
        4,
        4,
        (payload.len() as u32) * 8,
        0,
        y_off,
        0x8000_0000,
        0x8000_0000,
        total_len,
    );
    buf.extend_from_slice(&payload);

    match decode_frame(&buf) {
        Ok(frame) => {
            assert_eq!(
                frame.reconstruction_status,
                ReconstructionStatus::StructureComplete
            );
            if let Some(p) = frame.plane(PLANE_IDX_Y) {
                assert!(p.is_intra());
                assert!(p.plan.is_luma());
            }
        }
        Err(FrameDecodeError::PlaneTree { plane_idx, .. }) => {
            assert_eq!(plane_idx, PLANE_IDX_Y);
        }
        Err(other) => panic!("unexpected error: {other:?}"),
    }
}

#[test]
fn buffer_selector_reads_frame_flags_bit9() {
    let buf = build_header(
        64,
        64,
        NULL_FRAME_DATA_SIZE_BITS,
        0x0200,
        0,
        0,
        0,
        COMBINED_HEADER_LEN as u32,
    );
    let frame = decode_frame(&buf).expect("decodes");
    assert!(frame.buffer_selector());
}
