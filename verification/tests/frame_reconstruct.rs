use oxideav_indeo::indeo3::plane_execute::STRIP_ROW_STRIDE;
use oxideav_indeo::indeo3::frame::decode_frame;
use oxideav_indeo::indeo3::frame_reconstruct::{
    reconstruct_frame, FrameReconstructStats, ReconstructedFrame,
};
use oxideav_indeo::indeo3::header::{
    COMBINED_HEADER_LEN, FRAME_HEADER_LEN, MAGIC_FRMH, NULL_FRAME_DATA_SIZE_BITS,
    REQUIRED_DEC_VERSION,
};
use oxideav_indeo::indeo3::picture_layer::PLANE_IDX_Y;
use oxideav_indeo::indeo3::plane_execute::{plane_strip_len, PlaneExecStats, ReconstructedPlane};
use oxideav_indeo::indeo3::reconstruct::EDGE_MARKER_BIT;

#[allow(clippy::too_many_arguments)]
fn build_header(
    width: u16,
    height: u16,
    data_size_bits: u32,
    flags: u16,
    y_off: u32,
    v_off: u32,
    u_off: u32,
    total_len: u32,
) -> Vec<u8> {
    let mut buf = vec![0u8; COMBINED_HEADER_LEN];
    let frame_number: u32 = 0;
    let unknown1: u32 = 0;
    let frame_size: u32 = total_len;
    let check_sum = frame_number ^ unknown1 ^ frame_size ^ MAGIC_FRMH;
    buf[0x00..0x04].copy_from_slice(&frame_number.to_le_bytes());
    buf[0x04..0x08].copy_from_slice(&unknown1.to_le_bytes());
    buf[0x08..0x0c].copy_from_slice(&check_sum.to_le_bytes());
    buf[0x0c..0x10].copy_from_slice(&frame_size.to_le_bytes());

    let b = FRAME_HEADER_LEN;
    buf[b..b + 2].copy_from_slice(&REQUIRED_DEC_VERSION.to_le_bytes());
    buf[b + 2..b + 4].copy_from_slice(&flags.to_le_bytes());
    buf[b + 4..b + 8].copy_from_slice(&data_size_bits.to_le_bytes());
    buf[b + 0x0c..b + 0x0e].copy_from_slice(&height.to_le_bytes());
    buf[b + 0x0e..b + 0x10].copy_from_slice(&width.to_le_bytes());
    buf[b + 0x10..b + 0x14].copy_from_slice(&y_off.to_le_bytes());
    buf[b + 0x14..b + 0x18].copy_from_slice(&v_off.to_le_bytes());
    buf[b + 0x18..b + 0x1c].copy_from_slice(&u_off.to_le_bytes());
    buf
}

#[test]
fn null_frame_reconstructs_to_empty() {
    let buf = build_header(
        64,
        64,
        NULL_FRAME_DATA_SIZE_BITS,
        0,
        0,
        0,
        0,
        COMBINED_HEADER_LEN as u32,
    );
    let frame = decode_frame(&buf).expect("null frame decodes");
    let recon = reconstruct_frame(&frame).expect("reconstruct");
    assert!(recon.is_empty());
    assert_eq!(recon.stats.total(), 0);
    assert!(!recon.stats.is_fully_reconstructed());
    assert_eq!(recon.stats.planes, 0);
}

#[test]
fn skipped_planes_reconstruct_to_empty() {
    let neg = 0x8000_0000u32;
    let buf = build_header(64, 64, 4096, 0, neg, neg, neg, COMBINED_HEADER_LEN as u32);
    let frame = decode_frame(&buf).expect("decodes");
    let recon = reconstruct_frame(&frame).expect("reconstruct");
    assert!(recon.is_empty());
    assert_eq!(recon.stats.planes, 0);
}

#[test]
fn decoded_plane_reconstructs_or_surfaces_frontier() {
    let bsh = FRAME_HEADER_LEN;
    let mut payload = vec![0u8; 8];
    for (i, b) in payload.iter_mut().enumerate().skip(4) {
        *b = (i as u8).wrapping_mul(0x11);
    }
    let plane_base_target = COMBINED_HEADER_LEN;
    let y_off = (plane_base_target - bsh) as u32;
    let total_len = (plane_base_target + payload.len()) as u32;
    let mut buf = build_header(
        4,
        4,
        (payload.len() as u32) * 8,
        0,
        y_off,
        0x8000_0000,
        0x8000_0000,
        total_len,
    );
    buf.extend_from_slice(&payload);

    if let Ok(frame) = decode_frame(&buf) {
        let recon = reconstruct_frame(&frame).expect("reconstruct does not fail");
        assert_eq!(
            recon.stats.reconstructed() + recon.stats.deferred(),
            recon.stats.total()
        );
        for plane in &recon.planes {
            let plane_deferred = plane.stats.deferred() > 0;
            assert_eq!(plane.frontier.is_some(), plane_deferred);
        }
    }
}

#[test]
fn to_output_frame_upshifts_strip_pixels() {
    let mut strip = vec![0u8; plane_strip_len(2)];
    strip[0] = 0x01 | EDGE_MARKER_BIT;
    strip[1] = 0x02;
    strip[STRIP_ROW_STRIDE] = 0x10;
    strip[STRIP_ROW_STRIDE + 1] = 0x20;
    let plane = ReconstructedPlane {
        plane_idx: PLANE_IDX_Y,
        plane_width: 2,
        plane_height: 2,
        strip,
        stats: PlaneExecStats::default(),
        frontier: None,
    };
    let frame = ReconstructedFrame {
        planes: vec![plane],
        stats: FrameReconstructStats::default(),
    };
    let output = frame.to_output_frame();
    let op = output.plane(PLANE_IDX_Y).expect("plane");
    assert_eq!(op.width, 2);
    assert_eq!(op.height, 2);
    assert_eq!(op.row(0), Some(&[0x02u8, 0x04][..]));
    assert_eq!(op.row(1), Some(&[0x20u8, 0x40][..]));
}

#[test]
fn to_output_frame_of_empty_is_empty() {
    let frame = ReconstructedFrame {
        planes: vec![],
        stats: FrameReconstructStats::default(),
    };
    let output = frame.to_output_frame();
    assert!(output.planes.is_empty());
}

#[test]
fn stats_fold_aggregates_units() {
    let stats = FrameReconstructStats {
        planes: 2,
        copy_units: 3,
        skip_units: 2,
        vq_data_deferred: 4,
        inter_deferred: 1,
        bytes_written: 256,
    };
    assert_eq!(stats.reconstructed(), 5);
    assert_eq!(stats.deferred(), 5);
    assert_eq!(stats.total(), 10);
    assert!(!stats.is_fully_reconstructed());
}
