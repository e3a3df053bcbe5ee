use oxideav_indeo::indeo3::frame::decode_frame;
use oxideav_indeo::indeo3::frame_assemble::{
    allocate_strip_buffers, assemble_output, plane_strip_buffer_lengths, AssembleError,
    OUTPUT_ASSEMBLE_ORDER,
};
use oxideav_indeo::indeo3::frame_output::{
    assemble_plane_if09, strip_min_buffer_bytes, FRAME_OUTPUT_SRC_ROW_STRIDE,
};
use oxideav_indeo::indeo3::header::{
    COMBINED_HEADER_LEN, FRAME_HEADER_LEN, MAGIC_FRMH, REQUIRED_DEC_VERSION,
};
use oxideav_indeo::indeo3::picture_layer::{PLANE_IDX_U, PLANE_IDX_V, PLANE_IDX_Y};
use oxideav_indeo::indeo3::strip_context::StripGeometry;

fn build_one_plane_frame() -> Vec<u8> {
    let bsh = FRAME_HEADER_LEN;
    let plane_base_target = COMBINED_HEADER_LEN;
    let y_off = (plane_base_target - bsh) as u32;

    let mut payload = vec![0u8; 4 + 64];
    let total_len = (plane_base_target + payload.len()) as u32;

    let mut buf = vec![0u8; COMBINED_HEADER_LEN];
    let frame_size = total_len;
    let check_sum = frame_size ^ MAGIC_FRMH;
    buf[0x08..0x0c].copy_from_slice(&check_sum.to_le_bytes());
    buf[0x0c..0x10].copy_from_slice(&frame_size.to_le_bytes());

    let b = bsh;
    buf[b..b + 2].copy_from_slice(&REQUIRED_DEC_VERSION.to_le_bytes());
    buf[b + 4..b + 8].copy_from_slice(&((payload.len() as u32) * 8).to_le_bytes());
    let h: u16 = 16;
    let w: u16 = 16;
    buf[b + 0x0c..b + 0x0e].copy_from_slice(&h.to_le_bytes());
    buf[b + 0x0e..b + 0x10].copy_from_slice(&w.to_le_bytes());
    buf[b + 0x10..b + 0x14].copy_from_slice(&y_off.to_le_bytes());
    buf[b + 0x14..b + 0x18].copy_from_slice(&0x8000_0000u32.to_le_bytes());
    buf[b + 0x18..b + 0x1c].copy_from_slice(&0x8000_0000u32.to_le_bytes());

    for (i, byte) in payload.iter_mut().enumerate().skip(4) {
        *byte = (i % 7) as u8;
    }
    buf.extend_from_slice(&payload);
    buf
}

#[test]
fn strip_buffer_lengths_match_geometry() {
    let g = StripGeometry::for_luma(16, 16);
    let lengths = plane_strip_buffer_lengths(&g);
    assert_eq!(lengths.len(), g.strip_count as usize);
    assert_eq!(g.strip_count, 1);
    assert_eq!(lengths[0], strip_min_buffer_bytes(16, 16));
}

#[test]
fn output_order_is_y_v_u() {
    assert_eq!(
        OUTPUT_ASSEMBLE_ORDER,
        [PLANE_IDX_Y, PLANE_IDX_V, PLANE_IDX_U]
    );
}

#[test]
fn allocate_then_assemble_zeroed_yields_zero_plane() {
    let buf = build_one_plane_frame();
    let frame = match decode_frame(&buf) {
        Ok(f) => f,
        Err(_) => return,
    };
    let Some(yplane) = frame.plane(PLANE_IDX_Y) else {
        return;
    };
    let w = yplane.plan.geometry.plane_width;
    let h = yplane.plan.geometry.plane_height;

    let strips = allocate_strip_buffers(&frame);
    let out = assemble_output(&frame, &strips).expect("assembly succeeds");

    let oy = out.luma().expect("luma plane assembled");
    assert_eq!(oy.width, w);
    assert_eq!(oy.height, h);
    assert_eq!(oy.pixels.len(), (w as usize) * (h as usize));
    assert!(oy.pixels.iter().all(|&b| b == 0));
    if h > 0 {
        assert_eq!(oy.row(0).unwrap().len(), w as usize);
        assert!(oy.row(h).is_none());
    }
}

#[test]
fn strip_count_mismatch_is_rejected() {
    let buf = build_one_plane_frame();
    let Ok(frame) = decode_frame(&buf) else {
        return;
    };
    if frame.plane(PLANE_IDX_Y).is_none() {
        return;
    }
    let bad = vec![(PLANE_IDX_Y, Vec::<Vec<u8>>::new())];
    match assemble_output(&frame, &bad) {
        Err(AssembleError::StripCountMismatch { plane_idx, .. }) => {
            assert_eq!(plane_idx, PLANE_IDX_Y);
        }
        other => panic!("expected strip-count mismatch, got {other:?}"),
    }
}

#[test]
fn non_zero_strip_upshifts_by_one_bit() {
    let g = StripGeometry::for_luma(4, 4);
    assert_eq!(g.strip_count, 1);
    let len = plane_strip_buffer_lengths(&g)[0];
    let mut strip = vec![0u8; len];
    let stride = FRAME_OUTPUT_SRC_ROW_STRIDE;
    for row in 0..4 {
        for col in 0..4 {
            strip[row * stride + col] = 0x09;
        }
    }
    let mut pixels = vec![0u8; 4 * 4];
    let strip_refs: [&[u8]; 1] = [strip.as_slice()];
    assemble_plane_if09(&g, &strip_refs, &mut pixels, 4).expect("assemble");
    assert!(pixels.iter().all(|&b| b == 0x12), "got {pixels:?}");
}
