use oxideav_indeo::indeo3::mc_kernel::MC_ROW_STRIDE;
use oxideav_indeo::indeo3::plane_execute::STRIP_ROW_STRIDE;
use oxideav_indeo::indeo3::frame_exit::PLANE_ITERATION_ORDER;
use oxideav_indeo::indeo3::frame_output::{
    assemble_plane_if09, strip_min_buffer_bytes, upshift_7bit_to_8bit, FRAME_OUTPUT_SRC_ROW_STRIDE,
    IF09_FOURCC, IF09_FOURCC_CASE_RVA, IF09_PASSTHROUGH_RVA, OUTPUT_PLANE_ORDER, PlaneAssembleError,
};
use oxideav_indeo::indeo3::picture_layer::{PLANE_IDX_U, PLANE_IDX_V, PLANE_IDX_Y};
use oxideav_indeo::indeo3::reconstruct::EDGE_MARKER_BIT;
use oxideav_indeo::indeo3::strip_context::{PlaneRole, StripGeometry};

#[test]
fn upshift_doubles_in_range_values() {
    assert_eq!(upshift_7bit_to_8bit(0x00), 0x00);
    assert_eq!(upshift_7bit_to_8bit(0x01), 0x02);
    assert_eq!(upshift_7bit_to_8bit(0x3f), 0x7e);
    assert_eq!(upshift_7bit_to_8bit(0x7f), 0xfe);
}

#[test]
fn upshift_clears_edge_marker() {
    assert_eq!(upshift_7bit_to_8bit(EDGE_MARKER_BIT), 0x00);
    assert_eq!(upshift_7bit_to_8bit(EDGE_MARKER_BIT | 0x05), 0x0a);
    for b in 0..=u8::MAX {
        assert_eq!(
            upshift_7bit_to_8bit(b),
            upshift_7bit_to_8bit(b & !EDGE_MARKER_BIT),
            "marker-set and marker-clear bytes must upshift identically (b = {b:#04x})"
        );
        assert_eq!(upshift_7bit_to_8bit(b), (b & 0x7f) << 1);
    }
}

#[test]
fn upshift_output_is_always_even() {
    for b in 0..=u8::MAX {
        assert_eq!(upshift_7bit_to_8bit(b) & 0x01, 0);
    }
}

#[test]
fn if09_fourcc_spells_if09() {
    assert_eq!(IF09_FOURCC, 0x3930_4649);
    assert_eq!(IF09_FOURCC.to_le_bytes(), *b"IF09");
}

#[test]
fn if09_dispatch_rvas_match_spec() {
    assert_eq!(IF09_FOURCC_CASE_RVA, 0x1000_4576);
    assert_eq!(IF09_PASSTHROUGH_RVA, 0x1000_a53c);
    assert!(std::hint::black_box(IF09_FOURCC_CASE_RVA) < IF09_PASSTHROUGH_RVA);
}

#[test]
fn output_plane_order_is_y_v_u() {
    assert_eq!(
        OUTPUT_PLANE_ORDER,
        [
            PLANE_IDX_Y,
            PLANE_IDX_V,
            PLANE_IDX_U
        ]
    );
}

#[test]
fn output_plane_order_reverses_decode_order() {
    let mut reversed = PLANE_ITERATION_ORDER;
    reversed.reverse();
    assert_eq!(OUTPUT_PLANE_ORDER, reversed);
}

#[test]
fn src_row_stride_matches_pipeline() {
    assert_eq!(FRAME_OUTPUT_SRC_ROW_STRIDE, 0xb0);
    assert_eq!(FRAME_OUTPUT_SRC_ROW_STRIDE, MC_ROW_STRIDE);
    assert_eq!(
        FRAME_OUTPUT_SRC_ROW_STRIDE,
        STRIP_ROW_STRIDE
    );
}

#[test]
fn strip_min_buffer_bytes_formula() {
    assert_eq!(strip_min_buffer_bytes(160, 8), 7 * 0xb0 + 160);
    assert_eq!(strip_min_buffer_bytes(40, 4), 3 * 0xb0 + 40);
    assert_eq!(strip_min_buffer_bytes(160, 1), 160);
    assert_eq!(strip_min_buffer_bytes(160, 0), 0);
    assert_eq!(strip_min_buffer_bytes(0, 8), 0);
}

fn make_strip(width: usize, rows: usize, base: u8) -> Vec<u8> {
    let mut buf = vec![0x55u8; strip_min_buffer_bytes(width as u32, rows as u32)];
    for r in 0..rows {
        for c in 0..width {
            buf[r * FRAME_OUTPUT_SRC_ROW_STRIDE + c] = base + r as u8;
        }
    }
    buf
}

#[test]
fn single_strip_luma_assembly() {
    let g = StripGeometry::for_luma(160, 4);
    assert_eq!(g.strip_count, 1);
    let s0 = make_strip(160, 4, 0x10);
    let mut dst = vec![0u8; 160 * 4];
    let written = assemble_plane_if09(&g, &[&s0], &mut dst, 160).unwrap();
    assert_eq!(written, 160 * 4);
    for r in 0..4 {
        for c in 0..160 {
            assert_eq!(dst[r * 160 + c], (0x10 + r as u8) << 1);
        }
    }
}

#[test]
fn two_strip_luma_assembly_concatenates_left_to_right() {
    let g = StripGeometry::for_luma(320, 2);
    assert_eq!(g.strip_count, 2);
    let s0 = make_strip(160, 2, 0x10);
    let s1 = make_strip(160, 2, 0x20);
    let mut dst = vec![0u8; 320 * 2];
    let written = assemble_plane_if09(&g, &[&s0, &s1], &mut dst, 320).unwrap();
    assert_eq!(written, 320 * 2);
    for r in 0..2 {
        for c in 0..160 {
            assert_eq!(dst[r * 320 + c], (0x10 + r as u8) << 1, "strip 0 r{r} c{c}");
            assert_eq!(
                dst[r * 320 + 160 + c],
                (0x20 + r as u8) << 1,
                "strip 1 r{r} c{c}"
            );
        }
    }
}

#[test]
fn remainder_last_strip_assembly() {
    let g = StripGeometry::for_luma(176, 2);
    assert_eq!(g.strip_count, 2);
    assert_eq!(g.last_strip_width, 16);
    let s0 = make_strip(160, 2, 0x01);
    let s1 = make_strip(16, 2, 0x30);
    let mut dst = vec![0xEEu8; 176 * 2];
    let written = assemble_plane_if09(&g, &[&s0, &s1], &mut dst, 176).unwrap();
    assert_eq!(written, 176 * 2);
    assert_eq!(dst[159], 0x01 << 1);
    assert_eq!(dst[160], 0x30 << 1);
    assert_eq!(dst[175], 0x30 << 1);
    assert_eq!(dst[176], (0x01 + 1) << 1);
}

#[test]
fn chroma_plane_assembly() {
    let g = StripGeometry::for_chroma(80, 3);
    assert_eq!(g.strip_count, 2);
    assert_eq!(g.strip_width, 40);
    let s0 = make_strip(40, 3, 0x05);
    let s1 = make_strip(40, 3, 0x45);
    let mut dst = vec![0u8; 80 * 3];
    let written = assemble_plane_if09(&g, &[&s0, &s1], &mut dst, 80).unwrap();
    assert_eq!(written, 80 * 3);
    assert_eq!(dst[40], 0x8a);
    assert_eq!(dst[2 * 80 + 79], ((0x45u8 + 2) << 1));
}

#[test]
fn wide_dst_stride_leaves_padding_untouched() {
    let g = StripGeometry::for_luma(160, 2);
    let s0 = make_strip(160, 2, 0x08);
    let mut dst = vec![0xEEu8; 0xb0 * 2];
    assemble_plane_if09(&g, &[&s0], &mut dst, 0xb0).unwrap();
    for r in 0..2 {
        assert_eq!(dst[r * 0xb0], (0x08 + r as u8) << 1);
        for c in 160..0xb0 {
            assert_eq!(dst[r * 0xb0 + c], 0xEE, "padding touched at r{r} c{c}");
        }
    }
    assert_eq!(dst[0xb0 + 160], 0xEE);
}

#[test]
fn edge_marker_bytes_assemble_with_marker_dropped() {
    let g = StripGeometry::for_luma(160, 1);
    let mut s0 = make_strip(160, 1, 0x00);
    s0[3] = EDGE_MARKER_BIT | 0x21;
    let mut dst = vec![0u8; 160];
    assemble_plane_if09(&g, &[&s0], &mut dst, 160).unwrap();
    assert_eq!(dst[3], 0x21 << 1);
}

#[test]
fn zero_height_plane_writes_nothing() {
    let g = StripGeometry::for_luma(320, 0);
    assert_eq!(g.strip_count, 2);
    let empty: &[u8] = &[];
    let mut dst = [0xAAu8; 4];
    let written = assemble_plane_if09(&g, &[empty, empty], &mut dst, 320).unwrap();
    assert_eq!(written, 0);
    assert_eq!(dst, [0xAA; 4]);
}

#[test]
fn zero_width_plane_writes_nothing() {
    let g = StripGeometry::for_luma(0, 8);
    assert_eq!(g.strip_count, 0);
    let mut dst = [0xAAu8; 4];
    let written = assemble_plane_if09(&g, &[], &mut dst, 0).unwrap();
    assert_eq!(written, 0);
    assert_eq!(dst, [0xAA; 4]);
}

#[test]
fn strip_count_mismatch_rejected() {
    let g = StripGeometry::for_luma(320, 2);
    let s0 = make_strip(160, 2, 0);
    let mut dst = vec![0u8; 320 * 2];
    let err = assemble_plane_if09(&g, &[&s0], &mut dst, 320).unwrap_err();
    assert_eq!(
        err,
        PlaneAssembleError::StripCountMismatch {
            expected: 2,
            supplied: 1
        }
    );
    assert!(err.message().contains("spec/07 §5.7"));
}

#[test]
fn strip_width_sum_mismatch_rejected() {
    let g = StripGeometry {
        role: PlaneRole::Luma,
        plane_width: 400,
        plane_height: 2,
        strip_width: 160,
        strip_count: 2,
        last_strip_width: 16,
    };
    let s = make_strip(160, 2, 0);
    let mut dst = vec![0u8; 400 * 2];
    let err = assemble_plane_if09(&g, &[&s, &s], &mut dst, 400).unwrap_err();
    assert_eq!(
        err,
        PlaneAssembleError::StripWidthSumMismatch {
            plane_width: 400,
            widths_total: 176
        }
    );
}

#[test]
fn strip_width_exceeding_row_stride_rejected() {
    let g = StripGeometry {
        role: PlaneRole::Luma,
        plane_width: 0xb1,
        plane_height: 1,
        strip_width: 0xb1,
        strip_count: 1,
        last_strip_width: 0xb1,
    };
    let s = vec![0u8; 0x200];
    let mut dst = vec![0u8; 0xb1];
    let err = assemble_plane_if09(&g, &[&s], &mut dst, 0xb1).unwrap_err();
    assert_eq!(
        err,
        PlaneAssembleError::StripWidthExceedsRowStride {
            strip_index: 0,
            strip_width: 0xb1
        }
    );
}

#[test]
fn short_strip_buffer_rejected() {
    let g = StripGeometry::for_luma(160, 4);
    let s0 = vec![0u8; strip_min_buffer_bytes(160, 4) - 1];
    let mut dst = vec![0u8; 160 * 4];
    let err = assemble_plane_if09(&g, &[&s0], &mut dst, 160).unwrap_err();
    assert_eq!(
        err,
        PlaneAssembleError::StripBufferTooShort {
            strip_index: 0,
            required: strip_min_buffer_bytes(160, 4),
            supplied: strip_min_buffer_bytes(160, 4) - 1
        }
    );
}

#[test]
fn narrow_dst_stride_rejected() {
    let g = StripGeometry::for_luma(320, 2);
    let s = make_strip(160, 2, 0);
    let mut dst = vec![0u8; 320 * 2];
    let err = assemble_plane_if09(&g, &[&s, &s], &mut dst, 319).unwrap_err();
    assert_eq!(
        err,
        PlaneAssembleError::DstStrideTooNarrow {
            plane_width: 320,
            dst_stride: 319
        }
    );
}

#[test]
fn short_dst_buffer_rejected() {
    let g = StripGeometry::for_luma(160, 4);
    let s = make_strip(160, 4, 0);
    let mut dst = vec![0u8; 160 * 4 - 1];
    let err = assemble_plane_if09(&g, &[&s], &mut dst, 160).unwrap_err();
    assert_eq!(
        err,
        PlaneAssembleError::DstBufferTooShort {
            required: 160 * 4,
            supplied: 160 * 4 - 1
        }
    );
}

#[test]
fn error_display_cites_spec_sections() {
    let errs: [PlaneAssembleError; 6] = [
        PlaneAssembleError::StripCountMismatch {
            expected: 2,
            supplied: 1,
        },
        PlaneAssembleError::StripWidthSumMismatch {
            plane_width: 400,
            widths_total: 176,
        },
        PlaneAssembleError::StripWidthExceedsRowStride {
            strip_index: 0,
            strip_width: 0xb1,
        },
        PlaneAssembleError::StripBufferTooShort {
            strip_index: 0,
            required: 10,
            supplied: 9,
        },
        PlaneAssembleError::DstStrideTooNarrow {
            plane_width: 320,
            dst_stride: 319,
        },
        PlaneAssembleError::DstBufferTooShort {
            required: 640,
            supplied: 639,
        },
    ];
    for e in errs {
        assert!(e.message().contains("spec/07"), "{e:?}");
    }
}
