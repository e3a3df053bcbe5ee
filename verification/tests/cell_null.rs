use oxideav_indeo::indeo3::cell_null::{
    copy_upper_cell, mark_edge_cell, COPY_UPPER_COLUMN_GROUP_BYTES, COPY_UPPER_RAW_ROW_OFFSETS,
    COPY_UPPER_ROW_COUNT, CopyUpperError, CopyUpperGeometry, MarkEdgeError, MarkEdgeGeometry,
    VqNullSubCode,
};
use oxideav_indeo::indeo3::reconstruct::{EDGE_MARKER_BIT, PREDICTOR_ROW_STRIDE};

const STRIDE: usize = PREDICTOR_ROW_STRIDE;

#[test]
fn copy_upper_constants() {
    assert_eq!(COPY_UPPER_ROW_COUNT, 4);
    assert_eq!(COPY_UPPER_COLUMN_GROUP_BYTES, 4);
    assert_eq!(COPY_UPPER_RAW_ROW_OFFSETS, [0x000, 0x0b0, 0x15c, 0x20c]);
    assert_eq!(COPY_UPPER_RAW_ROW_OFFSETS[2], 2 * STRIDE - 4);
    assert_eq!(COPY_UPPER_RAW_ROW_OFFSETS[3], 3 * STRIDE - 4);
}

#[test]
fn subcode_from_bits() {
    assert_eq!(
        VqNullSubCode::from_bits(true, false),
        VqNullSubCode::VqDataNoIndex
    );
    assert_eq!(
        VqNullSubCode::from_bits(true, true),
        VqNullSubCode::VqDataNoIndex
    );
    assert_eq!(
        VqNullSubCode::from_bits(false, false),
        VqNullSubCode::CopyUpper
    );
    assert_eq!(
        VqNullSubCode::from_bits(false, true),
        VqNullSubCode::MarkEdge
    );
}

#[test]
fn subcode_is_copy_upper_predicate() {
    assert!(VqNullSubCode::CopyUpper.is_copy_upper());
    assert!(!VqNullSubCode::MarkEdge.is_copy_upper());
    assert!(!VqNullSubCode::VqDataNoIndex.is_copy_upper());
}

#[test]
fn zero_width_rejected() {
    let mut buf = vec![0u8; STRIDE * 8];
    let g = CopyUpperGeometry {
        width_dwords: 0,
        row_count: 4,
        top_left_offset: STRIDE,
    };
    assert_eq!(copy_upper_cell(&mut buf, g), Err(CopyUpperError::ZeroWidth));
}

#[test]
fn invalid_row_count_rejected() {
    let mut buf = vec![0u8; STRIDE * 8];
    let g0 = CopyUpperGeometry {
        width_dwords: 1,
        row_count: 0,
        top_left_offset: STRIDE,
    };
    assert_eq!(
        copy_upper_cell(&mut buf, g0),
        Err(CopyUpperError::InvalidRowCount { supplied: 0 })
    );
    let g5 = CopyUpperGeometry {
        width_dwords: 1,
        row_count: 5,
        top_left_offset: STRIDE,
    };
    assert_eq!(
        copy_upper_cell(&mut buf, g5),
        Err(CopyUpperError::InvalidRowCount { supplied: 5 })
    );
}

#[test]
fn top_of_strip_source_rejected() {
    let mut buf = vec![0u8; STRIDE * 8];
    let g = CopyUpperGeometry {
        width_dwords: 1,
        row_count: 4,
        top_left_offset: STRIDE - 4,
    };
    assert_eq!(
        copy_upper_cell(&mut buf, g),
        Err(CopyUpperError::UpperNeighbourAboveBuffer)
    );
}

#[test]
fn single_column_four_row_copy() {
    let mut buf = vec![0u8; STRIDE * 6];
    let top = 2 * STRIDE;
    let seed = [0x11u8, 0x22, 0x33, 0x44];
    buf[(top - STRIDE)..(top - STRIDE + 4)].copy_from_slice(&seed);
    let g = CopyUpperGeometry {
        width_dwords: 1,
        row_count: 4,
        top_left_offset: top,
    };
    let stats = copy_upper_cell(&mut buf, g).unwrap();
    assert_eq!(stats.rows_written, 4);
    assert_eq!(stats.column_groups, 1);
    assert_eq!(stats.bytes_copied, 16);
    for row in 0..4 {
        let off = top + row * STRIDE;
        assert_eq!(&buf[off..off + 4], &seed, "row {row} mismatch");
    }
}

#[test]
fn multi_column_copy_iterates_left_to_right() {
    let mut buf = vec![0u8; STRIDE * 4];
    let top = STRIDE;
    let left = [0xa0u8, 0xa1, 0xa2, 0xa3];
    let right = [0xb0u8, 0xb1, 0xb2, 0xb3];
    buf[(top - STRIDE)..(top - STRIDE + 4)].copy_from_slice(&left);
    buf[(top - STRIDE + 4)..(top - STRIDE + 8)].copy_from_slice(&right);
    let g = CopyUpperGeometry {
        width_dwords: 2,
        row_count: 2,
        top_left_offset: top,
    };
    copy_upper_cell(&mut buf, g).unwrap();
    for row in 0..2 {
        let off = top + row * STRIDE;
        assert_eq!(&buf[off..off + 4], &left, "left col, row {row}");
        assert_eq!(&buf[off + 4..off + 8], &right, "right col, row {row}");
    }
}

#[test]
fn partial_row_count_leaves_lower_rows_untouched() {
    let mut buf = vec![0u8; STRIDE * 6];
    let top = STRIDE;
    let seed = [0x07u8, 0x08, 0x09, 0x0a];
    buf[(top - STRIDE)..(top - STRIDE + 4)].copy_from_slice(&seed);
    for row in 2..4 {
        let off = top + row * STRIDE;
        buf[off..off + 4].copy_from_slice(&[0xee; 4]);
    }
    let g = CopyUpperGeometry {
        width_dwords: 1,
        row_count: 2,
        top_left_offset: top,
    };
    copy_upper_cell(&mut buf, g).unwrap();
    assert_eq!(&buf[top..top + 4], &seed);
    assert_eq!(&buf[top + STRIDE..top + STRIDE + 4], &seed);
    for row in 2..4 {
        let off = top + row * STRIDE;
        assert_eq!(
            &buf[off..off + 4],
            &[0xee; 4],
            "row {row} should be untouched"
        );
    }
}

#[test]
fn out_of_bounds_write_surfaced() {
    let mut buf = vec![0u8; STRIDE + 4];
    let g = CopyUpperGeometry {
        width_dwords: 1,
        row_count: 4,
        top_left_offset: STRIDE,
    };
    let r = copy_upper_cell(&mut buf, g);
    assert!(matches!(r, Err(CopyUpperError::OutOfBounds { .. })));
}

#[test]
fn copy_is_identical_to_upper_neighbour_invariant() {
    let mut buf = vec![0u8; STRIDE * 6];
    let top = STRIDE;
    let upper = top - STRIDE;
    for c in 0..12usize {
        buf[upper + c] = (0x40 + c) as u8;
    }
    let g = CopyUpperGeometry {
        width_dwords: 3,
        row_count: 4,
        top_left_offset: top,
    };
    copy_upper_cell(&mut buf, g).unwrap();
    for row in 0..4 {
        for c in 0..12usize {
            assert_eq!(
                buf[top + row * STRIDE + c],
                (0x40 + c) as u8,
                "row {row} col {c}"
            );
        }
    }
}

#[test]
fn error_display_cites_spec() {
    assert!(CopyUpperError::ZeroWidth.message().contains("§1.4"));
    assert!(CopyUpperError::InvalidRowCount { supplied: 9 }
        .message()
        .contains("§1.4"));
    assert!(CopyUpperError::UpperNeighbourAboveBuffer
        .message()
        .contains("§1.4"));
    assert!(CopyUpperError::OutOfBounds {
        end: 10,
        buffer_len: 4
    }
    .message()
    .contains("§1.4"));
}

#[test]
fn subcode_is_mark_edge_predicate() {
    assert!(VqNullSubCode::MarkEdge.is_mark_edge());
    assert!(!VqNullSubCode::CopyUpper.is_mark_edge());
    assert!(!VqNullSubCode::VqDataNoIndex.is_mark_edge());
}

#[test]
fn mark_edge_zero_width_rejected() {
    let mut buf = vec![0u8; STRIDE * 4];
    let g = MarkEdgeGeometry {
        width_dwords: 0,
        row_count: 4,
        top_left_offset: 0,
    };
    assert_eq!(mark_edge_cell(&mut buf, g), Err(MarkEdgeError::ZeroWidth));
}

#[test]
fn mark_edge_invalid_row_count_rejected() {
    let mut buf = vec![0u8; STRIDE * 4];
    let g0 = MarkEdgeGeometry {
        width_dwords: 1,
        row_count: 0,
        top_left_offset: 0,
    };
    assert_eq!(
        mark_edge_cell(&mut buf, g0),
        Err(MarkEdgeError::InvalidRowCount { supplied: 0 })
    );
    let g5 = MarkEdgeGeometry {
        width_dwords: 1,
        row_count: 5,
        top_left_offset: 0,
    };
    assert_eq!(
        mark_edge_cell(&mut buf, g5),
        Err(MarkEdgeError::InvalidRowCount { supplied: 5 })
    );
}

#[test]
fn mark_edge_sets_bit7_over_cell() {
    let mut buf = vec![0u8; STRIDE * 6];
    let top = 0usize;
    let g = MarkEdgeGeometry {
        width_dwords: 2,
        row_count: 4,
        top_left_offset: top,
    };
    let stats = mark_edge_cell(&mut buf, g).unwrap();
    assert_eq!(stats.rows_marked, 4);
    assert_eq!(stats.column_groups, 2);
    assert_eq!(stats.bytes_marked, 32);
    for row in 0..4 {
        let off = top + row * STRIDE;
        for c in 0..8 {
            assert_eq!(buf[off + c], EDGE_MARKER_BIT, "cell byte row {row} col {c}");
        }
        assert_eq!(buf[off + 8], 0, "byte past cell row {row}");
    }
}

#[test]
fn mark_edge_preserves_low_seven_bits() {
    let mut buf = vec![0u8; STRIDE * 2];
    let top = STRIDE;
    let content = [0x01u8, 0x42, 0x7f, 0x00];
    buf[top..top + 4].copy_from_slice(&content);
    let g = MarkEdgeGeometry {
        width_dwords: 1,
        row_count: 1,
        top_left_offset: top,
    };
    mark_edge_cell(&mut buf, g).unwrap();
    for (i, &orig) in content.iter().enumerate() {
        assert_eq!(buf[top + i], orig | EDGE_MARKER_BIT);
        assert_eq!(buf[top + i] & !EDGE_MARKER_BIT, orig);
    }
}

#[test]
fn mark_edge_already_marked_is_idempotent() {
    let mut buf = vec![0u8; STRIDE * 2];
    let top = 0usize;
    buf[top..top + 4].copy_from_slice(&[EDGE_MARKER_BIT | 0x11; 4]);
    let g = MarkEdgeGeometry {
        width_dwords: 1,
        row_count: 1,
        top_left_offset: top,
    };
    mark_edge_cell(&mut buf, g).unwrap();
    assert_eq!(&buf[top..top + 4], &[EDGE_MARKER_BIT | 0x11; 4]);
}

#[test]
fn mark_edge_partial_row_count_leaves_lower_rows_untouched() {
    let mut buf = vec![0u8; STRIDE * 6];
    let top = 0usize;
    let g = MarkEdgeGeometry {
        width_dwords: 1,
        row_count: 2,
        top_left_offset: top,
    };
    mark_edge_cell(&mut buf, g).unwrap();
    for row in 0..2 {
        let off = top + row * STRIDE;
        assert_eq!(&buf[off..off + 4], &[EDGE_MARKER_BIT; 4]);
    }
    for row in 2..4 {
        let off = top + row * STRIDE;
        assert_eq!(&buf[off..off + 4], &[0u8; 4], "row {row} must be untouched");
    }
}

#[test]
fn mark_edge_out_of_bounds_surfaced() {
    let mut buf = vec![0u8; STRIDE + 2];
    let g = MarkEdgeGeometry {
        width_dwords: 1,
        row_count: 2,
        top_left_offset: 0,
    };
    let r = mark_edge_cell(&mut buf, g);
    assert!(matches!(r, Err(MarkEdgeError::OutOfBounds { .. })));
    assert_eq!(&buf[0..4], &[EDGE_MARKER_BIT; 4]);
}

#[test]
fn mark_edge_error_display_cites_spec() {
    assert!(MarkEdgeError::ZeroWidth.message().contains("§4"));
    assert!(MarkEdgeError::InvalidRowCount { supplied: 9 }
        .message()
        .contains("§4"));
    assert!(MarkEdgeError::OutOfBounds {
        end: 10,
        buffer_len: 4
    }
    .message()
    .contains("§4"));
}
