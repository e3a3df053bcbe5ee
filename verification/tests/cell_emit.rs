use oxideav_indeo::indeo3::cell_emit::{
    emit_cell_chain, predictor_dword, rows_per_source_row, CellEmitError, CellEmitGeometry,
    DyadDelta, PIXELS_PER_DYAD_DWORD,
};
use oxideav_indeo::indeo3::reconstruct::{
    apply_dyad_pair, emit_variant, pack_predictor, unpack_pixels, DyadOutcome, PREDICTOR_ROW_STRIDE,
};
use oxideav_indeo::indeo3::vq::CellVariant;

const STRIDE: usize = PREDICTOR_ROW_STRIDE;

fn d(primary: u32, secondary: u16) -> DyadDelta {
    DyadDelta { primary, secondary }
}

#[test]
fn pixels_per_dword_and_rows_per_source_row() {
    assert_eq!(PIXELS_PER_DYAD_DWORD, 4);
    assert_eq!(rows_per_source_row(CellVariant::WithEdge), 1);
    assert_eq!(rows_per_source_row(CellVariant::Plain), 2);
    assert_eq!(rows_per_source_row(CellVariant::DoubledRow), 2);
    assert_eq!(rows_per_source_row(CellVariant::FullyDoubled), 2);
}

#[test]
fn zero_width_and_zero_rows_rejected() {
    let mut buf = vec![0u8; STRIDE * 8];
    let g = CellEmitGeometry {
        width_dwords: 0,
        source_rows: 4,
        top_left_offset: STRIDE,
        variant: CellVariant::WithEdge,
    };
    assert_eq!(
        emit_cell_chain(&mut buf, g, &[]),
        Err(CellEmitError::ZeroDimension { is_width: true })
    );
    let g = CellEmitGeometry {
        width_dwords: 1,
        source_rows: 0,
        top_left_offset: STRIDE,
        variant: CellVariant::WithEdge,
    };
    assert_eq!(
        emit_cell_chain(&mut buf, g, &[]),
        Err(CellEmitError::ZeroDimension { is_width: false })
    );
}

#[test]
fn delta_count_mismatch_rejected() {
    let mut buf = vec![0u8; STRIDE * 8];
    let g = CellEmitGeometry {
        width_dwords: 1,
        source_rows: 4,
        top_left_offset: STRIDE,
        variant: CellVariant::WithEdge,
    };
    let deltas = [d(0, 0), d(0, 0), d(0, 0)];
    assert_eq!(
        emit_cell_chain(&mut buf, g, &deltas),
        Err(CellEmitError::DeltaCountMismatch {
            expected: 4,
            supplied: 3
        })
    );
}

#[test]
fn withedge_single_column_chain_predictor_rolls() {
    let mut buf = vec![0u8; STRIDE * 6];
    let top = STRIDE;
    let seed = [0x10u8, 0x12, 0x14, 0x16];
    buf[0..4].copy_from_slice(&seed);

    let g = CellEmitGeometry {
        width_dwords: 1,
        source_rows: 4,
        top_left_offset: top,
        variant: CellVariant::WithEdge,
    };
    let deltas = [
        d(pack_predictor([0x02, 0x02, 0x02, 0x02]), 0),
        d(pack_predictor([0x04, 0x04, 0x04, 0x04]), 0),
        d(pack_predictor([0x06, 0x06, 0x06, 0x06]), 0),
        d(pack_predictor([0x08, 0x08, 0x08, 0x08]), 0),
    ];
    let stats = emit_cell_chain(&mut buf, g, &deltas).unwrap();
    assert_eq!(stats.source_rows, 4);
    assert_eq!(stats.emitted_rows, 4);
    assert_eq!(stats.continuation_bytes, 0);

    let mut pred = pack_predictor(seed);
    for (i, delta) in deltas.iter().enumerate() {
        let em = emit_variant(CellVariant::WithEdge, pred, delta.primary, delta.secondary);
        let expected_row = em.rows.to_vec()[0];
        let off = top + i * STRIDE;
        let got = pack_predictor([buf[off], buf[off + 1], buf[off + 2], buf[off + 3]]);
        assert_eq!(got, expected_row, "row {i} mismatch");
        pred = expected_row;
    }
}

#[test]
fn top_of_strip_predictor_is_zero_seed() {
    let mut buf = vec![0u8; STRIDE * 4];
    let g = CellEmitGeometry {
        width_dwords: 1,
        source_rows: 1,
        top_left_offset: 0,
        variant: CellVariant::WithEdge,
    };
    let delta = d(pack_predictor([0x20, 0x22, 0x24, 0x26]), 0);
    emit_cell_chain(&mut buf, g, &[delta]).unwrap();
    let expected = emit_variant(CellVariant::WithEdge, 0, delta.primary, delta.secondary);
    let row0 = pack_predictor([buf[0], buf[1], buf[2], buf[3]]);
    assert_eq!(row0, expected.rows.to_vec()[0]);
}

#[test]
fn plain_variant_writes_two_rows_per_source_row() {
    let mut buf = vec![0u8; STRIDE * 8];
    let top = STRIDE;
    let g = CellEmitGeometry {
        width_dwords: 1,
        source_rows: 2,
        top_left_offset: top,
        variant: CellVariant::Plain,
    };
    let deltas = [
        d(pack_predictor([0x05, 0x05, 0x05, 0x05]), 0),
        d(pack_predictor([0x03, 0x03, 0x03, 0x03]), 0),
    ];
    let stats = emit_cell_chain(&mut buf, g, &deltas).unwrap();
    assert_eq!(stats.emitted_rows, 4);

    let pred0 = predictor_dword(&buf, top);
    let em0 = apply_dyad_pair(pred0, deltas[0].primary, deltas[0].secondary);
    let DyadOutcome::Primary { pixels: p0 } = em0 else {
        panic!("expected Primary");
    };
    assert_eq!(
        unpack_pixels(p0),
        [buf[top], buf[top + 1], buf[top + 2], buf[top + 3]]
    );
    for k in 0..4 {
        assert_eq!(buf[top + k], buf[top + STRIDE + k]);
    }

    let pred1 = predictor_dword(&buf, top + 2 * STRIDE);
    let expected_pred1 = pack_predictor([
        buf[top + STRIDE],
        buf[top + STRIDE + 1],
        buf[top + STRIDE + 2],
        buf[top + STRIDE + 3],
    ]);
    assert_eq!(pred1, expected_pred1);
}

#[test]
fn width_two_dwords_iterates_left_to_right() {
    let mut buf = vec![0u8; STRIDE * 4];
    let g = CellEmitGeometry {
        width_dwords: 2,
        source_rows: 1,
        top_left_offset: 0,
        variant: CellVariant::WithEdge,
    };
    let left = d(pack_predictor([0x10, 0x10, 0x10, 0x10]), 0);
    let right = d(pack_predictor([0x40, 0x40, 0x40, 0x40]), 0);
    emit_cell_chain(&mut buf, g, &[left, right]).unwrap();

    let exp_left = emit_variant(CellVariant::WithEdge, 0, left.primary, left.secondary);
    let exp_right = emit_variant(CellVariant::WithEdge, 0, right.primary, right.secondary);
    assert_eq!(
        pack_predictor([buf[0], buf[1], buf[2], buf[3]]),
        exp_left.rows.to_vec()[0]
    );
    assert_eq!(
        pack_predictor([buf[4], buf[5], buf[6], buf[7]]),
        exp_right.rows.to_vec()[0]
    );
}

#[test]
fn continuation_byte_count_tracked() {
    let mut buf = vec![0u8; STRIDE * 4];
    let top = STRIDE;
    buf[0..4].copy_from_slice(&0x7fff_0000u32.to_le_bytes());
    let g = CellEmitGeometry {
        width_dwords: 1,
        source_rows: 1,
        top_left_offset: top,
        variant: CellVariant::Plain,
    };
    let delta = d(0x0001_0000, 0x8000);
    let stats = emit_cell_chain(&mut buf, g, &[delta]).unwrap();
    assert_eq!(stats.continuation_bytes, 1);
}

#[test]
fn dyad_fault_aborts_chain() {
    let mut buf = vec![0u8; STRIDE * 6];
    let top = STRIDE;
    let g = CellEmitGeometry {
        width_dwords: 1,
        source_rows: 2,
        top_left_offset: top,
        variant: CellVariant::Plain,
    };
    let benign = d(pack_predictor([0x01, 0x01, 0x01, 0x01]), 0);
    let faulting = d(0x8000_0000, 0x0001);
    let r = emit_cell_chain(&mut buf, g, &[benign, faulting]);
    assert!(matches!(
        r,
        Err(CellEmitError::DyadFault { row: 1, dword: 0 })
    ));
}

#[test]
fn write_out_of_bounds_surfaced() {
    let mut buf = vec![0u8; 4];
    let g = CellEmitGeometry {
        width_dwords: 1,
        source_rows: 1,
        top_left_offset: 0,
        variant: CellVariant::Plain,
    };
    let delta = d(0, 0);
    let r = emit_cell_chain(&mut buf, g, &[delta]);
    assert!(matches!(
        r,
        Err(CellEmitError::WriteOutOfBounds { buffer_len: 4, .. })
    ));
}

#[test]
fn four_by_four_intra_cell_end_to_end() {
    let mut buf = vec![0u8; STRIDE * 6];
    let top = 2 * STRIDE;
    let above = [0x30u8, 0x31, 0x32, 0x33];
    buf[(top - STRIDE)..(top - STRIDE + 4)].copy_from_slice(&above);

    let deltas = [
        d(pack_predictor([0x02, 0x00, 0x04, 0x00]), 0),
        d(pack_predictor([0x01, 0x03, 0x05, 0x07]), 0),
        d(pack_predictor([0x00, 0x02, 0x00, 0x06]), 0),
        d(pack_predictor([0x08, 0x00, 0x02, 0x00]), 0),
    ];
    let g = CellEmitGeometry {
        width_dwords: 1,
        source_rows: 4,
        top_left_offset: top,
        variant: CellVariant::WithEdge,
    };
    emit_cell_chain(&mut buf, g, &deltas).unwrap();

    let mut pred = pack_predictor(above);
    for (i, delta) in deltas.iter().enumerate() {
        let em = emit_variant(CellVariant::WithEdge, pred, delta.primary, delta.secondary);
        let row = em.rows.to_vec()[0];
        let off = top + i * STRIDE;
        assert_eq!(
            pack_predictor([buf[off], buf[off + 1], buf[off + 2], buf[off + 3]]),
            row,
            "4x4 row {i}"
        );
        pred = row;
    }
}
