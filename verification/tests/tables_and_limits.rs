use oxideav_indeo::indeo3::cell_emit::{
    emit_cell_chain, CellEmitError, CellEmitGeometry, DyadDelta,
};
use oxideav_indeo::indeo3::cell_reconstruct::{
    reconstruct_cell_static, CellOutcome, CellReconstructError, CellReconstructGeometry,
    PositionEffect,
};
use oxideav_indeo::indeo3::cell_unpack::{
    unpack_cell, CellUnpackError, UnpackEffect, UnpackOutcome, UnpackRun,
};
use oxideav_indeo::indeo3::frame_output::{
    assemble_plane_if09, upsample_chroma_4x4, ChromaUpsampleError, PlaneAssembleError,
};
use oxideav_indeo::indeo3::strip_context::StripGeometry;
use oxideav_indeo::indeo3::vq::{CellVariant, DyadDeltaTable, VqArena};

const STRIDE: usize = 0xb0;

/// The table byte of a bank, row and column of the table below.
fn entry(bank: usize, row: usize, dword: usize) -> u8 {
    (bank * 16 + row % 4 * 4 + dword % 4) as u8
}

/// A table whose bytes differ from bank to bank, from row to row and from
/// column to column.
fn distinct_table() -> DyadDeltaTable {
    let bytes: Vec<u8> = (0..0x2000).map(|i| entry(i / 0x200, i / 0x80, i)).collect();
    DyadDeltaTable::from_bytes(&bytes).unwrap()
}

fn geom(width: usize, rows: usize, top: usize) -> CellReconstructGeometry {
    CellReconstructGeometry { width_dwords: width, source_rows: rows, top_left_offset: top }
}

fn unpack(strip: &mut [u8], g: CellReconstructGeometry, bytes: &[u8]) -> UnpackRun {
    unpack_cell(strip, g, CellVariant::WithEdge, bytes, &distinct_table(), &VqArena::new(), false)
        .unwrap()
}

/// The seeds of a complete run.
fn seeds(run: &UnpackRun) -> Vec<i8> {
    match &run.outcome {
        UnpackOutcome::Complete(effects) => effects
            .iter()
            .map(|e| match e {
                UnpackEffect::Dyad(d) => d.seed_delta,
                other => panic!("expected dyad, got {other:?}"),
            })
            .collect(),
        other => panic!("expected Complete, got {other:?}"),
    }
}

#[test]
fn the_high_nibble_selects_the_bank_of_the_seed() {
    for (mode, bank) in [(0x00u8, 0usize), (0x07, 0), (0x38, 3), (0x3f, 3)] {
        let mut strip = vec![0u8; STRIDE * 8];
        let run = unpack(&mut strip, geom(2, 1, STRIDE), &[mode, mode]);
        assert_eq!(seeds(&run), vec![entry(bank, 0, 0) as i8, entry(bank, 0, 1) as i8]);
        assert_eq!(strip[0], entry(bank, 0, 0).wrapping_add(0x80));
        assert_eq!(strip[4], entry(bank, 0, 1).wrapping_add(0x80));
        assert_eq!(run.bytes_consumed, 2);
    }
}

#[test]
fn the_row_and_the_column_select_the_byte_of_the_bank() {
    let mut strip = vec![0u8; STRIDE * 8];
    let run = unpack(&mut strip, geom(2, 5, STRIDE), &[0x38; 10]);
    let want: Vec<i8> = (0..10).map(|n| entry(3, n / 2, n % 2) as i8).collect();
    assert_eq!(seeds(&run), want);
}

#[test]
fn the_static_walk_seeds_from_the_first_bank() {
    let mut strip = vec![0u8; STRIDE * 8];
    let out = reconstruct_cell_static(
        &mut strip,
        geom(2, 2, STRIDE),
        &[0x00, 0x01, 0x02, 0x0f],
        &distinct_table(),
    )
    .unwrap();
    let want: Vec<PositionEffect> = (0..4usize)
        .map(|n| PositionEffect::RowBandSeed {
            delta: entry(0, n / 2, n % 2) as i8,
            predictor_slot: n / 2 * STRIDE + n % 2 * 4,
        })
        .collect();
    assert_eq!(out, CellOutcome::Complete(want));
}

#[test]
fn bytes_after_a_complete_run_do_not_matter() {
    for tail in [vec![], vec![0xff], vec![0x00, 0xfb, 0x38]] {
        let mut bytes = vec![0x38, 0x38, 0xff, 0x00, 0xfb, 0x01];
        let mut alone = vec![0u8; STRIDE * 8];
        let mut followed = alone.clone();
        let a = unpack(&mut alone, geom(2, 3, STRIDE), &bytes);
        assert!(matches!(a.outcome, UnpackOutcome::Complete(_)));
        assert_eq!(a.bytes_consumed, 6);
        bytes.extend_from_slice(&tail);
        let b = unpack(&mut followed, geom(2, 3, STRIDE), &bytes);
        assert_eq!(a, b);
        assert_eq!(alone, followed);
    }
}

#[test]
fn a_carried_skip_looks_at_no_geometry() {
    let run = unpack_cell(
        &mut [],
        geom(usize::MAX, usize::MAX, usize::MAX),
        CellVariant::Plain,
        &[],
        &distinct_table(),
        &VqArena::new(),
        true,
    )
    .unwrap();
    assert_eq!(run.outcome, UnpackOutcome::SkippedByCarry);
    assert_eq!(run.bytes_consumed, 0);
}

#[test]
fn cells_at_the_top_of_the_address_range_are_reported() {
    let mut strip = vec![0u8; STRIDE];
    let top = usize::MAX;
    assert_eq!(
        reconstruct_cell_static(&mut strip, geom(1, 1, top), &[0x00], &distinct_table()),
        Err(CellReconstructError::SeedWriteOutOfBounds { write_index: top, buffer_len: STRIDE })
    );
    let top = usize::MAX - STRIDE - 4;
    assert_eq!(
        unpack_cell(
            &mut strip,
            geom(1, 1, top),
            CellVariant::Plain,
            &[0x00],
            &distinct_table(),
            &VqArena::new(),
            false,
        ),
        Err(CellUnpackError::SeedWriteOutOfBounds { write_index: top, buffer_len: STRIDE })
    );
    let top = usize::MAX - 4;
    let g = CellEmitGeometry {
        width_dwords: 1,
        source_rows: 1,
        top_left_offset: top,
        variant: CellVariant::WithEdge,
    };
    assert_eq!(
        emit_cell_chain(&mut strip, g, &[DyadDelta { primary: 0, secondary: 0 }]),
        Err(CellEmitError::WriteOutOfBounds { write_end: usize::MAX, buffer_len: STRIDE })
    );
}

#[test]
fn rasters_up_to_the_address_range_are_reported_short() {
    let g = StripGeometry::for_luma(4, 2);
    let strip = vec![0u8; STRIDE + 4];
    let mut dst = vec![0u8; 16];
    assert_eq!(
        assemble_plane_if09(&g, &[&strip], &mut dst, usize::MAX - 4),
        Err(PlaneAssembleError::DstBufferTooShort { required: usize::MAX, supplied: 16 })
    );
    assert_eq!(
        upsample_chroma_4x4(&[0u8; 4], 2, 2, usize::MAX - 2, &mut dst, 8),
        Err(ChromaUpsampleError::SrcBufferTooShort { required: usize::MAX, supplied: 4 })
    );
    assert_eq!(upsample_chroma_4x4(&[], 0, u32::MAX, 0, &mut dst, usize::MAX), Ok(0));
    assert_eq!(dst, vec![0u8; 16]);
}
