use oxideav_indeo::indeo3::cell_reconstruct::{
    reconstruct_cell_static, CellOutcome, CellReconstructError, CellReconstructGeometry,
    PositionEffect,
};
use oxideav_indeo::indeo3::entropy::{position_class, PositionClass, RleEscape};
use oxideav_indeo::indeo3::reconstruct::PREDICTOR_ROW_STRIDE;
use oxideav_indeo::indeo3::vq::{DyadDeltaTable, RowBandSeed};

const STRIDE: usize = PREDICTOR_ROW_STRIDE;

fn geom(width: usize, rows: usize, top: usize) -> CellReconstructGeometry {
    CellReconstructGeometry {
        width_dwords: width,
        source_rows: rows,
        top_left_offset: top,
    }
}

fn table() -> DyadDeltaTable {
    DyadDeltaTable::from_bytes(&[0u8; 0x2000]).unwrap()
}

#[test]
fn zero_dimensions_rejected() {
    let table = table();
    let mut strip = vec![0u8; STRIDE * 8];
    assert_eq!(
        reconstruct_cell_static(&mut strip, geom(0, 4, STRIDE), &[], &table),
        Err(CellReconstructError::ZeroDimension { is_width: true })
    );
    assert_eq!(
        reconstruct_cell_static(&mut strip, geom(1, 0, STRIDE), &[], &table),
        Err(CellReconstructError::ZeroDimension { is_width: false })
    );
}

#[test]
fn exhausted_stream_is_typed_error() {
    let table = table();
    let mut strip = vec![0u8; STRIDE * 8];
    let err =
        reconstruct_cell_static(&mut strip, geom(1, 4, STRIDE), &[0x00], &table).unwrap_err();
    assert_eq!(
        err,
        CellReconstructError::ByteStreamExhausted {
            next_index: 1,
            supplied: 1,
        }
    );
}

#[test]
fn high_nibble_zero_literals_seed_predictor_slots() {
    let table = table();
    let top = STRIDE;
    let mut strip = vec![0u8; STRIDE * 6];
    let bytes = [0x00u8, 0x00, 0x00, 0x00];
    let outcome = reconstruct_cell_static(&mut strip, geom(1, 4, top), &bytes, &table).unwrap();
    match outcome {
        CellOutcome::Complete(effects) => {
            assert_eq!(effects.len(), 4);
            for (i, eff) in effects.iter().enumerate() {
                match eff {
                    PositionEffect::RowBandSeed { predictor_slot, .. } => {
                        let write_index = top + i * STRIDE;
                        assert_eq!(*predictor_slot, write_index - STRIDE);
                    }
                    other => panic!("unexpected effect {other:?}"),
                }
            }
            assert_ne!(strip[0], 0x00, "row-band seed wrote a biased byte");
        }
        other => panic!("expected Complete, got {other:?}"),
    }
}

#[test]
fn high_nibble_nonzero_literal_defers_to_arena() {
    let table = table();
    let top = STRIDE;
    let mut strip = vec![0u8; STRIDE * 6];
    let bytes = [0x00u8, 0x30, 0x00, 0x00];
    let outcome = reconstruct_cell_static(&mut strip, geom(2, 2, top), &bytes, &table).unwrap();
    match outcome {
        CellOutcome::DeferredArena {
            mode_byte,
            high_nibble,
            row,
            dword,
            emitted,
        } => {
            assert_eq!(mode_byte, 0x30);
            assert_eq!(high_nibble, 3);
            assert_eq!(row, 0);
            assert_eq!(dword, 1);
            assert_eq!(emitted.len(), 1);
        }
        other => panic!("expected DeferredArena, got {other:?}"),
    }
}

#[test]
fn ff_skips_one_row() {
    let table = table();
    let top = STRIDE;
    let mut strip = vec![0u8; STRIDE * 8];
    let bytes = [0xFFu8, 0x00];
    let outcome = reconstruct_cell_static(&mut strip, geom(1, 2, top), &bytes, &table).unwrap();
    match outcome {
        CellOutcome::Complete(effects) => {
            assert_eq!(effects.len(), 2);
            assert!(matches!(
                effects[0],
                PositionEffect::RowSkip {
                    escape: RleEscape::Ff,
                    rows_skipped: 1
                }
            ));
            assert!(matches!(effects[1], PositionEffect::RowBandSeed { .. }));
        }
        other => panic!("expected Complete, got {other:?}"),
    }
}

#[test]
fn fd_skips_all_remaining_rows_and_completes() {
    let table = table();
    let top = STRIDE;
    let mut strip = vec![0u8; STRIDE * 8];
    let bytes = [0x00u8, 0xFD];
    let outcome = reconstruct_cell_static(&mut strip, geom(1, 4, top), &bytes, &table).unwrap();
    match outcome {
        CellOutcome::Complete(effects) => {
            assert_eq!(effects.len(), 2);
            assert!(matches!(
                effects[1],
                PositionEffect::RowSkip {
                    escape: RleEscape::Fd,
                    rows_skipped: 3
                }
            ));
        }
        other => panic!("expected Complete, got {other:?}"),
    }
}

#[test]
fn fb_reads_counter_and_terminates() {
    let table = table();
    let top = STRIDE;
    let mut strip = vec![0u8; STRIDE * 8];
    let bytes = [0xFBu8, 0x25];
    let outcome = reconstruct_cell_static(&mut strip, geom(2, 4, top), &bytes, &table).unwrap();
    match outcome {
        CellOutcome::Terminated { counter, emitted } => {
            assert_eq!(counter, 0x25);
            assert!(emitted.is_empty());
        }
        other => panic!("expected Terminated, got {other:?}"),
    }
}

#[test]
fn ff_mid_row_faults_per_acceptance_matrix() {
    let table = table();
    let top = STRIDE;
    let mut strip = vec![0u8; STRIDE * 8];
    let bytes = [0x00u8, 0xFF];
    let err = reconstruct_cell_static(&mut strip, geom(2, 2, top), &bytes, &table).unwrap_err();
    assert_eq!(
        err,
        CellReconstructError::EscapeFault {
            escape: 0xFF,
            position: PositionClass::Continuation1,
            row: 0,
            dword: 1,
        }
    );
}

#[test]
fn f8_at_cell_start_is_accepted_and_completes() {
    let table = table();
    let top = STRIDE;
    let mut strip = vec![0u8; STRIDE * 8];
    let bytes = [0xF8u8];
    let outcome = reconstruct_cell_static(&mut strip, geom(2, 4, top), &bytes, &table).unwrap();
    assert!(matches!(outcome, CellOutcome::Complete(_)));
}

#[test]
fn position_class_maps_row_and_column() {
    assert_eq!(position_class(0, 0), PositionClass::CellFirst);
    assert_eq!(position_class(1, 0), PositionClass::RowFirst);
    assert_eq!(position_class(0, 1), PositionClass::Continuation1);
    assert_eq!(position_class(0, 2), PositionClass::Continuation2);
    assert_eq!(position_class(0, 3), PositionClass::Continuation3);
    assert_eq!(position_class(0, 9), PositionClass::Continuation3);
}
