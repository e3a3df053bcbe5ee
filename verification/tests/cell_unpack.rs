use oxideav_indeo::indeo3::cell_reconstruct::{CellReconstructGeometry, PositionEffect};
use oxideav_indeo::indeo3::cell_unpack::{
    arena_primary_offset, arena_secondary_offset, unpack_cell, CellUnpackError, UnpackEffect,
    UnpackOutcome,
};
use oxideav_indeo::indeo3::reconstruct::PREDICTOR_ROW_STRIDE;
use oxideav_indeo::indeo3::vq::{ARENA_LEN, CellVariant, DyadDeltaTable, VqArena};

const STRIDE: usize = PREDICTOR_ROW_STRIDE;

fn geom(width: usize, rows: usize, top: usize) -> CellReconstructGeometry {
    CellReconstructGeometry {
        width_dwords: width,
        source_rows: rows,
        top_left_offset: top,
    }
}

fn arena_with(low_nibble: u8, col: usize, primary: u32, cont: u8, secondary: u16) -> VqArena {
    let mut arena = VqArena::new();
    let s = arena_secondary_offset(low_nibble, cont);
    for (i, b) in secondary.to_le_bytes().iter().enumerate() {
        arena.set_byte(s + i, *b);
    }
    let p = arena_primary_offset(low_nibble, col);
    for (i, b) in primary.to_le_bytes().iter().enumerate() {
        arena.set_byte(p + i, *b);
    }
    arena
}

fn table() -> DyadDeltaTable {
    DyadDeltaTable::from_bytes(&[0u8; 0x2000]).unwrap()
}

#[test]
fn arena_offsets_match_spec_arithmetic() {
    assert_eq!(arena_primary_offset(0, 0), 0x400);
    assert_eq!(arena_primary_offset(5, 3), (5 << 11) + 12 + 0x400);
    assert_eq!(arena_secondary_offset(0, 0), 0x402);
    assert_eq!(arena_secondary_offset(15, 255), (15 << 11) + 1020 + 0x402);
    assert!(arena_secondary_offset(15, 255) + 2 <= ARENA_LEN);
    assert!(arena_primary_offset(15, 255) + 4 <= ARENA_LEN);
}

#[test]
fn primary_path_emits_variant_a_two_rows() {
    let table = table();
    let arena = arena_with(0, 0, 0x0102_0304, 0, 0);
    let top = STRIDE;
    let mut strip = vec![0u8; STRIDE * 6];
    let run = unpack_cell(
        &mut strip,
        geom(1, 1, top),
        CellVariant::Plain,
        &[0x00],
        &table,
        &arena,
        false,
    )
    .unwrap();
    assert_eq!(run.bytes_consumed, 1);
    match &run.outcome {
        UnpackOutcome::Complete(effects) => {
            assert_eq!(effects.len(), 1);
            match effects[0] {
                UnpackEffect::Dyad(e) => {
                    assert!(!e.continuation);
                    assert_eq!(e.rows_written, 2, "variant A doubles vertically");
                    let seeded = strip[0];
                    let pred = u32::from_le_bytes([seeded, 0, 0, 0]);
                    assert_eq!(e.pixels, pred.wrapping_add(0x0102_0304));
                }
                other => panic!("expected dyad, got {other:?}"),
            }
            assert_eq!(strip[top..top + 4], strip[top + STRIDE..top + STRIDE + 4]);
        }
        other => panic!("expected Complete, got {other:?}"),
    }
}

#[test]
fn sentinel_consumes_continuation_byte_and_secondary_word() {
    let table = table();
    let arena = arena_with(2, 0, 0x8000_0000, 0x07, 0x8100);
    let top = STRIDE;
    let mut strip = vec![0u8; STRIDE * 6];
    let run = unpack_cell(
        &mut strip,
        geom(1, 1, top),
        CellVariant::WithEdge,
        &[0x02, 0x07],
        &table,
        &arena,
        false,
    )
    .unwrap();
    assert_eq!(run.bytes_consumed, 2, "mode byte + continuation byte");
    match &run.outcome {
        UnpackOutcome::Complete(effects) => match effects[0] {
            UnpackEffect::Dyad(e) => {
                assert!(e.continuation);
                assert_eq!(e.rows_written, 1, "variant B emits one row");
            }
            other => panic!("expected dyad, got {other:?}"),
        },
        other => panic!("expected Complete, got {other:?}"),
    }
}

#[test]
fn still_negative_low_half_is_error_code_2() {
    let table = table();
    let arena = arena_with(0, 0, 0x8000_0000, 0x40, 0x0000);
    let top = STRIDE;
    let mut strip = vec![0u8; STRIDE * 6];
    let err = unpack_cell(
        &mut strip,
        geom(1, 1, top),
        CellVariant::Plain,
        &[0x00, 0x40],
        &table,
        &arena,
        false,
    )
    .unwrap_err();
    assert_eq!(err, CellUnpackError::DyadRangeFault { row: 0, dword: 0 });
}

#[test]
fn fault_slot_mode_byte_is_error_code_1() {
    let table = table();
    let arena = VqArena::new();
    let top = STRIDE;
    let mut strip = vec![0u8; STRIDE * 6];
    let err = unpack_cell(
        &mut strip,
        geom(1, 1, top),
        CellVariant::Plain,
        &[0x28],
        &table,
        &arena,
        false,
    )
    .unwrap_err();
    assert_eq!(
        err,
        CellUnpackError::ModeByteFault {
            mode_byte: 0x28,
            row: 0,
            dword: 0,
        }
    );
}

#[test]
fn unstaged_handler_defers_with_rva() {
    let table = table();
    let arena = VqArena::new();
    let top = STRIDE;
    let mut strip = vec![0u8; STRIDE * 6];
    let run = unpack_cell(
        &mut strip,
        geom(1, 1, top),
        CellVariant::Plain,
        &[0x18],
        &table,
        &arena,
        false,
    )
    .unwrap();
    assert_eq!(run.bytes_consumed, 0, "cursor backed up to the frontier");
    match run.outcome {
        UnpackOutcome::DeferredHandler {
            mode_byte,
            handler_rva,
            ..
        } => {
            assert_eq!(mode_byte, 0x18);
            assert_eq!(handler_rva, Some(0x1000_6c90));
        }
        other => panic!("expected DeferredHandler, got {other:?}"),
    }
}

#[test]
fn table1_high_nibble_3_rides_the_canonical_handler() {
    let table = table();
    let arena = arena_with(8, 0, 0x0000_0000, 0, 0);
    let top = STRIDE;
    let mut strip = vec![0u8; STRIDE * 6];
    let run = unpack_cell(
        &mut strip,
        geom(1, 1, top),
        CellVariant::Plain,
        &[0x38],
        &table,
        &arena,
        false,
    )
    .unwrap();
    match &run.outcome {
        UnpackOutcome::Complete(effects) => match effects[0] {
            UnpackEffect::Dyad(e) => {
                let expect = table.as_bytes()[3 << 9] as i8;
                assert_eq!(e.seed_delta, expect);
            }
            other => panic!("expected dyad, got {other:?}"),
        },
        other => panic!("expected Complete, got {other:?}"),
    }
}

#[test]
fn escapes_and_carry_share_the_stateful_protocol() {
    let table = table();
    let arena = VqArena::new();
    let top = STRIDE;
    let mut strip = vec![0u8; STRIDE * 8];
    let run = unpack_cell(
        &mut strip,
        geom(1, 2, top),
        CellVariant::Plain,
        &[0xFC],
        &table,
        &arena,
        false,
    )
    .unwrap();
    assert!(run.next_cell_skip);
    let run = unpack_cell(
        &mut strip,
        geom(1, 2, top),
        CellVariant::Plain,
        &[0x00],
        &table,
        &arena,
        true,
    )
    .unwrap();
    assert_eq!(run.outcome, UnpackOutcome::SkippedByCarry);
    assert_eq!(run.bytes_consumed, 0);
    let run = unpack_cell(
        &mut strip,
        geom(1, 2, top),
        CellVariant::Plain,
        &[0xFB, 0x03],
        &table,
        &arena,
        false,
    )
    .unwrap();
    match run.outcome {
        UnpackOutcome::Complete(effects) => {
            assert!(matches!(
                effects[0],
                UnpackEffect::Static(PositionEffect::FbRun { positions: 2, .. })
            ));
        }
        other => panic!("expected Complete, got {other:?}"),
    }
    assert_eq!(run.bytes_consumed, 2);
    let err = unpack_cell(
        &mut strip,
        geom(1, 2, top),
        CellVariant::Plain,
        &[0xFB, 0x20],
        &table,
        &arena,
        false,
    )
    .unwrap_err();
    assert!(matches!(
        err,
        CellUnpackError::FbCounterInvalid { counter: 0x20, .. }
    ));
}

#[test]
fn zero_dimension_and_exhaustion_are_typed() {
    let table = table();
    let arena = VqArena::new();
    let mut strip = vec![0u8; STRIDE * 4];
    assert_eq!(
        unpack_cell(
            &mut strip,
            geom(0, 1, STRIDE),
            CellVariant::Plain,
            &[],
            &table,
            &arena,
            false,
        )
        .unwrap_err(),
        CellUnpackError::ZeroDimension { is_width: true }
    );
    assert!(matches!(
        unpack_cell(
            &mut strip,
            geom(1, 2, STRIDE),
            CellVariant::WithEdge,
            &[0x00],
            &table,
            &arena,
            false,
        )
        .unwrap_err(),
        CellUnpackError::ByteStreamExhausted { .. }
    ));
}
