use oxideav_indeo::common::BitReader;
use oxideav_indeo::indeo3::bank_select::{Bank, McBankAssignment};
use oxideav_indeo::indeo3::bytes::{read_dword, write_dword};
use oxideav_indeo::indeo3::cell_decoder::{decode_plane, PlaneBuffers, PlaneContext};
use oxideav_indeo::indeo3::cell_emit::rows_per_source_row;
use oxideav_indeo::indeo3::cell_geometry::cell_coords_from_dst_addr;
use oxideav_indeo::indeo3::cell_loop::dispatch_cell_preamble;
use oxideav_indeo::indeo3::cell_null::{
    copy_upper_cell, mark_edge_cell, CopyUpperGeometry, MarkEdgeGeometry,
};
use oxideav_indeo::indeo3::cell_subarray::cell_stack_array_offset;
use oxideav_indeo::indeo3::cell_unpack::{arena_primary_offset, arena_secondary_offset};
use oxideav_indeo::indeo3::entropy::{
    apply_continuation_xor, JumpTable, PositionClass, RleEscape,
};
use oxideav_indeo::indeo3::frame_exit::{FramePlaneStatusFold, PLANE_ITERATION_ORDER};
use oxideav_indeo::indeo3::frame_finalise::{FrameContinuity, SavedFrameNumber};
use oxideav_indeo::indeo3::frame_output::{assemble_plane_if09, upshift_7bit_to_8bit};
use oxideav_indeo::indeo3::geometry_bank::split_extent;
use oxideav_indeo::indeo3::header::{FrameFlags, FrameHeader, MAGIC_FRMH};
use oxideav_indeo::indeo3::picture_layer::MotionVector;
use oxideav_indeo::indeo3::reconstruct::{
    average_7bit, emit_variant, halve_fefefefe, pack_predictor, unpack_pixels, VariantEmission,
};
use oxideav_indeo::indeo3::staging::StagingImage;
use oxideav_indeo::indeo3::strip_context::{
    strip_slot_index, PlaneDecodeStatus, StripGeometry,
};
use oxideav_indeo::indeo3::vq::{CellVariant, DyadDeltaTable, VqArena, ARENA_LEN};

#[test]
fn a_read_in_two_pieces_is_one_read() {
    let buf = [0xa5, 0x3c, 0x7e];
    for a in 0..=8u8 {
        for b in 0..=8u8 {
            let mut whole = BitReader::new(&buf);
            let mut parts = BitReader::new(&buf);
            let w = whole.read_bits(a + b).unwrap();
            let hi = parts.read_bits(a).unwrap();
            let lo = parts.read_bits(b).unwrap();
            assert_eq!(w, (hi << b) | lo);
            assert_eq!(whole.pos_bits(), parts.pos_bits());
        }
    }
}

#[test]
fn banks_alternate_and_slots_are_distinct() {
    for bank in [Bank::Primary, Bank::Secondary] {
        assert_eq!(bank.opposite().opposite(), bank);
        assert_ne!(bank.opposite(), bank);
    }
    let mut slots = Vec::new();
    for plane in 0..3 {
        let a = McBankAssignment::resolve(FrameFlags(0x0200), plane).unwrap();
        let b = McBankAssignment::resolve(FrameFlags(0), plane).unwrap();
        assert!(!a.is_self_copy());
        assert_eq!(a.slot_delta(), 3);
        assert_eq!((a.dst_slot, a.src_slot), (b.src_slot, b.dst_slot));
        slots.push(strip_slot_index(plane, false).unwrap());
        slots.push(strip_slot_index(plane, true).unwrap());
    }
    slots.sort();
    assert_eq!(slots, vec![0, 1, 2, 3, 4, 5]);
}

#[test]
fn stored_double_words_read_back() {
    let mut s = [0u8; 9];
    write_dword(&mut s, 3, 0x1234_5678);
    assert_eq!(read_dword(&s, 3), 0x1234_5678);
    assert_eq!(s, [0, 0, 0, 0x78, 0x56, 0x34, 0x12, 0, 0]);
    assert_eq!(unpack_pixels(pack_predictor([1, 2, 3, 4])), [1, 2, 3, 4]);
}

#[test]
fn emissions_have_the_rows_of_their_variant() {
    for v in [
        CellVariant::Plain,
        CellVariant::WithEdge,
        CellVariant::DoubledRow,
        CellVariant::FullyDoubled,
    ] {
        let VariantEmission { rows, .. } = emit_variant(v, 0x2020_2020, 0x0101_0101, 0);
        assert_eq!(rows.len(), rows_per_source_row(v));
        assert_eq!(rows.to_vec().len(), rows.len());
    }
    assert_eq!(average_7bit(0x0203_0405, 0x0406_0002), 0x0304_0203);
    assert_eq!(halve_fefefefe(0x0203_0405), 0x0101_0202);
}

#[test]
fn addresses_and_coordinates_round_trip() {
    for (x, y) in [(0u32, 0u32), (175, 0), (3, 9), (175, 239)] {
        let base = 0x1234usize;
        let addr = base + y as usize * 0xb0 + x as usize;
        let c = cell_coords_from_dst_addr(addr, base).unwrap();
        assert_eq!((c.cell_x, c.cell_y), (x, y));
    }
}

#[test]
fn the_preamble_clears_one_bit() {
    let bank = vec![0u8; 0x1600];
    let p = dispatch_cell_preamble(&bank, 1, 0, 0xffff_ffff);
    assert_eq!(p.state().unwrap().ecx_post_clear, 0xbfff_ffff);
    let p = dispatch_cell_preamble(&bank, 1, 0, 0x1234_5678);
    assert_eq!(p.state().unwrap().ecx_post_clear, 0x1234_5678);
}

#[test]
fn marking_twice_is_marking_once() {
    let g = MarkEdgeGeometry { width_dwords: 2, row_count: 3, top_left_offset: 5 };
    let before: Vec<u8> = (0..800).map(|i| (i * 7) as u8).collect();
    let mut once = before.clone();
    mark_edge_cell(&mut once, g).unwrap();
    let mut twice = once.clone();
    mark_edge_cell(&mut twice, g).unwrap();
    assert_eq!(once, twice);
    for (a, b) in before.iter().zip(&once) {
        assert_eq!(a & 0x7f, b & 0x7f);
    }
}

#[test]
fn copied_cells_equal_their_upper_neighbour() {
    let g = CopyUpperGeometry { width_dwords: 3, row_count: 4, top_left_offset: 0xb0 + 8 };
    let before: Vec<u8> = (0..1000).map(|i| (i * 13) as u8).collect();
    let mut after = before.clone();
    copy_upper_cell(&mut after, g).unwrap();
    for (j, v) in after.iter().enumerate() {
        let (row, col) = (j / 0xb0, j % 0xb0);
        let inside = (1..5).contains(&row) && (8..20).contains(&col);
        assert_eq!(*v, if inside { before[col] } else { before[j] });
    }
}

#[test]
fn cell_stack_entries_do_not_overlap() {
    let mut last = None;
    for slot in 0..32 {
        for entry in 0..240 {
            let at = cell_stack_array_offset(slot, entry).unwrap();
            assert!(at >= slot * 0x400 + 0x40 && at + 4 <= (slot + 1) * 0x400);
            if let Some(l) = last {
                assert!(at >= l + 4);
            }
            last = Some(at);
        }
    }
}

#[test]
fn arena_words_lie_in_the_arena() {
    for low in 0..16u8 {
        for i in 0..256usize {
            assert!(arena_primary_offset(low, i) + 4 <= ARENA_LEN);
            assert!(arena_secondary_offset(low, i as u8) + 2 <= ARENA_LEN);
        }
    }
}

#[test]
fn escapes_and_tables_keep_their_laws() {
    for b in 0..=255u8 {
        match RleEscape::from_byte(b) {
            Some(e) => assert_eq!(e.byte(), b),
            None => assert!(b < 0xf8),
        }
    }
    let order = [
        PositionClass::CellFirst,
        PositionClass::RowFirst,
        PositionClass::Continuation1,
        PositionClass::Continuation2,
        PositionClass::Continuation3,
    ];
    for b in 0xf8..=0xffu8 {
        let e = RleEscape::from_byte(b).unwrap();
        for w in order.windows(2) {
            assert!(!e.accepted_at(w[1]) || e.accepted_at(w[0]));
        }
    }
    for n in [1u8, 2, 4, 0xb, 0xc, 0xd, 0xe, 0xf] {
        assert_eq!(JumpTable::First.entry(n), JumpTable::Second.entry(n));
    }
    for v in [0u32, 1, 0x8000_8000, 0xdead_beef] {
        assert_eq!(apply_continuation_xor(apply_continuation_xor(v)), v);
        assert_eq!(apply_continuation_xor(v), v ^ 0x8000_8000);
    }
}

#[test]
fn folds_report_the_first_fault_in_visiting_order() {
    let ok = PlaneDecodeStatus::Decoded;
    let bad = PlaneDecodeStatus::Malformed;
    assert_eq!(PLANE_ITERATION_ORDER, [2, 1, 0]);
    for bits in 0..8u8 {
        let s = |i: u8| if bits & (1 << i) != 0 { bad } else { ok };
        let fold = FramePlaneStatusFold::from_plane_idx_order([s(0), s(1), s(2)]);
        let first = [2u8, 1, 0].iter().copied().find(|i| bits & (1 << i) != 0);
        assert_eq!(fold.first_fault_plane_idx(), first.map(usize::from));
        assert_eq!(fold.proceeds_to_reconstruction(), bits == 0);
    }
}

#[test]
fn one_number_follows_another() {
    let saved = SavedFrameNumber { frame_number: u32::MAX };
    assert_eq!(saved.classify(0), FrameContinuity::Sequential);
    assert_eq!(saved.classify(u32::MAX), FrameContinuity::Discontinuous);
    assert_eq!(saved.classify(1), FrameContinuity::Discontinuous);
}

#[test]
fn the_upshift_drops_the_marker_alone() {
    for b in 0..=255u8 {
        let v = upshift_7bit_to_8bit(b);
        assert_eq!(v, (b & 0x7f) * 2);
        assert_eq!(v, upshift_7bit_to_8bit(b ^ 0x80));
    }
}

#[test]
fn children_tile_their_node() {
    for p in 0..2000u32 {
        let (a, b) = split_extent(p);
        assert_eq!(a + b, p);
    }
    assert_eq!(split_extent(160), (80, 80));
    assert_eq!(split_extent(120), (64, 56));
    assert_eq!(split_extent(8), (4, 4));
    assert_eq!(split_extent(4096), (0, 4096));
}

#[test]
fn assembly_places_every_sample_and_nothing_else() {
    let g = StripGeometry::for_luma(164, 2);
    assert_eq!(g.iter_strip_widths(), vec![160, 4]);
    let strip = |k: usize| -> Vec<u8> { (0..0x160).map(|i| (i + 50 * k) as u8).collect() };
    let (a, b) = (strip(0), strip(1));
    let mut dst = vec![0xeeu8; 400];
    let n = assemble_plane_if09(&g, &[&a, &b], &mut dst, 170).unwrap();
    assert_eq!(n, 164 * 2);
    for (j, v) in dst.iter().enumerate() {
        let (y, x) = (j / 170, j % 170);
        let want = if y >= 2 || x >= 164 {
            0xee
        } else if x < 160 {
            (a[y * 0xb0 + x] & 0x7f) * 2
        } else {
            (b[y * 0xb0 + x - 160] & 0x7f) * 2
        };
        assert_eq!(*v, want);
    }
}

#[test]
fn the_header_ignores_what_follows_it() {
    let mut buf = vec![0u8; 64];
    buf[8..12].copy_from_slice(&(64u32 ^ MAGIC_FRMH).to_le_bytes());
    buf[12..16].copy_from_slice(&64u32.to_le_bytes());
    buf[0x10] = 0x20;
    let a = FrameHeader::parse(&buf).unwrap();
    buf.extend_from_slice(&[1, 2, 3]);
    assert_eq!(FrameHeader::parse(&buf).unwrap(), a);
}

#[test]
fn packed_vectors_keep_their_parts() {
    let mv = MotionVector::from_entry(-3, 7, true, true);
    assert_eq!((mv.vert, mv.horiz, mv.vert_half, mv.horiz_half), (-2, 3, true, true));
    assert_eq!(mv.packed_mv(), 4 * (0xb0 * -2 + 3) + 3);
    assert_eq!(mv.packed_mv() >> 2, 0xb0 * -2 + 3);
}

#[test]
fn cells_are_decoded_in_place() {
    let staging = StagingImage::from_bytes(&[0u8; 0xc000]).unwrap();
    let lut = DyadDeltaTable::from_bytes(&[0u8; 0x2000]).unwrap();
    let arena = VqArena::new();
    let ctx = PlaneContext {
        staging: &staging,
        arena: &arena,
        cb_offset: 0,
        lut: &lut,
        mvs: &[],
        reference: None,
    };
    // 01 | 10 11 <mode> <codes> | 10 10 01
    let mut payload = vec![0b0110_1110, 0x10];
    payload.extend_from_slice(&[0; 32]);
    payload.push(0b1001_0000);
    let mut b = PlaneBuffers::luma(16, 16);
    let stats = decode_plane(&payload, &mut b, &ctx).unwrap();
    assert_eq!((stats.cells, stats.coded_cells, stats.skipped), (2, 1, 1));
    for y in 0..16 {
        for x in 0..16 {
            assert_eq!(b.sample(x, y), Some(if x < 8 { 0x40 } else { 0 }));
        }
    }
    assert_eq!(b.strips.len(), 1);
    assert_eq!(b.strips[0].len(), 18 * 0xb0);
}
