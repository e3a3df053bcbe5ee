use oxideav_indeo::indeo3::cell_decoder::{decode_plane, CellDecodeError, PlaneBuffers, PlaneContext};
use oxideav_indeo::indeo3::picture_layer::MotionVector;
use oxideav_indeo::indeo3::staging::StagingImage;
use oxideav_indeo::indeo3::vq::{DyadDeltaTable, VqArena};

/// The tables of a decode.
struct Tables {
    staging: StagingImage,
    arena: VqArena,
    lut: DyadDeltaTable,
}

fn tables() -> Tables {
    Tables {
        staging: StagingImage::from_bytes(&[0u8; 0xc000]).unwrap(),
        arena: VqArena::new(),
        lut: DyadDeltaTable::from_bytes(&[0u8; 0x2000]).unwrap(),
    }
}

/// Store a code word in both tables of an arena band.
fn set_band_code(t: &mut Tables, band: usize, code: usize, word: u32) {
    let at = 0x20 + 0x800 * band + 4 * code;
    for (i, b) in word.to_le_bytes().iter().enumerate() {
        t.arena.set_byte(at + i, *b);
        t.arena.set_byte(at + 0x400 + i, *b);
    }
}

/// Store a code word in both tables of arena band 0.
fn set_code(t: &mut Tables, code: usize, word: u32) {
    set_band_code(t, 0, code, word);
}

fn context<'a>(
    t: &'a Tables,
    mvs: &'a [MotionVector],
    reference: Option<&'a PlaneBuffers>,
) -> PlaneContext<'a> {
    PlaneContext {
        staging: &t.staging,
        arena: &t.arena,
        cb_offset: 0,
        lut: &t.lut,
        mvs,
        reference,
    }
}

/// Pack a string of bits, most significant first, into bytes.
fn bits(s: &str) -> Vec<u8> {
    let mut out = Vec::new();
    let mut n = 0;
    for c in s.chars().filter(|c| *c != ' ') {
        if n % 8 == 0 {
            out.push(0u8);
        }
        if c == '1' {
            *out.last_mut().unwrap() |= 0x80 >> (n % 8);
        }
        n += 1;
    }
    out
}

fn all_samples(b: &PlaneBuffers, v: u8) -> bool {
    (0..b.height).all(|y| (0..b.width).all(|x| b.sample(x, y) == Some(v)))
}

fn error_of(payload: &[u8], t: &Tables) -> CellDecodeError {
    let mut b = PlaneBuffers::luma(16, 16);
    decode_plane(payload, &mut b, &context(t, &[], None)).unwrap_err()
}

/// A plane whose first four columns are 0x42 and whose others are 0x40.
fn striped() -> PlaneBuffers {
    let mut t = tables();
    set_code(&mut t, 1, 0x0202_0202);
    let mut payload = bits("10 11");
    payload.push(0x10);
    payload.push(1);
    payload.extend_from_slice(&[0; 63]);
    let mut b = PlaneBuffers::luma(16, 16);
    let stats = decode_plane(&payload, &mut b, &context(&t, &[], None)).unwrap();
    assert_eq!(stats.coded_cells, 1);
    assert_eq!(stats.bytes, 66);
    b
}

#[test]
fn picture_sizes_are_decodable() {
    for (w, h) in [
        (16, 16),
        (160, 120),
        (176, 144),
        (320, 240),
        (640, 480),
        (1, 1),
        (20, 23),
        (161, 5),
        (481, 33),
        (500, 1030),
    ] {
        assert!(PlaneBuffers::luma(w, h).is_decodable());
        assert!(PlaneBuffers::chroma(w, h).is_decodable());
    }
}

#[test]
fn a_copied_root_takes_the_predictor_row() {
    let t = tables();
    let mut b = PlaneBuffers::luma(16, 16);
    let stats = decode_plane(&bits("10 10 00"), &mut b, &context(&t, &[], None)).unwrap();
    assert_eq!(stats.cells, 1);
    assert_eq!(stats.copy_upper, 1);
    assert_eq!(stats.skipped, 0);
    assert_eq!(stats.bytes, 1);
    assert!(all_samples(&b, 0x40));
    assert_eq!(b.to_pixels(16, 16), vec![0x80; 256]);
}

#[test]
fn a_skipped_root_keeps_its_content() {
    let t = tables();
    let mut b = PlaneBuffers::luma(16, 16);
    let stats = decode_plane(&bits("10 10 01"), &mut b, &context(&t, &[], None)).unwrap();
    assert_eq!(stats.skipped, 1);
    assert!(all_samples(&b, 0));
}

#[test]
fn splits_place_their_children_in_order() {
    let t = tables();
    let mut b = PlaneBuffers::luma(16, 16);
    let payload = bits("10 00 01 10 00 10 01 10 00");
    let stats = decode_plane(&payload, &mut b, &context(&t, &[], None)).unwrap();
    assert_eq!(stats.cells, 3);
    assert_eq!(stats.copy_upper, 2);
    assert_eq!(stats.skipped, 1);
    assert_eq!(b.sample(0, 0), Some(0x40));
    assert_eq!(b.sample(7, 7), Some(0x40));
    assert_eq!(b.sample(8, 0), Some(0));
    assert_eq!(b.sample(0, 8), Some(0x40));
    assert_eq!(b.sample(8, 8), Some(0));
}

#[test]
fn zero_codes_repeat_the_row_above() {
    let t = tables();
    for (mode, codes, family) in [(0x10u8, 64, 0), (0xa0, 16, 4)] {
        let mut payload = bits("10 11");
        payload.push(mode);
        payload.resize(2 + codes, 0);
        let mut b = PlaneBuffers::luma(16, 16);
        let stats = decode_plane(&payload, &mut b, &context(&t, &[], None)).unwrap();
        assert_eq!(stats.coded_cells, 1);
        assert_eq!(stats.families[family], 1);
        assert_eq!(stats.bytes as usize, payload.len());
        assert!(all_samples(&b, 0x40));
    }
}

#[test]
fn deltas_add_to_the_row_above() {
    let b = striped();
    for y in 0..16 {
        for x in 0..16 {
            assert_eq!(b.sample(x, y), Some(if x < 4 { 0x42 } else { 0x40 }));
        }
    }
}

#[test]
fn a_two_byte_code_takes_its_low_dyad_from_the_second_word() {
    let mut t = tables();
    set_code(&mut t, 1, 0x8204_0000);
    set_code(&mut t, 2, 0x8602_0000);
    let mut payload = bits("10 11");
    payload.extend_from_slice(&[0x10, 1, 2]);
    payload.extend_from_slice(&[0; 63]);
    let mut b = PlaneBuffers::luma(16, 16);
    decode_plane(&payload, &mut b, &context(&t, &[], None)).unwrap();
    let row: Vec<u8> = (0..4).map(|x| b.sample(x, 0).unwrap()).collect();
    assert_eq!(row, vec![0x42, 0x46, 0x44, 0x42]);
}

#[test]
fn runs_and_fills_cover_blocks() {
    let t = tables();
    let mut payload = bits("10 11");
    payload.extend_from_slice(&[0x10, 0xfb, 0x10]);
    let mut b = PlaneBuffers::luma(16, 16);
    decode_plane(&payload, &mut b, &context(&t, &[], None)).unwrap();
    assert!(all_samples(&b, 0x40));

    let mut payload = bits("10 11");
    payload.extend_from_slice(&[0x10, 0xf8, 0x15, 0xfd, 0xfb, 0x2f]);
    let mut b = PlaneBuffers::luma(16, 16);
    decode_plane(&payload, &mut b, &context(&t, &[], None)).unwrap();
    assert_eq!(b.sample(0, 0), Some(0x95));
}

#[test]
fn an_inter_leaf_fetches_the_reference() {
    let reference = striped();
    let t = tables();
    let still = [MotionVector::from_entry(0, 0, false, false)];
    let mut payload = bits("11 10 00");
    payload.push(0);
    let mut b = PlaneBuffers::luma(16, 16);
    let stats = decode_plane(&payload, &mut b, &context(&t, &still, Some(&reference))).unwrap();
    assert_eq!(stats.inter, 1);
    assert_eq!(stats.copy_upper, 1);
    for y in 0..16 {
        for x in 0..16 {
            assert_eq!(b.sample(x, y), reference.sample(x, y));
        }
    }
}

#[test]
fn half_pixel_vectors_average() {
    let reference = striped();
    let t = tables();
    let half = [MotionVector::from_entry(0, 1, false, true)];
    let mut payload = bits("11 10 00");
    payload.push(0);
    let mut b = PlaneBuffers::luma(16, 16);
    decode_plane(&payload, &mut b, &context(&t, &half, Some(&reference))).unwrap();
    assert_eq!(b.sample(2, 5), Some(0x42));
    assert_eq!(b.sample(3, 5), Some(0x41));
    assert_eq!(b.sample(4, 5), Some(0x40));

    let left = [MotionVector::from_entry(0, 2, false, false)];
    let mut b = PlaneBuffers::luma(16, 16);
    decode_plane(&payload, &mut b, &context(&t, &left, Some(&reference))).unwrap();
    assert_eq!(b.sample(1, 5), Some(0x42));
    assert_eq!(b.sample(2, 5), Some(0x40));
}

#[test]
fn planes_without_vectors_ignore_the_reference() {
    let reference = striped();
    let t = tables();
    let payload = bits("10 00 01 10 00 10 01 10 00");
    let mut a = PlaneBuffers::luma(16, 16);
    let mut b = PlaneBuffers::luma(16, 16);
    decode_plane(&payload, &mut a, &context(&t, &[], None)).unwrap();
    decode_plane(&payload, &mut b, &context(&t, &[], Some(&reference))).unwrap();
    assert_eq!(a, b);
}

#[test]
fn every_plane_error_has_an_input() {
    let mut t = tables();
    set_code(&mut t, 1, 0x0000_0040);
    let coded = |rest: &[u8]| {
        let mut p = bits("10 11");
        p.extend_from_slice(rest);
        p
    };
    assert_eq!(error_of(&[], &t), CellDecodeError::StreamExhausted);
    assert_eq!(error_of(&coded(&[]), &t), CellDecodeError::StreamExhausted);
    assert_eq!(error_of(&bits("00 00 00 10 10 00"), &t), CellDecodeError::UnderFourNode);
    assert_eq!(
        error_of(&bits("00 00 00 00 00 00 00 00 10 10 00"), &t),
        CellDecodeError::TreeTooDeep
    );
    assert_eq!(error_of(&coded(&[0x20]), &t), CellDecodeError::BadModeByte { mode: 0x20 });
    assert_eq!(error_of(&coded(&[0xb0]), &t), CellDecodeError::FamilyGate { mode: 0xb0 });
    assert_eq!(error_of(&coded(&[0x30]), &t), CellDecodeError::UnsupportedFamily { mode: 0x30 });
    assert_eq!(
        error_of(&coded(&[0x10, 0, 0xf8]), &t),
        CellDecodeError::BadEscape { escape: 0xf8, position: 1 }
    );
    assert_eq!(error_of(&coded(&[0x10, 0xfb, 0]), &t), CellDecodeError::BadCounter { counter: 0 });
    assert_eq!(error_of(&coded(&[0x10, 1]), &t), CellDecodeError::RangeFault);
    assert_eq!(error_of(&[0xc0, 7], &t), CellDecodeError::BadMvIndex { index: 7 });

    let mut b = PlaneBuffers::luma(16, 16);
    let still = [MotionVector::from_entry(0, 0, false, false)];
    assert_eq!(
        decode_plane(&[0xe0, 0], &mut b, &context(&t, &still, None)).unwrap_err(),
        CellDecodeError::McOutOfRange
    );

    let mut ctx = context(&t, &[], None);
    ctx.cb_offset = -1;
    assert_eq!(
        decode_plane(&coded(&[0x00]), &mut b, &ctx).unwrap_err(),
        CellDecodeError::BadStagingBlock
    );

    let mut wide = PlaneBuffers::luma(320, 16);
    wide.strips.pop();
    assert!(wide.is_decodable());
    assert_eq!(
        decode_plane(&bits("01 10 10 00 10 10 00"), &mut wide, &context(&t, &[], None)).unwrap_err(),
        CellDecodeError::BadStrip
    );
}

#[test]
fn splits_past_the_last_index_are_too_deep() {
    let t = tables();
    for n in [2, 3, 8, 9, 64, 4096] {
        for byte in [0x00, 0x55] {
            let mut b = PlaneBuffers::luma(16, 16);
            let before = b.clone();
            assert_eq!(
                decode_plane(&vec![byte; n], &mut b, &context(&t, &[], None)).unwrap_err(),
                CellDecodeError::TreeTooDeep
            );
            assert_eq!(b, before);
        }
    }
    assert_eq!(error_of(&[0x00], &t), CellDecodeError::StreamExhausted);
    assert_eq!(error_of(&bits("10 00 00 00 00 00 00 00 00"), &t), CellDecodeError::TreeTooDeep);
    assert_eq!(error_of(&bits("00 00 00 00 00 00 00 11"), &t), CellDecodeError::StreamExhausted);
}

#[test]
fn every_arena_band_has_its_tables() {
    for band in 0..16u8 {
        let mut t = tables();
        set_band_code(&mut t, usize::from(band), 1, 0x0202_0202);
        let mut payload = bits("10 11");
        payload.push(0x10 | band);
        payload.push(1);
        payload.extend_from_slice(&[0; 63]);
        let mut b = PlaneBuffers::luma(16, 16);
        let stats = decode_plane(&payload, &mut b, &context(&t, &[], None)).unwrap();
        assert_eq!(stats.families, [1, 0, 0, 0, 0, 0]);
        assert_eq!(stats.bytes, 66);
        assert_eq!(b, striped());
    }
    assert_eq!(VqArena::band_primary_offset(0), Some(0x20));
    assert_eq!(VqArena::band_primary_offset(15), Some(0x7820));
    assert_eq!(VqArena::band_secondary_offset(15), Some(0x7c20));
    assert_eq!(VqArena::band_primary_offset(16), None);
    assert_eq!(VqArena::band_secondary_offset(16), None);
}

#[test]
fn two_row_families_are_reported_on_every_band() {
    let t = tables();
    let reference = PlaneBuffers::luma(16, 16);
    let still = [MotionVector::from_entry(0, 0, false, false)];
    for hi in [0x3u8, 0x4, 0xb, 0xc] {
        for lo in 0..16u8 {
            let mode = hi << 4 | lo;
            let gated = CellDecodeError::FamilyGate { mode };
            let unsupported = CellDecodeError::UnsupportedFamily { mode };
            let late = hi >= 0xb;

            let mut b = PlaneBuffers::luma(16, 16);
            assert_eq!(
                decode_plane(&[0xb0, mode], &mut b, &context(&t, &[], None)).unwrap_err(),
                if late { gated } else { unsupported }
            );
            assert!(all_samples(&b, 0));

            let mut b = PlaneBuffers::luma(16, 16);
            let ctx = context(&t, &still, Some(&reference));
            assert_eq!(
                decode_plane(&[0xf0, 0, mode], &mut b, &ctx).unwrap_err(),
                if late { unsupported } else { gated }
            );
            assert!(all_samples(&b, 0));
        }
    }
}

#[test]
fn family_counts_sum_to_the_coded_cells() {
    let t = tables();
    let reference = striped();
    let still = [MotionVector::from_entry(0, 0, false, false)];
    let mut payload = vec![0xf0, 0, 0x10];
    payload.extend_from_slice(&[0; 64]);
    let mut b = PlaneBuffers::luma(16, 16);
    let ctx = context(&t, &still, Some(&reference));
    let stats = decode_plane(&payload, &mut b, &ctx).unwrap();
    assert_eq!(stats.families, [0, 1, 0, 0, 0, 0]);
    assert_eq!((stats.cells, stats.coded_cells, stats.inter), (1, 1, 1));
    assert_eq!(stats.bytes, 67);

    let mut payload = bits("01 10 11 11");
    payload.push(0x10);
    payload.extend_from_slice(&[0; 32]);
    payload.extend_from_slice(&[0, 0xc0, 0xa0]);
    payload.extend_from_slice(&[0; 8]);
    let mut b = PlaneBuffers::luma(16, 16);
    let stats = decode_plane(&payload, &mut b, &ctx).unwrap();
    assert_eq!(stats.families, [1, 0, 0, 0, 0, 1]);
    assert_eq!((stats.cells, stats.coded_cells, stats.inter), (2, 2, 1));
    assert_eq!(stats.bytes, 45);
}

#[test]
fn plane_error_messages_name_the_error() {
    assert_eq!(
        CellDecodeError::StreamExhausted.message(),
        "indeo3 cell decoder: StreamExhausted"
    );
    assert_eq!(
        CellDecodeError::BadEscape { escape: 0xf8, position: 1 }.message(),
        "indeo3 cell decoder: BadEscape { escape: 248, position: 1 }"
    );
    for e in [
        CellDecodeError::BadVqNull,
        CellDecodeError::BadModeByte { mode: 7 },
        CellDecodeError::BadMvIndex { index: 3 },
    ] {
        assert_eq!(e.message(), format!("indeo3 cell decoder: {e:?}"));
    }
}
