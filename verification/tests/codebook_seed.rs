use oxideav_indeo::indeo3::codebook_seed::{
    CodebookSeedArea, SEED_AREA_LEN, SEED_BLOCK_COUNT, SEED_PAIR_TOTAL, SeedAreaError, SeedPair,
};

const COUNTS: [u8; 24] = [
    195, 159, 133, 115, 101, 93, 87, 77, 195, 159, 133, 115, 101, 93, 87, 77, 128, 79, 79, 79, 79,
    79, 79, 79,
];

const EXPANDS: [i8; 24] = [
    7, 9, 10, 11, 12, 12, 12, 13, 7, 9, 10, 11, 12, 12, 12, 13, -11, -13, -13, -13, -13, -13, -13,
    -13,
];

const HEAD: [u8; 16] = [
    0xc3, 0x00, 0x00, 0x02, 0x02, 0xfe, 0xfe, 0xff, 0x03, 0x01, 0xfd, 0x03, 0xff, 0xfd, 0x01, 0x04,
];

/// A dump with the codec area's block counts, expansion bytes and first
/// sixteen bytes; the other pairs are zero.
fn settled_dump() -> String {
    let mut bytes = Vec::new();
    for (count, expand) in COUNTS.iter().zip(EXPANDS.iter()) {
        bytes.push(*count);
        bytes.resize(bytes.len() + 2 * *count as usize, 0);
        bytes.push(*expand as u8);
    }
    bytes.push(0);
    bytes[..16].copy_from_slice(&HEAD);
    let mut text = String::from("# seed area\n");
    for line in bytes.chunks(16) {
        for b in line {
            text.push_str(&format!("{b:02x} "));
        }
        text.push('\n');
    }
    text
}

fn settled_area() -> CodebookSeedArea {
    CodebookSeedArea::load(&settled_dump()).unwrap()
}

#[test]
fn vendored_area_has_settled_extent() {
    let area = settled_area();
    assert_eq!(area.raw().len(), SEED_AREA_LEN);
    assert_eq!(area.blocks().len(), SEED_BLOCK_COUNT);
    let pair_total: usize = area.blocks().iter().map(|b| b.pairs.len()).sum();
    assert_eq!(pair_total, SEED_PAIR_TOTAL);
    assert_eq!(area.terminator_offset(), SEED_AREA_LEN - 1);
}

#[test]
fn vendored_pair_counts_match_staged_table() {
    let area = settled_area();
    let counts: Vec<u8> = area.blocks().iter().map(|b| b.count).collect();
    assert_eq!(
        counts,
        vec![
            195, 159, 133, 115, 101, 93, 87, 77, 195, 159, 133, 115, 101, 93, 87, 77, 128, 79,
            79, 79, 79, 79, 79, 79
        ]
    );
}

#[test]
fn vendored_expand_bytes_match_staged_table() {
    let area = settled_area();
    let expands: Vec<i8> = area.blocks().iter().map(|b| b.expand).collect();
    assert_eq!(
        expands,
        vec![
            7, 9, 10, 11, 12, 12, 12, 13, 7, 9, 10, 11, 12, 12, 12, 13, -11, -13, -13, -13,
            -13, -13, -13, -13
        ]
    );
}

#[test]
fn window_prefix_matches_raw_extract() {
    let area = settled_area();
    let expect = [
        0xc3, 0x00, 0x00, 0x02, 0x02, 0xfe, 0xfe, 0xff, 0x03, 0x01, 0xfd, 0x03, 0xff, 0xfd,
        0x01, 0x04,
    ];
    assert_eq!(&area.raw()[..16], &expect);
}

#[test]
fn seeded_words_match_staged_head() {
    let area = settled_area();
    let words = area.blocks()[0].seeded_words();
    assert_eq!(words[0], 0x8000_0000);
    assert_eq!(words[1], 0x8202_0000);
    assert_eq!(words[2], 0x7dfe_0000);
    assert_eq!(words[3], 0x82ff_0000);
    assert_eq!(words[4], 0x7d01_0000);
}

#[test]
fn replicated_word_borrows_across_bytes() {
    assert_eq!(SeedPair { a: 0, b: 0 }.replicated_word(), 0x0000_0000);
    assert_eq!(SeedPair { a: 2, b: 2 }.replicated_word(), 0x0202_0202);
    assert_eq!(SeedPair { a: -2, b: -2 }.replicated_word(), 0xfdfd_fdfe);
    assert_eq!(SeedPair { a: -1, b: 3 }.replicated_word(), 0x0302_feff);
}

#[test]
fn synthetic_block_walk_and_terminator() {
    let raw = vec![2, 10, 20, 30, 40, 3, 0, 99];
    let area = CodebookSeedArea::from_bytes(raw).expect("parse");
    assert_eq!(area.blocks().len(), 1);
    let b = &area.blocks()[0];
    assert_eq!(b.count, 2);
    assert_eq!(
        b.pairs,
        vec![SeedPair { a: 10, b: 20 }, SeedPair { a: 30, b: 40 }]
    );
    assert_eq!(b.expand, 3);
    assert_eq!(b.encoded_len(), 6);
    assert_eq!(area.terminator_offset(), 6);
}

#[test]
fn truncated_and_unterminated_tables_are_errors() {
    assert_eq!(
        CodebookSeedArea::from_bytes(vec![5, 1, 2]).unwrap_err(),
        SeedAreaError::Truncated { block_offset: 0 }
    );
    assert_eq!(
        CodebookSeedArea::from_bytes(vec![1, 1, 2, 3]).unwrap_err(),
        SeedAreaError::MissingTerminator
    );
    assert_eq!(
        CodebookSeedArea::from_bytes(Vec::new()).unwrap_err(),
        SeedAreaError::MissingTerminator
    );
}

#[test]
fn unsigned_count_reads_first_block_whole() {
    let area = settled_area();
    let first = &area.blocks()[0];
    assert_eq!(first.offset, 0);
    assert_eq!(first.count, 195);
    assert_eq!(first.encoded_len(), 392);
    assert_eq!(area.blocks()[1].offset, 392);
}
