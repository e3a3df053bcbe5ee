use oxideav_indeo::common::cut_frames;
use oxideav_indeo::indeo3::cell_null::{CopyUpperError, MarkEdgeError};
use oxideav_indeo::indeo3::codebook_seed::{
    parse_hex_bytes, CodebookSeedArea, SeedAreaError, SeedBlock, SeedPair,
};
use oxideav_indeo::indeo3::decoder::{DecoderError, Indeo3Decoder};
use oxideav_indeo::indeo3::frame::{decode_frame, FrameDecodeError};
use oxideav_indeo::indeo3::frame_assemble::{
    allocate_strip_buffers, assemble_output, AssembleError, OutputFrame, OutputPlane,
};
use oxideav_indeo::indeo3::frame_output::{
    upsample_chroma_4x4, ChromaUpsampleError, PlaneAssembleError,
};
use oxideav_indeo::indeo3::frame_reconstruct::{reconstruct_frame, FrameReconstructError};
use oxideav_indeo::indeo3::frame_session::{FrameAdmission, SessionError};
use oxideav_indeo::indeo3::frame_yuv::{assemble_yuv, upsample_frame, YuvError};
use oxideav_indeo::indeo3::header::{HeaderError, MAGIC_FRMH, NULL_FRAME_DATA_SIZE_BITS};
use oxideav_indeo::indeo3::macroblock::{Cell, MacroblockError, NodeRect, VqLeaf, VqNull};
use oxideav_indeo::indeo3::picture_layer::{
    MotionVector, PictureLayerError, PlanePresence, PLANE_IDX_U, PLANE_IDX_V, PLANE_IDX_Y,
};
use oxideav_indeo::indeo3::plane_execute::{exec_plane_plan, PlaneExecError};
use oxideav_indeo::indeo3::plane_reconstruct::{
    CellDisposition, CellPlanEntry, PlaneReconstructPlan,
};

const SKIPPED: u32 = 0x8000_0000;
const INTRA: u16 = 0x0004;

/// A frame of the given size whose planes Y, V, U have the given bytes.
fn frame(
    number: u32,
    flags: u16,
    data_size: u32,
    width: u16,
    height: u16,
    planes: [Option<&[u8]>; 3],
) -> Vec<u8> {
    let mut body = Vec::new();
    let mut offsets = [SKIPPED; 3];
    for (i, p) in planes.iter().enumerate() {
        if let Some(bytes) = p {
            offsets[i] = (0x30 + body.len()) as u32;
            body.extend_from_slice(bytes);
        }
    }
    let mut buf = vec![0u8; 64];
    let size = (64 + body.len()) as u32;
    buf[0..4].copy_from_slice(&number.to_le_bytes());
    buf[8..12].copy_from_slice(&(number ^ size ^ MAGIC_FRMH).to_le_bytes());
    buf[12..16].copy_from_slice(&size.to_le_bytes());
    buf[0x10..0x12].copy_from_slice(&0x20u16.to_le_bytes());
    buf[0x12..0x14].copy_from_slice(&flags.to_le_bytes());
    buf[0x14..0x18].copy_from_slice(&data_size.to_le_bytes());
    buf[0x1c..0x1e].copy_from_slice(&height.to_le_bytes());
    buf[0x1e..0x20].copy_from_slice(&width.to_le_bytes());
    for (i, o) in offsets.iter().enumerate() {
        buf[0x20 + 4 * i..0x24 + 4 * i].copy_from_slice(&o.to_le_bytes());
    }
    buf.extend_from_slice(&body);
    buf
}

/// A plane without vectors and the given payload.
fn plane(payload: &[u8]) -> Vec<u8> {
    let mut out = vec![0u8; 4];
    out.extend_from_slice(payload);
    out
}

/// A picture frame with a Y plane only.
fn luma_frame(number: u32, flags: u16, payload: &[u8]) -> Vec<u8> {
    frame(number, flags, 4096, 16, 16, [Some(&plane(payload)), None, None])
}

/// One copy leaf over the whole plane: `10 10 00`.
const COPY: u8 = 0xa0;

/// One skip leaf over the whole plane: `10 10 01`.
const SKIP: u8 = 0xa4;

#[test]
fn preludes_hold_vectors_and_payloads() {
    let y = [2, 0, 0, 0, 1, 0xff, 3, 5, 0xc0, 1];
    let bytes = frame(0, INTRA | 0x0010, 4096, 16, 16, [Some(&y), None, None]);
    let decoded = decode_frame(&bytes).unwrap();
    match &decoded.picture.planes[0] {
        PlanePresence::Present(p) => {
            assert_eq!(p.plane_base, 64);
            assert_eq!(p.num_vectors, 2);
            assert_eq!(p.payload_offset, 72);
            assert_eq!(p.mc_vectors[0], MotionVector::from_entry(1, -1, false, true));
            assert_eq!(p.mc_vectors[1], MotionVector::from_entry(3, 5, false, true));
        }
        other => panic!("unexpected {other:?}"),
    }
    assert_eq!(decoded.picture.planes[1], PlanePresence::Skipped);
    let p = decoded.plane(PLANE_IDX_Y).unwrap();
    assert!(!p.is_intra());
    assert_eq!(p.plan.slot, 3);
    assert_eq!(p.stats.inter_cells, 1);
    assert_eq!(p.stats.total_cells(), 1);
    match &p.tree.cells[0] {
        Cell::Inter { rect, mv_index } => {
            assert_eq!(*rect, NodeRect { x: 0, y: 0, w: 16, h: 16 });
            assert_eq!(*mv_index, 1);
        }
        other => panic!("unexpected {other:?}"),
    }
}

#[test]
fn trees_split_into_cells() {
    // 01 | 10 10 00 | 00 | 10 11 <mode> | 10 10 01
    let bytes = luma_frame(0, INTRA, &[0b0110_1000, 0b0010_1110, 0x55, 0b1001_0000]);
    let decoded = decode_frame(&bytes).unwrap();
    let p = decoded.plane(PLANE_IDX_Y).unwrap();
    assert_eq!(p.stats.intra_cells, 3);
    assert_eq!(p.stats.vq_null_cells, 2);
    assert_eq!(p.stats.vq_data_cells, 1);
    let rects: Vec<NodeRect> = p
        .tree
        .cells
        .iter()
        .map(|c| match c {
            Cell::Intra { rect, .. } | Cell::Inter { rect, .. } => *rect,
        })
        .collect();
    assert_eq!(
        rects,
        vec![
            NodeRect { x: 0, y: 0, w: 8, h: 16 },
            NodeRect { x: 8, y: 0, w: 8, h: 8 },
            NodeRect { x: 8, y: 8, w: 8, h: 8 },
        ]
    );
    match &p.tree.cells[1] {
        Cell::Intra { vq_leaves, .. } => {
            assert_eq!(vq_leaves[0].leaf, VqLeaf::Data { mode: 0x55 });
        }
        other => panic!("unexpected {other:?}"),
    }
    match &p.tree.cells[2] {
        Cell::Intra { vq_leaves, .. } => {
            assert_eq!(vq_leaves[0].leaf, VqLeaf::Null(VqNull::Skip));
        }
        other => panic!("unexpected {other:?}"),
    }
}

#[test]
fn every_frame_error_has_an_input() {
    assert!(matches!(
        decode_frame(&[0u8; 10]).unwrap_err(),
        FrameDecodeError::Header(HeaderError::BufferTooShort { needed: 64, actual: 10 })
    ));
    let mut bytes = frame(0, INTRA, 4096, 16, 16, [None, None, None]);
    bytes[0x24..0x28].copy_from_slice(&0x31u32.to_le_bytes());
    assert_eq!(
        decode_frame(&bytes).unwrap_err(),
        FrameDecodeError::PictureLayer(PictureLayerError::PlaneOutOfRange {
            plane_idx: PLANE_IDX_V,
            plane_offset: 0x31,
            available: 64,
        })
    );
    let bytes = frame(0, INTRA, 4096, 16, 16, [Some(&[9, 0, 0, 0]), None, None]);
    assert_eq!(
        decode_frame(&bytes).unwrap_err(),
        FrameDecodeError::PictureLayer(PictureLayerError::VectorsOutOfRange {
            plane_idx: PLANE_IDX_Y,
            num_vectors: 9,
            available: 68,
        })
    );
    let tree = |payload: &[u8]| match decode_frame(&luma_frame(0, INTRA, payload)).unwrap_err() {
        FrameDecodeError::PlaneTree { plane_idx, source } => {
            assert_eq!(plane_idx, PLANE_IDX_Y);
            source
        }
        other => panic!("unexpected {other:?}"),
    };
    assert_eq!(tree(&[]), MacroblockError::StreamExhausted);
    assert_eq!(tree(&[0b0000_0010, 0xa0]), MacroblockError::UnderFourNode);
    assert_eq!(
        tree(&[0xc0, 4]),
        MacroblockError::BadVectorIndex { index: 4, num_vectors: 0 }
    );
}

#[test]
fn frame_error_messages_nest() {
    let e = FrameDecodeError::PlaneTree {
        plane_idx: 2,
        source: MacroblockError::BadVectorIndex { index: 4, num_vectors: 1 },
    };
    assert_eq!(
        DecoderError::from(e).message(),
        "indeo3 decoder: indeo3 frame: plane 2 tree walk: vector index 4 of a plane with 1 vector(s)"
    );
    assert_eq!(
        FrameDecodeError::PlanePlanUnavailable { plane_idx: 1 }.message(),
        "indeo3 frame: plane 1 has no decode plan"
    );
    assert_eq!(
        FrameDecodeError::from(HeaderError::UnsupportedDecVersion { got: 0x12 }).message(),
        "indeo3 frame: header: unsupported dec_version 0x0012 (only 0x0020 is accepted)"
    );
    assert_eq!(
        YuvError::from(AssembleError::StripCountMismatch { plane_idx: 0, expected: 2, supplied: 1 })
            .message(),
        "indeo3 yuv: indeo3 assemble: plane 0 needs 2 strips, got 1"
    );
    assert_eq!(
        FrameReconstructError {
            plane_idx: 1,
            source: PlaneExecError::MarkEdge { unit_index: 3, source: MarkEdgeError::ZeroWidth },
        }
        .message(),
        format!("indeo3 frame-reconstruct: plane 1: unit 3: {}", MarkEdgeError::ZeroWidth.message())
    );
}

#[test]
fn null_leaves_are_reconstructed_and_others_deferred() {
    let decoded = decode_frame(&luma_frame(0, INTRA, &[COPY])).unwrap();
    let r = reconstruct_frame(&decoded).unwrap();
    assert_eq!(r.stats.planes, 1);
    assert_eq!(r.stats.copy_units, 1);
    assert_eq!(r.stats.bytes_written, 256);
    assert!(r.stats.is_fully_reconstructed());
    assert!(r.planes[0].strip.iter().all(|b| *b == 0));

    let decoded = decode_frame(&luma_frame(0, INTRA, &[SKIP])).unwrap();
    let r = reconstruct_frame(&decoded).unwrap();
    assert_eq!(r.stats.skip_units, 1);
    assert_eq!(r.planes[0].strip[15], 0x80);
    assert_eq!(r.planes[0].strip[16], 0);
    assert_eq!(r.planes[0].strip[15 * 0xb0], 0x80);
    assert_eq!(r.to_output_frame().planes[0].pixels, vec![0; 256]);

    // 01 | 10 10 00 | 00 | 10 11 <mode> | 10 10 01
    let payload = [0b0110_1000, 0b0010_1110, 0x55, 0b1001_0000];
    let decoded = decode_frame(&luma_frame(0, INTRA, &payload)).unwrap();
    let r = reconstruct_frame(&decoded).unwrap();
    assert_eq!(r.stats.reconstructed(), 2);
    assert_eq!(r.stats.deferred(), 1);
    assert_eq!(r.stats.total(), 3);
    let frontier = r.planes[0].frontier.unwrap();
    assert_eq!(frontier.unit_index, 1);
    assert_eq!(frontier.entry.disposition, CellDisposition::VqData);
}

#[test]
fn copies_take_the_row_above() {
    let rect = |y| NodeRect { x: 4, y, w: 8, h: 4 };
    let plan = PlaneReconstructPlan {
        plane_idx: 0,
        plane_width: 16,
        plane_height: 16,
        entries: vec![
            CellPlanEntry { rect: rect(0), disposition: CellDisposition::VqNullSkip },
            CellPlanEntry { rect: rect(4), disposition: CellDisposition::VqNullCopy },
        ],
    };
    let r = exec_plane_plan(&plan).unwrap();
    for y in 0..16 {
        for x in 0..16 {
            let inside = (4..12).contains(&x) && y < 8;
            assert_eq!(r.strip[y * 0xb0 + x], if inside { 0x80 } else { 0 });
        }
    }
}

#[test]
fn cells_past_the_buffer_are_errors() {
    let plan = |disposition| PlaneReconstructPlan {
        plane_idx: 0,
        plane_width: 320,
        plane_height: 4,
        entries: vec![CellPlanEntry {
            rect: NodeRect { x: 176, y: 0, w: 8, h: 4 },
            disposition,
        }],
    };
    assert_eq!(
        exec_plane_plan(&plan(CellDisposition::VqNullCopy)).unwrap_err(),
        PlaneExecError::CopyUpper {
            unit_index: 0,
            source: CopyUpperError::OutOfBounds { end: 5 * 0xb0 + 4, buffer_len: 5 * 0xb0 },
        }
    );
    assert_eq!(
        exec_plane_plan(&plan(CellDisposition::VqNullSkip)).unwrap_err(),
        PlaneExecError::MarkEdge {
            unit_index: 0,
            source: MarkEdgeError::OutOfBounds { end: 5 * 0xb0 + 8, buffer_len: 5 * 0xb0 },
        }
    );
}

#[test]
fn null_frames_show_the_held_picture_again() {
    let mut d = Indeo3Decoder::new();
    d.decode(&luma_frame(0, INTRA, &[SKIP])).unwrap();
    let held = d.previous_frame().cloned().unwrap();
    assert_eq!(held.planes[0].strip[0], 0x80);
    for number in [1, 7] {
        let null = frame(number, 0, NULL_FRAME_DATA_SIZE_BITS, 16, 16, [None, None, None]);
        let out = d.decode(&null).unwrap();
        assert!(out.repeated_previous);
        assert_eq!(*out.frame, held);
    }
}

#[test]
fn rejected_frames_leave_the_decoder_as_it_was() {
    let mut d = Indeo3Decoder::new();
    assert!(matches!(
        d.decode(&luma_frame(0, INTRA, &[])).unwrap_err(),
        DecoderError::Decode(FrameDecodeError::PlaneTree { .. })
    ));
    assert!(d.is_empty());
    assert!(d.previous_frame().is_none());
    d.decode(&luma_frame(0, INTRA, &[SKIP])).unwrap();
    let held = d.previous_frame().cloned();
    assert!(d.decode(&luma_frame(1, 0, &[])).is_err());
    assert_eq!(d.previous_frame().cloned(), held);
    let out = d.decode(&luma_frame(1, 0, &[COPY])).unwrap();
    assert_eq!(out.admission.admission, FrameAdmission::Sequential);
    assert!(matches!(
        d.decode(&[0u8; 3]).unwrap_err(),
        DecoderError::Session(SessionError::Header(HeaderError::BufferTooShort { .. }))
    ));
}

#[test]
fn a_plane_wider_than_its_buffer_is_a_reconstruct_error() {
    let mut d = Indeo3Decoder::new();
    // 01 splits 320 columns; the left half is copied, the right one too.
    let y = plane(&[0b0110_1000, 0b1010_0000]);
    let bytes = frame(0, INTRA, 4096, 320, 4, [Some(&y), None, None]);
    assert!(matches!(
        d.decode(&bytes).unwrap_err(),
        DecoderError::Reconstruct(FrameReconstructError { plane_idx: PLANE_IDX_Y, .. })
    ));
    assert!(d.is_empty());
}

#[test]
fn planes_are_decoded_u_v_y_and_put_out_y_v_u() {
    let p = plane(&[COPY]);
    let bytes = frame(0, INTRA, 4096, 16, 16, [Some(&p), Some(&p), Some(&p)]);
    let decoded = decode_frame(&bytes).unwrap();
    let order: Vec<usize> = decoded.planes.iter().map(|p| p.plane_idx).collect();
    assert_eq!(order, vec![PLANE_IDX_U, PLANE_IDX_V, PLANE_IDX_Y]);
    let sets = allocate_strip_buffers(&decoded);
    let out = assemble_output(&decoded, &sets).unwrap();
    let order: Vec<usize> = out.planes.iter().map(|p| p.plane_idx).collect();
    assert_eq!(order, vec![PLANE_IDX_Y, PLANE_IDX_V, PLANE_IDX_U]);
    assert_eq!((out.planes[1].width, out.planes[1].height), (4, 4));
    let yuv = assemble_yuv(&decoded, &sets).unwrap();
    assert!(yuv.planes.iter().all(|p| p.pixels == vec![0; 256]));

    let mut short = sets.clone();
    short[1].1[0].pop();
    assert!(matches!(
        assemble_output(&decoded, &short).unwrap_err(),
        AssembleError::PlaneAssembly {
            plane_idx: PLANE_IDX_V,
            source: PlaneAssembleError::StripBufferTooShort { .. },
        }
    ));
    short[0].1.clear();
    assert_eq!(
        assemble_yuv(&decoded, &short).unwrap_err(),
        YuvError::Assemble(AssembleError::StripCountMismatch {
            plane_idx: PLANE_IDX_Y,
            expected: 1,
            supplied: 0,
        })
    );
}

#[test]
fn every_upsample_error_has_an_input() {
    let mut dst = vec![7u8; 64];
    let run = |src: &[u8], w, h, ss, dst: &mut [u8], ds| upsample_chroma_4x4(src, w, h, ss, dst, ds);
    assert_eq!(
        run(&[1, 2], 2, 1, 1, &mut dst, 8),
        Err(ChromaUpsampleError::SrcStrideTooNarrow { width: 2, src_stride: 1 })
    );
    assert_eq!(
        run(&[1], 2, 1, 2, &mut dst, 8),
        Err(ChromaUpsampleError::SrcBufferTooShort { required: 2, supplied: 1 })
    );
    assert_eq!(
        run(&[1, 2], 2, 1, 2, &mut dst, 7),
        Err(ChromaUpsampleError::DstStrideTooNarrow { width: 8, dst_stride: 7 })
    );
    assert_eq!(
        run(&[1, 2], 2, 1, 2, &mut dst[..31], 8),
        Err(ChromaUpsampleError::DstBufferTooShort { required: 32, supplied: 31 })
    );
    assert!(dst.iter().all(|b| *b == 7));
    assert_eq!(run(&[1, 2], 2, 1, 2, &mut dst, 10), Ok(32));
    assert_eq!(&dst[..10], &[1, 1, 1, 1, 2, 2, 2, 2, 7, 7]);
    assert_eq!(&dst[30..40], &[1, 1, 1, 1, 2, 2, 2, 2, 7, 7]);
    assert!(dst[40..].iter().all(|b| *b == 7));

    let short = OutputFrame {
        planes: vec![OutputPlane { plane_idx: PLANE_IDX_U, width: 2, height: 2, pixels: vec![1] }],
    };
    assert!(matches!(
        upsample_frame(&short).unwrap_err(),
        YuvError::ChromaUpsample {
            plane_idx: PLANE_IDX_U,
            source: ChromaUpsampleError::SrcBufferTooShort { required: 4, supplied: 1 },
        }
    ));
}

#[test]
fn dumps_skip_comments_and_bad_tokens() {
    assert_eq!(
        parse_hex_bytes("# 01 02\n  ff 0a\r\n\t# 03\n+7 zz 100 00ff -1 + 1F"),
        vec![0xff, 0x0a, 0x07, 0xff, 0x1f]
    );
    assert!(parse_hex_bytes("").is_empty());
    assert_eq!(parse_hex_bytes("1\u{a0}2\u{3000}3"), vec![1, 2, 3]);
    assert_eq!(
        CodebookSeedArea::load("01 02").unwrap_err(),
        SeedAreaError::Truncated { block_offset: 0 }
    );
}

#[test]
fn seed_pairs_wrap_at_the_least_value() {
    assert_eq!(SeedPair { a: -1, b: -128 }.value(), 0x7fff);
    assert_eq!(SeedPair { a: 0, b: -128 }.value(), -0x8000);
    assert_eq!(SeedPair { a: 127, b: 127 }.value(), 0x7f7f);
    assert_eq!(SeedPair { a: -1, b: -128 }.seeded_word(), 0xffff_0000);
    assert_eq!(SeedPair { a: 0, b: -128 }.replicated_word(), 0x7f80_0000);
    let block = SeedBlock { offset: 0, count: 0, pairs: vec![], expand: -128 };
    assert_eq!(block.expand_dim(), 128);
    assert_eq!(SeedBlock { expand: 13, ..block }.expand_dim(), 13);
}

#[test]
fn seed_blocks_lie_end_to_end() {
    let raw = vec![1, 2, 3, 4, 2, 5, 6, 7, 8, 9, 0, 0xaa, 0xbb];
    let area = CodebookSeedArea::from_bytes(raw.clone()).unwrap();
    let mut at = 0;
    for b in area.blocks() {
        assert_eq!(b.offset, at);
        at += b.encoded_len();
    }
    assert_eq!(area.terminator_offset(), at);
    let cut = CodebookSeedArea::from_bytes(raw[..11].to_vec()).unwrap();
    assert_eq!(cut.blocks(), area.blocks());
    assert_eq!(
        SeedAreaError::Truncated { block_offset: 12 }.message(),
        "spec/04 §5.2.1: seed block at offset 12 runs past the buffer"
    );
}

#[test]
fn buffers_are_cut_at_their_length_prefixes() {
    let data = [3, 0, 1, 2, 3, 0, 0, 9, 0, 4, 5];
    let frames = cut_frames(&data, 8192, 6);
    assert_eq!(frames, vec![&[1u8, 2, 3][..], &[][..], &[4, 5][..]]);
    assert_eq!(cut_frames(&data, 8192, 1), vec![&[1u8, 2, 3][..]]);
    assert_eq!(cut_frames(&[2, 0x10, 1, 2, 3], 4096, 6), vec![&[1u8, 2][..]]);
    assert!(cut_frames(&[1], 8192, 6).is_empty());
}
