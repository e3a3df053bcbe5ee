//! What the bytes of a codec frame mean: the fields of its header, the
//! order and sizes of its planes, and how a sequence of frames is
//! admitted.
use super::bank_select::Bank;
use super::decoder::{decode_error, DecoderError};
use super::frame::{
    cell_counts, coded_planes, frame_fault, plane_cells, tree_fault, DecodedFrame, FrameDecodeError,
};
use super::frame_finalise::{DecodeReturn, FrameContinuity, FrameFinalisation};
use super::frame_reconstruct::{input_units, reconstruct_fault};
use super::frame_session::{admission, saved_after, AdmittedFrame, FrameAdmission, SessionError};
use super::header::{header_fault, header_is_determined, FrameHeader, HeaderError};
use super::macroblock::{plane_tree, CellModel};
use super::picture_layer::{picture_fault, plane_coded};
use vstd::prelude::*;

verus! {

/// Two bytes, the lower one first, as a number.
pub open spec fn two_bytes(s: Seq<u8>, i: int) -> int {
    s[i] + 256 * s[i + 1]
}

/// Four bytes, the lowest one first, as a number.
pub open spec fn four_bytes(s: Seq<u8>, i: int) -> int {
    two_bytes(s, i) + 65536 * two_bytes(s, i + 2)
}

/// The fields of a header stand at their offsets, least significant byte
/// first.
pub proof fn fields_stand_at_their_offsets(h: FrameHeader, s: Seq<u8>)
    requires
        h.describes(s),
        s.len() >= 64,
    ensures
        h.frame.frame_number == four_bytes(s, 0),
        h.frame.unknown1 == four_bytes(s, 4),
        h.frame.check_sum == four_bytes(s, 8),
        h.frame.frame_size == four_bytes(s, 12),
        h.bitstream.dec_version == two_bytes(s, 16),
        h.bitstream.frame_flags.0 == two_bytes(s, 18),
        h.bitstream.data_size == four_bytes(s, 20),
        h.bitstream.cb_offset == if s[24] < 128 {
            s[24] as int
        } else {
            s[24] - 256
        },
        h.bitstream.reserved1 == s[25],
        h.bitstream.checksum == two_bytes(s, 26),
        h.bitstream.height == two_bytes(s, 28),
        h.bitstream.width == two_bytes(s, 30),
        h.bitstream.y_offset == four_bytes(s, 32),
        h.bitstream.v_offset == four_bytes(s, 36),
        h.bitstream.u_offset == four_bytes(s, 40),
        h.bitstream.reserved2 == four_bytes(s, 44),
        forall|i: int| 0 <= i < 16 ==> #[trigger] h.bitstream.alt_quant@[i] == s[48 + i],
        h.bitstream.is_null() <==> four_bytes(s, 20) == 128,
{
}

/// A header is accepted exactly where it is whole, its checksum is the
/// exclusive or of its other three double words and `FRMH`, its frame is
/// larger than 16 bytes, its version is 32 and bit 1 of its flags is
/// clear; the first of these that fails is reported.
pub proof fn headers_are_checked_in_order(s: Seq<u8>)
    requires
        s.len() <= usize::MAX,
    ensures
        ({
            let sum = four_bytes(s, 0) as u32 ^ four_bytes(s, 4) as u32 ^ four_bytes(s, 12) as u32
                ^ 0x4652_4d48u32;
            let fault = header_fault(s);
            if s.len() < 64 {
                fault == Some(HeaderError::BufferTooShort { needed: 64, actual: s.len() as usize })
            } else if four_bytes(s, 8) != sum {
                fault == Some(
                    HeaderError::ChecksumMismatch { got: four_bytes(s, 8) as u32, expected: sum },
                )
            } else if four_bytes(s, 12) <= 16 {
                fault == Some(
                    HeaderError::FrameSizeTooSmall { frame_size: four_bytes(s, 12) as u32 },
                )
            } else if two_bytes(s, 16) != 32 {
                fault == Some(HeaderError::UnsupportedDecVersion { got: two_bytes(s, 16) as u16 })
            } else if s[18] as int / 2 % 2 == 1 {
                fault == Some(HeaderError::UnsupportedPixelFormat { flags: two_bytes(s, 18) as u16 })
            } else {
                fault is None
            }
        }),
{
    let flags = two_bytes(s, 18);
    assert(flags / 2 % 2 == s[18] as int / 2 % 2);
    assert(four_bytes(s, 0) == super::bytes::dword_at(s, 0));
    assert(four_bytes(s, 4) == super::bytes::dword_at(s, 4));
    assert(four_bytes(s, 12) == super::bytes::dword_at(s, 12));
}

/// A frame that decodes has the planes U, V and Y, in this order, without
/// those whose offset has its top bit set; a NULL frame has none. Each
/// has the cells of the trees in its payload, at its own size.
pub proof fn frames_have_their_coded_planes(f: DecodedFrame, s: Seq<u8>, selector: bool, k: int)
    requires
        f.describes(s, selector),
        s.len() >= 64,
        0 <= k < f.planes@.len(),
    ensures
        ({
            let p = f.planes@[k];
            let i = p.plane_idx as int;
            let offset = four_bytes(s, 32 + 4 * i);
            let base = 16 + offset;
            let count = four_bytes(s, base);
            let (w, h) = (two_bytes(s, 30), two_bytes(s, 28));
            &&& four_bytes(s, 20) != 128
            &&& 0 <= i < 3
            &&& offset < 0x8000_0000
            &&& k > 0 ==> p.plane_idx < f.planes@[k - 1].plane_idx
            &&& i == 0 ==> p.tree.plane_width == w && p.tree.plane_height == h
            &&& i > 0 ==> w <= 4 * p.tree.plane_width < w + 4 && h <= 4 * p.tree.plane_height < h
                + 4
            &&& p.plan.payload_offset == base + 4 + 2 * count
            &&& p.plan.num_vectors == count
            &&& ({
                let tree = plane_tree(
                    s.skip(base + 4 + 2 * count),
                    p.tree.plane_width,
                    p.tree.plane_height,
                    count,
                );
                &&& tree.error is None
                &&& super::macroblock::cell_models(p.tree.cells@) == tree.cells
            })
        }),
{
    let header = f.header;
    assert(f.planes@[k].describes(header, s, coded_planes(header, 2)[k], selector));
    reveal_with_fuel(coded_planes, 4);
    if k > 0 {
        assert(f.planes@[k - 1].describes(header, s, coded_planes(header, 2)[k - 1], selector));
    }
    assert(four_bytes(s, 32) == super::bytes::dword_at(s, 32));
    assert(four_bytes(s, 36) == super::bytes::dword_at(s, 36));
    assert(four_bytes(s, 40) == super::bytes::dword_at(s, 40));
    let i = f.planes@[k].plane_idx as int;
    assert(i == coded_planes(header, 2)[k]);
    assert(plane_coded(header, i));
}

/// Every plane whose offset has its top bit clear is among the planes of a
/// frame that is no NULL frame.
pub proof fn no_coded_plane_is_left_out(f: DecodedFrame, s: Seq<u8>, selector: bool, i: int)
    requires
        f.describes(s, selector),
        s.len() >= 64,
        0 <= i < 3,
        four_bytes(s, 20) != 128,
        four_bytes(s, 32 + 4 * i) < 0x8000_0000,
    ensures
        exists|k: int| 0 <= k < f.planes@.len() && (#[trigger] f.planes@[k]).plane_idx == i,
{
    let header = f.header;
    let order = coded_planes(header, 2);
    reveal_with_fuel(coded_planes, 4);
    assert(plane_coded(header, i));
    assert(order.contains(i)) by {
        if i == 2 {
            assert(order[0] == 2);
        } else if i == 1 {
            if plane_coded(header, 2) {
                assert(order[1] == 1);
            } else {
                assert(order[0] == 1);
            }
        } else {
            assert(order.last() == 0);
            assert(order[order.len() - 1] == 0);
        }
    }
    let k = choose|k: int| 0 <= k < order.len() && order[k] == i;
    assert(f.planes@[k].describes(header, s, order[k], selector));
}

/// The counts of a plane's cells: each further cell is an INTER cell, or
/// an INTRA cell with its coded and its NULL leaves.
pub proof fn cells_count_by_kind(cells: Seq<CellModel>, cell: CellModel)
    ensures
        ({
            let a = cell_counts(cells);
            let b = cell_counts(cells.push(cell));
            match cell {
                CellModel::Inter { rect, mv_index } => {
                    &&& b.inter == a.inter + 1
                    &&& b.intra == a.intra
                    &&& b.data == a.data
                    &&& b.null == a.null
                },
                CellModel::Intra { rect, vq_leaves } => {
                    &&& b.inter == a.inter
                    &&& b.intra == a.intra + 1
                    &&& b.data - a.data == vq_leaves.filter(
                        |v: super::macroblock::VqCell| v.leaf is Data,
                    ).len()
                    &&& b.data - a.data + b.null - a.null == vq_leaves.len()
                },
            }
        }),
{
    assert(cells.push(cell).drop_last() =~= cells);
    if let CellModel::Intra { rect, vq_leaves } = cell {
        lemma_data_leaves(vq_leaves);
    }
}

proof fn lemma_data_leaves(leaves: Seq<super::macroblock::VqCell>)
    ensures
        super::frame::vq_counts(leaves).0 == leaves.filter(
            |v: super::macroblock::VqCell| v.leaf is Data,
        ).len(),
        super::frame::vq_counts(leaves).0 + super::frame::vq_counts(leaves).1 == leaves.len(),
    decreases leaves.len(),
{
    let data = |v: super::macroblock::VqCell| v.leaf is Data;
    reveal(Seq::filter);
    if leaves.len() > 0 {
        lemma_data_leaves(leaves.drop_last());
    }
}

/// A frame fails with its header, else with its picture layer, else with
/// the trees of the first of U, V and Y that do not parse; otherwise it
/// decodes.
pub proof fn frames_fail_in_order(s: Seq<u8>, h: FrameHeader)
    requires
        h.describes(s),
    ensures
        ({
            let fault = frame_fault(s);
            let broken = |i: int| plane_coded(h, i) && plane_cells(h, s, i).error is Some;
            if header_fault(s) is Some {
                fault == Some(FrameDecodeError::Header(header_fault(s)->0))
            } else if picture_fault(h, s) is Some {
                fault == Some(FrameDecodeError::PictureLayer(picture_fault(h, s)->0))
            } else if broken(2) {
                fault == Some(
                    FrameDecodeError::PlaneTree {
                        plane_idx: 2,
                        source: plane_cells(h, s, 2).error->0,
                    },
                )
            } else if broken(1) {
                fault == Some(
                    FrameDecodeError::PlaneTree {
                        plane_idx: 1,
                        source: plane_cells(h, s, 1).error->0,
                    },
                )
            } else if broken(0) {
                fault == Some(
                    FrameDecodeError::PlaneTree {
                        plane_idx: 0,
                        source: plane_cells(h, s, 0).error->0,
                    },
                )
            } else {
                fault is None
            }
        }),
{
    header_is_determined(h, s);
    reveal_with_fuel(tree_fault, 4);
}

/// A session's first frame must be an INTRA picture: bit 2 of its flags is
/// set and its data size is not 128. It reads the bank of its own bit 9.
/// A rejected frame leaves the session without a baseline.
pub proof fn first_frames_must_be_intra(s: Seq<u8>)
    requires
        header_fault(s) is None,
    ensures
        ({
            let flags = two_bytes(s, 18);
            if four_bytes(s, 20) == 128 || flags / 4 % 2 == 0 {
                &&& admission(None, s) == Err::<AdmittedFrame, SessionError>(
                    SessionError::FirstFrameNotIntra { frame_flags: flags as u16 },
                )
                &&& saved_after(None, s) is None
            } else {
                &&& admission(None, s) matches Ok(a)
                &&& a.admission == FrameAdmission::FirstFrame
                &&& a.frame_number == four_bytes(s, 0)
                &&& a.continuity is None
                &&& a.return_value == DecodeReturn::Success
                &&& a.read_bank == if flags / 512 % 2 == 1 {
                    Bank::Secondary
                } else {
                    Bank::Primary
                }
                &&& saved_after(None, s) matches Some(f)
                &&& f.saved_flags.flags.0 == flags
                &&& f.saved_frame_number.frame_number == four_bytes(s, 0)
            }
        }),
{
    assert(four_bytes(s, 0) == super::bytes::dword_at(s, 0));
    assert(four_bytes(s, 20) == super::bytes::dword_at(s, 20));
}

/// A later frame: a NULL frame repeats the picture before; the next number
/// is sequential; any other number is a seek, which must be INTRA. It
/// reads the bank that bit 9 of the frame before selects. An admitted
/// frame is the next one's baseline; a rejected one changes nothing.
pub proof fn later_frames_follow_their_number(f: FrameFinalisation, s: Seq<u8>)
    requires
        header_fault(s) is None,
    ensures
        ({
            let flags = two_bytes(s, 18);
            let number = four_bytes(s, 0);
            let null = four_bytes(s, 20) == 128;
            let last = f.saved_frame_number.frame_number;
            let next = number == last + 1 || (last == 0xffff_ffff && number == 0);
            let result = admission(Some(f), s);
            if !null && !next && flags / 4 % 2 == 0 {
                &&& result == Err::<AdmittedFrame, SessionError>(
                    SessionError::SeekNotIntra {
                        saved_frame_number: last,
                        incoming_frame_number: number as u32,
                        frame_flags: flags as u16,
                    },
                )
                &&& saved_after(Some(f), s) == Some(f)
            } else {
                &&& result matches Ok(a)
                &&& null ==> a.admission == FrameAdmission::NullRepeat && a.return_value
                    == DecodeReturn::RepeatPrevious
                &&& !null ==> a.return_value == DecodeReturn::Success
                &&& !null && next ==> a.admission == FrameAdmission::Sequential
                &&& !null && !next ==> a.admission == FrameAdmission::Seek
                &&& a.frame_number == number
                &&& a.continuity == Some(
                    if next {
                        FrameContinuity::Sequential
                    } else {
                        FrameContinuity::Discontinuous
                    },
                )
                &&& a.read_bank == if f.saved_flags.flags.0 as int / 512 % 2 == 1 {
                    Bank::Secondary
                } else {
                    Bank::Primary
                }
                &&& saved_after(Some(f), s) matches Some(g)
                &&& g.saved_flags.flags.0 == flags
                &&& g.saved_frame_number.frame_number == number
            }
        }),
{
    assert(four_bytes(s, 0) == super::bytes::dword_at(s, 0));
    assert(four_bytes(s, 20) == super::bytes::dword_at(s, 20));
}

/// A frame with a bad header is rejected by every session.
pub proof fn bad_headers_are_rejected(saved: Option<FrameFinalisation>, s: Seq<u8>)
    requires
        header_fault(s) is Some,
    ensures
        admission(saved, s) == Err::<AdmittedFrame, SessionError>(
            SessionError::Header(header_fault(s)->0),
        ),
        saved_after(saved, s) == saved,
{
}

/// A decoder fails with its session, else, on a frame that carries a
/// picture, with the frame's decode or its reconstruction. A NULL frame
/// that is admitted always shows the picture before.
pub proof fn decoders_fail_in_order(saved: Option<FrameFinalisation>, s: Seq<u8>)
    ensures
        match admission(saved, s) {
            Err(e) => decode_error(saved, s) == Some(DecoderError::Session(e)),
            Ok(a) => if four_bytes(s, 20) == 128 {
                decode_error(saved, s) is None
            } else if frame_fault(s) is Some {
                decode_error(saved, s) == Some(DecoderError::Decode(frame_fault(s)->0))
            } else {
                decode_error(saved, s) == match reconstruct_fault(input_units(s), 0) {
                    Some(e) => Some(DecoderError::Reconstruct(e)),
                    None => None,
                }
            },
        },
{
    assert(four_bytes(s, 20) == super::bytes::dword_at(s, 20));
}

} // verus!
