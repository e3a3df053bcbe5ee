//! When an output is refused and why, how planes are found by their
//! index, and which buffers a frame asks for.
use super::frame::{first_plane, DecodedFrame, DecodedPlane, ReconstructionStatus};
use super::frame_assemble::{
    first_output, plane_geometry, raster_row, zero_strips, zeroed_sets, OutputPlane,
};
use super::frame_output::{
    assembled, assembly, upsample_fault, upsampled, with_strip, AssembleEnd, ChromaUpsampleError,
    PlaneAssembleError,
};
use super::frame_reconstruct::{
    decoded_units, first_reconstructed, reconstruct_fault, FrameReconstructError, PlaneUnits,
    ReconstructedFrame,
};
use super::frame_yuv::{first_yuv, YuvPlane};
use super::macroblock::cell_models;
use super::plane_execute::{plane_execution, ReconstructedPlane};
use super::plane_reconstruct::entries_of;
use super::strip_context::StripGeometry;
use vstd::prelude::*;

verus! {

/// The bytes from the first sample of a `width` x `height` raster to its
/// last.
pub open spec fn span(width: int, height: int, stride: int) -> int {
    if width > 0 && height > 0 {
        stride * (height - 1) + width
    } else {
        0
    }
}

/// The widths of a plane's strips: all are full but the last.
pub open spec fn width_at(g: StripGeometry, k: int) -> int {
    if k == g.strip_count - 1 {
        g.last_strip_width as int
    } else {
        g.strip_width as int
    }
}

/// An assembly is refused, with nothing written, where the number of
/// strips is not that of the plane, then where their widths do not add up
/// to the plane's, then where a row of the output is too narrow, then
/// where the output is too short.
pub proof fn layouts_are_refused_in_order(
    dst: Seq<u8>,
    g: StripGeometry,
    strips: Seq<Seq<u8>>,
    stride: int,
)
    requires
        0 <= stride <= usize::MAX,
        g.strip_count > 0,
    ensures
        ({
            let end = assembly(dst, g, strips, stride);
            let sum = (g.strip_count - 1) * g.strip_width + g.last_strip_width;
            let needed = span(g.plane_width as int, g.plane_height as int, stride);
            let refused = |e: PlaneAssembleError|
                end.error == Some(e) && end.dst == dst && end.written == 0;
            if strips.len() != g.strip_count {
                refused(
                    PlaneAssembleError::StripCountMismatch {
                        expected: g.strip_count,
                        supplied: strips.len() as usize,
                    },
                )
            } else if sum != g.plane_width {
                refused(
                    PlaneAssembleError::StripWidthSumMismatch {
                        plane_width: g.plane_width,
                        widths_total: sum as u32,
                    },
                )
            } else if stride < g.plane_width {
                refused(
                    PlaneAssembleError::DstStrideTooNarrow {
                        plane_width: g.plane_width,
                        dst_stride: stride as usize,
                    },
                )
            } else if dst.len() < needed {
                refused(
                    PlaneAssembleError::DstBufferTooShort {
                        required: needed as usize,
                        supplied: dst.len() as usize,
                    },
                )
            } else {
                end == assembled(dst, g, strips, stride, 0, 0, 0)
            }
        }),
{
    assert((g.plane_height - 1) * stride == stride * (g.plane_height - 1)) by (nonlinear_arith);
}

/// The strips are taken from the first one on. A strip wider than 176
/// pixels, and then one whose buffer ends before its last sample in
/// 176-byte rows, ends the assembly with what was written before; all
/// others count their samples.
pub proof fn strips_are_refused_in_order(
    dst: Seq<u8>,
    g: StripGeometry,
    strips: Seq<Seq<u8>>,
    stride: int,
    k: int,
    x0: int,
    written: int,
)
    requires
        0 <= k < g.strip_count,
        strips.len() == g.strip_count,
    ensures
        ({
            let w = width_at(g, k);
            let needed = span(w, g.plane_height as int, 176);
            let end = assembled(dst, g, strips, stride, k, x0, written);
            if w > 176 {
                &&& end.error == Some(
                    PlaneAssembleError::StripWidthExceedsRowStride {
                        strip_index: k as usize,
                        strip_width: w as u32,
                    },
                )
                &&& end.dst == dst
                &&& end.written == written
            } else if strips[k].len() < needed {
                &&& end.error == Some(
                    PlaneAssembleError::StripBufferTooShort {
                        strip_index: k as usize,
                        required: needed as usize,
                        supplied: strips[k].len() as usize,
                    },
                )
                &&& end.dst == dst
                &&& end.written == written
            } else {
                end == assembled(
                    with_strip(dst, strips[k], x0, w, g.plane_height as int, stride),
                    g,
                    strips,
                    stride,
                    k + 1,
                    x0 + w,
                    written + w * g.plane_height,
                )
            }
        }),
        assembled(dst, g, strips, stride, g.strip_count as int, x0, written) == (AssembleEnd {
            dst,
            written,
            error: None,
        }),
{
    assert(width_at(g, k) == g.width_of(k));
}

/// A strip written at column `x0` of an output raster: its sample in row
/// `y` and column `c` goes to column `x0 + c` of row `y`, doubled and
/// without its top bit; the other columns stay.
pub proof fn strips_are_written_at_their_column(
    dst: Seq<u8>,
    strip: Seq<u8>,
    x0: int,
    width: int,
    height: int,
    stride: int,
    y: int,
    x: int,
)
    requires
        0 <= y,
        0 <= x < stride,
        y * stride + x < dst.len(),
    ensures
        with_strip(dst, strip, x0, width, height, stride).len() == dst.len(),
        with_strip(dst, strip, x0, width, height, stride)[y * stride + x] == if y < height && x0 <= x
            < x0 + width {
            strip[176 * y + (x - x0)] % 128 * 2
        } else {
            dst[y * stride + x] as int
        },
{
    vstd::arithmetic::div_mod::lemma_fundamental_div_mod_converse(y * stride + x, stride, y, x);
    assert(y * stride >= 0) by (nonlinear_arith)
        requires
            y >= 0,
            stride > 0,
    ;
}

/// An upsampling is refused where a row of the source is too narrow, then
/// where the source is too short, then where a row of the output, four
/// times as wide, is too narrow, then where the output, four times as
/// high, is too short; and nowhere else.
pub proof fn upsamplings_are_refused_in_order(
    src: int,
    width: u32,
    height: u32,
    src_stride: int,
    dst: int,
    dst_stride: int,
)
    ensures
        ({
            let fault = upsample_fault(src, width, height, src_stride, dst, dst_stride);
            let from = span(width as int, height as int, src_stride);
            let to = span(4 * width, 4 * height, dst_stride);
            if src_stride < width {
                fault == Some(
                    ChromaUpsampleError::SrcStrideTooNarrow {
                        width,
                        src_stride: src_stride as usize,
                    },
                )
            } else if src < from {
                fault == Some(
                    ChromaUpsampleError::SrcBufferTooShort {
                        required: from as usize,
                        supplied: src as usize,
                    },
                )
            } else if dst_stride < 4 * width {
                fault == Some(
                    ChromaUpsampleError::DstStrideTooNarrow {
                        width: (4 * width) as usize,
                        dst_stride: dst_stride as usize,
                    },
                )
            } else if dst < to {
                fault == Some(
                    ChromaUpsampleError::DstBufferTooShort {
                        required: to as usize,
                        supplied: dst as usize,
                    },
                )
            } else {
                fault is None
            }
        }),
{
    assert((height - 1) * src_stride == src_stride * (height - 1)) by (nonlinear_arith);
    assert((4 * height - 1) * dst_stride == dst_stride * (4 * height - 1)) by (nonlinear_arith);
    assert(width * 4 == 4 * width && height * 4 == 4 * height);
}

/// An upsampled raster has every sample in a block of four by four, and
/// keeps the bytes outside the blocks.
pub proof fn upsampled_samples_fill_their_blocks(
    src: Seq<u8>,
    width: int,
    height: int,
    src_stride: int,
    dst: Seq<u8>,
    dst_stride: int,
    y: int,
    x: int,
)
    requires
        0 <= y,
        0 <= x < dst_stride,
        y * dst_stride + x < dst.len(),
    ensures
        upsampled(src, width, height, src_stride, dst, dst_stride).len() == dst.len(),
        upsampled(src, width, height, src_stride, dst, dst_stride)[y * dst_stride + x] == if y < 4
            * height && x < 4 * width {
            src[y / 4 * src_stride + x / 4]
        } else {
            dst[y * dst_stride + x]
        },
{
    vstd::arithmetic::div_mod::lemma_fundamental_div_mod_converse(
        y * dst_stride + x,
        dst_stride,
        y,
        x,
    );
    assert(y * dst_stride >= 0) by (nonlinear_arith)
        requires
            y >= 0,
            dst_stride > 0,
    ;
}

/// A row of a raster is its `width` pixels from `y * width` on.
pub proof fn rows_are_cut_from_their_raster(pixels: Seq<u8>, width: int, y: int, x: int)
    requires
        0 <= y,
        0 <= x < width,
        (y + 1) * width <= pixels.len(),
    ensures
        raster_row(pixels, width, y).len() == width,
        raster_row(pixels, width, y)[x] == pixels[y * width + x],
{
    assert((y + 1) * width == y * width + width && y * width >= 0) by (nonlinear_arith)
        requires
            y >= 0,
            width > 0,
    ;
}

/// The decoded plane of an index is the first one that carries it.
pub proof fn decoded_planes_are_found_by_index(
    planes: Seq<DecodedPlane>,
    idx: usize,
    from: int,
    j: int,
)
    requires
        0 <= from,
    ensures
        match first_plane(planes, idx, from) {
            Some(k) => {
                &&& from <= k < planes.len()
                &&& planes[k].plane_idx == idx
                &&& from <= j < k ==> planes[j].plane_idx != idx
            },
            None => from <= j < planes.len() ==> planes[j].plane_idx != idx,
        },
        from == 0 ==> plane_geometry(planes, idx as int) == match first_plane(planes, idx, 0) {
            Some(k) => Some(planes[k].plan.geometry),
            None => None,
        },
    decreases planes.len() - from,
{
    if from < planes.len() {
        decoded_planes_are_found_by_index(planes, idx, from + 1, j);
    }
}

/// The output plane of an index is the first one that carries it.
pub proof fn output_planes_are_found_by_index(
    planes: Seq<OutputPlane>,
    idx: usize,
    from: int,
    j: int,
)
    requires
        0 <= from,
    ensures
        match first_output(planes, idx, from) {
            Some(k) => {
                &&& from <= k < planes.len()
                &&& planes[k].plane_idx == idx
                &&& from <= j < k ==> planes[j].plane_idx != idx
            },
            None => from <= j < planes.len() ==> planes[j].plane_idx != idx,
        },
    decreases planes.len() - from,
{
    if from < planes.len() {
        output_planes_are_found_by_index(planes, idx, from + 1, j);
    }
}

/// The full-resolution plane of an index is the first one that carries
/// it.
pub proof fn yuv_planes_are_found_by_index(planes: Seq<YuvPlane>, idx: usize, from: int, j: int)
    requires
        0 <= from,
    ensures
        match first_yuv(planes, idx, from) {
            Some(k) => {
                &&& from <= k < planes.len()
                &&& planes[k].plane_idx == idx
                &&& from <= j < k ==> planes[j].plane_idx != idx
            },
            None => from <= j < planes.len() ==> planes[j].plane_idx != idx,
        },
    decreases planes.len() - from,
{
    if from < planes.len() {
        yuv_planes_are_found_by_index(planes, idx, from + 1, j);
    }
}

/// The reconstructed plane of an index is the first one that carries it.
pub proof fn reconstructed_planes_are_found_by_index(
    planes: Seq<ReconstructedPlane>,
    idx: usize,
    from: int,
    j: int,
)
    requires
        0 <= from,
    ensures
        match first_reconstructed(planes, idx, from) {
            Some(k) => {
                &&& from <= k < planes.len()
                &&& planes[k].plane_idx == idx
                &&& from <= j < k ==> planes[j].plane_idx != idx
            },
            None => from <= j < planes.len() ==> planes[j].plane_idx != idx,
        },
    decreases planes.len() - from,
{
    if from < planes.len() {
        reconstructed_planes_are_found_by_index(planes, idx, from + 1, j);
    }
}

/// The blank buffers of a frame: one set for each of Y, V and U, in this
/// order, that the frame has, with a buffer for every strip that ends
/// with the strip's last sample in 176-byte rows, all zeros.
pub proof fn blank_buffers_fit_their_strips(
    planes: Seq<DecodedPlane>,
    g: StripGeometry,
    i: int,
    k: int,
    j: int,
)
    requires
        0 <= i <= 3,
        0 <= k < g.strip_count,
    ensures
        i == 3 ==> zeroed_sets(planes, i).len() == 0,
        i < 3 ==> match plane_geometry(planes, i) {
            Some(h) => {
                let sets = zeroed_sets(planes, i);
                &&& sets.len() > 0
                &&& sets[0].0 == i
                &&& sets[0].1 == zero_strips(h)
                &&& sets.skip(1) == zeroed_sets(planes, i + 1)
            },
            None => zeroed_sets(planes, i) == zeroed_sets(planes, i + 1),
        },
        zero_strips(g).len() == g.strip_count,
        zero_strips(g)[k].len() == span(width_at(g, k), g.plane_height as int, 176),
        0 <= j < zero_strips(g)[k].len() ==> zero_strips(g)[k][j] == 0,
{
    assert(width_at(g, k) == g.width_of(k));
    let rest = zeroed_sets(planes, i + 1);
    if i < 3 {
        match plane_geometry(planes, i) {
            Some(h) => {
                let all = seq![(i, zero_strips(h))] + rest;
                assert(all.skip(1) =~= rest);
            },
            None => {
                assert(Seq::<(int, Seq<Seq<u8>>)>::empty() + rest =~= rest);
            },
        }
    }
}

/// A reconstructed frame has one plane for each decoded plane, in the
/// same order: its index and size, and the result of its own cells.
pub proof fn frames_are_reconstructed_plane_by_plane(
    f: ReconstructedFrame,
    planes: Seq<DecodedPlane>,
    i: int,
)
    requires
        f.reconstructs(decoded_units(planes)),
        0 <= i < planes.len(),
    ensures
        ({
            let (p, d) = (f.planes@[i], planes[i]);
            let end = plane_execution(
                entries_of(cell_models(d.tree.cells@)),
                d.tree.plane_height as int,
            );
            &&& f.planes@.len() == planes.len()
            &&& p.plane_idx == d.plane_idx
            &&& p.plane_width == d.tree.plane_width
            &&& p.plane_height == d.tree.plane_height
            &&& end.error is None
            &&& p.stats == end.stats
            &&& p.frontier == end.frontier
            &&& p.strip@ == end.work.skip(176)
        }),
{
    assert(f.planes@[i].executes(
        entries_of(cell_models(planes[i].tree.cells@)),
        planes[i].plane_idx as int,
        planes[i].tree.plane_width as int,
        planes[i].tree.plane_height as int,
    ));
}

/// A frame that cannot be reconstructed fails with its first plane that
/// cannot.
pub proof fn the_first_failing_plane_is_reported(units: Seq<PlaneUnits>, i: int, j: int)
    requires
        0 <= i <= units.len(),
    ensures
        match reconstruct_fault(units, i) {
            None => i <= j < units.len() ==> plane_execution(
                units[j].entries,
                units[j].height,
            ).error is None,
            Some(e) => exists|k: int|
                i <= k < units.len() && plane_execution(
                    (#[trigger] units[k]).entries,
                    units[k].height,
                ).error == Some(e.source) && e.plane_idx == units[k].plane_idx as usize && (i <= j
                    < k ==> plane_execution(units[j].entries, units[j].height).error is None),
        },
    decreases units.len() - i,
{
    if i < units.len() {
        match plane_execution(units[i].entries, units[i].height).error {
            Some(source) => {
                assert(reconstruct_fault(units, i) == Some(
                    FrameReconstructError { plane_idx: units[i].plane_idx as usize, source },
                ));
            },
            None => {
                the_first_failing_plane_is_reported(units, i + 1, j);
            },
        }
    }
}

/// A NULL frame is one whose payload is 128 bits long; every other frame
/// has its structure decoded.
pub proof fn frames_say_whether_they_are_null(f: DecodedFrame, input: Seq<u8>, selector: bool)
    requires
        f.describes(input, selector),
    ensures
        ({
            let bits = input[20] + 256 * input[21] + 65536 * input[22] + 16777216 * input[23];
            &&& f.reconstruction_status == ReconstructionStatus::NullFrame <==> bits == 128
            &&& f.reconstruction_status == ReconstructionStatus::StructureComplete <==> bits != 128
            &&& bits == 128 ==> f.planes@.len() == 0
        }),
{
    reveal_with_fuel(super::frame::coded_planes, 4);
}

} // verus!
