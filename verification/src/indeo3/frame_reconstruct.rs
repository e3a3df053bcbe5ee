//! The reconstruction of a decoded frame, plane by plane. The planes are
//! independent of each other.
use super::frame::{coded_planes, lemma_units_are_few, plane_cells, DecodedFrame, DecodedPlane};
use super::frame_assemble::{output_models, zeroed, OutputFrame, OutputPlane, PlaneModel};
use super::frame_output::{upshift_7bit_to_8bit, upshifted};
use super::header::{header_in, header_is_determined};
use super::macroblock::cell_models;
use super::picture_layer::plane_extent;
use super::plane_execute::{
    exec_plane_plan, plane_execution, PlaneExecError, ReconstructedPlane, STRIP_ROW_STRIDE,
};
use super::plane_reconstruct::{
    classify_cell_tree, entries_are_the_leaves, entries_of, CellPlanEntry,
};
use super::text::{decimal, push_decimal};
use vstd::prelude::*;
use vstd::string::StringExecFns;

verus! {

/// How much of a frame was reconstructed.
#[derive(Debug, Clone, Copy, PartialEq, Eq, Structural)]
pub struct FrameReconstructStats {
    /// Planes reconstructed.
    pub planes: u64,
    /// Copy leaves reconstructed.
    pub copy_units: u64,
    /// Skip leaves reconstructed.
    pub skip_units: u64,
    /// Coded leaves deferred.
    pub vq_data_deferred: u64,
    /// INTER leaves deferred.
    pub inter_deferred: u64,
    /// Pixel bytes written.
    pub bytes_written: u64,
}

/// The totals of some planes.
pub ghost struct FrameTotals {
    pub planes: int,
    pub copy_units: int,
    pub skip_units: int,
    pub vq_data_deferred: int,
    pub inter_deferred: int,
    pub bytes_written: int,
}

/// The totals of some planes.
pub open spec fn totals(planes: Seq<ReconstructedPlane>) -> FrameTotals
    decreases planes.len(),
{
    if planes.len() == 0 {
        FrameTotals {
            planes: 0,
            copy_units: 0,
            skip_units: 0,
            vq_data_deferred: 0,
            inter_deferred: 0,
            bytes_written: 0,
        }
    } else {
        let t = totals(planes.drop_last());
        let s = planes.last().stats;
        FrameTotals {
            planes: t.planes + 1,
            copy_units: t.copy_units + s.copy_units,
            skip_units: t.skip_units + s.skip_units,
            vq_data_deferred: t.vq_data_deferred + s.vq_data_deferred,
            inter_deferred: t.inter_deferred + s.inter_deferred,
            bytes_written: t.bytes_written + s.bytes_written,
        }
    }
}

impl Default for FrameReconstructStats {
    fn default() -> (r: Self)
        ensures
            r.totals() == totals(Seq::empty()),
    {
        FrameReconstructStats {
            planes: 0,
            copy_units: 0,
            skip_units: 0,
            vq_data_deferred: 0,
            inter_deferred: 0,
            bytes_written: 0,
        }
    }
}

impl FrameReconstructStats {
    /// The totals.
    pub open spec fn totals(self) -> FrameTotals {
        FrameTotals {
            planes: self.planes as int,
            copy_units: self.copy_units as int,
            skip_units: self.skip_units as int,
            vq_data_deferred: self.vq_data_deferred as int,
            inter_deferred: self.inter_deferred as int,
            bytes_written: self.bytes_written as int,
        }
    }

    /// All leaves.
    pub open spec fn units(self) -> int {
        self.copy_units + self.skip_units + self.vq_data_deferred + self.inter_deferred
    }

    /// Leaves reconstructed.
    pub fn reconstructed(&self) -> (r: u64)
        requires
            self.copy_units + self.skip_units <= u64::MAX,
        ensures
            r == self.copy_units + self.skip_units,
    {
        self.copy_units + self.skip_units
    }

    /// Leaves deferred.
    pub fn deferred(&self) -> (r: u64)
        requires
            self.vq_data_deferred + self.inter_deferred <= u64::MAX,
        ensures
            r == self.vq_data_deferred + self.inter_deferred,
    {
        self.vq_data_deferred + self.inter_deferred
    }

    /// All leaves.
    pub fn total(&self) -> (r: u64)
        requires
            self.units() <= u64::MAX,
        ensures
            r == self.units(),
    {
        self.reconstructed() + self.deferred()
    }

    /// `true` if the frame has leaves and none of them was deferred.
    pub fn is_fully_reconstructed(&self) -> (r: bool)
        requires
            self.units() <= u64::MAX,
        ensures
            r == (self.vq_data_deferred == 0 && self.inter_deferred == 0 && self.units() > 0),
    {
        self.deferred() == 0 && self.total() > 0
    }
}

/// A reconstructed frame.
#[derive(Debug, Clone, PartialEq, Eq)]
pub struct ReconstructedFrame {
    /// The planes, in decode order (U, V, Y).
    pub planes: Vec<ReconstructedPlane>,
    /// How much was reconstructed.
    pub stats: FrameReconstructStats,
}

/// The first of some planes that has the given index.
pub open spec fn first_reconstructed(
    planes: Seq<ReconstructedPlane>,
    plane_idx: usize,
    from: int,
) -> Option<int>
    decreases planes.len() - from,
{
    if from >= planes.len() {
        None
    } else if planes[from].plane_idx == plane_idx {
        Some(from)
    } else {
        first_reconstructed(planes, plane_idx, from + 1)
    }
}

/// The output of a reconstructed plane: its visible bytes, upshifted; a
/// byte past the buffer's end is 0.
pub open spec fn upshifted_plane(p: ReconstructedPlane) -> PlaneModel {
    let w = p.plane_width as int;
    PlaneModel {
        plane_idx: p.plane_idx as int,
        width: w,
        height: p.plane_height as int,
        pixels: Seq::new(
            (w * p.plane_height) as nat,
            |j: int| visible_pixel(p.strip@, j / w, j % w),
        ),
    }
}

/// The output pixel of row `y` and column `x` of a pixel buffer.
pub open spec fn visible_pixel(strip: Seq<u8>, y: int, x: int) -> u8 {
    if y * 0xb0 + x < strip.len() {
        upshifted(strip[y * 0xb0 + x])
    } else {
        0
    }
}

/// The sizes of a plane's output fit.
pub open spec fn output_fits(p: ReconstructedPlane) -> bool {
    &&& p.plane_width * p.plane_height <= usize::MAX
    &&& p.plane_height * 0xb0 + p.plane_width <= usize::MAX
}

impl ReconstructedFrame {
    /// The plane of an index, if the frame has it.
    pub fn plane(&self, plane_idx: usize) -> (r: Option<&ReconstructedPlane>)
        ensures
            match r {
                Some(p) => first_reconstructed(self.planes@, plane_idx, 0) is Some && *p
                    == self.planes@[first_reconstructed(self.planes@, plane_idx, 0)->0],
                None => first_reconstructed(self.planes@, plane_idx, 0) is None,
            },
    {
        let n: usize = self.planes.len();
        let mut i: usize = 0;
        while i < n
            invariant
                i <= n,
                n == self.planes@.len(),
                first_reconstructed(self.planes@, plane_idx, 0) == first_reconstructed(
                    self.planes@,
                    plane_idx,
                    i as int,
                ),
            decreases n - i,
        {
            if self.planes[i].plane_idx == plane_idx {
                return Some(&self.planes[i]);
            }
            i = i + 1;
        }
        None
    }

    /// `true` if the frame has no planes.
    pub fn is_empty(&self) -> (r: bool)
        ensures
            r == (self.planes@.len() == 0),
    {
        self.planes.len() == 0
    }

    /// The output planes of the frame, in the order of its planes.
    pub fn to_output_frame(&self) -> (r: OutputFrame)
        requires
            forall|i: int| 0 <= i < self.planes@.len() ==> output_fits(#[trigger] self.planes@[i]),
        ensures
            output_models(r.planes@) == Seq::new(
                self.planes@.len(),
                |i: int| upshifted_plane(self.planes@[i]),
            ),
    {
        let n: usize = self.planes.len();
        let mut planes: Vec<OutputPlane> = Vec::new();
        let mut i: usize = 0;
        while i < n
            invariant
                i <= n,
                n == self.planes@.len(),
                forall|k: int|
                    0 <= k < self.planes@.len() ==> output_fits(#[trigger] self.planes@[k]),
                planes@.len() == i,
                forall|k: int|
                    0 <= k < i ==> (#[trigger] planes@[k])@ == upshifted_plane(self.planes@[k]),
            decreases n - i,
        {
            planes.push(upshift_plane(&self.planes[i]));
            i = i + 1;
        }
        assert(output_models(planes@) =~= Seq::new(
            self.planes@.len(),
            |k: int| upshifted_plane(self.planes@[k]),
        ));
        OutputFrame { planes }
    }
}

/// Upshift one reconstructed plane.
fn upshift_plane(plane: &ReconstructedPlane) -> (r: OutputPlane)
    requires
        output_fits(*plane),
    ensures
        r@ == upshifted_plane(*plane),
{
    let w: usize = plane.plane_width as usize;
    let h: usize = plane.plane_height as usize;
    let len: usize = plane.strip.len();
    proof {
        assert(0 <= w * h) by (nonlinear_arith)
            requires
                w >= 0,
                h >= 0,
        ;
    }
    let size: usize = w * h;
    let mut pixels: Vec<u8> = zeroed(size);
    let ghost target = upshifted_plane(*plane).pixels;
    let mut y: usize = 0;
    proof {
        assert(0 * w == 0) by (nonlinear_arith);
    }
    while y < h
        invariant
            y <= h,
            w == plane.plane_width,
            h == plane.plane_height,
            len == plane.strip@.len(),
            size == w * h,
            output_fits(*plane),
            pixels@.len() == size,
            target == upshifted_plane(*plane).pixels,
            forall|j: int| 0 <= j < y * w ==> #[trigger] pixels@[j] == target[j],
            forall|j: int| y * w <= j < size ==> #[trigger] pixels@[j] == 0,
        decreases h - y,
    {
        proof {
            assert((y + 1) * w == y * w + w && 0 <= y * w && (y + 1) * w <= w * h)
                by (nonlinear_arith)
                requires
                    0 <= y < h,
                    w >= 0,
            ;
        }
        let src: usize = y * STRIP_ROW_STRIDE;
        let dst: usize = y * w;
        let mut x: usize = 0;
        while x < w
            invariant
                x <= w,
                y < h,
                w == plane.plane_width,
                h == plane.plane_height,
                len == plane.strip@.len(),
                size == w * h,
                output_fits(*plane),
                src == y * 0xb0,
                dst == y * w,
                dst + w <= size,
                pixels@.len() == size,
                target == upshifted_plane(*plane).pixels,
                forall|j: int| 0 <= j < dst + x ==> #[trigger] pixels@[j] == target[j],
                forall|j: int| dst + x <= j < size ==> #[trigger] pixels@[j] == 0,
            decreases w - x,
        {
            proof {
                vstd::arithmetic::div_mod::lemma_fundamental_div_mod_converse(
                    dst + x,
                    w as int,
                    y as int,
                    x as int,
                );
            }
            if src + x < len {
                pixels[dst + x] = upshift_7bit_to_8bit(plane.strip[src + x]);
            }
            x = x + 1;
        }
        y = y + 1;
    }
    proof {
        assert(h * w == w * h) by (nonlinear_arith);
    }
    assert(pixels@ =~= target);
    OutputPlane {
        plane_idx: plane.plane_idx,
        width: plane.plane_width,
        height: plane.plane_height,
        pixels,
    }
}

/// A plane failure of a frame reconstruction.
#[derive(Debug, Clone, Copy, PartialEq, Eq, Structural)]
pub struct FrameReconstructError {
    /// Plane index.
    pub plane_idx: usize,
    /// The error of the plane.
    pub source: PlaneExecError,
}

impl FrameReconstructError {
    /// The message of the error.
    pub open spec fn text(self) -> Seq<char> {
        "indeo3 frame-reconstruct: plane "@ + decimal(self.plane_idx as int) + ": "@
            + self.source.text()
    }

    /// The message of the error.
    pub fn message(&self) -> (r: String)
        ensures
            r@ == self.text(),
    {
        let mut out = String::from_str("indeo3 frame-reconstruct: plane ");
        push_decimal(&mut out, self.plane_idx);
        out.append(": ");
        out.append(self.source.message().as_str());
        out
    }
}

/// The leaves of a plane and the plane's size.
pub ghost struct PlaneUnits {
    pub plane_idx: int,
    pub width: int,
    pub height: int,
    pub entries: Seq<CellPlanEntry>,
}

/// The leaves of a decoded plane.
pub open spec fn plane_units(p: DecodedPlane) -> PlaneUnits {
    PlaneUnits {
        plane_idx: p.plane_idx as int,
        width: p.tree.plane_width as int,
        height: p.tree.plane_height as int,
        entries: entries_of(cell_models(p.tree.cells@)),
    }
}

/// The leaves of decoded planes.
pub open spec fn decoded_units(planes: Seq<DecodedPlane>) -> Seq<PlaneUnits> {
    Seq::new(planes.len(), |i: int| plane_units(planes[i]))
}

/// The leaves of the planes of a codec frame, in decode order.
pub open spec fn input_units(input: Seq<u8>) -> Seq<PlaneUnits> {
    let header = header_in(input);
    let indices = coded_planes(header, 2);
    Seq::new(
        indices.len(),
        |k: int|
            PlaneUnits {
                plane_idx: indices[k],
                width: plane_extent(header.bitstream.width as int, indices[k]),
                height: plane_extent(header.bitstream.height as int, indices[k]),
                entries: entries_of(plane_cells(header, input, indices[k]).cells),
            },
    )
}

/// The decode of a codec frame has the frame's leaves.
pub proof fn lemma_decoded_units(frame: DecodedFrame, input: Seq<u8>, selector: bool)
    requires
        frame.describes(input, selector),
    ensures
        decoded_units(frame.planes@) == input_units(input),
{
    header_is_determined(frame.header, input);
    let header = frame.header;
    let indices = coded_planes(header, 2);
    assert forall|k: int| 0 <= k < indices.len() implies #[trigger] decoded_units(frame.planes@)[k]
        == input_units(input)[k] by {
        assert(frame.planes@[k].describes(header, input, indices[k], selector));
    }
    assert(decoded_units(frame.planes@) =~= input_units(input));
}

/// The error of the first plane from plane `i` on that cannot be
/// reconstructed.
pub open spec fn reconstruct_fault(units: Seq<PlaneUnits>, i: int) -> Option<FrameReconstructError>
    decreases units.len() - i,
{
    if i >= units.len() {
        None
    } else {
        match plane_execution(units[i].entries, units[i].height).error {
            Some(source) => Some(
                FrameReconstructError { plane_idx: units[i].plane_idx as usize, source },
            ),
            None => reconstruct_fault(units, i + 1),
        }
    }
}

impl ReconstructedFrame {
    /// The frame is what the execution of the leaves gives.
    pub open spec fn reconstructs(self, units: Seq<PlaneUnits>) -> bool {
        &&& self.planes@.len() == units.len()
        &&& forall|i: int|
            0 <= i < units.len() ==> (#[trigger] self.planes@[i]).executes(
                units[i].entries,
                units[i].plane_idx,
                units[i].width,
                units[i].height,
            )
        &&& self.stats.totals() == totals(self.planes@)
    }
}

/// Reconstruct every plane of a decoded frame.
pub fn reconstruct_frame(frame: &DecodedFrame) -> (r: Result<
    ReconstructedFrame,
    FrameReconstructError,
>)
    requires
        frame.sized(),
    ensures
        match r {
            Ok(f) => reconstruct_fault(decoded_units(frame.planes@), 0) is None && f.reconstructs(
                decoded_units(frame.planes@),
            ),
            Err(e) => reconstruct_fault(decoded_units(frame.planes@), 0) == Some(e),
        },
{
    let n: usize = frame.planes.len();
    let ghost units = decoded_units(frame.planes@);
    let mut planes: Vec<ReconstructedPlane> = Vec::new();
    let mut stats = FrameReconstructStats::default();
    let mut i: usize = 0;
    while i < n
        invariant
            i <= n <= 3,
            n == frame.planes@.len(),
            units == decoded_units(frame.planes@),
            frame.sized(),
            reconstruct_fault(units, 0) == reconstruct_fault(units, i as int),
            planes@.len() == i,
            forall|k: int|
                0 <= k < i ==> (#[trigger] planes@[k]).executes(
                    units[k].entries,
                    units[k].plane_idx,
                    units[k].width,
                    units[k].height,
                ),
            stats.totals() == totals(planes@),
            stats.planes == i,
            stats.units() <= i * 0x1_0000_0000,
            stats.bytes_written <= i * 0x1_0000_0000,
        decreases n - i,
    {
        let decoded = &frame.planes[i];
        let plan = classify_cell_tree(decoded.plane_idx, &decoded.tree);
        proof {
            assert(frame.planes@[i as int].sized());
            assert(units[i as int] == plane_units(*decoded));
            let cells = cell_models(decoded.tree.cells@);
            let (w, h) = (decoded.tree.plane_width as int, decoded.tree.plane_height as int);
            entries_are_the_leaves(cells, w, h);
            lemma_units_are_few(cells, w, h);
            assert(0 <= w * h <= 0xffff * 0xffff) by (nonlinear_arith)
                requires
                    0 <= w <= 0xffff,
                    0 <= h <= 0xffff,
            ;
        }
        let plane = match exec_plane_plan(&plan) {
            Ok(p) => p,
            Err(source) => {
                return Err(FrameReconstructError { plane_idx: decoded.plane_idx, source });
            },
        };
        stats.planes = stats.planes + 1;
        stats.copy_units = stats.copy_units + plane.stats.copy_units;
        stats.skip_units = stats.skip_units + plane.stats.skip_units;
        stats.vq_data_deferred = stats.vq_data_deferred + plane.stats.vq_data_deferred;
        stats.inter_deferred = stats.inter_deferred + plane.stats.inter_deferred;
        stats.bytes_written = stats.bytes_written + plane.stats.bytes_written;
        let ghost before = planes@;
        planes.push(plane);
        assert(planes@.drop_last() =~= before);
        i = i + 1;
    }
    Ok(ReconstructedFrame { planes, stats })
}

} // verus!
