//! The output planes of a frame, assembled from its strip buffers.
use super::frame::{first_plane, DecodedFrame, DecodedPlane};
use super::frame_output::{
    assemble_plane_if09, assembled, assembly, assembly_fits, min_strip_bytes,
    samples_fit_their_raster, slice_seqs, strip_min_buffer_bytes, with_strip, AssembleEnd,
    PlaneAssembleError,
};
use super::picture_layer::{PLANE_COUNT, PLANE_IDX_Y};
use super::plane_model::strip_seqs;
use super::strip_context::StripGeometry;
use super::text::{decimal, push_decimal};
use vstd::prelude::*;
use vstd::slice::slice_subrange;
use vstd::string::StringExecFns;

verus! {

/// The order of the output planes: Y, V, U.
pub const OUTPUT_ASSEMBLE_ORDER: [usize; 3] = [0, 1, 2];

/// A plane's worth of zero bytes.
pub open spec fn zeros(n: int) -> Seq<u8> {
    Seq::new(n as nat, |i: int| 0u8)
}

/// A buffer of zero bytes.
pub fn zeroed(n: usize) -> (r: Vec<u8>)
    ensures
        r@ == zeros(n as int),
{
    let v: Vec<u8> = vec![0u8; n];
    assert(v@ =~= zeros(n as int));
    v
}

/// The mathematical value of an output plane.
pub ghost struct PlaneModel {
    pub plane_idx: int,
    pub width: int,
    pub height: int,
    pub pixels: Seq<u8>,
}

/// Row `y` of a raster without padding.
pub open spec fn raster_row(pixels: Seq<u8>, width: int, y: int) -> Seq<u8> {
    pixels.subrange(y * width, y * width + width)
}

/// Row `y` of a raster, or `None` past its height.
pub fn row_of(pixels: &Vec<u8>, width: u32, height: u32, y: u32) -> (r: Option<&[u8]>)
    requires
        y < height ==> y * width + width <= pixels@.len(),
    ensures
        match r {
            Some(row) => y < height && row@ == raster_row(pixels@, width as int, y as int),
            None => y >= height,
        },
{
    if y >= height {
        return None;
    }
    let w: usize = width as usize;
    let n: usize = pixels.len();
    proof {
        assert(0 <= y * width) by (nonlinear_arith)
            requires
                y >= 0,
                width >= 0,
        ;
    }
    let start: usize = y as usize * w;
    Some(slice_subrange(pixels.as_slice(), start, start + w))
}

/// One output plane: a raster whose stride is its width.
#[derive(Debug, Clone, PartialEq, Eq)]
pub struct OutputPlane {
    /// Plane index.
    pub plane_idx: usize,
    /// Width in samples.
    pub width: u32,
    /// Height in samples.
    pub height: u32,
    /// The 8-bit pixels, row by row.
    pub pixels: Vec<u8>,
}

impl View for OutputPlane {
    type V = PlaneModel;

    open spec fn view(&self) -> PlaneModel {
        PlaneModel {
            plane_idx: self.plane_idx as int,
            width: self.width as int,
            height: self.height as int,
            pixels: self.pixels@,
        }
    }
}

impl OutputPlane {
    /// The pixel row `y`, or `None` past the plane's height.
    pub fn row(&self, y: u32) -> (r: Option<&[u8]>)
        requires
            y < self.height ==> y * self.width + self.width <= self.pixels@.len(),
        ensures
            match r {
                Some(row) => y < self.height && row@ == raster_row(
                    self.pixels@,
                    self.width as int,
                    y as int,
                ),
                None => y >= self.height,
            },
    {
        row_of(&self.pixels, self.width, self.height, y)
    }
}

/// The output of a frame.
#[derive(Debug, Clone, PartialEq, Eq)]
pub struct OutputFrame {
    /// The planes. An absent plane is left out.
    pub planes: Vec<OutputPlane>,
}

/// The first of some planes that has the given index.
pub open spec fn first_output(planes: Seq<OutputPlane>, plane_idx: usize, from: int) -> Option<int>
    decreases planes.len() - from,
{
    if from >= planes.len() {
        None
    } else if planes[from].plane_idx == plane_idx {
        Some(from)
    } else {
        first_output(planes, plane_idx, from + 1)
    }
}

/// Output planes as mathematical values.
pub open spec fn output_models(planes: Seq<OutputPlane>) -> Seq<PlaneModel> {
    Seq::new(planes.len(), |i: int| planes[i]@)
}

impl OutputFrame {
    /// The plane of an index, if the frame has it.
    pub fn plane(&self, plane_idx: usize) -> (r: Option<&OutputPlane>)
        ensures
            match r {
                Some(p) => first_output(self.planes@, plane_idx, 0) is Some && *p
                    == self.planes@[first_output(self.planes@, plane_idx, 0)->0],
                None => first_output(self.planes@, plane_idx, 0) is None,
            },
    {
        let n: usize = self.planes.len();
        let mut i: usize = 0;
        while i < n
            invariant
                i <= n,
                n == self.planes@.len(),
                first_output(self.planes@, plane_idx, 0) == first_output(
                    self.planes@,
                    plane_idx,
                    i as int,
                ),
            decreases n - i,
        {
            if self.planes[i].plane_idx == plane_idx {
                return Some(&self.planes[i]);
            }
            i = i + 1;
        }
        None
    }

    /// The Y plane, if the frame has it.
    pub fn luma(&self) -> (r: Option<&OutputPlane>)
        ensures
            match r {
                Some(p) => first_output(self.planes@, PLANE_IDX_Y, 0) is Some && *p
                    == self.planes@[first_output(self.planes@, PLANE_IDX_Y, 0)->0],
                None => first_output(self.planes@, PLANE_IDX_Y, 0) is None,
            },
    {
        self.plane(PLANE_IDX_Y)
    }
}

/// Why a frame's planes cannot be assembled.
#[derive(Debug, Clone, Copy, PartialEq, Eq, Structural)]
pub enum AssembleError {
    /// The wrong number of strip buffers was supplied for a plane.
    StripCountMismatch {
        /// Plane index.
        plane_idx: usize,
        /// Strips the plane has.
        expected: u32,
        /// Strips supplied.
        supplied: usize,
    },
    /// A plane's strips cannot be assembled.
    PlaneAssembly {
        /// Plane index.
        plane_idx: usize,
        /// The error of the assembly.
        source: PlaneAssembleError,
    },
}

impl AssembleError {
    /// The message of the error.
    pub open spec fn text(self) -> Seq<char> {
        match self {
            AssembleError::StripCountMismatch { plane_idx, expected, supplied } =>
                "indeo3 assemble: plane "@ + decimal(plane_idx as int) + " needs "@ + decimal(
                expected as int,
            ) + " strips, got "@ + decimal(supplied as int),
            AssembleError::PlaneAssembly { plane_idx, source } => "indeo3 assemble: plane "@
                + decimal(plane_idx as int) + ": "@ + source.text(),
        }
    }

    /// The message of the error.
    pub fn message(&self) -> (r: String)
        ensures
            r@ == self.text(),
    {
        match self {
            AssembleError::StripCountMismatch { plane_idx, expected, supplied } => {
                let mut out = String::from_str("indeo3 assemble: plane ");
                push_decimal(&mut out, *plane_idx);
                out.append(" needs ");
                push_decimal(&mut out, *expected as usize);
                out.append(" strips, got ");
                push_decimal(&mut out, *supplied);
                out
            },
            AssembleError::PlaneAssembly { plane_idx, source } => {
                let mut out = String::from_str("indeo3 assemble: plane ");
                push_decimal(&mut out, *plane_idx);
                out.append(": ");
                out.append(source.message().as_str());
                out
            },
        }
    }
}

/// The least buffer lengths of a plane's strips fit a `usize`.
pub open spec fn strips_fit(g: StripGeometry) -> bool {
    forall|i: int|
        0 <= i < g.strip_count ==> min_strip_bytes(#[trigger] g.width_of(i), g.plane_height as int)
            <= usize::MAX
}

/// The least buffer lengths of a plane's strips.
pub open spec fn strip_lengths(g: StripGeometry) -> Seq<int> {
    Seq::new(
        g.strip_count as nat,
        |i: int| min_strip_bytes(g.width_of(i), g.plane_height as int),
    )
}

/// The least buffer lengths of a plane's strips, left to right.
pub fn plane_strip_buffer_lengths(geometry: &StripGeometry) -> (r: Vec<usize>)
    requires
        strips_fit(*geometry),
    ensures
        r@.len() == geometry.strip_count,
        forall|i: int| 0 <= i < r@.len() ==> #[trigger] r@[i] == strip_lengths(*geometry)[i],
{
    let mut out: Vec<usize> = Vec::new();
    let mut i: u32 = 0;
    while i < geometry.strip_count
        invariant
            i <= geometry.strip_count,
            strips_fit(*geometry),
            out@.len() == i,
            forall|k: int| 0 <= k < i ==> #[trigger] out@[k] == strip_lengths(*geometry)[k],
        decreases geometry.strip_count - i,
    {
        let w: u32 = geometry.strip_width_at(i);
        assert(w == geometry.width_of(i as int));
        out.push(strip_min_buffer_bytes(w, geometry.plane_height));
        i = i + 1;
    }
    out
}

/// Zeroed strip buffers of a plane.
fn zeroed_strips(geometry: &StripGeometry) -> (r: Vec<Vec<u8>>)
    requires
        strips_fit(*geometry),
    ensures
        strip_seqs(r@) == zero_strips(*geometry),
{
    let lengths = plane_strip_buffer_lengths(geometry);
    let n: usize = lengths.len();
    let mut out: Vec<Vec<u8>> = Vec::new();
    let mut i: usize = 0;
    while i < n
        invariant
            i <= n,
            n == lengths@.len(),
            n == geometry.strip_count,
            forall|k: int| 0 <= k < n ==> #[trigger] lengths@[k] == strip_lengths(*geometry)[k],
            out@.len() == i,
            forall|k: int|
                0 <= k < i ==> (#[trigger] out@[k])@ == zeros(strip_lengths(*geometry)[k]),
        decreases n - i,
    {
        out.push(zeroed(lengths[i]));
        i = i + 1;
    }
    assert(strip_seqs(out@) =~= zero_strips(*geometry));
    out
}

/// Zeroed strips of a plane.
pub open spec fn zero_strips(g: StripGeometry) -> Seq<Seq<u8>> {
    Seq::new(g.strip_count as nat, |i: int| zeros(strip_lengths(g)[i]))
}

/// The geometry of the first plane of an index.
pub open spec fn plane_geometry(
    planes: Seq<DecodedPlane>,
    plane_idx: int,
) -> Option<StripGeometry> {
    match first_plane(planes, plane_idx as usize, 0) {
        Some(k) => Some(planes[k].plan.geometry),
        None => None,
    }
}

/// A set of strip buffers as a mathematical value.
pub open spec fn set_model(set: (usize, Vec<Vec<u8>>)) -> (int, Seq<Seq<u8>>) {
    (set.0 as int, strip_seqs(set.1@))
}

/// Zeroed strips for the planes from index `i` on.
pub open spec fn zeroed_sets(planes: Seq<DecodedPlane>, i: int) -> Seq<(int, Seq<Seq<u8>>)>
    decreases 3 - i,
{
    if i >= 3 {
        Seq::empty()
    } else {
        (match plane_geometry(planes, i) {
            Some(g) => seq![(i, zero_strips(g))],
            None => Seq::empty(),
        }) + zeroed_sets(planes, i + 1)
    }
}

/// Zeroed strip buffers for every plane of a frame, in output order.
pub fn allocate_strip_buffers(frame: &DecodedFrame) -> (r: Vec<(usize, Vec<Vec<u8>>)>)
    requires
        forall|i: int|
            0 <= i < 3 ==> (#[trigger] plane_geometry(frame.planes@, i) matches Some(g)
                ==> strips_fit(g)),
    ensures
        Seq::new(r@.len(), |k: int| set_model(r@[k])) == zeroed_sets(frame.planes@, 0),
{
    let mut out: Vec<(usize, Vec<Vec<u8>>)> = Vec::new();
    let ghost mut done: Seq<(int, Seq<Seq<u8>>)> = Seq::empty();
    let mut i: usize = 0;
    assert(done + zeroed_sets(frame.planes@, 0) =~= zeroed_sets(frame.planes@, 0));
    while i < PLANE_COUNT
        invariant
            i <= PLANE_COUNT,
            forall|k: int|
                0 <= k < 3 ==> (#[trigger] plane_geometry(frame.planes@, k) matches Some(g)
                    ==> strips_fit(g)),
            done == Seq::new(out@.len(), |k: int| set_model(out@[k])),
            done + zeroed_sets(frame.planes@, i as int) == zeroed_sets(frame.planes@, 0),
        decreases PLANE_COUNT - i,
    {
        let plane_idx: usize = OUTPUT_ASSEMBLE_ORDER[i];
        assert(plane_idx == i);
        let ghost rest = zeroed_sets(frame.planes@, i + 1);
        let ghost geometry = plane_geometry(frame.planes@, i as int);
        if let Some(plane) = frame.plane(plane_idx) {
            assert(geometry == Some(plane.plan.geometry));
            let strips = zeroed_strips(&plane.plan.geometry);
            let ghost entry = (i as int, zero_strips(plane.plan.geometry));
            out.push((plane_idx, strips));
            proof {
                assert(done + (seq![entry] + rest) =~= done.push(entry) + rest);
                done = done.push(entry);
                assert(done =~= Seq::new(out@.len(), |k: int| set_model(out@[k])));
            }
        } else {
            assert(Seq::<(int, Seq<Seq<u8>>)>::empty() + rest =~= rest);
        }
        i = i + 1;
    }
    assert(done + Seq::empty() =~= done);
    out
}

/// The first set of strip buffers for a plane.
pub open spec fn first_set(sets: Seq<(usize, Vec<Vec<u8>>)>, plane_idx: int, from: int) -> Option<
    Seq<Seq<u8>>,
>
    decreases sets.len() - from,
{
    if from >= sets.len() {
        None
    } else if sets[from].0 == plane_idx {
        Some(strip_seqs(sets[from].1@))
    } else {
        first_set(sets, plane_idx, from + 1)
    }
}

/// The sizes of an assembly without padding fit.
pub open spec fn packable(g: StripGeometry) -> bool {
    &&& g.total_width() <= u32::MAX
    &&& assembly_fits(g, g.plane_width as int)
}

/// The assembly of a plane without padding.
pub open spec fn packed_assembly(g: StripGeometry, strips: Seq<Seq<u8>>) -> AssembleEnd {
    assembly(zeros(g.plane_width * g.plane_height), g, strips, g.plane_width as int)
}

/// One output plane.
pub open spec fn output_plane(g: StripGeometry, strips: Seq<Seq<u8>>, plane_idx: int) -> Result<
    PlaneModel,
    AssembleError,
> {
    if strips.len() != g.strip_count {
        Err(
            AssembleError::StripCountMismatch {
                plane_idx: plane_idx as usize,
                expected: g.strip_count,
                supplied: strips.len() as usize,
            },
        )
    } else {
        match packed_assembly(g, strips).error {
            Some(source) => Err(
                AssembleError::PlaneAssembly { plane_idx: plane_idx as usize, source },
            ),
            None => Ok(
                PlaneModel {
                    plane_idx,
                    width: g.plane_width as int,
                    height: g.plane_height as int,
                    pixels: packed_assembly(g, strips).dst,
                },
            ),
        }
    }
}

/// The output planes from index `i` on: of each plane that the frame has
/// and that has strips, until one fails.
pub open spec fn output_planes(
    planes: Seq<DecodedPlane>,
    sets: Seq<(usize, Vec<Vec<u8>>)>,
    i: int,
    done: Seq<PlaneModel>,
) -> Result<Seq<PlaneModel>, AssembleError>
    decreases 3 - i,
{
    if i >= 3 {
        Ok(done)
    } else {
        match (plane_geometry(planes, i), first_set(sets, i, 0)) {
            (Some(g), Some(strips)) => match output_plane(g, strips, i) {
                Ok(plane) => output_planes(planes, sets, i + 1, done.push(plane)),
                Err(e) => Err(e),
            },
            _ => output_planes(planes, sets, i + 1, done),
        }
    }
}

/// Find the strip buffers of a plane.
fn find_set(sets: &[(usize, Vec<Vec<u8>>)], plane_idx: usize) -> (r: Option<&Vec<Vec<u8>>>)
    ensures
        match r {
            Some(strips) => first_set(sets@, plane_idx as int, 0) == Some(strip_seqs(strips@)),
            None => first_set(sets@, plane_idx as int, 0) is None,
        },
{
    let n: usize = sets.len();
    let mut i: usize = 0;
    while i < n
        invariant
            i <= n,
            n == sets@.len(),
            first_set(sets@, plane_idx as int, 0) == first_set(sets@, plane_idx as int, i as int),
        decreases n - i,
    {
        if sets[i].0 == plane_idx {
            return Some(&sets[i].1);
        }
        i = i + 1;
    }
    None
}

/// Assemble one plane without padding.
fn pack_plane(geometry: &StripGeometry, strips: &Vec<Vec<u8>>, plane_idx: usize) -> (r: Result<
    OutputPlane,
    AssembleError,
>)
    requires
        packable(*geometry),
    ensures
        match r {
            Ok(p) => output_plane(*geometry, strip_seqs(strips@), plane_idx as int) == Ok::<
                PlaneModel,
                AssembleError,
            >(p@),
            Err(e) => output_plane(*geometry, strip_seqs(strips@), plane_idx as int) == Err::<
                PlaneModel,
                AssembleError,
            >(e),
        },
{
    let supplied: usize = strips.len();
    if supplied as u64 != geometry.strip_count as u64 {
        return Err(
            AssembleError::StripCountMismatch {
                plane_idx,
                expected: geometry.strip_count,
                supplied,
            },
        );
    }
    let width: u32 = geometry.plane_width;
    let height: u32 = geometry.plane_height;
    proof {
        samples_fit_their_raster(width as int, height as int, width as int);
    }
    let mut pixels: Vec<u8> = zeroed(width as usize * height as usize);
    let mut refs: Vec<&[u8]> = Vec::new();
    let mut i: usize = 0;
    while i < supplied
        invariant
            i <= supplied,
            supplied == strips@.len(),
            refs@.len() == i,
            forall|k: int| 0 <= k < i ==> (#[trigger] refs@[k])@ == strips@[k]@,
        decreases supplied - i,
    {
        refs.push(strips[i].as_slice());
        i = i + 1;
    }
    assert(slice_seqs(refs@) =~= strip_seqs(strips@));
    match assemble_plane_if09(geometry, refs.as_slice(), pixels.as_mut_slice(), width as usize) {
        Ok(_) => Ok(OutputPlane { plane_idx, width, height, pixels }),
        Err(source) => Err(AssembleError::PlaneAssembly { plane_idx, source }),
    }
}

/// Assemble the output planes of a frame from strip buffers. A plane
/// without strip buffers, and strip buffers without a plane, are passed
/// over.
pub fn assemble_output(frame: &DecodedFrame, strip_sets: &[(usize, Vec<Vec<u8>>)]) -> (r: Result<
    OutputFrame,
    AssembleError,
>)
    requires
        forall|i: int|
            0 <= i < 3 && first_set(strip_sets@, i, 0) is Some ==> (#[trigger] plane_geometry(
                frame.planes@,
                i,
            ) matches Some(g) ==> packable(g)),
    ensures
        match r {
            Ok(out) => output_planes(frame.planes@, strip_sets@, 0, Seq::empty()) == Ok::<
                Seq<PlaneModel>,
                AssembleError,
            >(output_models(out.planes@)),
            Err(e) => output_planes(frame.planes@, strip_sets@, 0, Seq::empty()) == Err::<
                Seq<PlaneModel>,
                AssembleError,
            >(e),
        },
{
    let mut planes: Vec<OutputPlane> = Vec::new();
    let mut i: usize = 0;
    assert(output_models(planes@) =~= Seq::empty());
    while i < PLANE_COUNT
        invariant
            i <= PLANE_COUNT,
            forall|k: int|
                0 <= k < 3 && first_set(strip_sets@, k, 0) is Some ==> (#[trigger] plane_geometry(
                    frame.planes@,
                    k,
                ) matches Some(g) ==> packable(g)),
            output_planes(frame.planes@, strip_sets@, 0, Seq::empty()) == output_planes(
                frame.planes@,
                strip_sets@,
                i as int,
                output_models(planes@),
            ),
        decreases PLANE_COUNT - i,
    {
        let plane_idx: usize = OUTPUT_ASSEMBLE_ORDER[i];
        assert(plane_idx == i);
        let ghost geometry = plane_geometry(frame.planes@, i as int);
        if let Some(plane) = frame.plane(plane_idx) {
            assert(geometry == Some(plane.plan.geometry));
            if let Some(strips) = find_set(strip_sets, plane_idx) {
                let ghost before = output_models(planes@);
                match pack_plane(&plane.plan.geometry, strips, plane_idx) {
                    Ok(p) => {
                        planes.push(p);
                        assert(output_models(planes@) =~= before.push(p@));
                    },
                    Err(e) => return Err(e),
                }
            }
        }
        i = i + 1;
    }
    Ok(OutputFrame { planes })
}

/// Zeroed strips leave a zeroed raster zero.
proof fn lemma_zeroes_stay(
    dst: Seq<u8>,
    g: StripGeometry,
    stride: int,
    i: int,
    x0: int,
    written: int,
)
    requires
        0 <= i <= g.strip_count,
        g.strip_width <= 0xb0,
        g.last_strip_width <= 0xb0,
        0 <= x0,
        stride >= 0,
        dst == zeros(dst.len() as int),
    ensures
        assembled(dst, g, zero_strips(g), stride, i, x0, written).dst == dst,
        assembled(dst, g, zero_strips(g), stride, i, x0, written).error is None,
    decreases g.strip_count - i,
{
    if i < g.strip_count {
        let w = g.width_of(i);
        let h = g.plane_height as int;
        let strip = zero_strips(g)[i];
        let next = with_strip(dst, strip, x0, w, h, stride);
        assert(strip.len() == min_strip_bytes(w, h));
        assert forall|j: int| 0 <= j < dst.len() implies #[trigger] next[j] == 0 by {
            assert(dst[j] == zeros(dst.len() as int)[j]);
            if stride > 0 && j / stride < h && x0 <= j % stride < x0 + w {
                let (y, c) = (j / stride, j % stride - x0);
                vstd::arithmetic::div_mod::lemma_div_pos_is_pos(j, stride);
                assert(y * 0xb0 + c < strip.len());
            }
        }
        assert(next =~= zeros(dst.len() as int));
        lemma_zeroes_stay(next, g, stride, i + 1, x0 + w, written + w * h);
    }
}

/// Zeroed strips of the least length assemble, to a plane of zeros.
pub proof fn zeroed_strips_assemble_to_zeros(g: StripGeometry, width: int, height: int, strip: int)
    requires
        0 < strip <= 0xb0,
        g.cuts(width, height, strip),
    ensures
        packed_assembly(g, zero_strips(g)).error is None,
        packed_assembly(g, zero_strips(g)).dst == zeros(width * height),
{
    let n = width * height;
    assert(0 <= n) by (nonlinear_arith)
        requires
            n == width * height,
            width >= 0,
            height >= 0,
    ;
    assert((height - 1) * width + width == n) by (nonlinear_arith)
        requires
            n == width * height,
    ;
    lemma_zeroes_stay(zeros(n), g, width, 0, 0, 0);
}

} // verus!
