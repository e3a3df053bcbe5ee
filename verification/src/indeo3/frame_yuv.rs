//! Full-resolution frames: the chroma planes upsampled to luma
//! resolution.
use super::frame::{DecodedFrame, DecodedPlane};
use super::frame_assemble::{
    assemble_output, first_set, output_models, output_plane, output_planes, packable,
    plane_geometry, raster_row, row_of, zeroed, zeros, AssembleError, OutputFrame, OutputPlane,
    PlaneModel,
};
use super::frame_output::{
    samples_fit_their_raster, upsample_chroma_4x4, upsample_fault, upsampled,
    upsampling_fills_blocks, ChromaUpsampleError,
};
use super::picture_layer::{PLANE_IDX_U, PLANE_IDX_V, PLANE_IDX_Y};
use super::text::{decimal, push_decimal};
use vstd::prelude::*;
use vstd::std_specs::convert::FromSpecImpl;
use vstd::string::StringExecFns;

verus! {

/// One full-resolution plane: a raster whose stride is its width.
#[derive(Debug, Clone, PartialEq, Eq)]
pub struct YuvPlane {
    /// Plane index.
    pub plane_idx: usize,
    /// Width in samples.
    pub width: u32,
    /// Height in samples.
    pub height: u32,
    /// The 8-bit pixels, row by row.
    pub pixels: Vec<u8>,
}

impl View for YuvPlane {
    type V = PlaneModel;

    open spec fn view(&self) -> PlaneModel {
        PlaneModel {
            plane_idx: self.plane_idx as int,
            width: self.width as int,
            height: self.height as int,
            pixels: self.pixels@,
        }
    }
}

impl YuvPlane {
    /// The pixel row `y`, or `None` past the plane's height.
    pub fn row(&self, y: u32) -> (r: Option<&[u8]>)
        requires
            y < self.height ==> y * self.width + self.width <= self.pixels@.len(),
        ensures
            match r {
                Some(row) => y < self.height && row@ == raster_row(
                    self.pixels@,
                    self.width as int,
                    y as int,
                ),
                None => y >= self.height,
            },
    {
        row_of(&self.pixels, self.width, self.height, y)
    }
}

/// A full-resolution frame.
#[derive(Debug, Clone, PartialEq, Eq)]
pub struct YuvFrame {
    /// The planes. An absent plane is left out.
    pub planes: Vec<YuvPlane>,
}

/// The first of some planes that has the given index.
pub open spec fn first_yuv(planes: Seq<YuvPlane>, plane_idx: usize, from: int) -> Option<int>
    decreases planes.len() - from,
{
    if from >= planes.len() {
        None
    } else if planes[from].plane_idx == plane_idx {
        Some(from)
    } else {
        first_yuv(planes, plane_idx, from + 1)
    }
}

/// A result is the plane of an index.
pub open spec fn found_yuv(planes: Seq<YuvPlane>, plane_idx: usize, r: Option<&YuvPlane>) -> bool {
    match r {
        Some(p) => first_yuv(planes, plane_idx, 0) is Some && *p == planes[first_yuv(
            planes,
            plane_idx,
            0,
        )->0],
        None => first_yuv(planes, plane_idx, 0) is None,
    }
}

/// Full-resolution planes as mathematical values.
pub open spec fn yuv_models(planes: Seq<YuvPlane>) -> Seq<PlaneModel> {
    Seq::new(planes.len(), |i: int| planes[i]@)
}

impl YuvFrame {
    /// The plane of an index, if the frame has it.
    pub fn plane(&self, plane_idx: usize) -> (r: Option<&YuvPlane>)
        ensures
            found_yuv(self.planes@, plane_idx, r),
    {
        let n: usize = self.planes.len();
        let mut i: usize = 0;
        while i < n
            invariant
                i <= n,
                n == self.planes@.len(),
                first_yuv(self.planes@, plane_idx, 0) == first_yuv(
                    self.planes@,
                    plane_idx,
                    i as int,
                ),
            decreases n - i,
        {
            if self.planes[i].plane_idx == plane_idx {
                return Some(&self.planes[i]);
            }
            i = i + 1;
        }
        None
    }

    /// The Y plane, if the frame has it.
    pub fn luma(&self) -> (r: Option<&YuvPlane>)
        ensures
            found_yuv(self.planes@, PLANE_IDX_Y, r),
    {
        self.plane(PLANE_IDX_Y)
    }

    /// The V plane, if the frame has it.
    pub fn chroma_v(&self) -> (r: Option<&YuvPlane>)
        ensures
            found_yuv(self.planes@, PLANE_IDX_V, r),
    {
        self.plane(PLANE_IDX_V)
    }

    /// The U plane, if the frame has it.
    pub fn chroma_u(&self) -> (r: Option<&YuvPlane>)
        ensures
            found_yuv(self.planes@, PLANE_IDX_U, r),
    {
        self.plane(PLANE_IDX_U)
    }
}

/// Why a full-resolution frame cannot be produced.
#[derive(Debug, Clone, Copy, PartialEq, Eq, Structural)]
pub enum YuvError {
    /// The assembly failed.
    Assemble(AssembleError),
    /// The upsampling of a plane failed.
    ChromaUpsample {
        /// Plane index.
        plane_idx: usize,
        /// The error of the upsampling.
        source: ChromaUpsampleError,
    },
}

impl YuvError {
    /// The message of the error.
    pub open spec fn text(self) -> Seq<char> {
        match self {
            YuvError::Assemble(e) => "indeo3 yuv: "@ + e.text(),
            YuvError::ChromaUpsample { plane_idx, source } => "indeo3 yuv: plane "@ + decimal(
                plane_idx as int,
            ) + " chroma upsample: "@ + source.text(),
        }
    }

    /// The message of the error.
    pub fn message(&self) -> (r: String)
        ensures
            r@ == self.text(),
    {
        match self {
            YuvError::Assemble(e) => {
                let mut out = String::from_str("indeo3 yuv: ");
                out.append(e.message().as_str());
                out
            },
            YuvError::ChromaUpsample { plane_idx, source } => {
                let mut out = String::from_str("indeo3 yuv: plane ");
                push_decimal(&mut out, *plane_idx);
                out.append(" chroma upsample: ");
                out.append(source.message().as_str());
                out
            },
        }
    }
}

impl FromSpecImpl<AssembleError> for YuvError {
    open spec fn obeys_from_spec() -> bool {
        true
    }

    open spec fn from_spec(e: AssembleError) -> Self {
        YuvError::Assemble(e)
    }
}

impl From<AssembleError> for YuvError {
    fn from(e: AssembleError) -> (r: Self) {
        YuvError::Assemble(e)
    }
}

/// The sizes of an upsampled plane fit.
pub open spec fn upsamplable(width: int, height: int) -> bool {
    &&& width * 4 <= u32::MAX
    &&& height * 4 <= u32::MAX
    &&& height * 4 * (width * 4) <= usize::MAX
}

/// The full-resolution plane of an output plane: the Y plane as it is,
/// another one upsampled.
pub open spec fn full_resolution(p: PlaneModel) -> Result<PlaneModel, YuvError> {
    let up = p.width * 4 * (p.height * 4);
    if p.plane_idx == PLANE_IDX_Y {
        Ok(p)
    } else {
        match upsample_fault(
            p.pixels.len() as int,
            p.width as u32,
            p.height as u32,
            p.width,
            up,
            p.width * 4,
        ) {
            Some(source) => Err(
                YuvError::ChromaUpsample { plane_idx: p.plane_idx as usize, source },
            ),
            None => Ok(
                PlaneModel {
                    plane_idx: p.plane_idx,
                    width: p.width * 4,
                    height: p.height * 4,
                    pixels: upsampled(p.pixels, p.width, p.height, p.width, zeros(up), p.width * 4),
                },
            ),
        }
    }
}

/// The full-resolution planes of a frame, plane by plane from plane `i`
/// on, until one fails.
pub open spec fn full_planes(planes: Seq<PlaneModel>, i: int, done: Seq<PlaneModel>) -> Result<
    Seq<PlaneModel>,
    YuvError,
>
    decreases planes.len() - i,
{
    if i >= planes.len() {
        Ok(done)
    } else {
        match full_resolution(planes[i]) {
            Ok(p) => full_planes(planes, i + 1, done.push(p)),
            Err(e) => Err(e),
        }
    }
}

/// Upsample one chroma plane to luma resolution.
fn upsample_chroma_plane(plane: &OutputPlane) -> (r: Result<YuvPlane, YuvError>)
    requires
        plane.plane_idx != PLANE_IDX_Y,
        upsamplable(plane.width as int, plane.height as int),
    ensures
        match r {
            Ok(p) => full_resolution(plane@) == Ok::<PlaneModel, YuvError>(p@),
            Err(e) => full_resolution(plane@) == Err::<PlaneModel, YuvError>(e),
        },
{
    let up_w: u32 = plane.width * 4;
    let up_h: u32 = plane.height * 4;
    let ghost w = plane.width as int;
    let ghost h = plane.height as int;
    proof {
        assert((w * 4) * (h * 4) == h * 4 * (w * 4)) by (nonlinear_arith);
        assert(0 <= h * w <= h * 4 * (w * 4)) by (nonlinear_arith)
            requires
                w >= 0,
                h >= 0,
        ;
        samples_fit_their_raster(w, h, w);
        samples_fit_their_raster(w * 4, h * 4, w * 4);
        assert(w * h == h * w) by (nonlinear_arith);
    }
    let mut pixels: Vec<u8> = zeroed(up_w as usize * up_h as usize);
    match upsample_chroma_4x4(
        plane.pixels.as_slice(),
        plane.width,
        plane.height,
        plane.width as usize,
        pixels.as_mut_slice(),
        up_w as usize,
    ) {
        Ok(_) => Ok(YuvPlane { plane_idx: plane.plane_idx, width: up_w, height: up_h, pixels }),
        Err(source) => Err(YuvError::ChromaUpsample { plane_idx: plane.plane_idx, source }),
    }
}

/// The output planes of a frame with the chroma planes upsampled to luma
/// resolution.
pub fn upsample_frame(output: &OutputFrame) -> (r: Result<YuvFrame, YuvError>)
    requires
        forall|i: int|
            0 <= i < output.planes@.len() && (#[trigger] output.planes@[i]).plane_idx != PLANE_IDX_Y
                ==> upsamplable(
                output.planes@[i].width as int,
                output.planes@[i].height as int,
            ),
    ensures
        match r {
            Ok(f) => full_planes(
                output_models(output.planes@),
                0,
                Seq::empty(),
            ) == Ok::<Seq<PlaneModel>, YuvError>(yuv_models(f.planes@)),
            Err(e) => full_planes(
                output_models(output.planes@),
                0,
                Seq::empty(),
            ) == Err::<Seq<PlaneModel>, YuvError>(e),
        },
{
    let n: usize = output.planes.len();
    let ghost models = output_models(output.planes@);
    let mut planes: Vec<YuvPlane> = Vec::new();
    let mut i: usize = 0;
    assert(yuv_models(planes@) =~= Seq::empty());
    while i < n
        invariant
            i <= n,
            n == output.planes@.len(),
            models == output_models(output.planes@),
            forall|k: int|
                0 <= k < output.planes@.len() && (#[trigger] output.planes@[k]).plane_idx
                    != PLANE_IDX_Y ==> upsamplable(
                    output.planes@[k].width as int,
                    output.planes@[k].height as int,
                ),
            full_planes(models, 0, Seq::empty()) == full_planes(
                models,
                i as int,
                yuv_models(planes@),
            ),
        decreases n - i,
    {
        let plane = &output.planes[i];
        assert(models[i as int] == plane@);
        let ghost before = yuv_models(planes@);
        let full = if plane.plane_idx == PLANE_IDX_Y {
            YuvPlane {
                plane_idx: plane.plane_idx,
                width: plane.width,
                height: plane.height,
                pixels: copied(&plane.pixels),
            }
        } else {
            match upsample_chroma_plane(plane) {
                Ok(p) => p,
                Err(e) => return Err(e),
            }
        };
        planes.push(full);
        assert(yuv_models(planes@) =~= before.push(full@));
        i = i + 1;
    }
    Ok(YuvFrame { planes })
}

/// A copy of some pixels.
fn copied(pixels: &Vec<u8>) -> (r: Vec<u8>)
    ensures
        r@ == pixels@,
{
    let mut out: Vec<u8> = Vec::new();
    out.extend_from_slice(pixels.as_slice());
    assert(out@ =~= pixels@);
    out
}

/// The planes of an assembled frame have the sizes of the frame's planes.
proof fn lemma_output_sizes(
    planes: Seq<DecodedPlane>,
    sets: Seq<(usize, Vec<Vec<u8>>)>,
    i: int,
    done: Seq<PlaneModel>,
)
    requires
        0 <= i <= 3,
        forall|k: int|
            0 <= k < done.len() ==> sized_by(planes, sets, #[trigger] done[k]),
    ensures
        output_planes(planes, sets, i, done) matches Ok(out) ==> forall|k: int|
            0 <= k < out.len() ==> sized_by(planes, sets, #[trigger] out[k]),
    decreases 3 - i,
{
    if i < 3 {
        match (plane_geometry(planes, i), first_set(sets, i, 0)) {
            (Some(g), Some(strips)) => {
                if let Ok(p) = output_plane(g, strips, i) {
                    lemma_output_sizes(planes, sets, i + 1, done.push(p));
                }
            },
            _ => {
                lemma_output_sizes(planes, sets, i + 1, done);
            },
        }
    }
}

/// An output plane has the size of the frame's plane of its index.
pub open spec fn sized_by(
    planes: Seq<DecodedPlane>,
    sets: Seq<(usize, Vec<Vec<u8>>)>,
    p: PlaneModel,
) -> bool {
    &&& 0 <= p.plane_idx < 3
    &&& first_set(sets, p.plane_idx, 0) is Some
    &&& plane_geometry(planes, p.plane_idx) matches Some(g) && p.width == g.plane_width && p.height
        == g.plane_height
}

/// The full-resolution planes of a frame with the given strip buffers.
pub open spec fn yuv_planes(planes: Seq<DecodedPlane>, sets: Seq<(usize, Vec<Vec<u8>>)>) -> Result<
    Seq<PlaneModel>,
    YuvError,
> {
    match output_planes(planes, sets, 0, Seq::empty()) {
        Ok(out) => full_planes(out, 0, Seq::empty()),
        Err(e) => Err(YuvError::Assemble(e)),
    }
}

/// Assemble the output planes of a frame from strip buffers and upsample
/// the chroma planes to luma resolution.
pub fn assemble_yuv(frame: &DecodedFrame, strip_sets: &[(usize, Vec<Vec<u8>>)]) -> (r: Result<
    YuvFrame,
    YuvError,
>)
    requires
        forall|i: int|
            0 <= i < 3 && first_set(strip_sets@, i, 0) is Some ==> (#[trigger] plane_geometry(
                frame.planes@,
                i,
            ) matches Some(g) ==> packable(g) && (i != 0 ==> upsamplable(
                g.plane_width as int,
                g.plane_height as int,
            ))),
    ensures
        match r {
            Ok(f) => yuv_planes(frame.planes@, strip_sets@) == Ok::<Seq<PlaneModel>, YuvError>(
                yuv_models(f.planes@),
            ),
            Err(e) => yuv_planes(frame.planes@, strip_sets@) == Err::<Seq<PlaneModel>, YuvError>(e),
        },
{
    let output = match assemble_output(frame, strip_sets) {
        Ok(o) => o,
        Err(e) => return Err(YuvError::from(e)),
    };
    proof {
        lemma_output_sizes(frame.planes@, strip_sets@, 0, Seq::empty());
        let models = output_models(output.planes@);
        assert forall|i: int|
            0 <= i < output.planes@.len() && (#[trigger] output.planes@[i]).plane_idx
                != PLANE_IDX_Y implies upsamplable(
            output.planes@[i].width as int,
            output.planes@[i].height as int,
        ) by {
            assert(sized_by(frame.planes@, strip_sets@, models[i]));
        }
    }
    upsample_frame(&output)
}

/// The Y plane is carried through as it is; a chroma plane of the full
/// length becomes four times as wide and as high, and its pixel `(x, y)`
/// is the sample `(x / 4, y / 4)`.
pub proof fn upsampled_planes_replicate(p: PlaneModel, x: int, y: int)
    requires
        0 <= p.width <= u32::MAX,
        0 <= p.height <= u32::MAX,
        p.pixels.len() == p.width * p.height,
        p.plane_idx != PLANE_IDX_Y,
        0 <= x < p.width * 4,
        0 <= y < p.height * 4,
    ensures
        full_resolution(p) matches Ok(q) && q.plane_idx == p.plane_idx && q.width == 4 * p.width
            && q.height == 4 * p.height && q.pixels[y * q.width + x] == p.pixels[(y / 4) * p.width
            + x / 4],
{
    let (w, h) = (p.width, p.height);
    let up = w * 4 * (h * 4);
    assert((h - 1) * w + w == w * h) by (nonlinear_arith);
    assert((h * 4 - 1) * (w * 4) + w * 4 == up) by (nonlinear_arith)
        requires
            up == w * 4 * (h * 4),
    ;
    assert(up >= 0) by (nonlinear_arith)
        requires
            up == w * 4 * (h * 4),
            w >= 0,
            h >= 0,
    ;
    upsampling_fills_blocks(p.pixels, w as u32, h as u32, w, zeros(up), w * 4, x, y);
}

} // verus!
