//! Output: the upshift of 7-bit samples to 8 bits, the assembly of a
//! plane from its strips, and the chroma box upsampling.
use super::strip_context::StripGeometry;
use super::text::{decimal, push_decimal};
use vstd::prelude::*;
use vstd::string::StringExecFns;

verus! {

/// Bits of the output upshift.
pub const OUTPUT_UPSHIFT_BITS: u32 = 1;

/// The `IF09` format code.
pub const IF09_FOURCC: u32 = 0x3930_4649;

/// Address of the dispatch on the format code.
pub const IF09_FOURCC_CASE_RVA: u32 = 0x1000_4576;

/// Address of the passthrough conversion.
pub const IF09_PASSTHROUGH_RVA: u32 = 0x1000_a53c;

/// The order of the output planes: Y, V, U.
pub const OUTPUT_PLANE_ORDER: [usize; 3] = [0, 1, 2];

/// Row stride of the strip pixel buffers.
pub const FRAME_OUTPUT_SRC_ROW_STRIDE: usize = 0xb0;

/// Output samples per chroma sample, in each direction.
pub const CHROMA_UPSAMPLE_FACTOR: usize = 4;

/// The 8-bit output value of a strip byte: its low seven bits, doubled.
pub open spec fn upshifted(b: u8) -> u8 {
    (b % 0x80 * 2) as u8
}

/// Upshift one strip byte to its 8-bit output value. The edge marker is
/// shifted out.
pub fn upshift_7bit_to_8bit(b: u8) -> (r: u8)
    ensures
        r == upshifted(b),
{
    b % 0x80 * 2
}

/// The upshift ignores the edge marker, keeps everything else, and gives
/// even values only.
pub proof fn upshift_drops_the_marker_alone(a: u8, b: u8)
    ensures
        upshifted(a) == upshifted(b) <==> a as int % 0x80 == b as int % 0x80,
        upshifted(a) % 2 == 0,
        upshifted(a) / 2 == a % 0x80,
{
}

/// The bytes a strip needs for `height` rows of `width` visible pixels.
pub open spec fn min_strip_bytes(width: int, height: int) -> int {
    if width == 0 || height == 0 {
        0
    } else {
        (height - 1) * 0xb0 + width
    }
}

/// The least length of a strip's pixel buffer for `plane_height` rows of
/// `strip_width` visible pixels.
pub fn strip_min_buffer_bytes(strip_width: u32, plane_height: u32) -> (r: usize)
    requires
        min_strip_bytes(strip_width as int, plane_height as int) <= usize::MAX,
    ensures
        r == min_strip_bytes(strip_width as int, plane_height as int),
{
    if plane_height == 0 || strip_width == 0 {
        0
    } else {
        (plane_height as usize - 1) * 0xb0 + strip_width as usize
    }
}

/// Why a plane cannot be assembled.
#[derive(Debug, Clone, Copy, PartialEq, Eq, Structural)]
pub enum PlaneAssembleError {
    /// The number of strip buffers is not the geometry's.
    StripCountMismatch {
        /// The geometry's strip count.
        expected: u32,
        /// The strips supplied.
        supplied: usize,
    },
    /// The strip widths do not sum to the plane width.
    StripWidthSumMismatch {
        /// The plane width.
        plane_width: u32,
        /// The sum of the strip widths.
        widths_total: u32,
    },
    /// A strip is wider than its buffer's row stride.
    StripWidthExceedsRowStride {
        /// Index of the strip.
        strip_index: usize,
        /// Its width.
        strip_width: u32,
    },
    /// A strip's buffer is too short.
    StripBufferTooShort {
        /// Index of the strip.
        strip_index: usize,
        /// Bytes required.
        required: usize,
        /// Bytes supplied.
        supplied: usize,
    },
    /// The output stride is narrower than the plane.
    DstStrideTooNarrow {
        /// The plane width.
        plane_width: u32,
        /// The output stride.
        dst_stride: usize,
    },
    /// The output buffer is too short.
    DstBufferTooShort {
        /// Bytes required.
        required: usize,
        /// Bytes supplied.
        supplied: usize,
    },
}

impl PlaneAssembleError {
    /// The message of the error.
    pub open spec fn text(self) -> Seq<char> {
        match self {
            PlaneAssembleError::StripCountMismatch { expected, supplied } =>
                "spec/07 §5.7: geometry expects "@ + decimal(expected as int)
                + " strip buffer(s); "@ + decimal(supplied as int) + " supplied"@,
            PlaneAssembleError::StripWidthSumMismatch { plane_width, widths_total } =>
                "spec/07 §5.7: per-strip widths sum to "@ + decimal(widths_total as int)
                + ", not the plane width "@ + decimal(plane_width as int),
            PlaneAssembleError::StripWidthExceedsRowStride { strip_index, strip_width } =>
                "spec/07 §5.1: strip "@ + decimal(strip_index as int) + " width "@ + decimal(
                strip_width as int,
            ) + " exceeds the allocated row stride 0xb0"@,
            PlaneAssembleError::StripBufferTooShort { strip_index, required, supplied } =>
                "spec/07 §5.7: strip "@ + decimal(strip_index as int) + " pixel buffer has "@
                + decimal(supplied as int) + " byte(s); the assembly walk requires at least "@
                + decimal(required as int),
            PlaneAssembleError::DstStrideTooNarrow { plane_width, dst_stride } =>
                "spec/07 §5.7: output row stride "@ + decimal(dst_stride as int)
                + " is narrower than the plane width "@ + decimal(plane_width as int),
            PlaneAssembleError::DstBufferTooShort { required, supplied } =>
                "spec/07 §5.7: output slice has "@ + decimal(supplied as int)
                + " byte(s); the assembled plane requires at least "@ + decimal(required as int),
        }
    }

    /// The message of the error.
    pub fn message(&self) -> (r: String)
        ensures
            r@ == self.text(),
    {
        match self {
            PlaneAssembleError::StripCountMismatch { expected, supplied } => {
                let mut out = String::from_str("spec/07 §5.7: geometry expects ");
                push_decimal(&mut out, *expected as usize);
                out.append(" strip buffer(s); ");
                push_decimal(&mut out, *supplied);
                out.append(" supplied");
                out
            },
            PlaneAssembleError::StripWidthSumMismatch { plane_width, widths_total } => {
                let mut out = String::from_str("spec/07 §5.7: per-strip widths sum to ");
                push_decimal(&mut out, *widths_total as usize);
                out.append(", not the plane width ");
                push_decimal(&mut out, *plane_width as usize);
                out
            },
            PlaneAssembleError::StripWidthExceedsRowStride { strip_index, strip_width } => {
                let mut out = String::from_str("spec/07 §5.1: strip ");
                push_decimal(&mut out, *strip_index);
                out.append(" width ");
                push_decimal(&mut out, *strip_width as usize);
                out.append(" exceeds the allocated row stride 0xb0");
                out
            },
            PlaneAssembleError::StripBufferTooShort { strip_index, required, supplied } => {
                let mut out = String::from_str("spec/07 §5.7: strip ");
                push_decimal(&mut out, *strip_index);
                out.append(" pixel buffer has ");
                push_decimal(&mut out, *supplied);
                out.append(" byte(s); the assembly walk requires at least ");
                push_decimal(&mut out, *required);
                out
            },
            PlaneAssembleError::DstStrideTooNarrow { plane_width, dst_stride } => {
                let mut out = String::from_str("spec/07 §5.7: output row stride ");
                push_decimal(&mut out, *dst_stride);
                out.append(" is narrower than the plane width ");
                push_decimal(&mut out, *plane_width as usize);
                out
            },
            PlaneAssembleError::DstBufferTooShort { required, supplied } => {
                let mut out = String::from_str("spec/07 §5.7: output slice has ");
                push_decimal(&mut out, *supplied);
                out.append(" byte(s); the assembled plane requires at least ");
                push_decimal(&mut out, *required);
                out
            },
        }
    }
}

/// The bytes an output raster needs.
pub open spec fn raster_bytes(width: int, height: int, stride: int) -> int {
    if width == 0 || height == 0 {
        0
    } else {
        (height - 1) * stride + width
    }
}

/// Every size an assembly computes fits a `usize`: the output raster's,
/// and that of each strip no wider than its row stride.
pub open spec fn assembly_fits(g: StripGeometry, stride: int) -> bool {
    &&& raster_bytes(g.plane_width as int, g.plane_height as int, stride) <= usize::MAX
    &&& forall|i: int|
        0 <= i < g.strip_count && g.width_of(i) <= FRAME_OUTPUT_SRC_ROW_STRIDE
            ==> min_strip_bytes(#[trigger] g.width_of(i), g.plane_height as int) <= usize::MAX
}

/// Rows no wider than their stride have no more samples than their raster
/// has bytes, and as many where there is no padding.
pub proof fn samples_fit_their_raster(width: int, height: int, stride: int)
    requires
        0 <= width <= stride,
        0 <= height,
    ensures
        0 <= width * height <= raster_bytes(width, height, stride),
        width == stride ==> width * height == raster_bytes(width, height, stride),
{
    if width == 0 || height == 0 {
        assert(width * height == 0) by (nonlinear_arith)
            requires
                width == 0 || height == 0,
        ;
    } else {
        assert(0 <= width * height <= (height - 1) * stride + width) by (nonlinear_arith)
            requires
                0 < width <= stride,
                0 < height,
        ;
        assert(width * height == (height - 1) * width + width) by (nonlinear_arith);
    }
}

/// An output raster with the columns from `x0` on taken from a strip's
/// visible pixels, upshifted.
pub open spec fn with_strip(
    dst: Seq<u8>,
    strip: Seq<u8>,
    x0: int,
    width: int,
    height: int,
    stride: int,
) -> Seq<u8> {
    Seq::new(
        dst.len(),
        |j: int|
            if stride > 0 && j / stride < height && x0 <= j % stride < x0 + width {
                upshifted(strip[j / stride * 0xb0 + j % stride - x0])
            } else {
                dst[j]
            },
    )
}

/// Where an assembly ends.
pub ghost struct AssembleEnd {
    pub dst: Seq<u8>,
    pub written: int,
    pub error: Option<PlaneAssembleError>,
}

/// Why strip `i` cannot be read.
pub open spec fn strip_fault(g: StripGeometry, strips: Seq<Seq<u8>>, i: int) -> Option<
    PlaneAssembleError,
> {
    let w = g.width_of(i);
    let required = min_strip_bytes(w, g.plane_height as int);
    if w > 0xb0 {
        Some(
            PlaneAssembleError::StripWidthExceedsRowStride {
                strip_index: i as usize,
                strip_width: w as u32,
            },
        )
    } else if strips[i].len() < required {
        Some(
            PlaneAssembleError::StripBufferTooShort {
                strip_index: i as usize,
                required: required as usize,
                supplied: strips[i].len() as usize,
            },
        )
    } else {
        None
    }
}

/// The strips from strip `i` on, written left to right from column `x0`
/// on, until one cannot be read.
pub open spec fn assembled(
    dst: Seq<u8>,
    g: StripGeometry,
    strips: Seq<Seq<u8>>,
    stride: int,
    i: int,
    x0: int,
    written: int,
) -> AssembleEnd
    decreases g.strip_count - i,
{
    if i >= g.strip_count {
        AssembleEnd { dst, written, error: None }
    } else if strip_fault(g, strips, i) is Some {
        AssembleEnd { dst, written, error: strip_fault(g, strips, i) }
    } else {
        let w = g.width_of(i);
        assembled(
            with_strip(dst, strips[i], x0, w, g.plane_height as int, stride),
            g,
            strips,
            stride,
            i + 1,
            x0 + w,
            written + w * g.plane_height,
        )
    }
}

/// Why an assembly is refused before any strip is read.
pub open spec fn layout_fault(g: StripGeometry, strips: int, dst: int, stride: int) -> Option<
    PlaneAssembleError,
> {
    let required = raster_bytes(g.plane_width as int, g.plane_height as int, stride);
    if strips != g.strip_count {
        Some(
            PlaneAssembleError::StripCountMismatch {
                expected: g.strip_count,
                supplied: strips as usize,
            },
        )
    } else if g.total_width() != g.plane_width {
        Some(
            PlaneAssembleError::StripWidthSumMismatch {
                plane_width: g.plane_width,
                widths_total: g.total_width() as u32,
            },
        )
    } else if g.plane_width > stride {
        Some(
            PlaneAssembleError::DstStrideTooNarrow {
                plane_width: g.plane_width,
                dst_stride: stride as usize,
            },
        )
    } else if dst < required {
        Some(
            PlaneAssembleError::DstBufferTooShort {
                required: required as usize,
                supplied: dst as usize,
            },
        )
    } else {
        None
    }
}

/// The strips as sequences.
pub open spec fn slice_seqs(strips: Seq<&[u8]>) -> Seq<Seq<u8>> {
    Seq::new(strips.len(), |i: int| strips[i]@)
}

/// Assembling a plane.
pub open spec fn assembly(
    dst: Seq<u8>,
    g: StripGeometry,
    strips: Seq<Seq<u8>>,
    stride: int,
) -> AssembleEnd {
    match layout_fault(g, strips.len() as int, dst.len() as int, stride) {
        Some(e) => AssembleEnd { dst, written: 0, error: Some(e) },
        None => assembled(dst, g, strips, stride, 0, 0, 0),
    }
}

/// Write one strip into the output raster.
fn write_strip(dst: &mut [u8], strip: &[u8], x0: usize, w: usize, height: usize, stride: usize)
    requires
        x0 + w <= stride,
        w > 0 && height > 0 ==> (height - 1) * stride + x0 + w <= old(dst)@.len(),
        min_strip_bytes(w as int, height as int) <= strip@.len(),
    ensures
        final(dst)@ == with_strip(
            old(dst)@,
            strip@,
            x0 as int,
            w as int,
            height as int,
            stride as int,
        ),
        final(dst)@.len() == old(dst)@.len(),
{
    if w == 0 || height == 0 {
        proof {
            assert forall|j: int| 0 <= j < dst@.len() && stride > 0 implies 0 <= #[trigger] (j / (
            stride as int)) by {
                vstd::arithmetic::div_mod::lemma_div_pos_is_pos(j, stride as int);
            }
        }
        assert(dst@ =~= with_strip(
            old(dst)@,
            strip@,
            x0 as int,
            w as int,
            height as int,
            stride as int,
        ));
        return;
    }
    let len: usize = dst.len();
    let n: usize = strip.len();
    let ghost target = with_strip(
        dst@,
        strip@,
        x0 as int,
        w as int,
        height as int,
        stride as int,
    );
    let mut row: usize = 0;
    let mut at: usize = x0;
    let mut src: usize = 0;
    assert(0 * stride == 0) by (nonlinear_arith);
    proof {
        assert forall|j: int| 0 <= j < len implies 0 <= #[trigger] (j / (stride as int)) by {
            vstd::arithmetic::div_mod::lemma_div_pos_is_pos(j, stride as int);
        }
    }
    while row < height
        invariant
            row <= height,
            len == dst@.len(),
            len == old(dst)@.len(),
            n == strip@.len(),
            x0 + w <= stride,
            w > 0,
            stride > 0,
            height > 0,
            (height - 1) * stride + x0 + w <= len,
            (height - 1) * 0xb0 + w <= n,
            row < height ==> at == row * stride + x0,
            src == row * 0xb0 || row == height,
            target == with_strip(
                old(dst)@,
                strip@,
                x0 as int,
                w as int,
                height as int,
                stride as int,
            ),
            forall|j: int|
                0 <= j < len ==> #[trigger] dst@[j] == if j / (stride as int) < row {
                    target[j]
                } else {
                    old(dst)@[j]
                },
            forall|j: int| 0 <= j < len ==> 0 <= #[trigger] (j / (stride as int)),
        decreases height - row,
    {
        proof {
            assert(row * stride <= (height - 1) * stride) by (nonlinear_arith)
                requires
                    row <= height - 1,
                    stride >= 0,
            ;
        }
        let mut c: usize = 0;
        while c < w
            invariant
                c <= w,
                row < height,
                len == dst@.len(),
                len == old(dst)@.len(),
                n == strip@.len(),
                x0 + w <= stride,
                w > 0,
                stride > 0,
                (height - 1) * stride + x0 + w <= len,
                (height - 1) * 0xb0 + w <= n,
                row * stride <= (height - 1) * stride,
                at == row * stride + x0,
                src == row * 0xb0,
                target == with_strip(
                    old(dst)@,
                    strip@,
                    x0 as int,
                    w as int,
                    height as int,
                    stride as int,
                ),
                forall|j: int|
                    0 <= j < len ==> #[trigger] dst@[j] == if j / (stride as int) < row || (j / (
                    stride as int) == row && j % (stride as int) < x0 + c) {
                        target[j]
                    } else {
                        old(dst)@[j]
                    },
            decreases w - c,
        {
            proof {
                lemma_raster_index(row as int, (x0 + c) as int, stride as int);
                assert forall|j: int|
                    0 <= j < len && #[trigger] (j / (stride as int)) == row && j % (stride as int)
                        == x0 + c implies j == at + c by {
                    vstd::arithmetic::div_mod::lemma_fundamental_div_mod(j, stride as int);
                    assert(stride * row == row * stride) by (nonlinear_arith);
                }
            }
            dst[at + c] = upshift_7bit_to_8bit(strip[src + c]);
            c = c + 1;
        }
        proof {
            assert((row + 1) * stride == row * stride + stride) by (nonlinear_arith);
            if row + 1 < height {
                assert((row + 1) * stride <= (height - 1) * stride) by (nonlinear_arith)
                    requires
                        row + 1 <= height - 1,
                        stride >= 0,
                ;
            }
        }
        row = row + 1;
        if row < height {
            at = at + stride;
            src = src + 0xb0;
        }
    }
    assert(dst@ =~= target);
}

proof fn lemma_raster_index(row: int, x: int, stride: int)
    requires
        0 <= row,
        0 <= x < stride,
    ensures
        (row * stride + x) / stride == row,
        (row * stride + x) % stride == x,
{
    vstd::arithmetic::div_mod::lemma_fundamental_div_mod_converse(row * stride + x, stride, row, x);
}

/// Assemble one output plane from its decoded strips: left to right, each
/// strip's visible pixels upshifted into its columns. Bytes of `dst`
/// outside the plane's raster are left untouched. Gives the number of
/// pixels written.
pub fn assemble_plane_if09(
    geometry: &StripGeometry,
    strips: &[&[u8]],
    dst: &mut [u8],
    dst_stride: usize,
) -> (r: Result<usize, PlaneAssembleError>)
    requires
        strips@.len() == geometry.strip_count ==> geometry.total_width() <= u32::MAX,
        strips@.len() == geometry.strip_count && geometry.total_width() == geometry.plane_width
            && geometry.plane_width <= dst_stride ==> assembly_fits(*geometry, dst_stride as int),
    ensures
        final(dst)@.len() == old(dst)@.len(),
        ({
            let end = assembly(old(dst)@, *geometry, slice_seqs(strips@), dst_stride as int);
            &&& final(dst)@ == end.dst
            &&& match r {
                Ok(n) => end.error is None && n == end.written,
                Err(e) => end.error == Some(e),
            }
        }),
{
    let supplied: usize = strips.len();
    if supplied as u64 != geometry.strip_count as u64 {
        return Err(
            PlaneAssembleError::StripCountMismatch { expected: geometry.strip_count, supplied },
        );
    }
    let count: u32 = geometry.strip_count;
    proof {
        if count > 0 {
            assert(0 <= (count - 1) * geometry.strip_width) by (nonlinear_arith)
                requires
                    count >= 1,
                    geometry.strip_width >= 0,
            ;
        }
    }
    let widths_total: u32 = if count == 0 {
        0
    } else {
        (count - 1) * geometry.strip_width + geometry.last_strip_width
    };
    if widths_total != geometry.plane_width {
        return Err(
            PlaneAssembleError::StripWidthSumMismatch {
                plane_width: geometry.plane_width,
                widths_total,
            },
        );
    }
    let plane_width: usize = geometry.plane_width as usize;
    let height: usize = geometry.plane_height as usize;
    if plane_width > dst_stride {
        return Err(
            PlaneAssembleError::DstStrideTooNarrow {
                plane_width: geometry.plane_width,
                dst_stride,
            },
        );
    }
    proof {
        if height > 0 {
            assert(0 <= (height - 1) * dst_stride) by (nonlinear_arith)
                requires
                    height >= 1,
                    dst_stride >= 0,
            ;
        }
    }
    let dst_required: usize = if height == 0 || plane_width == 0 {
        0
    } else {
        (height - 1) * dst_stride + plane_width
    };
    if dst.len() < dst_required {
        return Err(
            PlaneAssembleError::DstBufferTooShort { required: dst_required, supplied: dst.len() },
        );
    }
    let ghost seqs = slice_seqs(strips@);
    let ghost end = assembly(dst@, *geometry, seqs, dst_stride as int);
    let ghost len = dst@.len();
    let mut x0: usize = 0;
    let mut written: usize = 0;
    let mut i: u32 = 0;
    assert(0 * geometry.strip_width == 0 && 0 * height == 0) by (nonlinear_arith);
    while i < count
        invariant
            i <= count,
            count == geometry.strip_count,
            strips@.len() == count,
            seqs == slice_seqs(strips@),
            plane_width == geometry.plane_width,
            height == geometry.plane_height,
            plane_width <= dst_stride,
            geometry.total_width() == plane_width,
            assembly_fits(*geometry, dst_stride as int),
            dst@.len() == len,
            len == old(dst)@.len(),
            raster_bytes(plane_width as int, height as int, dst_stride as int) <= len,
            i < count ==> x0 == i * geometry.strip_width,
            i == count ==> x0 == plane_width,
            written == x0 * height,
            end == assembly(old(dst)@, *geometry, seqs, dst_stride as int),
            end == assembled(
                dst@,
                *geometry,
                seqs,
                dst_stride as int,
                i as int,
                x0 as int,
                written as int,
            ),
        decreases count - i,
    {
        let strip_width: u32 = geometry.strip_width_at(i);
        let w: usize = strip_width as usize;
        let strip_index: usize = i as usize;
        let strip: &[u8] = strips[strip_index];
        assert(strip@ == seqs[i as int]);
        if w > FRAME_OUTPUT_SRC_ROW_STRIDE {
            return Err(
                PlaneAssembleError::StripWidthExceedsRowStride { strip_index, strip_width },
            );
        }
        let required: usize = strip_min_buffer_bytes(strip_width, geometry.plane_height);
        if strip.len() < required {
            return Err(
                PlaneAssembleError::StripBufferTooShort {
                    strip_index,
                    required,
                    supplied: strip.len(),
                },
            );
        }
        proof {
            let sw = geometry.strip_width as int;
            if i + 1 < count {
                assert((i + 1) * sw == i * sw + sw && (i + 1) * sw <= (count - 1) * sw)
                    by (nonlinear_arith)
                    requires
                        i + 1 <= count - 1,
                        sw >= 0,
                ;
            }
            assert(x0 + w <= plane_width);
            samples_fit_their_raster(plane_width as int, height as int, dst_stride as int);
            assert((x0 + w) * height == x0 * height + w * height && (x0 + w) * height
                <= plane_width * height) by (nonlinear_arith)
                requires
                    x0 + w <= plane_width,
                    height >= 0,
            ;
            assert(0 <= w * height && 0 <= x0 * height) by (nonlinear_arith)
                requires
                    w >= 0,
                    x0 >= 0,
                    height >= 0,
            ;
        }
        write_strip(dst, strip, x0, w, height, dst_stride);
        x0 = x0 + w;
        written = written + w * height;
        i = i + 1;
    }
    Ok(written)
}

/// Strip `i` of a geometry whose widths sum to the plane width lies
/// inside the plane, and strip `i + 1` begins where it ends.
proof fn lemma_strip_in_plane(g: StripGeometry, i: int)
    requires
        g.total_width() == g.plane_width,
        0 <= i < g.strip_count,
    ensures
        0 <= g.left_of(i),
        g.left_of(i) + g.width_of(i) <= g.plane_width,
        i + 1 < g.strip_count ==> g.left_of(i + 1) == g.left_of(i) + g.width_of(i),
        i + 1 == g.strip_count ==> g.left_of(i) + g.width_of(i) == g.plane_width,
{
    let w = g.strip_width as int;
    assert(0 <= i * w) by (nonlinear_arith)
        requires
            i >= 0,
            w >= 0,
    ;
    assert((i + 1) * w == i * w + w) by (nonlinear_arith);
    if i + 1 < g.strip_count {
        assert((i + 1) * w <= (g.strip_count - 1) * w) by (nonlinear_arith)
            requires
                i + 1 <= g.strip_count - 1,
                w >= 0,
        ;
    }
}

/// Writing the strips from strip `i` on keeps every byte outside their
/// columns and rows.
proof fn lemma_assembled_keeps(
    dst: Seq<u8>,
    g: StripGeometry,
    strips: Seq<Seq<u8>>,
    stride: int,
    i: int,
    x0: int,
    written: int,
    j: int,
)
    requires
        g.total_width() == g.plane_width,
        0 <= i <= g.strip_count,
        i < g.strip_count ==> x0 == g.left_of(i),
        0 <= j < dst.len(),
        j / stride >= g.plane_height || j % stride < x0 || j % stride >= g.plane_width,
    ensures
        assembled(dst, g, strips, stride, i, x0, written).dst.len() == dst.len(),
        assembled(dst, g, strips, stride, i, x0, written).dst[j] == dst[j],
    decreases g.strip_count - i,
{
    if i < g.strip_count && strip_fault(g, strips, i) is None {
        lemma_strip_in_plane(g, i);
        let w = g.width_of(i);
        let next = with_strip(dst, strips[i], x0, w, g.plane_height as int, stride);
        assert(next[j] == dst[j]);
        lemma_assembled_keeps(
            next,
            g,
            strips,
            stride,
            i + 1,
            x0 + w,
            written + w * g.plane_height,
            j,
        );
    }
}

/// Writing the strips from strip `i` on, without a fault, puts every
/// sample of strip `k` in its place.
proof fn lemma_assembled_places(
    dst: Seq<u8>,
    g: StripGeometry,
    strips: Seq<Seq<u8>>,
    stride: int,
    i: int,
    x0: int,
    written: int,
    k: int,
    c: int,
    y: int,
)
    requires
        g.total_width() == g.plane_width,
        g.plane_width <= stride,
        raster_bytes(g.plane_width as int, g.plane_height as int, stride) <= dst.len(),
        0 <= i <= k < g.strip_count,
        x0 == g.left_of(i),
        0 <= c < g.width_of(k),
        0 <= y < g.plane_height,
        assembled(dst, g, strips, stride, i, x0, written).error is None,
    ensures
        0 <= y * stride + g.left_of(k) + c < dst.len(),
        assembled(dst, g, strips, stride, i, x0, written).dst[y * stride + g.left_of(k) + c]
            == upshifted(strips[k][y * 0xb0 + c]),
    decreases g.strip_count - i,
{
    lemma_strip_in_plane(g, i);
    lemma_strip_in_plane(g, k);
    let w = g.width_of(i);
    let next = with_strip(dst, strips[i], x0, w, g.plane_height as int, stride);
    let j = y * stride + g.left_of(k) + c;
    let h = g.plane_height as int;
    lemma_raster_index(y, g.left_of(k) + c, stride);
    assert(y * stride <= (h - 1) * stride && 0 <= y * stride) by (nonlinear_arith)
        requires
            0 <= y <= h - 1,
            stride >= 0,
    ;
    if i == k {
        assert(next[j] == upshifted(strips[k][y * 0xb0 + c]));
        lemma_assembled_keeps(
            next,
            g,
            strips,
            stride,
            i + 1,
            x0 + w,
            written + w * g.plane_height,
            j,
        );
    } else {
        lemma_assembled_places(
            next,
            g,
            strips,
            stride,
            i + 1,
            x0 + w,
            written + w * g.plane_height,
            k,
            c,
            y,
        );
    }
}

/// A plane that assembles holds, at every row and column of every strip,
/// that strip's sample, upshifted; strip `k` begins at column
/// `k * strip_width`.
pub proof fn assembly_places_every_sample(
    dst: Seq<u8>,
    g: StripGeometry,
    strips: Seq<Seq<u8>>,
    stride: int,
    k: int,
    c: int,
    y: int,
)
    requires
        assembly(dst, g, strips, stride).error is None,
        0 <= k < g.strip_count,
        0 <= c < g.width_of(k),
        0 <= y < g.plane_height,
    ensures
        0 <= y * stride + g.left_of(k) + c < dst.len(),
        assembly(dst, g, strips, stride).dst[y * stride + g.left_of(k) + c] == upshifted(
            strips[k][y * 0xb0 + c],
        ),
{
    assert(g.left_of(0) == 0) by (nonlinear_arith)
        requires
            g.left_of(0) == 0 * g.strip_width,
    ;
    lemma_assembled_places(dst, g, strips, stride, 0, 0, 0, k, c, y);
}

/// Whatever its outcome, an assembly leaves the bytes outside the plane's
/// rows and columns as they were.
pub proof fn assembly_stays_in_the_raster(
    dst: Seq<u8>,
    g: StripGeometry,
    strips: Seq<Seq<u8>>,
    stride: int,
    j: int,
)
    requires
        0 <= j < dst.len(),
        j / stride >= g.plane_height || j % stride >= g.plane_width,
    ensures
        assembly(dst, g, strips, stride).dst[j] == dst[j],
{
    assert(g.left_of(0) == 0) by (nonlinear_arith)
        requires
            g.left_of(0) == 0 * g.strip_width,
    ;
    if layout_fault(g, strips.len() as int, dst.len() as int, stride) is None {
        lemma_assembled_keeps(dst, g, strips, stride, 0, 0, 0, j);
    }
}

/// The pixels written by the strips from strip `i` on.
proof fn lemma_assembled_counts(
    dst: Seq<u8>,
    g: StripGeometry,
    strips: Seq<Seq<u8>>,
    stride: int,
    i: int,
    x0: int,
    written: int,
)
    requires
        g.total_width() == g.plane_width,
        0 <= i <= g.strip_count,
        x0 == if i < g.strip_count { g.left_of(i) } else { g.plane_width as int },
        assembled(dst, g, strips, stride, i, x0, written).error is None,
    ensures
        assembled(dst, g, strips, stride, i, x0, written).written == written + (g.plane_width - x0)
            * g.plane_height,
    decreases g.strip_count - i,
{
    if i < g.strip_count {
        lemma_strip_in_plane(g, i);
        let w = g.width_of(i);
        let h = g.plane_height as int;
        let left = g.plane_width - x0;
        lemma_assembled_counts(
            with_strip(dst, strips[i], x0, w, h, stride),
            g,
            strips,
            stride,
            i + 1,
            x0 + w,
            written + w * h,
        );
        assert(w * h + (left - w) * h == left * h) by (nonlinear_arith);
    } else {
        assert(0 * g.plane_height == 0) by (nonlinear_arith);
    }
}

/// A plane that assembles reports as many pixels as it has.
pub proof fn assembly_counts_its_pixels(
    dst: Seq<u8>,
    g: StripGeometry,
    strips: Seq<Seq<u8>>,
    stride: int,
)
    requires
        assembly(dst, g, strips, stride).error is None,
    ensures
        assembly(dst, g, strips, stride).written == g.plane_width * g.plane_height,
{
    assert(g.left_of(0) == 0) by (nonlinear_arith)
        requires
            g.left_of(0) == 0 * g.strip_width,
    ;
    lemma_assembled_counts(dst, g, strips, stride, 0, 0, 0);
}

/// Why a chroma plane cannot be upsampled.
#[derive(Debug, Clone, Copy, PartialEq, Eq, Structural)]
pub enum ChromaUpsampleError {
    /// The source stride is narrower than the plane.
    SrcStrideTooNarrow {
        /// The plane width.
        width: u32,
        /// The source stride.
        src_stride: usize,
    },
    /// The source buffer is too short.
    SrcBufferTooShort {
        /// Bytes required.
        required: usize,
        /// Bytes supplied.
        supplied: usize,
    },
    /// The output stride is narrower than the upsampled plane.
    DstStrideTooNarrow {
        /// The upsampled width.
        width: usize,
        /// The output stride.
        dst_stride: usize,
    },
    /// The output buffer is too short.
    DstBufferTooShort {
        /// Bytes required.
        required: usize,
        /// Bytes supplied.
        supplied: usize,
    },
}

impl ChromaUpsampleError {
    /// The message of the error.
    pub open spec fn text(self) -> Seq<char> {
        match self {
            ChromaUpsampleError::SrcStrideTooNarrow { width, src_stride } => "chroma row stride "@
                + decimal(src_stride as int) + " is narrower than the plane width "@ + decimal(
                width as int,
            ),
            ChromaUpsampleError::SrcBufferTooShort { required, supplied } =>
                "chroma plane has "@ + decimal(supplied as int) + " byte(s); "@ + decimal(
                required as int,
            ) + " required"@,
            ChromaUpsampleError::DstStrideTooNarrow { width, dst_stride } =>
                "upsampled row stride "@ + decimal(dst_stride as int)
                + " is narrower than the upsampled width "@ + decimal(width as int),
            ChromaUpsampleError::DstBufferTooShort { required, supplied } =>
                "upsampled plane has "@ + decimal(supplied as int) + " byte(s); "@ + decimal(
                required as int,
            ) + " required"@,
        }
    }

    /// The message of the error.
    pub fn message(&self) -> (r: String)
        ensures
            r@ == self.text(),
    {
        match self {
            ChromaUpsampleError::SrcStrideTooNarrow { width, src_stride } => {
                let mut out = String::from_str("chroma row stride ");
                push_decimal(&mut out, *src_stride);
                out.append(" is narrower than the plane width ");
                push_decimal(&mut out, *width as usize);
                out
            },
            ChromaUpsampleError::SrcBufferTooShort { required, supplied } => {
                let mut out = String::from_str("chroma plane has ");
                push_decimal(&mut out, *supplied);
                out.append(" byte(s); ");
                push_decimal(&mut out, *required);
                out.append(" required");
                out
            },
            ChromaUpsampleError::DstStrideTooNarrow { width, dst_stride } => {
                let mut out = String::from_str("upsampled row stride ");
                push_decimal(&mut out, *dst_stride);
                out.append(" is narrower than the upsampled width ");
                push_decimal(&mut out, *width);
                out
            },
            ChromaUpsampleError::DstBufferTooShort { required, supplied } => {
                let mut out = String::from_str("upsampled plane has ");
                push_decimal(&mut out, *supplied);
                out.append(" byte(s); ");
                push_decimal(&mut out, *required);
                out.append(" required");
                out
            },
        }
    }
}

/// Why a chroma plane cannot be upsampled.
pub open spec fn upsample_fault(
    src: int,
    width: u32,
    height: u32,
    src_stride: int,
    dst: int,
    dst_stride: int,
) -> Option<ChromaUpsampleError> {
    let src_required = raster_bytes(width as int, height as int, src_stride);
    let dst_required = raster_bytes(width * 4, height * 4, dst_stride);
    if width > src_stride {
        Some(
            ChromaUpsampleError::SrcStrideTooNarrow { width, src_stride: src_stride as usize },
        )
    } else if src < src_required {
        Some(
            ChromaUpsampleError::SrcBufferTooShort {
                required: src_required as usize,
                supplied: src as usize,
            },
        )
    } else if width * 4 > dst_stride {
        Some(
            ChromaUpsampleError::DstStrideTooNarrow {
                width: (width * 4) as usize,
                dst_stride: dst_stride as usize,
            },
        )
    } else if dst < dst_required {
        Some(
            ChromaUpsampleError::DstBufferTooShort {
                required: dst_required as usize,
                supplied: dst as usize,
            },
        )
    } else {
        None
    }
}

/// An output raster with each chroma sample replicated into a block of
/// four by four.
pub open spec fn upsampled(
    src: Seq<u8>,
    width: int,
    height: int,
    src_stride: int,
    dst: Seq<u8>,
    dst_stride: int,
) -> Seq<u8> {
    Seq::new(
        dst.len(),
        |j: int|
            if dst_stride > 0 && j / dst_stride < height * 4 && j % dst_stride < width * 4 {
                src[j / dst_stride / 4 * src_stride + j % dst_stride / 4]
            } else {
                dst[j]
            },
    )
}

/// Box-upsample a chroma plane by four in both directions: every sample
/// becomes a block of four by four equal samples, with no interpolation.
/// Bytes of `dst` outside the upsampled raster are left untouched, and a
/// refused call writes nothing. Gives the number of samples written.
pub fn upsample_chroma_4x4(
    src: &[u8],
    width: u32,
    height: u32,
    src_stride: usize,
    dst: &mut [u8],
    dst_stride: usize,
) -> (r: Result<usize, ChromaUpsampleError>)
    requires
        width <= src_stride ==> raster_bytes(width as int, height as int, src_stride as int)
            <= usize::MAX,
        width * 4 <= usize::MAX,
        width * 4 <= dst_stride ==> raster_bytes(width * 4, height * 4, dst_stride as int)
            <= usize::MAX,
    ensures
        final(dst)@.len() == old(dst)@.len(),
        ({
            let fault = upsample_fault(
                src@.len() as int,
                width,
                height,
                src_stride as int,
                old(dst)@.len() as int,
                dst_stride as int,
            );
            match r {
                Ok(n) => {
                    &&& fault is None
                    &&& n == (width * 4) * (height * 4)
                    &&& final(dst)@ == upsampled(
                        src@,
                        width as int,
                        height as int,
                        src_stride as int,
                        old(dst)@,
                        dst_stride as int,
                    )
                },
                Err(e) => fault == Some(e) && final(dst)@ == old(dst)@,
            }
        }),
{
    let w: usize = width as usize;
    let h: usize = height as usize;
    if w > src_stride {
        return Err(ChromaUpsampleError::SrcStrideTooNarrow { width, src_stride });
    }
    proof {
        if h > 0 {
            assert(0 <= (h - 1) * src_stride) by (nonlinear_arith)
                requires
                    h >= 1,
                    src_stride >= 0,
            ;
        }
    }
    let src_required: usize = if w == 0 || h == 0 {
        0
    } else {
        (h - 1) * src_stride + w
    };
    if src.len() < src_required {
        return Err(
            ChromaUpsampleError::SrcBufferTooShort { required: src_required, supplied: src.len() },
        );
    }
    let up_w: usize = w * 4;
    if up_w > dst_stride {
        return Err(ChromaUpsampleError::DstStrideTooNarrow { width: up_w, dst_stride });
    }
    if w == 0 || h == 0 {
        proof {
            assert forall|j: int| 0 <= j < dst@.len() && dst_stride > 0 implies 0 <= #[trigger] (j
                / (dst_stride as int)) && 0 <= j % (dst_stride as int) by {
                vstd::arithmetic::div_mod::lemma_div_pos_is_pos(j, dst_stride as int);
                vstd::arithmetic::div_mod::lemma_mod_bound(j, dst_stride as int);
            }
            assert((w * 4) * (h * 4) == 0) by (nonlinear_arith)
                requires
                    w == 0 || h == 0,
            ;
        }
        assert(dst@ =~= upsampled(
            src@,
            w as int,
            h as int,
            src_stride as int,
            dst@,
            dst_stride as int,
        ));
        return Ok(0);
    }
    proof {
        assert(h * 4 - 1 <= (h * 4 - 1) * dst_stride) by (nonlinear_arith)
            requires
                h >= 1,
                dst_stride >= 1,
        ;
        samples_fit_their_raster(w * 4, h * 4, dst_stride as int);
    }
    let up_h: usize = h * 4;
    let dst_required: usize = (up_h - 1) * dst_stride + up_w;
    if dst.len() < dst_required {
        return Err(
            ChromaUpsampleError::DstBufferTooShort { required: dst_required, supplied: dst.len() },
        );
    }
    replicate(src, w, h, src_stride, dst, dst_stride);
    Ok(up_w * up_h)
}

/// Write the replicated samples, row by row.
fn replicate(
    src: &[u8],
    w: usize,
    h: usize,
    src_stride: usize,
    dst: &mut [u8],
    dst_stride: usize,
)
    requires
        w <= src_stride,
        w * 4 <= dst_stride,
        h * 4 <= usize::MAX,
        raster_bytes(w as int, h as int, src_stride as int) <= src@.len(),
        raster_bytes(w * 4, h * 4, dst_stride as int) <= old(dst)@.len(),
    ensures
        final(dst)@.len() == old(dst)@.len(),
        final(dst)@ == upsampled(
            src@,
            w as int,
            h as int,
            src_stride as int,
            old(dst)@,
            dst_stride as int,
        ),
{
    let len: usize = dst.len();
    let n: usize = src.len();
    let ghost target = upsampled(
        src@,
        w as int,
        h as int,
        src_stride as int,
        dst@,
        dst_stride as int,
    );
    proof {
        assert forall|j: int| 0 <= j < len && dst_stride > 0 implies 0 <= #[trigger] (j / (
        dst_stride as int)) by {
            vstd::arithmetic::div_mod::lemma_div_pos_is_pos(j, dst_stride as int);
        }
        assert forall|j: int| 0 <= j < len && dst_stride > 0 implies 0 <= #[trigger] (j % (
        dst_stride as int)) by {
            vstd::arithmetic::div_mod::lemma_mod_bound(j, dst_stride as int);
        }
    }
    if w == 0 || h == 0 {
        assert(dst@ =~= target);
        return;
    }
    let mut row: usize = 0;
    while row < h * 4
        invariant
            row <= h * 4,
            0 < w <= src_stride,
            w * 4 <= dst_stride,
            0 < h,
            h * 4 <= usize::MAX,
            n == src@.len(),
            len == dst@.len(),
            len == old(dst)@.len(),
            (h - 1) * src_stride + w <= n,
            (h * 4 - 1) * dst_stride + w * 4 <= len,
            target == upsampled(
                src@,
                w as int,
                h as int,
                src_stride as int,
                old(dst)@,
                dst_stride as int,
            ),
            forall|j: int| 0 <= j < len ==> 0 <= #[trigger] (j / (dst_stride as int)),
            forall|j: int|
                0 <= j < len ==> #[trigger] dst@[j] == if j / (dst_stride as int) < row {
                    target[j]
                } else {
                    old(dst)@[j]
                },
        decreases h * 4 - row,
    {
        let src_row: usize = row / 4;
        proof {
            assert(0 <= row * dst_stride <= (h * 4 - 1) * dst_stride) by (nonlinear_arith)
                requires
                    0 <= row <= h * 4 - 1,
                    dst_stride >= 0,
            ;
            assert(0 <= src_row * src_stride <= (h - 1) * src_stride) by (nonlinear_arith)
                requires
                    0 <= src_row <= h - 1,
                    src_stride >= 0,
            ;
        }
        let at: usize = row * dst_stride;
        let from: usize = src_row * src_stride;
        let mut c: usize = 0;
        while c < w * 4
            invariant
                c <= w * 4,
                row < h * 4,
                0 < w <= src_stride,
                w * 4 <= dst_stride,
                n == src@.len(),
                len == dst@.len(),
                len == old(dst)@.len(),
                from == src_row * src_stride,
                src_row == row / 4,
                from + w <= n,
                at == row * dst_stride,
                at + w * 4 <= len,
                target == upsampled(
                    src@,
                    w as int,
                    h as int,
                    src_stride as int,
                    old(dst)@,
                    dst_stride as int,
                ),
                forall|j: int|
                    0 <= j < len ==> #[trigger] dst@[j] == if j / (dst_stride as int) < row || (j
                        / (dst_stride as int) == row && j % (dst_stride as int) < c) {
                        target[j]
                    } else {
                        old(dst)@[j]
                    },
            decreases w * 4 - c,
        {
            proof {
                lemma_raster_index(row as int, c as int, dst_stride as int);
                assert forall|j: int|
                    0 <= j < len && #[trigger] (j / (dst_stride as int)) == row && j % (
                    dst_stride as int) == c implies j == at + c by {
                    vstd::arithmetic::div_mod::lemma_fundamental_div_mod(j, dst_stride as int);
                    assert(dst_stride * row == row * dst_stride) by (nonlinear_arith);
                }
            }
            dst[at + c] = src[from + c / 4];
            c = c + 1;
        }
        row = row + 1;
    }
    assert(dst@ =~= target);
}

/// Every chroma sample fills its block of four by four.
pub proof fn upsampling_fills_blocks(
    src: Seq<u8>,
    width: u32,
    height: u32,
    src_stride: int,
    dst: Seq<u8>,
    dst_stride: int,
    x: int,
    y: int,
)
    requires
        upsample_fault(
            src.len() as int,
            width,
            height,
            src_stride,
            dst.len() as int,
            dst_stride,
        ) is None,
        0 <= x < width * 4,
        0 <= y < height * 4,
    ensures
        0 <= y * dst_stride + x < dst.len(),
        upsampled(src, width as int, height as int, src_stride, dst, dst_stride)[y * dst_stride + x]
            == src[(y / 4) * src_stride + x / 4],
{
    lemma_raster_index(y, x, dst_stride);
    assert(0 <= y * dst_stride <= (height * 4 - 1) * dst_stride) by (nonlinear_arith)
        requires
            0 <= y <= height * 4 - 1,
            dst_stride >= 0,
    ;
}

} // verus!
