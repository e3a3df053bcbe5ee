//! The picture layer: plane indices, motion vectors and the per-plane
//! preludes.
use super::bytes::{dword_at, read_dword};
use super::header::{FrameFlags, FrameHeader, FRAME_HEADER_LEN};
use super::strip_context::{bank_slot, strip_slot_index, PlaneRole, StripGeometry};
use super::text::{decimal, push_decimal};
use super::vq::{sign_extend, signed_byte};
use vstd::prelude::*;
use vstd::string::StringExecFns;

verus! {

/// Number of planes of a picture.
pub const PLANE_COUNT: usize = 3;

/// Plane index of Y.
pub const PLANE_IDX_Y: usize = 0;

/// Plane index of V.
pub const PLANE_IDX_V: usize = 1;

/// Plane index of U.
pub const PLANE_IDX_U: usize = 2;

/// Bytes of the vector count at the start of a plane.
pub const NUM_VECTORS_FIELD_LEN: usize = 4;

/// Bytes of one motion-vector entry.
pub const MC_VECTOR_ENTRY_LEN: usize = 2;

/// Bytes of the shortest plane prelude.
pub const MIN_PRELUDE_LEN: usize = 4;

/// One motion vector: whole-pixel components and the half-pixel flags.
#[derive(Debug, Clone, Copy, PartialEq, Eq, Structural)]
pub struct MotionVector {
    /// Whole rows down.
    pub vert: i8,
    /// Whole columns right.
    pub horiz: i8,
    /// Half a row further down.
    pub vert_half: bool,
    /// Half a column further right.
    pub horiz_half: bool,
}

impl MotionVector {
    /// The byte offset of the whole-pixel part in a strip buffer.
    pub open spec fn offset(self) -> int {
        0xb0 * self.vert + self.horiz
    }

    /// The packed form of the vector.
    pub open spec fn packed(self) -> int {
        4 * self.offset() + if self.horiz_half {
            2int
        } else {
            0
        } + if self.vert_half {
            1int
        } else {
            0
        }
    }

    /// The vector of a table entry: each component is in half pixels where
    /// its flag is set, in whole pixels otherwise.
    pub open spec fn of_entry(vert: i8, horiz: i8, half_vert: bool, half_horiz: bool) -> Self {
        MotionVector {
            vert: (if half_vert {
                vert as int / 2
            } else {
                vert as int
            }) as i8,
            horiz: (if half_horiz {
                horiz as int / 2
            } else {
                horiz as int
            }) as i8,
            vert_half: half_vert && vert as int % 2 == 1,
            horiz_half: half_horiz && horiz as int % 2 == 1,
        }
    }

    /// Decode one table entry.
    pub fn from_entry(vert: i8, horiz: i8, half_vert: bool, half_horiz: bool) -> (r: Self)
        ensures
            r == Self::of_entry(vert, horiz, half_vert, half_horiz),
    {
        let (v, vh) = if half_vert {
            halve(vert)
        } else {
            (vert, false)
        };
        let (h, hh) = if half_horiz {
            halve(horiz)
        } else {
            (horiz, false)
        };
        MotionVector { vert: v, horiz: h, vert_half: vh, horiz_half: hh }
    }

    /// The packed form: the byte offset above the two half-pixel bits,
    /// bit 0 the vertical one and bit 1 the horizontal one.
    pub fn packed_mv(&self) -> (r: i32)
        ensures
            r == self.packed(),
    {
        let mut r: i32 = 4 * (0xb0 * self.vert as i32 + self.horiz as i32);
        if self.horiz_half {
            r = r + 2;
        }
        if self.vert_half {
            r = r + 1;
        }
        r
    }

    /// The packed form determines the byte offset and the two flags.
    pub proof fn packing_is_faithful(self)
        ensures
            self.packed() / 4 == self.offset(),
            self.packed() % 2 == 1 <==> self.vert_half,
            self.packed() / 2 % 2 == 1 <==> self.horiz_half,
    {
    }
}

/// A component in half pixels as whole pixels, rounded down, and whether
/// half a pixel is left.
fn halve(v: i8) -> (r: (i8, bool))
    ensures
        r.0 == v as int / 2,
        r.1 == (v as int % 2 == 1),
{
    let w: i16 = v as i16 + 256;
    ((w / 2 - 128) as i8, w % 2 == 1)
}

/// Why a picture layer is rejected.
#[derive(Debug, Clone, Copy, PartialEq, Eq, Structural)]
pub enum PictureLayerError {
    /// A plane's vector count lies outside the buffer.
    PlaneOutOfRange {
        /// Plane index.
        plane_idx: usize,
        /// The plane's offset.
        plane_offset: u32,
        /// Bytes of the buffer.
        available: usize,
    },
    /// A plane's motion-vector table runs past the buffer.
    VectorsOutOfRange {
        /// Plane index.
        plane_idx: usize,
        /// The plane's vector count.
        num_vectors: u32,
        /// Bytes of the buffer.
        available: usize,
    },
}

impl PictureLayerError {
    /// The message of the error.
    pub open spec fn text(self) -> Seq<char> {
        match self {
            PictureLayerError::PlaneOutOfRange { plane_idx, plane_offset, available } => "plane "@
                + decimal(plane_idx as int) + " offset "@ + decimal(plane_offset as int)
                + " lies outside the "@ + decimal(available as int) + "-byte buffer"@,
            PictureLayerError::VectorsOutOfRange { plane_idx, num_vectors, available } => "plane "@
                + decimal(plane_idx as int) + " has "@ + decimal(num_vectors as int)
                + " motion vector(s), past the "@ + decimal(available as int) + "-byte buffer"@,
        }
    }

    /// The message of the error.
    pub fn message(&self) -> (r: String)
        ensures
            r@ == self.text(),
    {
        match self {
            PictureLayerError::PlaneOutOfRange { plane_idx, plane_offset, available } => {
                let mut out = String::from_str("plane ");
                push_decimal(&mut out, *plane_idx);
                out.append(" offset ");
                push_decimal(&mut out, *plane_offset as usize);
                out.append(" lies outside the ");
                push_decimal(&mut out, *available);
                out.append("-byte buffer");
                out
            },
            PictureLayerError::VectorsOutOfRange { plane_idx, num_vectors, available } => {
                let mut out = String::from_str("plane ");
                push_decimal(&mut out, *plane_idx);
                out.append(" has ");
                push_decimal(&mut out, *num_vectors as usize);
                out.append(" motion vector(s), past the ");
                push_decimal(&mut out, *available);
                out.append("-byte buffer");
                out
            },
        }
    }
}

/// The offset of a plane from the start of the bitstream header.
pub open spec fn plane_offset(header: FrameHeader, plane_idx: int) -> u32 {
    if plane_idx == 0 {
        header.bitstream.y_offset
    } else if plane_idx == 1 {
        header.bitstream.v_offset
    } else {
        header.bitstream.u_offset
    }
}

/// A plane whose offset is negative is skipped.
pub open spec fn plane_skipped(offset: u32) -> bool {
    offset >= 0x8000_0000
}

/// The first byte of a plane in the codec frame.
pub open spec fn plane_base(offset: u32) -> int {
    FRAME_HEADER_LEN + offset
}

/// The first byte of a plane's payload: after its vector count and its
/// vectors.
pub open spec fn payload_base(input: Seq<u8>, offset: u32) -> int {
    plane_base(offset) + 4 + 2 * dword_at(input, plane_base(offset))
}

/// Why the prelude of a plane is rejected.
pub open spec fn prelude_fault(input: Seq<u8>, plane_idx: int, offset: u32) -> Option<
    PictureLayerError,
> {
    let base = plane_base(offset);
    if plane_skipped(offset) {
        None
    } else if base + 4 > input.len() {
        Some(
            PictureLayerError::PlaneOutOfRange {
                plane_idx: plane_idx as usize,
                plane_offset: offset,
                available: input.len() as usize,
            },
        )
    } else if payload_base(input, offset) > input.len() {
        Some(
            PictureLayerError::VectorsOutOfRange {
                plane_idx: plane_idx as usize,
                num_vectors: dword_at(input, base) as u32,
                available: input.len() as usize,
            },
        )
    } else {
        None
    }
}

/// The vector of entry `k` of a plane.
pub open spec fn plane_vector(
    input: Seq<u8>,
    offset: u32,
    flags: FrameFlags,
    k: int,
) -> MotionVector {
    let at = plane_base(offset) + 4 + 2 * k;
    MotionVector::of_entry(
        signed_byte(input[at]) as i8,
        signed_byte(input[at + 1]) as i8,
        flags.0 / 0x0020 % 2 == 1,
        flags.0 / 0x0010 % 2 == 1,
    )
}

/// What precedes the payload of a plane.
#[derive(Debug, Clone, PartialEq, Eq)]
pub struct PlanePrelude {
    /// The first byte of the plane in the codec frame.
    pub plane_base: usize,
    /// Number of motion vectors.
    pub num_vectors: u32,
    /// The motion vectors.
    pub mc_vectors: Vec<MotionVector>,
    /// The first byte of the payload in the codec frame.
    pub payload_offset: usize,
}

impl PlanePrelude {
    /// The prelude holds what the bytes say.
    pub open spec fn describes(self, input: Seq<u8>, offset: u32, flags: FrameFlags) -> bool {
        &&& self.plane_base == plane_base(offset)
        &&& self.num_vectors == dword_at(input, plane_base(offset))
        &&& self.mc_vectors@ == Seq::new(
            self.num_vectors as nat,
            |k: int| plane_vector(input, offset, flags, k),
        )
        &&& self.payload_offset == payload_base(input, offset)
        &&& self.payload_offset <= input.len()
    }
}

/// Whether a plane is in a frame.
#[derive(Debug, Clone, PartialEq, Eq)]
pub enum PlanePresence {
    /// The plane is coded.
    Present(PlanePrelude),
    /// The plane's offset is negative.
    Skipped,
    /// The frame is a NULL frame and carries no planes.
    Absent,
}

impl PlanePresence {
    /// The record is that of a plane of the frame.
    pub open spec fn describes(self, header: FrameHeader, input: Seq<u8>, plane_idx: int) -> bool {
        let offset = plane_offset(header, plane_idx);
        if header.bitstream.is_null() {
            self is Absent
        } else if plane_skipped(offset) {
            self is Skipped
        } else {
            self matches PlanePresence::Present(p) && p.describes(
                input,
                offset,
                header.bitstream.frame_flags,
            )
        }
    }
}

/// The coded planes of a frame.
#[derive(Debug, Clone, PartialEq, Eq)]
pub struct PictureLayer {
    /// The planes Y, V and U.
    pub planes: [PlanePresence; 3],
}

/// Why a picture layer is rejected: the fault of the first plane, Y, V, U,
/// that has one.
pub open spec fn picture_fault(header: FrameHeader, input: Seq<u8>) -> Option<PictureLayerError> {
    if header.bitstream.is_null() {
        None
    } else if prelude_fault(input, 0, plane_offset(header, 0)) is Some {
        prelude_fault(input, 0, plane_offset(header, 0))
    } else if prelude_fault(input, 1, plane_offset(header, 1)) is Some {
        prelude_fault(input, 1, plane_offset(header, 1))
    } else {
        prelude_fault(input, 2, plane_offset(header, 2))
    }
}

/// Whether a plane of a frame is coded.
pub open spec fn plane_coded(header: FrameHeader, plane_idx: int) -> bool {
    !header.bitstream.is_null() && !plane_skipped(plane_offset(header, plane_idx))
}

/// The chroma extent of a luma extent: a quarter, rounded up.
pub open spec fn quarter_up(luma: int) -> int {
    (luma + 3) / 4
}

/// The extent of a plane.
pub open spec fn plane_extent(luma: int, plane_idx: int) -> int {
    if plane_idx == 0 {
        luma
    } else {
        quarter_up(luma)
    }
}

/// What decoding a plane needs to know about it.
#[derive(Debug, Clone, Copy, PartialEq, Eq, Structural)]
pub struct PlaneDecodePlan {
    /// Plane index.
    pub plane_idx: usize,
    /// Plane width in samples.
    pub plane_width: u32,
    /// Plane height in samples.
    pub plane_height: u32,
    /// The plane's strips.
    pub geometry: StripGeometry,
    /// The strip-context slot the plane decodes into.
    pub slot: usize,
    /// The first byte of the payload in the codec frame.
    pub payload_offset: usize,
    /// Number of motion vectors.
    pub num_vectors: u32,
}

impl PlaneDecodePlan {
    /// The plan of a coded plane with the given payload and number of
    /// vectors.
    pub open spec fn describes(
        self,
        header: FrameHeader,
        payload: int,
        vectors: int,
        plane_idx: int,
        selector: bool,
    ) -> bool {
        &&& self.plane_idx == plane_idx
        &&& self.plane_width == plane_extent(header.bitstream.width as int, plane_idx)
        &&& self.plane_height == plane_extent(header.bitstream.height as int, plane_idx)
        &&& self.geometry.role == if plane_idx == 0 {
            PlaneRole::Luma
        } else {
            PlaneRole::Chroma
        }
        &&& self.geometry.cuts(
            self.plane_width as int,
            self.plane_height as int,
            if plane_idx == 0 {
                160
            } else {
                40
            },
        )
        &&& self.slot == bank_slot(plane_idx, selector)
        &&& self.payload_offset == payload
        &&& self.num_vectors == vectors
    }

    /// A luma plane.
    pub fn is_luma(&self) -> (r: bool)
        ensures
            r == (self.plane_idx == PLANE_IDX_Y),
    {
        self.plane_idx == PLANE_IDX_Y
    }

    /// A chroma plane.
    pub fn is_chroma(&self) -> (r: bool)
        ensures
            r == (self.plane_idx != PLANE_IDX_Y),
    {
        self.plane_idx != PLANE_IDX_Y
    }

    /// A plane without motion vectors.
    pub fn is_intra(&self) -> (r: bool)
        ensures
            r == (self.num_vectors == 0),
    {
        self.num_vectors == 0
    }
}

impl PictureLayer {
    /// The layer is that of the frame.
    pub open spec fn describes(self, header: FrameHeader, input: Seq<u8>) -> bool {
        forall|i: int| 0 <= i < 3 ==> (#[trigger] self.planes@[i]).describes(header, input, i)
    }

    /// Parse the preludes of a frame's planes.
    pub fn parse(header: &FrameHeader, input: &[u8]) -> (r: Result<Self, PictureLayerError>)
        ensures
            match r {
                Ok(p) => picture_fault(*header, input@) is None && p.describes(*header, input@),
                Err(e) => picture_fault(*header, input@) == Some(e),
            },
    {
        if header.bitstream.is_null_frame() {
            return Ok(
                PictureLayer {
                    planes: [PlanePresence::Absent, PlanePresence::Absent, PlanePresence::Absent],
                },
            );
        }
        let flags = header.bitstream.frame_flags;
        let y = match Self::parse_plane(input, 0, header.bitstream.y_offset, flags) {
            Ok(p) => p,
            Err(e) => return Err(e),
        };
        let v = match Self::parse_plane(input, 1, header.bitstream.v_offset, flags) {
            Ok(p) => p,
            Err(e) => return Err(e),
        };
        let u = match Self::parse_plane(input, 2, header.bitstream.u_offset, flags) {
            Ok(p) => p,
            Err(e) => return Err(e),
        };
        Ok(PictureLayer { planes: [y, v, u] })
    }

    /// Parse the prelude of one plane.
    fn parse_plane(input: &[u8], plane_idx: usize, offset: u32, flags: FrameFlags) -> (r: Result<
        PlanePresence,
        PictureLayerError,
    >)
        ensures
            match r {
                Ok(p) => prelude_fault(input@, plane_idx as int, offset) is None && if plane_skipped(
                    offset,
                ) {
                    p is Skipped
                } else {
                    p matches PlanePresence::Present(q) && q.describes(input@, offset, flags)
                },
                Err(e) => prelude_fault(input@, plane_idx as int, offset) == Some(e),
            },
    {
        if offset >= 0x8000_0000 {
            return Ok(PlanePresence::Skipped);
        }
        let available: usize = input.len();
        let base: u64 = FRAME_HEADER_LEN as u64 + offset as u64;
        if base + 4 > available as u64 {
            return Err(
                PictureLayerError::PlaneOutOfRange { plane_idx, plane_offset: offset, available },
            );
        }
        let plane_base: usize = base as usize;
        let num_vectors: u32 = read_dword(input, plane_base);
        let payload: u64 = base + 4 + 2 * num_vectors as u64;
        if payload > available as u64 {
            return Err(PictureLayerError::VectorsOutOfRange { plane_idx, num_vectors, available });
        }
        let half_vert: bool = flags.mv_halfpel_vert();
        let half_horiz: bool = flags.mv_halfpel_horiz();
        let mut mc_vectors: Vec<MotionVector> = Vec::new();
        let mut k: u32 = 0;
        while k < num_vectors
            invariant
                k <= num_vectors,
                available == input@.len(),
                plane_base == self::plane_base(offset),
                plane_base + 4 + 2 * num_vectors <= available,
                half_vert == (flags.0 / 0x0020 % 2 == 1),
                half_horiz == (flags.0 / 0x0010 % 2 == 1),
                mc_vectors@ == Seq::new(
                    k as nat,
                    |j: int| plane_vector(input@, offset, flags, j),
                ),
            decreases num_vectors - k,
        {
            let at: usize = plane_base + 4 + 2 * k as usize;
            let vert: i8 = sign_extend(input[at]);
            let horiz: i8 = sign_extend(input[at + 1]);
            mc_vectors.push(MotionVector::from_entry(vert, horiz, half_vert, half_horiz));
            k = k + 1;
        }
        Ok(
            PlanePresence::Present(
                PlanePrelude { plane_base, num_vectors, mc_vectors, payload_offset: payload as usize },
            ),
        )
    }

    /// The decode plan of a coded plane; `None` for a plane that is not
    /// coded and for an index that names no plane.
    pub fn plane_decode_plan(
        &self,
        plane_idx: usize,
        header: &FrameHeader,
        buffer_selector: bool,
    ) -> (r:
        Option<PlaneDecodePlan>)
        ensures
            match r {
                Some(plan) => plane_idx < 3 && (self.planes@[plane_idx as int] matches
                    PlanePresence::Present(p) && plan.describes(
                    *header,
                    p.payload_offset as int,
                    p.num_vectors as int,
                    plane_idx as int,
                    buffer_selector,
                )),
                None => plane_idx < 3 ==> !(self.planes@[plane_idx as int] is Present),
            },
    {
        let slot: usize = match strip_slot_index(plane_idx, buffer_selector) {
            Some(s) => s,
            None => return None,
        };
        match &self.planes[plane_idx] {
            PlanePresence::Present(p) => {
                let width: u32 = header.bitstream.width as u32;
                let height: u32 = header.bitstream.height as u32;
                let (plane_width, plane_height) = if plane_idx == PLANE_IDX_Y {
                    (width, height)
                } else {
                    ((width + 3) / 4, (height + 3) / 4)
                };
                let geometry = if plane_idx == PLANE_IDX_Y {
                    StripGeometry::for_luma(plane_width, plane_height)
                } else {
                    StripGeometry::for_chroma(plane_width, plane_height)
                };
                Some(
                    PlaneDecodePlan {
                        plane_idx,
                        plane_width,
                        plane_height,
                        geometry,
                        slot,
                        payload_offset: p.payload_offset,
                        num_vectors: p.num_vectors,
                    },
                )
            },
            _ => None,
        }
    }
}

/// A byte as a signed number.
pub open spec fn as_signed(b: u8) -> int {
    if b >= 128 {
        b - 256
    } else {
        b as int
    }
}

/// One component of a vector and its half flag give the byte of its table
/// entry: in half pixels where the frame says so, in whole pixels
/// otherwise.
pub open spec fn component_of(byte: u8, in_halves: bool, whole: i8, half: bool) -> bool {
    if in_halves {
        2 * whole + if half {
            1int
        } else {
            0
        } == as_signed(byte)
    } else {
        whole == as_signed(byte) && !half
    }
}

/// A coded plane starts with its vector count, then two bytes for each
/// vector: vertical and horizontal, signed, in half pixels where bit 5
/// (vertical) or bit 4 (horizontal) of the frame flags is set. The
/// payload follows the vectors.
pub proof fn vectors_are_in_their_units(
    layer: PictureLayer,
    header: FrameHeader,
    input: Seq<u8>,
    i: int,
    k: int,
)
    requires
        layer.describes(header, input),
        0 <= i < 3,
    ensures
        ({
            let offset = if i == 0 {
                header.bitstream.y_offset
            } else if i == 1 {
                header.bitstream.v_offset
            } else {
                header.bitstream.u_offset
            };
            let base = 16 + offset;
            let flags = header.bitstream.frame_flags.0;
            match layer.planes@[i] {
                PlanePresence::Present(p) => {
                    &&& !header.bitstream.is_null()
                    &&& offset < 0x8000_0000
                    &&& p.plane_base == base
                    &&& p.num_vectors == input[base] + 0x100 * input[base + 1] + 0x1_0000
                        * input[base + 2] + 0x100_0000 * input[base + 3]
                    &&& p.mc_vectors@.len() == p.num_vectors
                    &&& p.payload_offset == base + 4 + 2 * p.num_vectors
                    &&& p.payload_offset <= input.len()
                    &&& 0 <= k < p.num_vectors ==> {
                        let v = p.mc_vectors@[k];
                        &&& component_of(
                            input[base + 4 + 2 * k],
                            flags / 32 % 2 == 1,
                            v.vert,
                            v.vert_half,
                        )
                        &&& component_of(
                            input[base + 5 + 2 * k],
                            flags / 16 % 2 == 1,
                            v.horiz,
                            v.horiz_half,
                        )
                    }
                },
                PlanePresence::Skipped => !header.bitstream.is_null() && offset >= 0x8000_0000,
                PlanePresence::Absent => header.bitstream.is_null(),
            }
        }),
{
    assert(layer.planes@[i].describes(header, input, i));
    if let PlanePresence::Present(p) = layer.planes@[i] {
        if 0 <= k < p.num_vectors {
            assert(p.mc_vectors@[k] == plane_vector(
                input,
                plane_offset(header, i),
                header.bitstream.frame_flags,
                k,
            ));
        }
    }
}

/// The entry of a vector read back: its two components and flags give the
/// bytes, and the packed form is four times the byte distance in a strip
/// of 176-byte rows, plus 2 for half a column and 1 for half a row.
pub proof fn entries_read_back(vert: i8, horiz: i8, half_vert: bool, half_horiz: bool)
    ensures
        ({
            let v = MotionVector::of_entry(vert, horiz, half_vert, half_horiz);
            &&& half_vert ==> 2 * v.vert + if v.vert_half {
                1int
            } else {
                0
            } == vert
            &&& !half_vert ==> v.vert == vert && !v.vert_half
            &&& half_horiz ==> 2 * v.horiz + if v.horiz_half {
                1int
            } else {
                0
            } == horiz
            &&& !half_horiz ==> v.horiz == horiz && !v.horiz_half
            &&& v.packed() == 4 * (176 * v.vert + v.horiz) + if v.horiz_half {
                2int
            } else {
                0
            } + if v.vert_half {
                1int
            } else {
                0
            }
        }),
{
}

/// A plane without a place for its count, or for its vectors, is refused:
/// the first such plane, Y before V before U.
pub proof fn short_planes_are_refused(header: FrameHeader, input: Seq<u8>, i: int)
    requires
        0 <= i < 3,
        !header.bitstream.is_null(),
    ensures
        ({
            let offset = if i == 0 {
                header.bitstream.y_offset
            } else if i == 1 {
                header.bitstream.v_offset
            } else {
                header.bitstream.u_offset
            };
            let base = 16 + offset;
            let count = input[base] + 0x100 * input[base + 1] + 0x1_0000 * input[base + 2]
                + 0x100_0000 * input[base + 3];
            let fault = prelude_fault(input, i, offset);
            &&& offset >= 0x8000_0000 ==> fault is None
            &&& offset < 0x8000_0000 && base + 4 > input.len() ==> fault == Some(
                PictureLayerError::PlaneOutOfRange {
                    plane_idx: i as usize,
                    plane_offset: offset,
                    available: input.len() as usize,
                },
            )
            &&& offset < 0x8000_0000 && base + 4 <= input.len() && base + 4 + 2 * count
                > input.len() ==> fault == Some(
                PictureLayerError::VectorsOutOfRange {
                    plane_idx: i as usize,
                    num_vectors: count as u32,
                    available: input.len() as usize,
                },
            )
            &&& offset < 0x8000_0000 && base + 4 + 2 * count <= input.len() ==> fault is None
            &&& picture_fault(header, input) is None ==> fault is None
            &&& i == 0 && fault is Some ==> picture_fault(header, input) == fault
            &&& i == 1 && prelude_fault(input, 0, header.bitstream.y_offset) is None && fault is Some
                ==> picture_fault(header, input) == fault
            &&& i == 2 && prelude_fault(input, 0, header.bitstream.y_offset) is None
                && prelude_fault(input, 1, header.bitstream.v_offset) is None ==> picture_fault(
                header,
                input,
            ) == fault
        }),
{
}

/// The plan of a plane: luma has the picture's size and 160-sample strips,
/// chroma a quarter of it each way, rounded up, and 40-sample strips.
pub proof fn plans_have_their_planes_size(
    plan: PlaneDecodePlan,
    header: FrameHeader,
    payload: int,
    vectors: int,
    i: int,
    selector: bool,
)
    requires
        plan.describes(header, payload, vectors, i, selector),
        0 <= i < 3,
    ensures
        ({
            let (w, h) = (header.bitstream.width as int, header.bitstream.height as int);
            &&& i == 0 ==> plan.plane_width == w && plan.plane_height == h
            &&& i > 0 ==> w <= 4 * plan.plane_width < w + 4 && h <= 4 * plan.plane_height < h + 4
            &&& plan.geometry.plane_width == plan.plane_width
            &&& plan.geometry.plane_height == plan.plane_height
            &&& plan.geometry.strip_width == if i == 0 {
                160int
            } else {
                40
            }
            &&& plan.geometry.role == PlaneRole::Luma <==> i == 0
            &&& plan.geometry.strip_count == 0 <==> plan.plane_width == 0
            &&& plan.plane_width > 0 ==> {
                &&& (plan.geometry.strip_count - 1) * plan.geometry.strip_width
                    + plan.geometry.last_strip_width == plan.plane_width
                &&& 1 <= plan.geometry.last_strip_width <= plan.geometry.strip_width
            }
            &&& plan.slot == if selector {
                i
            } else {
                i + 3
            }
            &&& plan.plane_idx == i
            &&& plan.payload_offset == payload
            &&& plan.num_vectors == vectors
        }),
{
}

} // verus!
