//! Strip geometry, the strip-context slots and the per-plane decode
//! status.
use vstd::prelude::*;

verus! {

/// Number of strip-context slots.
pub const STRIP_SLOT_COUNT: usize = 32;

/// Bytes of one strip-context slot.
pub const STRIP_SLOT_STRIDE: usize = 0x400;

/// First byte of the per-cell sub-array within a slot.
pub const CELL_SUBARRAY_BEGIN: usize = 0x40;

/// The primary bank's slots for Y, V and U.
pub const PRIMARY_BANK_SLOTS: [usize; 3] = [3, 4, 5];

/// The secondary bank's slots for Y, V and U.
pub const SECONDARY_BANK_SLOTS: [usize; 3] = [0, 1, 2];

/// The status of a plane that decoded.
pub const PLANE_DECODE_STATUS_OK: i32 = 0;

/// The status of a malformed plane.
pub const PLANE_DECODE_STATUS_MALFORMED: i32 = 3;

/// Luma strip width in pixels.
pub const LUMA_STRIP_PIXELS: u32 = 160;

/// Chroma strip width in pixels.
pub const CHROMA_STRIP_PIXELS: u32 = 40;

/// How a plane decode ended.
#[derive(Debug, Clone, Copy, PartialEq, Eq, Structural)]
pub enum PlaneDecodeStatus {
    /// The plane decoded.
    Decoded,
    /// The plane's bitstream is malformed.
    Malformed,
}

impl PlaneDecodeStatus {
    /// Whether the plane decoded.
    pub fn is_ok(self) -> (r: bool)
        ensures
            r == (self == PlaneDecodeStatus::Decoded),
    {
        matches!(self, PlaneDecodeStatus::Decoded)
    }
}

/// Luma or chroma.
#[derive(Debug, Clone, Copy, PartialEq, Eq, Structural)]
pub enum PlaneRole {
    /// The Y plane.
    Luma,
    /// The V or the U plane.
    Chroma,
}

/// The slot of a plane in the bank the selector names.
pub open spec fn bank_slot(plane_idx: int, secondary: bool) -> int {
    if secondary {
        plane_idx
    } else {
        plane_idx + 3
    }
}

/// The strip-context slot of a plane; `None` for an index that names no
/// plane.
pub fn strip_slot_index(plane_idx: usize, buffer_selector: bool) -> (r: Option<usize>)
    ensures
        r is Some <==> plane_idx < 3,
        r matches Some(s) ==> s == bank_slot(plane_idx as int, buffer_selector),
{
    if plane_idx >= 3 {
        None
    } else if buffer_selector {
        Some(SECONDARY_BANK_SLOTS[plane_idx])
    } else {
        Some(PRIMARY_BANK_SLOTS[plane_idx])
    }
}

/// How a plane is cut into vertical strips.
#[derive(Debug, Clone, Copy, PartialEq, Eq, Structural)]
pub struct StripGeometry {
    /// Luma or chroma.
    pub role: PlaneRole,
    /// Plane width in samples.
    pub plane_width: u32,
    /// Plane height in samples.
    pub plane_height: u32,
    /// Width of every strip but the last.
    pub strip_width: u32,
    /// Number of strips.
    pub strip_count: u32,
    /// Width of the last strip.
    pub last_strip_width: u32,
}

impl StripGeometry {
    /// The width of strip `i`.
    pub open spec fn width_of(self, i: int) -> int {
        if i + 1 == self.strip_count {
            self.last_strip_width as int
        } else {
            self.strip_width as int
        }
    }

    /// The widths of all strips together.
    pub open spec fn total_width(self) -> int {
        if self.strip_count == 0 {
            0
        } else {
            (self.strip_count - 1) * self.strip_width + self.last_strip_width
        }
    }

    /// The left column of strip `i` in the plane.
    pub open spec fn left_of(self, i: int) -> int {
        i * self.strip_width
    }

    /// The plane is cut into strips of `strip` samples and one of what is
    /// left.
    pub open spec fn cuts(self, width: int, height: int, strip: int) -> bool {
        &&& self.plane_width == width
        &&& self.plane_height == height
        &&& self.strip_width == strip
        &&& self.total_width() == width
        &&& self.strip_count == 0 <==> width == 0
        &&& width > 0 ==> 1 <= self.last_strip_width <= strip
        &&& width == 0 ==> self.last_strip_width == 0
    }

    /// Cut a plane into strips of `strip` samples.
    fn cut(role: PlaneRole, width: u32, height: u32, strip: u32) -> (r: Self)
        requires
            0 < strip <= 160,
        ensures
            r.role == role,
            r.cuts(width as int, height as int, strip as int),
    {
        if width == 0 {
            return StripGeometry {
                role,
                plane_width: width,
                plane_height: height,
                strip_width: strip,
                strip_count: 0,
                last_strip_width: 0,
            };
        }
        let full: u32 = (width - 1) / strip;
        proof {
            vstd::arithmetic::div_mod::lemma_fundamental_div_mod((width - 1) as int, strip as int);
            vstd::arithmetic::div_mod::lemma_mod_bound((width - 1) as int, strip as int);
            assert(full * strip == strip * full) by (nonlinear_arith);
            assert(full < u32::MAX) by (nonlinear_arith)
                requires
                    strip * full <= width - 1,
                    strip >= 1,
            ;
        }
        StripGeometry {
            role,
            plane_width: width,
            plane_height: height,
            strip_width: strip,
            strip_count: full + 1,
            last_strip_width: width - full * strip,
        }
    }

    /// The strips of a luma plane.
    pub fn for_luma(width: u32, height: u32) -> (r: Self)
        ensures
            r.role == PlaneRole::Luma,
            r.cuts(width as int, height as int, LUMA_STRIP_PIXELS as int),
    {
        Self::cut(PlaneRole::Luma, width, height, LUMA_STRIP_PIXELS)
    }

    /// The strips of a chroma plane of the given (subsampled) size.
    pub fn for_chroma(width: u32, height: u32) -> (r: Self)
        ensures
            r.role == PlaneRole::Chroma,
            r.cuts(width as int, height as int, CHROMA_STRIP_PIXELS as int),
    {
        Self::cut(PlaneRole::Chroma, width, height, CHROMA_STRIP_PIXELS)
    }

    /// The width of strip `i`.
    pub fn strip_width_at(&self, i: u32) -> (r: u32)
        requires
            i < self.strip_count,
        ensures
            r == self.width_of(i as int),
    {
        if i == self.strip_count - 1 {
            self.last_strip_width
        } else {
            self.strip_width
        }
    }

    /// The widths of the strips, left to right.
    pub fn iter_strip_widths(&self) -> (r: Vec<u32>)
        ensures
            r@.len() == self.strip_count,
            forall|i: int| 0 <= i < r@.len() ==> #[trigger] r@[i] == self.width_of(i),
    {
        let mut out: Vec<u32> = Vec::new();
        let mut i: u32 = 0;
        while i < self.strip_count
            invariant
                i <= self.strip_count,
                out@.len() == i,
                forall|k: int| 0 <= k < i ==> #[trigger] out@[k] == self.width_of(k),
            decreases self.strip_count - i,
        {
            out.push(self.strip_width_at(i));
            i = i + 1;
        }
        out
    }
}

/// A geometry is determined by the plane and the strip width: the strips
/// tile the plane, all of them full but the last.
pub proof fn cut_is_unique(a: StripGeometry, b: StripGeometry, width: int, height: int, strip: int)
    requires
        strip > 0,
        a.role == b.role,
        a.cuts(width, height, strip),
        b.cuts(width, height, strip),
    ensures
        a == b,
{
    if width > 0 {
        let m = a.strip_count - 1;
        let n = b.strip_count - 1;
        let d = b.last_strip_width - a.last_strip_width;
        assert(m * strip - n * strip == (m - n) * strip) by (nonlinear_arith);
        assert(m == n) by (nonlinear_arith)
            requires
                (m - n) * strip == d,
                -strip < d < strip,
                strip > 0,
        ;
    }
}

} // verus!
