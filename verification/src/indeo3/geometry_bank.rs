//! Cell-geometry banks.
//!
//! The binary-tree walker never reads a cell's extent from the stream:
//! each leaf's rectangle is looked up in a per-plane bank of five tables
//! indexed by the walker's vertical (`cl`) and horizontal (`ch`) heap
//! indices. The banks are a pure function of the picture size.
//!
//! Both trees start at heap index 1; a split takes index `k` to `2k` (the
//! first child, visited first) and `2k + 1`. Each plane has two banks: the
//! full-strip bank and the last-strip bank, built for the residual width
//! of the last strip.
use vstd::arithmetic::power2::{
    lemma2_to64, lemma_pow2_strictly_increases, lemma_pow2_unfold, pow2,
};
use vstd::prelude::*;

verus! {

/// Row stride of the strip pixel buffers; the vertical offset table is
/// expressed in these units.
pub const STRIP_ROW_STRIDE: u32 = 0xb0;

/// Luma strip width in pixels.
pub const LUMA_STRIP_WIDTH: u32 = 160;

/// Chroma strip width in pixels.
pub const CHROMA_STRIP_WIDTH: u32 = 40;

/// The "node under 4 rows / pixels" code in the `h4` / `w4` tables.
pub const UNDER_FOUR_CODE: u8 = 0x63;

/// The "node under 4 rows" vertical offset, which faults the walker.
pub const UNDER_FOUR_YPOS: u32 = 0xf423f;

/// The extent of the first child of a node of extent `p`.
pub open spec fn first_extent(p: int) -> int {
    if p > 8 {
        (8 * ((p + 8) / 16)) % 256
    } else {
        p - p / 2
    }
}

/// The extent of the child of a node of extent `p`: the two children
/// tile the node.
pub open spec fn child_extent(p: int, second: bool) -> int {
    if second {
        p - first_extent(p)
    } else {
        first_extent(p)
    }
}

/// The extent of heap node `k`, where every node of the level that starts
/// at `level` has extent `seed` and the nodes above it have none.
pub open spec fn extent(k: int, level: int, seed: int) -> int
    decreases k,
{
    if k < level {
        0
    } else if k < 2 * level || k < 2 {
        seed
    } else {
        child_extent(extent(k / 2, level, seed), k % 2 == 1)
    }
}

/// The sum from which the position of heap node `k` is taken: the position
/// and extent of the node before it in heap order.
pub open spec fn x_sum(k: int, level: int, strip: int) -> int
    decreases k,
{
    if k < 2 {
        0
    } else {
        x_position(k - 1, level, strip) + extent(k - 1, level, strip)
    }
}

/// The left column of heap node `k` within its strip: positions run on in
/// heap order, start over when a sum reaches the strip width, and are 0
/// for a node under four pixels.
pub open spec fn x_position(k: int, level: int, strip: int) -> int
    decreases k,
{
    if k < 2 || extent(k, level, strip) < 4 {
        0
    } else {
        let s = x_position(k - 1, level, strip) + extent(k - 1, level, strip);
        if s == strip {
            0
        } else {
            s
        }
    }
}

/// The sum from which the byte offset of vertical node `k` is taken.
pub open spec fn y_sum(k: int, height: int) -> int {
    if k < 2 {
        0
    } else {
        y_position(k - 1, height) + extent(k - 1, 1, height) * STRIP_ROW_STRIDE
    }
}

/// The byte offset of the top row of vertical node `k`.
pub open spec fn y_position(k: int, height: int) -> int
    decreases k,
{
    if k < 2 {
        0
    } else if extent(k, 1, height) < 4 {
        UNDER_FOUR_YPOS as int
    } else {
        let s = y_position(k - 1, height) + extent(k - 1, 1, height) * STRIP_ROW_STRIDE;
        if s == STRIP_ROW_STRIDE * height {
            0
        } else {
            s
        }
    }
}

/// The `h4` / `w4` entry of a node: a quarter of its extent as a byte, or
/// the under-four code. Index 0 is never written; the root carries no
/// under-four code.
pub open spec fn quarter_code(k: int, extent: int) -> int {
    if k < 1 {
        0
    } else if k >= 2 && extent < 4 {
        UNDER_FOUR_CODE as int
    } else {
        (extent / 4) % 256
    }
}

/// The strip slot of horizontal node `k`, strips standing at the level
/// that starts at `p_level`.
pub open spec fn strip_slot(k: int, p_level: int, wide: bool) -> int
    decreases k,
{
    if k < 1 {
        0
    } else if k < p_level {
        2
    } else if k < 2 * p_level || k < 2 {
        if wide && k == p_level + 3 {
            2
        } else {
            k - p_level
        }
    } else {
        strip_slot(k / 2, p_level, wide)
    }
}

/// The slot the full-strip bank of a wide picture holds in place of `slot`.
pub open spec fn folded_slot(slot: int, fold: bool) -> int {
    if fold && slot == 3 {
        2
    } else {
        slot
    }
}

/// The least power of two that is at least `n`.
pub open spec fn pow2_ceil(n: int) -> int
    decreases n,
{
    if n <= 1 {
        1
    } else {
        2 * pow2_ceil((n + 1) / 2)
    }
}

/// `pow2_ceil` is a power of two, is at least its argument, and no smaller
/// power of two is.
pub proof fn pow2_ceil_is_least(n: int, e: nat)
    ensures
        pow2_ceil(n) >= n,
        exists|d: nat| pow2_ceil(n) == #[trigger] pow2(d),
        n <= pow2(e) ==> pow2_ceil(n) <= pow2(e),
    decreases n,
{
    lemma2_to64();
    if n <= 1 {
        assert(pow2_ceil(n) == pow2(0));
        if e > 0 {
            lemma_pow2_strictly_increases(0, e);
        }
    } else {
        let m = (n + 1) / 2;
        if e > 0 {
            lemma_pow2_unfold(e);
            pow2_ceil_is_least(m, (e - 1) as nat);
        } else {
            pow2_ceil_is_least(m, 0);
        }
        let d = choose|d: nat| pow2_ceil(m) == #[trigger] pow2(d);
        lemma_pow2_unfold(d + 1);
        assert(pow2_ceil(n) == pow2(d + 1));
    }
}

/// The number of strips across a plane.
pub open spec fn strip_count(width: int, full_strip: int) -> int {
    if width <= full_strip {
        1
    } else {
        (width + full_strip - 1) / full_strip
    }
}

/// The width of the last strip of a plane.
pub open spec fn last_strip_width(width: int, full_strip: int) -> int {
    ((if width < 1 {
        1
    } else {
        width
    }) - 1) % full_strip + 1
}

/// The three-strip flag of a picture.
pub open spec fn is_wide(luma_width: int) -> bool {
    320 < luma_width <= 480
}

/// What one bank is built from.
pub ghost struct BankRule {
    pub height: int,
    pub this_strip: int,
    pub p_level: int,
    pub wide: bool,
    pub fold: bool,
}

impl BankRule {
    /// The heap index at which the strip's own extents start.
    pub open spec fn l_level(self) -> int {
        if self.wide {
            2
        } else {
            self.p_level
        }
    }

    /// Every running sum of the bank fits 32 bits.
    pub open spec fn fits(self) -> bool {
        &&& self.this_strip + 8 <= u32::MAX
        &&& self.height + 8 <= u32::MAX
        &&& self.height * STRIP_ROW_STRIDE <= u32::MAX
        &&& 2 * self.p_level <= u32::MAX
        &&& forall|k: int| 2 <= k < 256 ==> #[trigger] x_sum(k, self.l_level(), self.this_strip) <= u32::MAX
        &&& forall|k: int| 2 <= k < 256 ==> #[trigger] y_sum(k, self.height) <= u32::MAX
    }
}

/// The rule for one bank of a plane of the given size.
pub open spec fn bank_rule(
    height: int,
    this_strip: int,
    width: int,
    full_strip: int,
    wide: bool,
    fold: bool,
) -> BankRule {
    BankRule {
        height,
        this_strip,
        p_level: pow2_ceil(strip_count(width, full_strip)),
        wide,
        fold,
    }
}

/// One cell-geometry bank, indexed by heap index `1..=255` (index 0 is
/// never written).
#[derive(Debug, Clone, PartialEq, Eq)]
pub struct GeometryBank {
    /// Cell height / 4 by `cl`, or [`UNDER_FOUR_CODE`].
    pub h4: [u8; 256],
    /// Cell width / 4 by `ch`, or [`UNDER_FOUR_CODE`].
    pub w4: [u8; 256],
    /// Strip-context slot by `ch`.
    pub strip: [u8; 256],
    /// Byte offset of the node's top row (`row * 0xb0`) by `cl`, or
    /// [`UNDER_FOUR_YPOS`].
    pub ypos: [u32; 256],
    /// Byte offset of the node's left column within its strip by `ch`, or
    /// 0 for a node under 4 pixels.
    pub xpos: [u32; 256],
}

impl GeometryBank {
    /// The bank holds what `rule` says, entry for entry.
    pub open spec fn follows(self, rule: BankRule) -> bool {
        forall|k: int| #![trigger self.h4@[k]] #![trigger self.w4@[k]] #![trigger self.strip@[k]]
            #![trigger self.ypos@[k]] #![trigger self.xpos@[k]]
            0 <= k < 256 ==> {
                &&& self.h4@[k] == quarter_code(k, extent(k, 1, rule.height))
                &&& self.w4@[k] == quarter_code(k, extent(k, rule.l_level(), rule.this_strip))
                &&& self.ypos@[k] == y_position(k, rule.height)
                &&& self.xpos@[k] == x_position(k, rule.l_level(), rule.this_strip)
                &&& self.strip@[k] == folded_slot(strip_slot(k, rule.p_level, rule.wide), rule.fold)
            }
    }
}

/// The two banks of one plane plus the strip geometry they encode.
#[derive(Debug, Clone, PartialEq, Eq)]
pub struct PlaneBanks {
    /// The full-strip bank.
    pub full: GeometryBank,
    /// The last-strip bank (residual width).
    pub last: GeometryBank,
    /// Number of strips across the plane.
    pub nstrips: u32,
    /// Full strip width (160 luma / 40 chroma).
    pub full_strip: u32,
    /// Width of the last strip.
    pub last_strip: u32,
    /// Plane width the banks were built for.
    pub width: u32,
    /// Plane height the banks were built for.
    pub height: u32,
}

/// Smallest power of two `>= n` (1 for `n == 0`).
fn pow2ceil(n: u32) -> (r: u32)
    requires
        n <= 0x8000_0000,
    ensures
        r == pow2_ceil(n as int),
        1 <= r <= 0x8000_0000,
    decreases n,
{
    proof {
        lemma2_to64();
        pow2_ceil_is_least(n as int, 31);
    }
    if n <= 1 {
        1
    } else {
        2 * pow2ceil((n + 1) / 2)
    }
}

/// The split rule: the extents of the two children of a node of extent
/// `p`, the first child being the top / left one.
pub fn split_extent(p: u32) -> (r: (u32, u32))
    requires
        p + 8 <= u32::MAX,
    ensures
        r.0 == child_extent(p as int, false),
        r.1 == child_extent(p as int, true),
        r.0 + r.1 == p,
{
    if p > 8 {
        let first: u32 = (8 * ((p + 8) / 16)) % 256;
        (first, p - first)
    } else {
        let second: u32 = p / 2;
        (p - second, second)
    }
}

/// The chroma extent of a luma extent: a quarter, padded up to a multiple
/// of 4.
pub open spec fn chroma_extent(luma: int) -> int {
    (luma / 4 + 3) / 4 * 4
}

/// Chroma plane geometry: the 4:1 subsampled dimensions, padded up to a
/// multiple of 4.
pub fn chroma_plane_dims(width: u32, height: u32) -> (r: (u32, u32))
    ensures
        r.0 == chroma_extent(width as int),
        r.1 == chroma_extent(height as int),
{
    ((width / 4 + 3) / 4 * 4, (height / 4 + 3) / 4 * 4)
}

/// Run the populator once for one bank.
///
/// * `height` - plane height in rows.
/// * `this_strip` - width of the strip this bank describes.
/// * `width` - plane width (for the strip count).
/// * `full_strip` - full strip width of the plane.
/// * `wide` - the three-strip flag passed to the last-strip banks.
/// * `post_step` - the full-strip banks' `3 -> 2` slot rewrite for wide
///   pictures.
fn populate(
    height: u32,
    this_strip: u32,
    width: u32,
    full_strip: u32,
    wide: bool,
    post_step: bool,
) -> (bank: GeometryBank)
    requires
        full_strip > 0,
        strip_count(width as int, full_strip as int) <= 0x4000_0000,
        bank_rule(height as int, this_strip as int, width as int, full_strip as int, wide, post_step).fits(),
    ensures
        bank.follows(
            bank_rule(height as int, this_strip as int, width as int, full_strip as int, wide, post_step),
        ),
{
    let nstrips: u32 = count_strips(width, full_strip);
    let p_level: u32 = pow2ceil(nstrips);
    let l_level: u32 = if wide {
        2
    } else {
        p_level
    };
    let ghost rule = bank_rule(
        height as int,
        this_strip as int,
        width as int,
        full_strip as int,
        wide,
        post_step,
    );
    proof {
        lemma2_to64();
        pow2_ceil_is_least(nstrips as int, 30);
    }
    let vx: [u32; 256] = extents(l_level, this_strip);
    let vy: [u32; 256] = extents(1, height);
    let mut h4: [u8; 256] = [0u8; 256];
    let mut w4: [u8; 256] = [0u8; 256];
    let mut xpos: [u32; 256] = [0u32; 256];
    let mut ypos: [u32; 256] = [0u32; 256];
    let mut strip: [u8; 256] = [0u8; 256];
    let y_limit: u32 = STRIP_ROW_STRIDE * height;
    let mut k: usize = 1;
    while k < 256
        invariant
            1 <= k <= 256,
            rule.fits(),
            rule.height == height,
            rule.this_strip == this_strip,
            rule.p_level == p_level,
            rule.wide == wide,
            rule.fold == post_step,
            rule.l_level() == l_level,
            1 <= p_level <= 0x4000_0000,
            y_limit == STRIP_ROW_STRIDE * height,
            forall|j: int| 0 <= j < 256 ==> #[trigger] vx@[j] == extent(j, l_level as int, this_strip as int),
            forall|j: int| 0 <= j < 256 ==> #[trigger] vy@[j] == extent(j, 1, height as int),
            forall|j: int| 0 <= j < k ==> #[trigger] h4@[j] == quarter_code(j, extent(j, 1, rule.height)),
            forall|j: int| 0 <= j < k ==> #[trigger] w4@[j] == quarter_code(
                j,
                extent(j, rule.l_level(), rule.this_strip),
            ),
            forall|j: int| 0 <= j < k ==> #[trigger] ypos@[j] == y_position(j, rule.height),
            forall|j: int| 0 <= j < k ==> #[trigger] xpos@[j] == x_position(
                j,
                rule.l_level(),
                rule.this_strip,
            ),
            forall|j: int| 0 <= j < k ==> #[trigger] strip@[j] == strip_slot(j, rule.p_level, rule.wide),
            forall|j: int| k <= j < 256 ==> #[trigger] xpos@[j] == 0,
            forall|j: int| k <= j < 256 ==> #[trigger] ypos@[j] == 0,
        decreases 256 - k,
    {
        let under_x: bool = k >= 2 && vx[k] < 4;
        let under_y: bool = k >= 2 && vy[k] < 4;
        if k >= 2 {
            assert(x_sum(k as int, rule.l_level(), rule.this_strip) == xpos@[k - 1] + vx@[k - 1]);
            assert(y_sum(k as int, rule.height) == ypos@[k - 1] + vy@[k - 1] * STRIP_ROW_STRIDE);
            let sx: u32 = xpos[k - 1] + vx[k - 1];
            let sy: u32 = ypos[k - 1] + vy[k - 1] * STRIP_ROW_STRIDE;
            xpos[k] = if under_x || sx == this_strip {
                0
            } else {
                sx
            };
            ypos[k] = if under_y {
                UNDER_FOUR_YPOS
            } else if sy == y_limit {
                0
            } else {
                sy
            };
        }
        w4[k] = if under_x {
            UNDER_FOUR_CODE
        } else {
            (vx[k] / 4 % 256) as u8
        };
        h4[k] = if under_y {
            UNDER_FOUR_CODE
        } else {
            (vy[k] / 4 % 256) as u8
        };
        let kk: u32 = k as u32;
        strip[k] = if kk < p_level {
            2
        } else if kk < 2 * p_level {
            if wide && kk == p_level + 3 {
                2
            } else {
                (kk - p_level) as u8
            }
        } else {
            strip[k / 2]
        };
        k = k + 1;
    }
    if post_step {
        let ghost before = strip@;
        let mut k: usize = 0;
        while k < 256
            invariant
                k <= 256,
                before.len() == 256,
                forall|j: int| 0 <= j < k ==> #[trigger] strip@[j] == folded_slot(before[j] as int, true),
                forall|j: int| k <= j < 256 ==> #[trigger] strip@[j] == before[j],
            decreases 256 - k,
        {
            if strip[k] == 3 {
                strip[k] = 2;
            }
            k = k + 1;
        }
    }
    GeometryBank { h4, w4, strip, ypos, xpos }
}

/// The number of strips across a plane.
fn count_strips(width: u32, full_strip: u32) -> (r: u32)
    requires
        full_strip > 0,
    ensures
        r == strip_count(width as int, full_strip as int),
        r >= 1,
{
    if width <= full_strip {
        1
    } else {
        proof {
            lemma_ceil(width as int, full_strip as int);
        }
        let q: u32 = width / full_strip;
        if width % full_strip == 0 {
            q
        } else {
            q + 1
        }
    }
}

proof fn lemma_ceil(a: int, b: int)
    requires
        a > b > 0,
    ensures
        (a + b - 1) / b == a / b + if a % b == 0 { 0int } else { 1 },
        1 <= a / b <= a,
        a % b != 0 ==> a / b < a,
{
    vstd::arithmetic::div_mod::lemma_fundamental_div_mod(a, b);
    vstd::arithmetic::div_mod::lemma_mod_bound(a, b);
    let q = a / b;
    let r = a % b;
    assert(q >= 1 && q <= a && (r != 0 ==> q < a)) by (nonlinear_arith)
        requires
            a == b * q + r,
            0 <= r < b,
            a > b > 0,
    ;
    if r == 0 {
        assert(a + b - 1 == q * b + (b - 1)) by (nonlinear_arith)
            requires
                a == b * q + r,
                r == 0,
        ;
        vstd::arithmetic::div_mod::lemma_fundamental_div_mod_converse(a + b - 1, b, q, b - 1);
    } else {
        assert(a + b - 1 == (q + 1) * b + (r - 1)) by (nonlinear_arith)
            requires
                a == b * q + r,
        ;
        vstd::arithmetic::div_mod::lemma_fundamental_div_mod_converse(a + b - 1, b, q + 1, r - 1);
    }
}

/// The heap-indexed extents below the level that starts at `level`.
fn extents(level: u32, seed: u32) -> (v: [u32; 256])
    requires
        1 <= level <= 0x4000_0000,
        seed + 8 <= u32::MAX,
    ensures
        forall|j: int| 0 <= j < 256 ==> #[trigger] v@[j] == extent(j, level as int, seed as int),
{
    let mut v: [u32; 256] = [0u32; 256];
    let mut k: usize = 1;
    while k < 256
        invariant
            1 <= k <= 256,
            1 <= level <= 0x4000_0000,
            seed + 8 <= u32::MAX,
            forall|j: int| 0 <= j < k ==> #[trigger] v@[j] == extent(j, level as int, seed as int),
            forall|j: int| 0 <= j < k ==> #[trigger] v@[j] <= seed,
        decreases 256 - k,
    {
        let kk: u32 = k as u32;
        if kk < level {
            v[k] = 0;
        } else if kk < 2 * level {
            v[k] = seed;
        } else {
            let half: usize = k / 2;
            assert(v@[half as int] <= seed);
            let (a, b) = split_extent(v[half]);
            v[k] = if k % 2 == 1 {
                b
            } else {
                a
            };
        }
        k = k + 1;
    }
    v
}

impl PlaneBanks {
    /// The banks are those of a plane of `width x height` samples cut into
    /// strips of `full_strip`, in a picture of luma width `luma_width`.
    pub open spec fn built_for(
        self,
        width: int,
        height: int,
        full_strip: int,
        luma_width: int,
    ) -> bool {
        &&& self.nstrips == strip_count(width, full_strip)
        &&& self.full_strip == full_strip
        &&& self.last_strip == last_strip_width(width, full_strip)
        &&& self.width == width
        &&& self.height == height
        &&& self.full.follows(full_rule(width, height, full_strip, luma_width))
        &&& self.last.follows(last_rule(width, height, full_strip, luma_width))
    }

    /// Build the two banks of a plane of `width x height` samples.
    /// `luma_width` is the picture's luma width, which sets the
    /// wide-picture flag for both planes.
    pub fn build(width: u32, height: u32, full_strip: u32, luma_width: u32) -> (r: Self)
        requires
            banks_fit(width as int, height as int, full_strip as int, luma_width as int),
        ensures
            r.built_for(width as int, height as int, full_strip as int, luma_width as int),
    {
        let nstrips: u32 = count_strips(width, full_strip);
        let used: u32 = if width < 1 {
            1
        } else {
            width
        };
        proof {
            vstd::arithmetic::div_mod::lemma_mod_bound(used - 1, full_strip as int);
        }
        let last_strip: u32 = (used - 1) % full_strip + 1;
        let wide: bool = luma_width > 320 && luma_width <= 480;
        let full = populate(height, full_strip, width, full_strip, false, wide);
        let last = populate(height, last_strip, width, full_strip, wide, false);
        PlaneBanks { full, last, nstrips, full_strip, last_strip, width, height }
    }

    /// The luma banks of a `width x height` picture.
    pub fn luma(width: u32, height: u32) -> (r: Self)
        requires
            banks_fit(width as int, height as int, LUMA_STRIP_WIDTH as int, width as int),
        ensures
            r.built_for(width as int, height as int, LUMA_STRIP_WIDTH as int, width as int),
    {
        Self::build(width, height, LUMA_STRIP_WIDTH, width)
    }

    /// The chroma banks of a `width x height` picture.
    pub fn chroma(width: u32, height: u32) -> (r: Self)
        requires
            banks_fit(
                chroma_extent(width as int),
                chroma_extent(height as int),
                CHROMA_STRIP_WIDTH as int,
                width as int,
            ),
        ensures
            r.built_for(
                chroma_extent(width as int),
                chroma_extent(height as int),
                CHROMA_STRIP_WIDTH as int,
                width as int,
            ),
    {
        let (cw, ch) = chroma_plane_dims(width, height);
        Self::build(cw, ch, CHROMA_STRIP_WIDTH, width)
    }

    /// The bank a cell in strip slot `slot` reads.
    pub open spec fn slot_bank(self, slot: int) -> GeometryBank {
        if slot + 1 >= self.nstrips {
            self.last
        } else {
            self.full
        }
    }

    /// The bank a cell in strip slot `slot` reads: the last-strip bank when
    /// the slot is the picture's last strip.
    pub fn bank_for_slot(&self, slot: u8) -> (r: &GeometryBank)
        ensures
            *r == self.slot_bank(slot as int),
    {
        if slot as u32 + 1 >= self.nstrips {
            &self.last
        } else {
            &self.full
        }
    }
}

/// The rule of a plane's full-strip bank.
pub open spec fn full_rule(width: int, height: int, full_strip: int, luma_width: int) -> BankRule {
    bank_rule(height, full_strip, width, full_strip, false, is_wide(luma_width))
}

/// The rule of a plane's last-strip bank.
pub open spec fn last_rule(width: int, height: int, full_strip: int, luma_width: int) -> BankRule {
    bank_rule(
        height,
        last_strip_width(width, full_strip),
        width,
        full_strip,
        is_wide(luma_width),
        false,
    )
}

/// The sizes for which every sum that goes into the two banks of a plane
/// fits 32 bits.
pub open spec fn banks_fit(width: int, height: int, full_strip: int, luma_width: int) -> bool {
    &&& full_strip > 0
    &&& strip_count(width, full_strip) <= 0x4000_0000
    &&& full_rule(width, height, full_strip, luma_width).fits()
    &&& last_rule(width, height, full_strip, luma_width).fits()
}

/// The children of a node tile it, and neither is larger than the node.
pub proof fn children_tile_their_node(p: int)
    requires
        p >= 0,
    ensures
        child_extent(p, false) + child_extent(p, true) == p,
        0 <= child_extent(p, false) <= p,
        0 <= child_extent(p, true) <= p,
{
}

/// No node of a bank is larger than the extent its level was seeded with.
pub proof fn extent_is_bounded(k: int, level: int, seed: int)
    requires
        seed >= 0,
    ensures
        0 <= extent(k, level, seed) <= seed,
    decreases k,
{
    if k >= level && k >= 2 * level && k >= 2 {
        extent_is_bounded(k / 2, level, seed);
        children_tile_their_node(extent(k / 2, level, seed));
    }
}

proof fn lemma_positions_bounded(k: int, level: int, strip: int, height: int)
    requires
        strip >= 0,
        height >= 0,
        k >= 1,
    ensures
        0 <= x_position(k, level, strip) <= (k - 1) * strip,
        0 <= y_position(k, height) <= UNDER_FOUR_YPOS + (k - 1) * (height * STRIP_ROW_STRIDE),
    decreases k,
{
    if k >= 2 {
        lemma_positions_bounded(k - 1, level, strip, height);
        extent_is_bounded(k - 1, level, strip);
        extent_is_bounded(k - 1, 1, height);
        let hs = height * STRIP_ROW_STRIDE;
        assert((k - 1) * strip == (k - 2) * strip + strip && (k - 1) * strip >= 0) by (nonlinear_arith)
            requires
                k >= 2,
                strip >= 0,
        ;
        assert((k - 1) * hs == (k - 2) * hs + hs && (k - 1) * hs >= 0) by (nonlinear_arith)
            requires
                k >= 2,
                hs >= 0,
        ;
    } else {
        assert(0 * strip == 0 && 0 * (height * STRIP_ROW_STRIDE) == 0) by (nonlinear_arith);
    }
}

/// Planes whose extents are 16-bit quantities, as a frame header gives
/// them, have banks that fit.
pub proof fn sixteen_bit_planes_fit(width: int, height: int, full_strip: int, luma_width: int)
    requires
        0 <= width <= 0xffff,
        0 <= height <= 0xffff,
        0 < full_strip <= 0xffff,
    ensures
        banks_fit(width, height, full_strip, luma_width),
{
    let n = strip_count(width, full_strip);
    if width > full_strip {
        lemma_ceil(width, full_strip);
    }
    assert(1 <= n <= 0x1_0000);
    lemma2_to64();
    pow2_ceil_is_least(n, 16);
    vstd::arithmetic::div_mod::lemma_mod_bound(
        (if width < 1 {
            1
        } else {
            width
        }) - 1,
        full_strip,
    );
    lemma_rule_fits(full_rule(width, height, full_strip, luma_width));
    lemma_rule_fits(last_rule(width, height, full_strip, luma_width));
}

proof fn lemma_rule_fits(rule: BankRule)
    requires
        0 <= rule.height <= 0xffff,
        0 <= rule.this_strip <= 0xffff,
        1 <= rule.p_level <= 0x1_0000,
    ensures
        rule.fits(),
{
    assert forall|k: int| 2 <= k < 256 implies #[trigger] x_sum(k, rule.l_level(), rule.this_strip)
        <= u32::MAX by {
        lemma_positions_bounded(k - 1, rule.l_level(), rule.this_strip, rule.height);
        extent_is_bounded(k - 1, rule.l_level(), rule.this_strip);
        assert((k - 2) * rule.this_strip <= 253 * 0xffff) by (nonlinear_arith)
            requires
                2 <= k < 256,
                0 <= rule.this_strip <= 0xffff,
        ;
    }
    assert forall|k: int| 2 <= k < 256 implies #[trigger] y_sum(k, rule.height) <= u32::MAX by {
        lemma_positions_bounded(k - 1, rule.l_level(), rule.this_strip, rule.height);
        extent_is_bounded(k - 1, 1, rule.height);
        let hs = rule.height * STRIP_ROW_STRIDE;
        assert((k - 2) * hs <= 253 * (0xffff * 0xb0)) by (nonlinear_arith)
            requires
                2 <= k < 256,
                0 <= hs <= 0xffff * 0xb0,
        ;
    }
}

} // verus!
