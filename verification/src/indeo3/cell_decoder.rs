//! The plane decoder over the cell-geometry banks.
//!
//! One [`PlaneBuffers`] holds a plane's strips as `0xb0`-stride byte
//! buffers with one predictor row above the picture. [`decode_plane`]
//! walks the plane's binary tree, positions each leaf through the banks
//! and reconstructs every cell in place. What a payload means is stated
//! in [`super::plane_model`].
use super::bytes::{read_dword, read_word, u32_from_le};
use super::geometry_bank::{
    banks_fit, chroma_extent, chroma_plane_dims, PlaneBanks, CHROMA_STRIP_WIDTH, LUMA_STRIP_WIDTH,
    STRIP_ROW_STRIDE, UNDER_FOUR_CODE, UNDER_FOUR_YPOS,
};
use super::geometry_laws::banks_place_leaves_in_their_strips;
use super::picture_layer::MotionVector;
use super::plane_model::{
    applied, block_codes, block_makes_progress, block_place, cell_codes, cells_below, cells_pending,
    child_index, children, code_makes_progress, code_step, codebook, coded_step, compensated,
    consistent, copied_upper, decoded_pixels, decoding_keeps_shape_and_count, dyad_high, dyad_low,
    edge_fixed, edges_fixed, evened, family_counted, fetchable, fetched, fetched_row, filled,
    filtered_sample, in_tree, leaf_rect, leaf_step, leaves_fit, literal_code, literal_step,
    mode_plan, motion_step, next_bit, no_cells, node_step, null_step, numbered,
    pending_stays_in_budget, pixel_deltas, plane_walk, predicted, rect_fits, residual_row,
    rewritten, root, row_above, run_of, run_step, same_shape, seven_bit, shape_decides_fit, shifted,
    strip_index, strip_seqs, strip_width, too_deep, unpacked, walk, walk_makes_progress, walk_start,
    with_cell_rows, with_doubled, with_row, BlockPlace, CellCode, CodeState, Codebook, Cursor,
    ModePlan, Tally, WalkState, WalkStep,
};
use super::staging::{StagingImage, STAGING_BLOCK_COUNT, STAGING_BLOCK_STRIDE};
use super::text::{decimal, push_decimal};
use super::vq::{sign_extend, DyadDeltaTable, VqArena};
use vstd::prelude::*;
use vstd::string::StringExecFns;

verus! {

/// The strip pixel buffers of one plane.
#[derive(Debug, Clone, PartialEq, Eq)]
pub struct PlaneBuffers {
    /// Plane width in samples (the decoded, padded width for chroma).
    pub width: u32,
    /// Plane height in rows.
    pub height: u32,
    /// The geometry banks of the plane.
    pub banks: PlaneBanks,
    /// One buffer per strip: `(height + 2) * 0xb0` bytes, row `r` of the
    /// picture at `(r + 1) * 0xb0`; row 0 is the predictor row above the
    /// picture and the last row a scratch row below it.
    pub strips: Vec<Vec<u8>>,
}

/// The predictor row above the top of every strip: the 7-bit mid-grey.
pub const STRIP_TOP_SAMPLE: u8 = 0x40;

/// Errors of the plane decoder.
#[derive(Debug, Clone, Copy, PartialEq, Eq, Structural)]
pub enum CellDecodeError {
    /// The bitstream ended inside the plane.
    StreamExhausted,
    /// A leaf landed on a node under four rows / pixels.
    UnderFourNode,
    /// The tree descended past heap index 255.
    TreeTooDeep,
    /// The strip slot a leaf named does not exist.
    BadStrip,
    /// A VQ_NULL sub-code that faults.
    BadVqNull,
    /// A mode byte whose nibble-table slot is the fault exit.
    BadModeByte {
        /// The mode byte.
        mode: u8,
    },
    /// A family that the cell's MC flag does not admit.
    FamilyGate {
        /// The mode byte.
        mode: u8,
    },
    /// An escape at a position that rejects it.
    BadEscape {
        /// The escape byte.
        escape: u8,
        /// The row position.
        position: u8,
    },
    /// An `0xFB` counter that is rejected.
    BadCounter {
        /// The counter byte.
        counter: u8,
    },
    /// A pixel left the 7-bit range.
    RangeFault,
    /// The staging window the mode byte selects lies outside the staging
    /// image.
    BadStagingBlock,
    /// An INTER leaf's MV index is outside the plane's MV table.
    BadMvIndex {
        /// The index byte.
        index: u8,
    },
    /// A motion-compensated fetch left the strip buffer.
    McOutOfRange,
    /// A family that is reported rather than decoded (C / D).
    UnsupportedFamily {
        /// The mode byte.
        mode: u8,
    },
}

impl CellDecodeError {
    /// The message of the error.
    pub open spec fn text(self) -> Seq<char> {
        match self {
            CellDecodeError::StreamExhausted => "indeo3 cell decoder: StreamExhausted"@,
            CellDecodeError::UnderFourNode => "indeo3 cell decoder: UnderFourNode"@,
            CellDecodeError::TreeTooDeep => "indeo3 cell decoder: TreeTooDeep"@,
            CellDecodeError::BadStrip => "indeo3 cell decoder: BadStrip"@,
            CellDecodeError::BadVqNull => "indeo3 cell decoder: BadVqNull"@,
            CellDecodeError::BadModeByte { mode } => "indeo3 cell decoder: BadModeByte { mode: "@
                + decimal(mode as int) + " }"@,
            CellDecodeError::FamilyGate { mode } => "indeo3 cell decoder: FamilyGate { mode: "@
                + decimal(mode as int) + " }"@,
            CellDecodeError::BadEscape { escape, position } => "indeo3 cell decoder: BadEscape { escape: "@
                + decimal(escape as int) + ", position: "@
                + decimal(position as int) + " }"@,
            CellDecodeError::BadCounter { counter } => "indeo3 cell decoder: BadCounter { counter: "@
                + decimal(counter as int) + " }"@,
            CellDecodeError::RangeFault => "indeo3 cell decoder: RangeFault"@,
            CellDecodeError::BadStagingBlock => "indeo3 cell decoder: BadStagingBlock"@,
            CellDecodeError::BadMvIndex { index } => "indeo3 cell decoder: BadMvIndex { index: "@
                + decimal(index as int) + " }"@,
            CellDecodeError::McOutOfRange => "indeo3 cell decoder: McOutOfRange"@,
            CellDecodeError::UnsupportedFamily { mode } => "indeo3 cell decoder: UnsupportedFamily { mode: "@
                + decimal(mode as int) + " }"@,
        }
    }

    /// The message of the error.
    pub fn message(&self) -> (r: String)
        ensures
            r@ == self.text(),
    {
        match self {
            CellDecodeError::StreamExhausted => String::from_str(
                "indeo3 cell decoder: StreamExhausted",
            ),
            CellDecodeError::UnderFourNode => String::from_str(
                "indeo3 cell decoder: UnderFourNode",
            ),
            CellDecodeError::TreeTooDeep => String::from_str("indeo3 cell decoder: TreeTooDeep"),
            CellDecodeError::BadStrip => String::from_str("indeo3 cell decoder: BadStrip"),
            CellDecodeError::BadVqNull => String::from_str("indeo3 cell decoder: BadVqNull"),
            CellDecodeError::BadModeByte { mode } => {
                let mut out = String::from_str("indeo3 cell decoder: BadModeByte { mode: ");
                push_decimal(&mut out, *mode as usize);
                out.append(" }");
                out
            },
            CellDecodeError::FamilyGate { mode } => {
                let mut out = String::from_str("indeo3 cell decoder: FamilyGate { mode: ");
                push_decimal(&mut out, *mode as usize);
                out.append(" }");
                out
            },
            CellDecodeError::BadEscape { escape, position } => {
                let mut out = String::from_str("indeo3 cell decoder: BadEscape { escape: ");
                push_decimal(&mut out, *escape as usize);
                out.append(", position: ");
                push_decimal(&mut out, *position as usize);
                out.append(" }");
                out
            },
            CellDecodeError::BadCounter { counter } => {
                let mut out = String::from_str("indeo3 cell decoder: BadCounter { counter: ");
                push_decimal(&mut out, *counter as usize);
                out.append(" }");
                out
            },
            CellDecodeError::RangeFault => String::from_str("indeo3 cell decoder: RangeFault"),
            CellDecodeError::BadStagingBlock => String::from_str(
                "indeo3 cell decoder: BadStagingBlock",
            ),
            CellDecodeError::BadMvIndex { index } => {
                let mut out = String::from_str("indeo3 cell decoder: BadMvIndex { index: ");
                push_decimal(&mut out, *index as usize);
                out.append(" }");
                out
            },
            CellDecodeError::McOutOfRange => String::from_str("indeo3 cell decoder: McOutOfRange"),
            CellDecodeError::UnsupportedFamily { mode } => {
                let mut out = String::from_str("indeo3 cell decoder: UnsupportedFamily { mode: ");
                push_decimal(&mut out, *mode as usize);
                out.append(" }");
                out
            },
        }
    }
}

/// The six families of coded cells.
#[derive(Debug, Clone, Copy, PartialEq, Eq, Structural)]
pub enum Family {
    /// 4x4 blocks over the row above.
    A,
    /// 4x4 blocks over the cell's own content.
    B,
    /// 8-row, 4-pixel blocks over the row above.
    C,
    /// 8-row, 4-pixel blocks over the cell's own content.
    D,
    /// 8x8 blocks over the row above.
    E,
    /// 8x8 blocks over the cell's own content.
    F,
}

/// A positioned leaf cell.
#[derive(Debug, Clone, Copy, PartialEq, Eq, Structural)]
pub struct LeafRect {
    /// The strip.
    pub strip: usize,
    /// The left column within the strip.
    pub x: u32,
    /// The top row.
    pub y: u32,
    /// The width in pixels.
    pub w: u32,
    /// The height in rows.
    pub h: u32,
}

/// A tree node that is yet to be walked.
#[derive(Debug, Clone, Copy, PartialEq, Eq, Structural)]
pub struct Pending {
    /// The vertical heap index.
    pub cl: u32,
    /// The horizontal heap index.
    pub ch: u32,
    /// `None` for a node of the motion tree; for a node of the VQ tree
    /// below a motion leaf, that leaf's vector, if it has one.
    pub leaf: Option<Option<MotionVector>>,
}

/// Per-plane decode statistics.
#[derive(Debug, Clone, Copy, PartialEq, Eq)]
pub struct PlaneStats {
    /// Leaf cells positioned.
    pub cells: u32,
    /// Cells with a mode-byte stream (VQ_DATA or the VQ_NULL `1`
    /// sub-code).
    pub coded_cells: u32,
    /// VQ_NULL copy-upper cells.
    pub copy_upper: u32,
    /// VQ_NULL mark-skip cells.
    pub skipped: u32,
    /// INTER leaves (motion-compensated).
    pub inter: u32,
    /// Bytes of the plane payload consumed.
    pub bytes: usize,
    /// Histogram of mode bytes by family letter index (A..F).
    pub families: [u32; 6],
}

impl PlaneStats {
    /// The counters.
    pub open spec fn tally(self) -> Tally {
        Tally {
            cells: self.cells as int,
            coded_cells: self.coded_cells as int,
            copy_upper: self.copy_upper as int,
            skipped: self.skipped as int,
            inter: self.inter as int,
            families: Seq::new(6, |i: int| self.families@[i] as int),
        }
    }
}

impl Default for PlaneStats {
    fn default() -> (r: Self)
        ensures
            r.tally() == no_cells(),
            r.bytes == 0,
    {
        let r = PlaneStats {
            cells: 0,
            coded_cells: 0,
            copy_upper: 0,
            skipped: 0,
            inter: 0,
            bytes: 0,
            families: [0u32; 6],
        };
        assert(r.tally().families =~= no_cells().families);
        r
    }
}

/// The inputs a plane decode needs besides the buffers.
pub struct PlaneContext<'a> {
    /// The codec-init staging image.
    pub staging: &'a StagingImage,
    /// The per-frame arena.
    pub arena: &'a VqArena,
    /// The frame's `cb_offset`.
    pub cb_offset: i8,
    /// The static dyad table (its first 1 KB is the predictor LUT bank
    /// set).
    pub lut: &'a DyadDeltaTable,
    /// The plane's motion-vector table.
    pub mvs: &'a [MotionVector],
    /// The reference plane (previous frame) for INTER leaves.
    pub reference: Option<&'a PlaneBuffers>,
}

/// MSB-first bit reader with byte-level reads: the bit accumulator holds
/// the remaining bits of the last byte it loaded, and byte-level reads
/// take whole bytes at the cursor without touching it.
pub struct Reader<'a> {
    /// The payload.
    pub data: &'a [u8],
    /// The next byte to take.
    pub pos: usize,
    /// The bits left of the last byte taken for bits, topmost first.
    pub acc: u8,
    /// How many bits are left.
    pub nbits: u8,
}

impl<'a> Reader<'a> {
    /// The reader's cursor.
    pub open spec fn cursor(self) -> Cursor {
        Cursor { pos: self.pos as int, acc: self.acc as int, nbits: self.nbits as int }
    }

    /// The reader stands inside its payload.
    pub open spec fn inside(self) -> bool {
        self.cursor().inside(self.data@)
    }

    /// Take one bit.
    pub fn bit(&mut self) -> (r: Result<u8, CellDecodeError>)
        requires
            old(self).inside(),
        ensures
            final(self).inside(),
            final(self).data == old(self).data,
            match r {
                Ok(b) => next_bit(old(self).data@, old(self).cursor()) == Some(
                    (b as int, final(self).cursor()),
                ),
                Err(e) => next_bit(old(self).data@, old(self).cursor()) is None && e
                    == CellDecodeError::StreamExhausted,
            },
    {
        if self.nbits == 0 {
            if self.pos >= self.data.len() {
                return Err(CellDecodeError::StreamExhausted);
            }
            self.acc = self.data[self.pos];
            self.pos = self.pos + 1;
            self.nbits = 8;
        }
        let v: u8 = self.acc / 128;
        self.acc = (self.acc as u16 * 2 % 256) as u8;
        self.nbits = self.nbits - 1;
        Ok(v)
    }

    /// Take a whole byte.
    pub fn byte(&mut self) -> (r: Result<u8, CellDecodeError>)
        requires
            old(self).inside(),
        ensures
            final(self).inside(),
            final(self).data == old(self).data,
            final(self).acc == old(self).acc,
            final(self).nbits == old(self).nbits,
            match r {
                Ok(b) => old(self).pos < old(self).data@.len() && b == old(self).data@[old(
                    self,
                ).pos as int] && final(self).pos == old(self).pos + 1,
                Err(e) => old(self).pos >= old(self).data@.len() && e
                    == CellDecodeError::StreamExhausted && final(self).pos == old(self).pos,
            },
    {
        if self.pos >= self.data.len() {
            return Err(CellDecodeError::StreamExhausted);
        }
        let b: u8 = self.data[self.pos];
        self.pos = self.pos + 1;
        Ok(b)
    }
}

/// The two code tables a mode byte selects: offsets into one buffer.
struct CodeTables<'a> {
    bytes: &'a [u8],
    primary: usize,
    secondary: usize,
}

impl<'a> CodeTables<'a> {
    spec fn book(self) -> Codebook {
        Codebook {
            bytes: self.bytes@,
            primary: self.primary as int,
            secondary: self.secondary as int,
        }
    }

    /// Both tables lie in the buffer.
    spec fn inside(self) -> bool {
        &&& self.primary + 0x400 <= self.bytes@.len()
        &&& self.secondary + 0x400 <= self.bytes@.len()
    }
}

/// Where a block stands and how its codes are read.
#[derive(Clone, Copy)]
struct BlockAt {
    y: usize,
    x: usize,
    doubled: bool,
    own: bool,
}

impl BlockAt {
    /// The place in the model: a block of some cell's codes.
    spec fn stands_at(self, at: BlockPlace) -> bool {
        &&& at.y == self.y
        &&& at.x == self.x
        &&& at.code.doubled == self.doubled
        &&& at.code.own == self.own
    }

    /// The block lies inside a strip of `len` bytes.
    spec fn fits(self, len: int) -> bool {
        let side = if self.doubled {
            8int
        } else {
            4
        };
        &&& (self.y + side) * 0xb0 + self.x + side <= len
        &&& len <= usize::MAX
    }
}

/// Replace the bytes from `at` on by `row`.
fn put_row(s: &mut Vec<u8>, at: usize, row: &[u8])
    requires
        at + row@.len() <= old(s)@.len(),
    ensures
        final(s)@ == with_row(old(s)@, at as int, row@),
{
    let n: usize = s.len();
    let mut i: usize = 0;
    while i < row.len()
        invariant
            i <= row@.len(),
            at + row@.len() <= s@.len(),
            s@.len() == n,
            s@.len() == old(s)@.len(),
            forall|j: int|
                0 <= j < s@.len() ==> #[trigger] s@[j] == if at <= j < at + i {
                    row@[j - at]
                } else {
                    old(s)@[j]
                },
        decreases row@.len() - i,
    {
        s[at + i] = row[i];
        i = i + 1;
    }
    assert(s@ =~= with_row(old(s)@, at as int, row@));
}

/// A delta rounded toward zero to an even value.
fn even_delta(d: i16) -> (r: i16)
    requires
        -128 <= d <= 128,
    ensures
        r == evened(d as int),
        -128 <= r <= 128,
{
    if d >= 0 {
        d - d % 2
    } else {
        let m: i16 = -d;
        -(m - m % 2)
    }
}

/// The two pixel deltas of a dyad.
fn dyad_deltas(dyad: u16) -> (r: (i16, i16))
    ensures
        r.0 == evened(dyad_low(dyad as int)),
        r.1 == evened(dyad_high(dyad as int)),
        -128 <= r.0 <= 128,
        -128 <= r.1 <= 128,
{
    let a: i16 = sign_extend((dyad % 0x100) as u8) as i16;
    let b: i16 = sign_extend((dyad / 0x100) as u8) as i16;
    let b: i16 = if a < 0 {
        b + 1
    } else {
        b
    };
    (even_delta(a), even_delta(b))
}

/// The deltas of one literal code.
struct Deltas {
    d: [i16; 4],
}

impl Deltas {
    spec fn values(self) -> Seq<int> {
        seq![self.d@[0] as int, self.d@[1] as int, self.d@[2] as int, self.d@[3] as int]
    }

    spec fn bounded(self) -> bool {
        forall|i: int| 0 <= i < 4 ==> -128 <= #[trigger] self.d@[i] <= 128
    }
}

/// Read the rest of the literal code `b` against the predictor `pred`.
fn literal(r: &mut Reader<'_>, bytes: &[u8], table: usize, b: u8, pred: u32) -> (res: Result<
    Deltas,
    CellDecodeError,
>)
    requires
        old(r).inside(),
        table + 0x400 <= bytes@.len(),
    ensures
        final(r).inside(),
        final(r).data == old(r).data,
        final(r).acc == old(r).acc,
        final(r).nbits == old(r).nbits,
        match res {
            Ok(d) => d.bounded() && literal_code(
                old(r).data@,
                old(r).pos as int,
                bytes@,
                table as int,
                b as int,
                pred as int,
            ) == Some((d.values(), final(r).pos as int)),
            Err(e) => e == CellDecodeError::StreamExhausted && literal_code(
                old(r).data@,
                old(r).pos as int,
                bytes@,
                table as int,
                b as int,
                pred as int,
            ) is None,
        },
{
    let n: usize = bytes.len();
    let word: u32 = read_dword(bytes, table + 4 * b as usize);
    let sum: u64 = (pred as u64 + word as u64) % 0x1_0000_0000;
    let (lo, hi): (u16, u16) = if sum < 0x8000_0000 {
        let lo: u16 = (word % 0x1_0000) as u16;
        let borrow: u32 = if lo >= 0x8000 {
            1
        } else {
            0
        };
        (lo, ((word / 0x1_0000 + borrow) % 0x1_0000) as u16)
    } else {
        let c: u8 = match r.byte() {
            Ok(c) => c,
            Err(e) => return Err(e),
        };
        let c_hi: u16 = read_word(bytes, table + 4 * c as usize + 2);
        (
            ((c_hi as u32 + 0x8000) % 0x1_0000) as u16,
            ((word / 0x1_0000 + 0x8000) % 0x1_0000) as u16,
        )
    };
    let (d0, d1) = dyad_deltas(lo);
    let (d2, d3) = dyad_deltas(hi);
    let d = Deltas { d: [d0, d1, d2, d3] };
    assert(d.values() =~= pixel_deltas(lo as int, hi as int));
    Ok(d)
}

/// A pixel with a delta added.
fn shift_pixel(p: u8, d: i16) -> (r: u8)
    requires
        -128 <= d <= 128,
    ensures
        r == shifted(p, d as int),
{
    ((p as i16 + d + 0x100) % 0x100) as u8
}

impl BlockAt {
    /// The first of the rows of position `p`.
    fn row(&self, p: u8) -> (r: usize)
        requires
            self.fits(usize::MAX as int),
            p < 4,
        ensures
            forall|at: BlockPlace| #[trigger] self.stands_at(at) ==> r == at.row(p as int),
            r + 1 <= self.y + if self.doubled { 7int } else { 4 },
    {
        if self.doubled {
            self.y + 2 * p as usize
        } else {
            self.y + p as usize
        }
    }

    /// The predictor pixels of row position `p`.
    fn predictor_pixels(&self, s: &Vec<u8>, p: u8, Ghost(at): Ghost<BlockPlace>) -> (r: [u8; 4])
        requires
            self.stands_at(at),
            self.fits(s@.len() as int),
            p < 4,
        ensures
            forall|i: int| 0 <= i < 4 ==> #[trigger] r@[i] == at.predictor_pixel(s@, p as int, i),
    {
        let n: usize = s.len();
        let row: usize = self.row(p);
        let i: usize = if self.own {
            (row + 1) * 0xb0 + self.x
        } else {
            row * 0xb0 + self.x
        };
        assert(i == at.predictor_index(p as int));
        if self.doubled {
            [s[i], s[i + 2], s[i + 4], s[i + 6]]
        } else {
            [s[i], s[i + 1], s[i + 2], s[i + 3]]
        }
    }

    /// The row of bytes at row `y` of a doubled block with the deltas
    /// added.
    fn residual(&self, s: &Vec<u8>, y: usize, d: &Deltas) -> (r: [u8; 8])
        requires
            self.doubled,
            self.fits(s@.len() as int),
            self.y <= y < self.y + 8,
            d.bounded(),
        ensures
            r@ == residual_row(s@, y as int, self.x as int, d.values()),
    {
        let n: usize = s.len();
        let i: usize = (y + 1) * 0xb0 + self.x;
        let mut out: [u8; 8] = [0u8; 8];
        let mut j: usize = 0;
        while j < 8
            invariant
                j <= 8,
                s@.len() == n,
                i == strip_index(y as int, self.x as int),
                i + 8 <= n,
                d.bounded(),
                forall|k: int|
                    0 <= k < j ==> #[trigger] out@[k] == residual_row(
                        s@,
                        y as int,
                        self.x as int,
                        d.values(),
                    )[k],
            decreases 8 - j,
        {
            let k: usize = j / 2;
            assert(d.values()[j as int / 2] == d.d@[k as int]);
            out[j] = shift_pixel(s[i + j], d.d[k]);
            j = j + 1;
        }
        assert(out@ =~= residual_row(s@, y as int, self.x as int, d.values()));
        out
    }

    /// Apply the deltas of a code at row position `p`.
    fn apply(&self, s: &mut Vec<u8>, p: u8, d: &Deltas, Ghost(at): Ghost<BlockPlace>) -> (r: Result<
        (),
        CellDecodeError,
    >)
        requires
            self.stands_at(at),
            self.fits(old(s)@.len() as int),
            p < 4,
            d.bounded(),
        ensures
            final(s)@.len() == old(s)@.len(),
            match r {
                Ok(_) => applied(at, old(s)@, p as int, d.values()) == Some(final(s)@),
                Err(e) => e == CellDecodeError::RangeFault && applied(
                    at,
                    old(s)@,
                    p as int,
                    d.values(),
                ) is None && final(s)@ == old(s)@,
            },
    {
        let n: usize = s.len();
        let y: usize = self.row(p);
        let i0: usize = (y + 1) * 0xb0 + self.x;
        if self.doubled && self.own {
            let first = self.residual(s, y, d);
            let second = self.residual(s, y + 1, d);
            if !all_seven_bit(first.as_slice()) || !all_seven_bit(second.as_slice()) {
                return Err(CellDecodeError::RangeFault);
            }
            put_row(s, i0, first.as_slice());
            put_row(s, i0 + 0xb0, second.as_slice());
            return Ok(());
        }
        let q = self.predictor_pixels(s, p, Ghost(at));
        assert(d.values()[0] == d.d@[0] && d.values()[1] == d.d@[1] && d.values()[2] == d.d@[2]
            && d.values()[3] == d.d@[3]);
        let pixels: [u8; 4] = [
            shift_pixel(q[0], d.d[0]),
            shift_pixel(q[1], d.d[1]),
            shift_pixel(q[2], d.d[2]),
            shift_pixel(q[3], d.d[3]),
        ];
        assert(pixels@ =~= decoded_pixels(at, s@, p as int, d.values()));
        if !all_seven_bit(pixels.as_slice()) {
            return Err(CellDecodeError::RangeFault);
        }
        if self.doubled {
            store_doubled(s, y, self.x, &pixels);
        } else {
            put_row(s, i0, pixels.as_slice());
        }
        Ok(())
    }

    /// Fill row positions `from..to` from their predictors.
    fn fill(&self, s: &mut Vec<u8>, from: u8, to: u8, Ghost(at): Ghost<BlockPlace>)
        requires
            self.stands_at(at),
            self.fits(old(s)@.len() as int),
            from <= to <= 4,
        ensures
            final(s)@ == filled(at, old(s)@, from as int, to as int),
            final(s)@.len() == old(s)@.len(),
    {
        if self.own {
            return;
        }
        let n: usize = s.len();
        let mut p: u8 = from;
        while p < to
            invariant
                from <= p <= to <= 4,
                s@.len() == n,
                self.stands_at(at),
                !self.own,
                self.fits(n as int),
                filled(at, s@, p as int, to as int) == filled(at, old(s)@, from as int, to as int),
            decreases to - p,
        {
            let pixels = self.predictor_pixels(s, p, Ghost(at));
            assert(pixels@ =~= Seq::new(4, |i: int| at.predictor_pixel(s@, p as int, i)));
            let y: usize = self.row(p);
            if self.doubled {
                store_doubled(s, y, self.x, &pixels);
            } else {
                put_row(s, (y + 1) * 0xb0 + self.x, pixels.as_slice());
            }
            p = p + 1;
        }
    }
}

/// Every byte of a row is a 7-bit value.
fn all_seven_bit(row: &[u8]) -> (r: bool)
    ensures
        r == seven_bit(row@),
{
    let mut j: usize = 0;
    while j < row.len()
        invariant
            j <= row@.len(),
            forall|k: int| 0 <= k < j ==> row@[k] < 0x80,
        decreases row@.len() - j,
    {
        if row[j] >= 0x80 {
            return false;
        }
        j = j + 1;
    }
    true
}

/// Store a decoded row of four pixels doubled, as the row `y + 1` and the
/// row `y` of averages with the row above.
fn store_doubled(s: &mut Vec<u8>, y: usize, x: usize, pixels: &[u8; 4])
    requires
        (y + 2) * 0xb0 + x + 8 <= old(s)@.len(),
    ensures
        final(s)@ == with_doubled(old(s)@, y as int, x as int, pixels@),
        final(s)@.len() == old(s)@.len(),
{
    let n: usize = s.len();
    let above: usize = y * 0xb0 + x;
    let mut first: [u8; 8] = [0u8; 8];
    let mut second: [u8; 8] = [0u8; 8];
    let mut j: usize = 0;
    while j < 8
        invariant
            j <= 8,
            s@ == old(s)@,
            s@.len() == n,
            above == strip_index(y - 1, x as int),
            above + 8 <= n,
            forall|k: int|
                0 <= k < j ==> #[trigger] first@[k] == if y == 0 {
                    pixels@[k / 2]
                } else {
                    ((s@[above + k] % 128 + pixels@[k / 2] % 128) / 2) as u8
                },
            forall|k: int| 0 <= k < j ==> #[trigger] second@[k] == pixels@[k / 2],
        decreases 8 - j,
    {
        let v: u8 = pixels[j / 2];
        let a: u8 = s[above + j];
        first[j] = if y == 0 {
            v
        } else {
            (a % 128 + v % 128) / 2
        };
        second[j] = v;
        j = j + 1;
    }
    put_row(s, above + 0xb0, first.as_slice());
    put_row(s, above + 0x160, second.as_slice());
    proof {
        let s0 = old(s)@;
        assert(first@ =~= Seq::new(
            8,
            |j: int|
                if y == 0 {
                    pixels@[j / 2]
                } else {
                    ((s0[strip_index(y - 1, x as int) + j] % 128 + pixels@[j / 2] % 128) / 2) as u8
                },
        ));
        assert(second@ =~= Seq::new(8, |j: int| pixels@[j / 2]));
    }
}

/// What a code asks for next.
struct CodeOut {
    next: u8,
    fill: u32,
    pass: u32,
}

/// The runs of a counter byte.
fn fb_counter(counter: u8) -> (r: Result<(u32, u32), CellDecodeError>)
    ensures
        match r {
            Ok(v) => run_of(counter as int) == Some((v.0 as int, v.1 as int)),
            Err(e) => run_of(counter as int) is None && e == (CellDecodeError::BadCounter { counter }),
        },
{
    let n: u32 = (counter % 32) as u32;
    if n == 0 || counter >= 64 {
        return Err(CellDecodeError::BadCounter { counter });
    }
    if counter >= 32 {
        Ok((0, n))
    } else {
        Ok((n, 0))
    }
}

/// Carry out the literal code `b`, whose byte has been taken.
fn literal_position(
    r: &mut Reader<'_>,
    s: &mut Vec<u8>,
    block: BlockAt,
    book: &CodeTables<'_>,
    p: u8,
    b: u8,
    Ghost(at): Ghost<BlockPlace>,
    Ghost(sticky): Ghost<bool>,
) -> (res: Result<CodeOut, CellDecodeError>)
    requires
        old(r).inside(),
        old(r).pos >= 1,
        block.stands_at(at),
        at.code.book == book.book(),
        book.inside(),
        block.fits(old(s)@.len() as int),
        p < 4,
    ensures
        final(r).inside(),
        final(r).data == old(r).data,
        final(r).acc == old(r).acc,
        final(r).nbits == old(r).nbits,
        ({
            let step = literal_step(
                old(r).data@,
                CodeState { strip: old(s)@, pos: old(r).pos - 1, sticky },
                at,
                p as int,
                b as int,
            );
            &&& final(s)@ == step.state.strip
            &&& match res {
                Ok(out) => {
                    &&& step.error is None
                    &&& final(r).pos == step.state.pos
                    &&& sticky == step.state.sticky
                    &&& out.next == step.next
                    &&& out.fill == step.fill
                    &&& out.pass == step.pass
                },
                Err(e) => step.error == Some(e),
            }
        }),
{
    let q = block.predictor_pixels(s, p, Ghost(at));
    let pred: u32 = u32_from_le(q[0], q[1], q[2], q[3]);
    assert(pred == at.predictor(s@, p as int));
    let table: usize = if p % 2 == 0 {
        book.secondary
    } else {
        book.primary
    };
    let d = match literal(r, book.bytes, table, b, pred) {
        Ok(d) => d,
        Err(e) => return Err(e),
    };
    match block.apply(s, p, &d, Ghost(at)) {
        Ok(_) => Ok(CodeOut { next: p + 1, fill: 0, pass: 0 }),
        Err(e) => Err(e),
    }
}

/// Carry out the run escape, whose byte has been taken.
fn run_position(
    r: &mut Reader<'_>,
    s: &mut Vec<u8>,
    sticky: &mut bool,
    block: BlockAt,
    p: u8,
    Ghost(at): Ghost<BlockPlace>,
) -> (res: Result<CodeOut, CellDecodeError>)
    requires
        old(r).inside(),
        old(r).pos >= 1,
        block.stands_at(at),
        block.fits(old(s)@.len() as int),
        p < 4,
    ensures
        final(r).inside(),
        final(r).data == old(r).data,
        final(r).acc == old(r).acc,
        final(r).nbits == old(r).nbits,
        ({
            let step = run_step(
                old(r).data@,
                CodeState { strip: old(s)@, pos: old(r).pos - 1, sticky: *old(sticky) },
                at,
                p as int,
            );
            &&& final(s)@ == step.state.strip
            &&& match res {
                Ok(out) => {
                    &&& step.error is None
                    &&& final(r).pos == step.state.pos
                    &&& *final(sticky) == step.state.sticky
                    &&& out.next == step.next
                    &&& out.fill == step.fill
                    &&& out.pass == step.pass
                },
                Err(e) => step.error == Some(e),
            }
        }),
{
    let counter: u8 = match r.byte() {
        Ok(c) => c,
        Err(e) => return Err(e),
    };
    let (fill, pass): (u32, u32) = match fb_counter(counter) {
        Ok(v) => v,
        Err(e) => return Err(e),
    };
    if fill > 0 {
        block.fill(s, p, 4, Ghost(at));
        let left: u32 = if *sticky {
            fill
        } else {
            fill - 1
        };
        *sticky = false;
        Ok(CodeOut { next: 4, fill: left, pass: 0 })
    } else {
        Ok(CodeOut { next: 4, fill: 0, pass: pass - 1 })
    }
}

/// Read and carry out the code at row position `p` of a block.
fn code(
    r: &mut Reader<'_>,
    s: &mut Vec<u8>,
    sticky: &mut bool,
    block: BlockAt,
    book: &CodeTables<'_>,
    p: u8,
    Ghost(at): Ghost<BlockPlace>,
) -> (res: Result<CodeOut, CellDecodeError>)
    requires
        old(r).inside(),
        block.stands_at(at),
        at.code.book == book.book(),
        book.inside(),
        block.fits(old(s)@.len() as int),
        p < 4,
    ensures
        final(r).inside(),
        final(r).data == old(r).data,
        final(r).acc == old(r).acc,
        final(r).nbits == old(r).nbits,
        ({
            let step = code_step(
                old(r).data@,
                CodeState { strip: old(s)@, pos: old(r).pos as int, sticky: *old(sticky) },
                at,
                p as int,
            );
            &&& final(s)@ == step.state.strip
            &&& match res {
                Ok(out) => {
                    &&& step.error is None
                    &&& final(r).pos == step.state.pos
                    &&& *final(sticky) == step.state.sticky
                    &&& out.next == step.next
                    &&& out.fill == step.fill
                    &&& out.pass == step.pass
                },
                Err(e) => step.error == Some(e),
            }
        }),
{
    proof {
        reveal(code_step);
    }
    let start: usize = r.pos;
    let b: u8 = match r.byte() {
        Ok(b) => b,
        Err(e) => return Err(e),
    };
    let refused = CellDecodeError::BadEscape { escape: b, position: p };
    if *sticky && b == 0xFA {
        r.pos = start;
        return Ok(CodeOut { next: 4, fill: 0, pass: 0 });
    }
    if *sticky && b == 0xFD {
        r.pos = start;
        block.fill(s, p, 4, Ghost(at));
        return Ok(CodeOut { next: 4, fill: 0, pass: 0 });
    }
    if b < 0xF8 {
        return literal_position(r, s, block, book, p, b, Ghost(at), Ghost(*sticky));
    }
    if b == 0xF8 {
        if block.doubled || p != 0 {
            return Err(refused);
        }
        let v: u8 = match r.byte() {
            Ok(v) => v % 128 + 0x80,
            Err(e) => return Err(e),
        };
        let row: [u8; 4] = [v, v, v, v];
        assert(row@ =~= seq![v, v, v, v]);
        let n: usize = s.len();
        put_row(s, (block.y + 1) * 0xb0 + block.x, row.as_slice());
        return Ok(CodeOut { next: 1, fill: 0, pass: 0 });
    }
    if b == 0xF9 || b == 0xFA {
        if p != 0 {
            return Err(refused);
        }
        if b == 0xF9 {
            *sticky = !*sticky;
        }
        if *sticky {
            r.pos = start;
        }
        return Ok(CodeOut { next: 4, fill: 0, pass: 0 });
    }
    if b == 0xFB {
        return run_position(r, s, sticky, block, p, Ghost(at));
    }
    if b == 0xFC || b == 0xFD {
        if b == 0xFC {
            *sticky = !*sticky;
        }
        block.fill(s, p, 4, Ghost(at));
        if *sticky {
            r.pos = start;
        }
        return Ok(CodeOut { next: 4, fill: 0, pass: 0 });
    }
    if b == 0xFE {
        if p > 1 {
            return Err(refused);
        }
        block.fill(s, p, 3, Ghost(at));
        return Ok(CodeOut { next: 3, fill: 0, pass: 0 });
    }
    if p != 0 {
        return Err(refused);
    }
    block.fill(s, 0, 2, Ghost(at));
    Ok(CodeOut { next: 2, fill: 0, pass: 0 })
}

/// Read the codes of one block; gives the blocks that a run has yet to
/// fill and to pass over.
fn block_body(
    r: &mut Reader<'_>,
    s: &mut Vec<u8>,
    sticky: &mut bool,
    block: BlockAt,
    book: &CodeTables<'_>,
    Ghost(at): Ghost<BlockPlace>,
) -> (res: Result<(u32, u32), CellDecodeError>)
    requires
        old(r).inside(),
        block.stands_at(at),
        at.code.book == book.book(),
        book.inside(),
        block.fits(old(s)@.len() as int),
    ensures
        final(r).inside(),
        final(r).data == old(r).data,
        final(r).acc == old(r).acc,
        final(r).nbits == old(r).nbits,
        final(s)@.len() == old(s)@.len(),
        ({
            let step = block_codes(
                old(r).data@,
                CodeState { strip: old(s)@, pos: old(r).pos as int, sticky: *old(sticky) },
                at,
                0,
            );
            &&& final(s)@ == step.state.strip
            &&& match res {
                Ok(out) => {
                    &&& step.error is None
                    &&& final(r).pos == step.state.pos
                    &&& *final(sticky) == step.state.sticky
                    &&& out.0 == step.fill
                    &&& out.1 == step.pass
                },
                Err(e) => step.error == Some(e),
            }
        }),
{
    let ghost start = CodeState { strip: s@, pos: r.pos as int, sticky: *sticky };
    let ghost data = r.data@;
    let mut p: u8 = 0;
    loop
        invariant
            r.inside(),
            r.data == old(r).data,
            r.data@ == data,
            r.acc == old(r).acc,
            r.nbits == old(r).nbits,
            s@.len() == old(s)@.len(),
            start == (CodeState {
                strip: old(s)@,
                pos: old(r).pos as int,
                sticky: *old(sticky),
            }),
            block.stands_at(at),
            at.code.book == book.book(),
            book.inside(),
            block.fits(s@.len() as int),
            p < 4,
            block_codes(data, start, at, 0) == block_codes(
                data,
                CodeState { strip: s@, pos: r.pos as int, sticky: *sticky },
                at,
                p as int,
            ),
        decreases 4 - p,
    {
        proof {
            code_makes_progress(
                data,
                CodeState { strip: s@, pos: r.pos as int, sticky: *sticky },
                at,
                p as int,
            );
        }
        let out = match code(r, s, sticky, block, book, p, Ghost(at)) {
            Ok(out) => out,
            Err(e) => return Err(e),
        };
        if out.next >= 4 {
            return Ok((out.fill, out.pass));
        }
        p = out.next;
    }
}

/// Block `n` of a cell lies inside the cell.
proof fn lemma_block_inside(code: CellCode, n: int)
    requires
        0 <= n < code.total(),
    ensures
        code.columns() > 0,
        0 <= code.block_y(n),
        code.block_y(n) + code.side() <= code.cell.y + code.cell.h,
        0 <= code.block_x(n),
        code.block_x(n) + code.side() <= code.cell.x + code.cell.w,
{
    let cols = code.columns();
    let groups = code.cell.h as int / code.side();
    assert(cols > 0 && groups > 0) by (nonlinear_arith)
        requires
            0 <= n < groups * cols,
            cols >= 0,
            groups >= 0,
    ;
    vstd::arithmetic::div_mod::lemma_fundamental_div_mod(n, cols);
    vstd::arithmetic::div_mod::lemma_mod_bound(n, cols);
    let q = n / cols;
    assert(0 <= q < groups) by (nonlinear_arith)
        requires
            n == cols * q + n % cols,
            0 <= n % cols < cols,
            0 <= n < groups * cols,
    ;
    let side = code.side();
    lemma_steps_inside(q, side, code.cell.h as int);
    lemma_steps_inside(n % cols, side, code.cell.w as int);
}

proof fn lemma_steps_inside(i: int, side: int, extent: int)
    requires
        0 <= i < extent / side,
        side > 0,
        extent >= 0,
    ensures
        0 <= side * i,
        side * i + side <= extent,
{
    vstd::arithmetic::div_mod::lemma_fundamental_div_mod(extent, side);
    vstd::arithmetic::div_mod::lemma_mod_bound(extent, side);
    let q = extent / side;
    assert(0 <= side * i && side * i + side <= side * q) by (nonlinear_arith)
        requires
            0 <= i < q,
            side > 0,
    ;
}

/// Where block `n` of a cell stands.
fn block_at(
    cell: &LeafRect,
    doubled: bool,
    own: bool,
    cols: u32,
    n: u32,
    len: usize,
    Ghost(code): Ghost<CellCode>,
) -> (r: BlockAt)
    requires
        code.cell == *cell,
        code.doubled == doubled,
        code.own == own,
        cols == code.columns(),
        n < code.total(),
        rect_fits(*cell, len as int),
    ensures
        r.stands_at(block_place(code, n as int)),
        r.fits(len as int),
{
    proof {
        lemma_block_inside(code, n as int);
    }
    let g: usize = (n / cols) as usize;
    let c: usize = (n % cols) as usize;
    if doubled {
        assert(code.side() == 8);
        BlockAt { y: cell.y as usize + 8 * g, x: cell.x as usize + 8 * c, doubled, own }
    } else {
        assert(code.side() == 4);
        BlockAt { y: cell.y as usize + 4 * g, x: cell.x as usize + 4 * c, doubled, own }
    }
}

/// Read the codes of a cell: its blocks row-group major, four row
/// positions each.
fn cell_body(
    r: &mut Reader<'_>,
    s: &mut Vec<u8>,
    sticky: &mut bool,
    cell: &LeafRect,
    book: &CodeTables<'_>,
    doubled: bool,
    own: bool,
) -> (res: Result<(), CellDecodeError>)
    requires
        old(r).inside(),
        book.inside(),
        rect_fits(*cell, old(s)@.len() as int),
        cell.w <= 1020,
        cell.h <= 1020,
    ensures
        final(r).inside(),
        final(r).data == old(r).data,
        final(r).acc == old(r).acc,
        final(r).nbits == old(r).nbits,
        final(s)@.len() == old(s)@.len(),
        ({
            let end = cell_codes(
                old(r).data@,
                CodeState { strip: old(s)@, pos: old(r).pos as int, sticky: *old(sticky) },
                CellCode { cell: *cell, book: book.book(), doubled, own },
                0,
                0,
                0,
            );
            &&& final(s)@ == end.state.strip
            &&& match res {
                Ok(_) => {
                    &&& end.error is None
                    &&& final(r).pos == end.state.pos
                    &&& *final(sticky) == end.state.sticky
                },
                Err(e) => end.error == Some(e),
            }
        }),
{
    let len: usize = s.len();
    let side: u32 = if doubled {
        8
    } else {
        4
    };
    let cols: u32 = cell.w / side;
    let groups: u32 = cell.h / side;
    assert(groups * cols <= 255 * 255) by (nonlinear_arith)
        requires
            groups <= 255,
            cols <= 255,
    ;
    let total: u32 = groups * cols;
    let ghost code_of = CellCode { cell: *cell, book: book.book(), doubled, own };
    let ghost start = CodeState { strip: s@, pos: r.pos as int, sticky: *sticky };
    let ghost data = r.data@;
    let mut n: u32 = 0;
    let mut fill: u32 = 0;
    let mut pass: u32 = 0;
    while n < total
        invariant
            n <= total,
            total == code_of.total(),
            cols == code_of.columns(),
            side == code_of.side(),
            code_of == (CellCode { cell: *cell, book: book.book(), doubled, own }),
            start == (CodeState {
                strip: old(s)@,
                pos: old(r).pos as int,
                sticky: *old(sticky),
            }),
            len == old(s)@.len(),
            r.inside(),
            r.data == old(r).data,
            r.data@ == data,
            r.acc == old(r).acc,
            r.nbits == old(r).nbits,
            s@.len() == len,
            book.inside(),
            rect_fits(*cell, len as int),
            fill <= 31,
            pass <= 31,
            cell_codes(data, start, code_of, 0, 0, 0) == cell_codes(
                data,
                CodeState { strip: s@, pos: r.pos as int, sticky: *sticky },
                code_of,
                n as int,
                fill as int,
                pass as int,
            ),
        decreases total - n,
    {
        let ghost at = block_place(code_of, n as int);
        let block = block_at(cell, doubled, own, cols, n, len, Ghost(code_of));
        if fill > 0 {
            block.fill(s, 0, 4, Ghost(at));
            fill = fill - 1;
        } else if pass > 0 {
            pass = pass - 1;
        } else {
            proof {
                block_makes_progress(
                    data,
                    CodeState { strip: s@, pos: r.pos as int, sticky: *sticky },
                    at,
                    0,
                );
            }
            match block_body(r, s, sticky, block, book, Ghost(at)) {
                Ok(out) => {
                    fill = out.0;
                    pass = out.1;
                },
                Err(e) => return Err(e),
            }
        }
        n = n + 1;
    }
    Ok(())
}

/// The code tables of a band.
fn tables<'a>(ctx: &PlaneContext<'a>, staging: bool, band: u8) -> (r: Result<
    CodeTables<'a>,
    CellDecodeError,
>)
    requires
        band < 16,
    ensures
        match r {
            Ok(t) => t.inside() && codebook(*ctx, staging, band as int) == Some(t.book()),
            Err(e) => e == CellDecodeError::BadStagingBlock && codebook(
                *ctx,
                staging,
                band as int,
            ) is None,
        },
{
    if staging {
        let block: i32 = ctx.cb_offset as i32 + band as i32;
        if block < 0 || block >= STAGING_BLOCK_COUNT as i32 {
            return Err(CellDecodeError::BadStagingBlock);
        }
        let off: usize = block as usize * STAGING_BLOCK_STRIDE;
        Ok(CodeTables { bytes: ctx.staging.as_bytes(), primary: off, secondary: off + 0x400 })
    } else {
        match (
            VqArena::band_primary_offset(band as usize),
            VqArena::band_secondary_offset(band as usize),
        ) {
            (Some(primary), Some(secondary)) => Ok(
                CodeTables { bytes: ctx.arena.as_bytes(), primary, secondary },
            ),
            _ => Err(CellDecodeError::BadStagingBlock),
        }
    }
}

/// Rewrite the row above a cell through bank `band` of the predictor
/// table.
fn lut_rewrite(s: &mut Vec<u8>, table: &DyadDeltaTable, cell: &LeafRect, band: u8)
    requires
        band < 8,
        rect_fits(*cell, old(s)@.len() as int),
    ensures
        final(s)@ == rewritten(old(s)@, table@, *cell, band as int),
        final(s)@.len() == old(s)@.len(),
{
    let n: usize = s.len();
    let bytes = table.as_bytes();
    let src: usize = cell.y as usize * 0xb0 + cell.x as usize;
    let w: usize = cell.w as usize;
    let mut i: usize = 0;
    while i < w
        invariant
            i <= w,
            w == cell.w,
            band < 8,
            n == s@.len(),
            n == old(s)@.len(),
            src == strip_index(cell.y - 1, cell.x as int),
            src + w <= n,
            bytes@ == table@,
            bytes@.len() == 0x2000,
            forall|j: int|
                0 <= j < n ==> #[trigger] s@[j] == if src <= j < src + i {
                    table@[band * 128 + old(s)@[j] as int % 128] | (old(s)@[j] & 0x80)
                } else {
                    old(s)@[j]
                },
        decreases w - i,
    {
        let v: u8 = s[src + i];
        let b: u8 = bytes[band as usize * 128 + v as usize % 128];
        s[src + i] = b | (v & 0x80);
        i = i + 1;
    }
    assert(s@ =~= rewritten(old(s)@, table@, *cell, band as int));
}

/// What a mode byte selects.
struct Mode {
    staging: bool,
    lut: bool,
    family: Family,
}

/// Dispatch a mode byte by its nibbles, where the cell admits its family.
fn dispatch_mode(mode: u8, mc: bool) -> (r: Result<Mode, CellDecodeError>)
    ensures
        match r {
            Ok(m) => mode_plan(mode, mc) == Ok::<ModePlan, CellDecodeError>(
                ModePlan { staging: m.staging, lut: m.lut, family: m.family },
            ),
            Err(e) => mode_plan(mode, mc) == Err::<ModePlan, CellDecodeError>(e),
        },
{
    let hi: u8 = mode / 16;
    let lo: u8 = mode % 16;
    let family = match (hi, mc) {
        (0x0 | 0x1, false) => Family::A,
        (0x0 | 0x1, true) => Family::B,
        (0xA, false) => Family::E,
        (0xA, true) => Family::F,
        (0x3 | 0x4, false) => Family::C,
        (0xB | 0xC, true) => Family::D,
        (0x3 | 0x4 | 0xB | 0xC, _) => return Err(CellDecodeError::FamilyGate { mode }),
        _ => return Err(CellDecodeError::BadModeByte { mode }),
    };
    Ok(
        Mode {
            staging: hi == 0x0 || hi == 0x3 || hi == 0xA || hi == 0xB,
            lut: lo >= 8 && (hi == 0x0 || hi == 0x3 || hi == 0xA),
            family,
        },
    )
}

/// Read a cell's mode byte and its codes.
fn unpack(
    r: &mut Reader<'_>,
    s: &mut Vec<u8>,
    sticky: &mut bool,
    ctx: &PlaneContext<'_>,
    cell: &LeafRect,
    mc: bool,
) -> (res: Result<Family, CellDecodeError>)
    requires
        old(r).inside(),
        rect_fits(*cell, old(s)@.len() as int),
        cell.w <= 1020,
        cell.h <= 1020,
    ensures
        final(r).inside(),
        final(r).data == old(r).data,
        final(r).acc == old(r).acc,
        final(r).nbits == old(r).nbits,
        final(s)@.len() == old(s)@.len(),
        ({
            let (family, end) = unpacked(
                old(r).data@,
                CodeState { strip: old(s)@, pos: old(r).pos as int, sticky: *old(sticky) },
                *ctx,
                *cell,
                mc,
            );
            &&& final(s)@ == end.state.strip
            &&& match res {
                Ok(f) => {
                    &&& end.error is None
                    &&& family == Some(f)
                    &&& final(r).pos == end.state.pos
                    &&& *final(sticky) == end.state.sticky
                },
                Err(e) => end.error == Some(e),
            }
        }),
{
    let mode: u8 = match r.byte() {
        Ok(b) => b,
        Err(e) => return Err(e),
    };
    let lo: u8 = mode % 16;
    let plan = match dispatch_mode(mode, mc) {
        Ok(p) => p,
        Err(e) => return Err(e),
    };
    if plan.lut {
        lut_rewrite(s, ctx.lut, cell, lo % 8);
    }
    let book = match tables(ctx, plan.staging, lo) {
        Ok(t) => t,
        Err(e) => return Err(e),
    };
    let (doubled, own) = match plan.family {
        Family::A => (false, false),
        Family::B => (false, true),
        Family::E => (true, false),
        Family::F => (true, true),
        Family::C | Family::D => return Err(CellDecodeError::UnsupportedFamily { mode }),
    };
    match cell_body(r, s, sticky, cell, &book, doubled, own) {
        Ok(_) => Ok(plan.family),
        Err(e) => Err(e),
    }
}

/// Every row of the cell takes the row above it.
fn copy_upper(s: &mut Vec<u8>, cell: &LeafRect)
    requires
        rect_fits(*cell, old(s)@.len() as int),
    ensures
        final(s)@ == copied_upper(old(s)@, *cell),
        final(s)@.len() == old(s)@.len(),
{
    let n: usize = s.len();
    let src: usize = cell.y as usize * 0xb0 + cell.x as usize;
    let w: usize = cell.w as usize;
    let mut row: Vec<u8> = Vec::new();
    let mut i: usize = 0;
    while i < w
        invariant
            i <= w,
            s@ == old(s)@,
            n == s@.len(),
            src + w <= n,
            row@ == s@.subrange(src as int, src + i),
        decreases w - i,
    {
        row.push(s[src + i]);
        i = i + 1;
        assert(row@ =~= s@.subrange(src as int, src + i));
    }
    let ghost above = row_above(old(s)@, *cell);
    assert(row@ == above);
    let h: usize = cell.h as usize;
    let mut r: usize = 0;
    while r < h
        invariant
            r <= h,
            h == cell.h,
            n == s@.len(),
            n == old(s)@.len(),
            rect_fits(*cell, n as int),
            above == row_above(old(s)@, *cell),
            row@ == above,
            row@.len() == cell.w,
            s@ == with_cell_rows(old(s)@, *cell, |r: int| row_above(old(s)@, *cell), r as int),
        decreases h - r,
    {
        let dst: usize = (cell.y as usize + r + 1) * 0xb0 + cell.x as usize;
        put_row(s, dst, row.as_slice());
        r = r + 1;
    }
}

/// The sample a half-pixel filter takes at byte `i` of a reference strip.
fn fetch(rs: &Vec<u8>, i: i128, mv: MotionVector) -> (r: Option<u8>)
    requires
        -0x1_0000_0000_0000_0000_0000 <= i <= 0x1_0000_0000_0000_0000_0000,
    ensures
        match r {
            Some(v) => filtered_sample(rs@, i as int, mv) == Some(v as int),
            None => filtered_sample(rs@, i as int, mv) is None,
        },
{
    let down: i128 = if mv.vert_half {
        0xb0
    } else {
        0
    };
    let right: i128 = if mv.horiz_half {
        1
    } else {
        0
    };
    if i < 0 || i + down + right >= rs.len() as i128 {
        return None;
    }
    let at: usize = i as usize;
    let below: usize = (i + down) as usize;
    let a: u16 = if mv.horiz_half {
        (rs[at] as u16 + rs[at + 1] as u16) / 2
    } else {
        rs[at] as u16
    };
    let b: u16 = if mv.horiz_half {
        (rs[below] as u16 + rs[below + 1] as u16) / 2
    } else {
        rs[below] as u16
    };
    let v: u16 = if mv.vert_half {
        (a + b) / 2
    } else {
        a
    };
    Some((v % 128) as u8)
}

/// One motion-compensated row of a cell.
fn fetch_row(rs: &Vec<u8>, cell: &LeafRect, mv: MotionVector, r: usize, len: usize) -> (res: Option<
    Vec<u8>,
>)
    requires
        r < cell.h,
        rect_fits(*cell, len as int),
    ensures
        match res {
            Some(row) => {
                &&& row@ == fetched_row(rs@, *cell, mv, r as int)
                &&& forall|c: int|
                    0 <= c < cell.w ==> #[trigger] fetched(rs@, *cell, mv, r as int, c) is Some
            },
            None => exists|c: int|
                0 <= c < cell.w && #[trigger] fetched(rs@, *cell, mv, r as int, c) is None,
        },
{
    let base: usize = (cell.y as usize + r + 1) * 0xb0 + cell.x as usize;
    let offset: i128 = 0xb0 * mv.vert as i128 + mv.horiz as i128;
    let w: usize = cell.w as usize;
    let mut row: Vec<u8> = Vec::new();
    let mut c: usize = 0;
    while c < w
        invariant
            c <= w,
            w == cell.w,
            base == strip_index(cell.y + r, cell.x as int),
            base + w <= len,
            offset == mv.offset(),
            -0x8000 <= offset <= 0x8000,
            row@.len() == c,
            forall|j: int|
                0 <= j < c ==> #[trigger] fetched(rs@, *cell, mv, r as int, j) == Some(
                    row@[j] as int,
                ),
        decreases w - c,
    {
        assert(fetched(rs@, *cell, mv, r as int, c as int) == filtered_sample(
            rs@,
            base + c + offset,
            mv,
        ));
        match fetch(rs, (base + c) as i128 + offset, mv) {
            Some(v) => {
                row.push(v);
            },
            None => {
                return None;
            },
        }
        c = c + 1;
    }
    assert(row@ =~= fetched_row(rs@, *cell, mv, r as int));
    Some(row)
}

/// Fetch a cell from the reference plane by its motion vector.
fn mc_copy(
    s: &mut Vec<u8>,
    reference: Option<&PlaneBuffers>,
    cell: &LeafRect,
    mv: MotionVector,
) -> (res:
    Result<(), CellDecodeError>)
    requires
        rect_fits(*cell, old(s)@.len() as int),
    ensures
        final(s)@.len() == old(s)@.len(),
        match res {
            Ok(_) => {
                &&& reference is Some
                &&& cell.strip < reference->0.strips@.len()
                &&& fetchable(reference->0.strips@[cell.strip as int]@, *cell, mv)
                &&& final(s)@ == compensated(
                    old(s)@,
                    reference->0.strips@[cell.strip as int]@,
                    *cell,
                    mv,
                )
            },
            Err(e) => {
                &&& e == CellDecodeError::McOutOfRange
                &&& !(reference is Some && cell.strip < reference->0.strips@.len() && fetchable(
                    reference->0.strips@[cell.strip as int]@,
                    *cell,
                    mv,
                ))
                &&& final(s)@ == old(s)@
            },
        },
{
    let bufs = match reference {
        Some(b) => b,
        None => return Err(CellDecodeError::McOutOfRange),
    };
    if cell.strip >= bufs.strips.len() {
        return Err(CellDecodeError::McOutOfRange);
    }
    let rs = &bufs.strips[cell.strip];
    let n: usize = s.len();
    let h: usize = cell.h as usize;
    let mut rows: Vec<Vec<u8>> = Vec::new();
    let mut r: usize = 0;
    while r < h
        invariant
            r <= h,
            h == cell.h,
            s@ == old(s)@,
            n == s@.len(),
            reference is Some,
            cell.strip < reference->0.strips@.len(),
            rs@ == reference->0.strips@[cell.strip as int]@,
            rect_fits(*cell, n as int),
            rows@.len() == r,
            forall|i: int| 0 <= i < r ==> #[trigger] rows@[i]@ == fetched_row(rs@, *cell, mv, i),
            forall|i: int, c: int|
                0 <= i < r && 0 <= c < cell.w ==> #[trigger] fetched(rs@, *cell, mv, i, c) is Some,
        decreases h - r,
    {
        match fetch_row(rs, cell, mv, r, n) {
            Some(row) => {
                rows.push(row);
            },
            None => {
                return Err(CellDecodeError::McOutOfRange);
            },
        }
        r = r + 1;
    }
    let mut r: usize = 0;
    while r < h
        invariant
            r <= h,
            h == cell.h,
            n == s@.len(),
            n == old(s)@.len(),
            rect_fits(*cell, n as int),
            rows@.len() == h,
            forall|i: int| 0 <= i < h ==> #[trigger] rows@[i]@ == fetched_row(rs@, *cell, mv, i),
            s@ == with_cell_rows(
                old(s)@,
                *cell,
                |r: int| fetched_row(rs@, *cell, mv, r),
                r as int,
            ),
        decreases h - r,
    {
        let dst: usize = (cell.y as usize + r + 1) * 0xb0 + cell.x as usize;
        assert(rows@[r as int]@ == fetched_row(rs@, *cell, mv, r as int));
        put_row(s, dst, rows[r].as_slice());
        r = r + 1;
    }
    Ok(())
}

impl PlaneBuffers {
    /// The rectangle of the leaf `(cl, ch)`.
    fn position(&self, cl: u32, ch: u32) -> (r: Result<LeafRect, CellDecodeError>)
        requires
            cl <= 255,
            ch <= 255,
        ensures
            r == leaf_rect(self.banks, self.strips@.len() as int, cl as int, ch as int),
            r matches Ok(cell) ==> cell.w <= 1020 && cell.h <= 1020 && cell.strip
                < self.strips@.len(),
    {
        let l: usize = cl as usize;
        let h: usize = ch as usize;
        let slot: u8 = self.banks.full.strip[h];
        let bank = self.banks.bank_for_slot(slot);
        let h4: u8 = bank.h4[l];
        let w4: u8 = bank.w4[h];
        if h4 == UNDER_FOUR_CODE || w4 == UNDER_FOUR_CODE || bank.ypos[l] >= UNDER_FOUR_YPOS {
            return Err(CellDecodeError::UnderFourNode);
        }
        if slot as usize >= self.strips.len() {
            return Err(CellDecodeError::BadStrip);
        }
        Ok(
            LeafRect {
                strip: slot as usize,
                x: bank.xpos[h],
                y: bank.ypos[l] / 0xb0,
                w: 4 * w4 as u32,
                h: 4 * h4 as u32,
            },
        )
    }
}

/// The walk over a plane's tree.
struct Walker<'a> {
    r: Reader<'a>,
    stats: PlaneStats,
    sticky: bool,
    pending: Vec<Pending>,
}

impl<'a> Walker<'a> {
    spec fn state(self, bufs: PlaneBuffers) -> WalkState {
        WalkState {
            cursor: self.r.cursor(),
            strips: strip_seqs(bufs.strips@),
            sticky: self.sticky,
            tally: self.stats.tally(),
        }
    }

    /// What a step of the walk leaves behind.
    spec fn stepped(
        before: Self,
        after: Self,
        bufs0: PlaneBuffers,
        bufs1: PlaneBuffers,
        step: WalkStep,
        res: Result<(), CellDecodeError>,
    ) -> bool {
        &&& after.r.data == before.r.data
        &&& after.stats.bytes == before.stats.bytes
        &&& bufs1.width == bufs0.width
        &&& bufs1.height == bufs0.height
        &&& bufs1.banks == bufs0.banks
        &&& strip_seqs(bufs1.strips@) == step.state.strips
        &&& match res {
            Ok(_) => {
                &&& step.error is None
                &&& after.r.inside()
                &&& after.state(bufs1) == step.state
                &&& after.pending@ == before.pending@ + step.push
            },
            Err(e) => step.error == Some(e),
        }
    }

    /// The counters stay far from overflow.
    spec fn counters_small(self) -> bool {
        &&& consistent(self.stats.tally())
        &&& self.stats.cells <= 0x4000
    }

    /// A coded cell.
    fn coded(
        &mut self,
        bufs: &mut PlaneBuffers,
        ctx: &PlaneContext<'_>,
        cell: &LeafRect,
        mc: bool,
    ) -> (res: Result<(), CellDecodeError>)
        requires
            old(self).r.inside(),
            old(self).stats.coded_cells <= 0x4000,
            forall|i: int| 0 <= i < 6 ==> #[trigger] old(self).stats.families@[i] <= 0x4000,
            cell.strip < old(bufs).strips@.len(),
            rect_fits(*cell, old(bufs).strips@[cell.strip as int]@.len() as int),
            cell.w <= 1020,
            cell.h <= 1020,
        ensures
            Self::stepped(
                *old(self),
                *final(self),
                *old(bufs),
                *final(bufs),
                coded_step(
                    old(self).r.data@,
                    *ctx,
                    old(self).state(*old(bufs)),
                    *cell,
                    mc,
                ),
                res,
            ),
    {
        let ghost strips = strip_seqs(bufs.strips@);
        let ghost before = self.stats.tally();
        let mut sticky: bool = self.sticky;
        let res = unpack(&mut self.r, &mut bufs.strips[cell.strip], &mut sticky, ctx, cell, mc);
        assert(strip_seqs(bufs.strips@) =~= strips.update(
            cell.strip as int,
            bufs.strips@[cell.strip as int]@,
        ));
        match res {
            Ok(family) => {
                self.sticky = sticky;
                let i: usize = match family {
                    Family::A => 0,
                    Family::B => 1,
                    Family::C => 2,
                    Family::D => 3,
                    Family::E => 4,
                    Family::F => 5,
                };
                self.stats.coded_cells = self.stats.coded_cells + 1;
                self.stats.families[i] = self.stats.families[i] + 1;
                assert(self.stats.tally().families =~= family_counted(before.families, family));
                assert(self.pending@ + Seq::<Pending>::empty() =~= self.pending@);
                Ok(())
            },
            Err(e) => Err(e),
        }
    }

    /// A VQ_NULL leaf.
    fn null_leaf(
        &mut self,
        bufs: &mut PlaneBuffers,
        ctx: &PlaneContext<'_>,
        cell: &LeafRect,
        mc: bool,
    ) -> (res: Result<(), CellDecodeError>)
        requires
            old(self).r.inside(),
            old(self).stats.coded_cells <= 0x4000,
            old(self).stats.copy_upper <= 0x4000,
            old(self).stats.skipped <= 0x4000,
            forall|i: int| 0 <= i < 6 ==> #[trigger] old(self).stats.families@[i] <= 0x4000,
            cell.strip < old(bufs).strips@.len(),
            rect_fits(*cell, old(bufs).strips@[cell.strip as int]@.len() as int),
            cell.w <= 1020,
            cell.h <= 1020,
        ensures
            Self::stepped(
                *old(self),
                *final(self),
                *old(bufs),
                *final(bufs),
                null_step(
                    old(self).r.data@,
                    *ctx,
                    old(self).state(*old(bufs)),
                    *cell,
                    mc,
                ),
                res,
            ),
    {
        let ghost strips = strip_seqs(bufs.strips@);
        let s0: u8 = match self.r.bit() {
            Ok(b) => b,
            Err(e) => return Err(e),
        };
        if s0 == 1 {
            return self.coded(bufs, ctx, cell, mc);
        }
        let s1: u8 = match self.r.bit() {
            Ok(b) => b,
            Err(e) => return Err(e),
        };
        assert(self.pending@ + Seq::<Pending>::empty() =~= self.pending@);
        if s1 == 0 {
            if !mc {
                copy_upper(&mut bufs.strips[cell.strip], cell);
                assert(strip_seqs(bufs.strips@) =~= strips.update(
                    cell.strip as int,
                    copied_upper(strips[cell.strip as int], *cell),
                ));
            }
            self.stats.copy_upper = self.stats.copy_upper + 1;
        } else {
            self.stats.skipped = self.stats.skipped + 1;
        }
        Ok(())
    }

    /// A leaf of the VQ tree.
    fn vq_leaf(
        &mut self,
        bufs: &mut PlaneBuffers,
        ctx: &PlaneContext<'_>,
        node: Pending,
        mv: Option<MotionVector>,
        b1: u8,
    ) -> (res: Result<(), CellDecodeError>)
        requires
            old(self).r.inside(),
            old(self).counters_small(),
            node.leaf == Some(mv),
            in_tree(node),
            leaves_fit(old(bufs).banks, strip_seqs(old(bufs).strips@)),
        ensures
            Self::stepped(
                *old(self),
                *final(self),
                *old(bufs),
                *final(bufs),
                leaf_step(
                    old(self).r.data@,
                    *ctx,
                    old(bufs).banks,
                    old(self).state(*old(bufs)),
                    node,
                    b1 as int,
                ),
                res,
            ),
    {
        let ghost strips = strip_seqs(bufs.strips@);
        let cell = match bufs.position(node.cl, node.ch) {
            Ok(cell) => cell,
            Err(e) => return Err(e),
        };
        assert(leaf_rect(bufs.banks, strips.len() as int, node.cl as int, node.ch as int) == Ok::<
            LeafRect,
            CellDecodeError,
        >(cell));
        assert(rect_fits(cell, strips[cell.strip as int].len() as int));
        assert forall|i: int| 0 <= i < 6 implies #[trigger] self.stats.families@[i] <= 0x4000 by {
            assert(self.stats.tally().families[i] == self.stats.families@[i]);
        }
        if let Some(v) = mv {
            match mc_copy(&mut bufs.strips[cell.strip], ctx.reference, &cell, v) {
                Ok(_) => {},
                Err(e) => {
                    assert(strip_seqs(bufs.strips@) =~= strips);
                    return Err(e);
                },
            }
            assert(strip_seqs(bufs.strips@) =~= predicted(*ctx, strips, cell, mv)->0);
            self.stats.inter = self.stats.inter + 1;
        }
        self.stats.cells = self.stats.cells + 1;
        if b1 == 1 {
            self.coded(bufs, ctx, &cell, mv.is_some())
        } else {
            self.null_leaf(bufs, ctx, &cell, mv.is_some())
        }
    }
}

/// The heap index of a child.
fn child(k: u32, second: bool) -> (r: u32)
    requires
        k < 128,
    ensures
        r == child_index(k as int, second),
{
    if second {
        2 * k + 1
    } else {
        2 * k
    }
}

impl<'a> Walker<'a> {
    /// A leaf of the motion tree: its VQ tree is walked next, with the
    /// vector its index byte names for an INTER leaf.
    fn motion_leaf(&mut self, ctx: &PlaneContext<'_>, node: Pending, b1: u8, Ghost(bufs): Ghost<
        PlaneBuffers,
    >) -> (res: Result<(), CellDecodeError>)
        requires
            old(self).r.inside(),
        ensures
            Self::stepped(
                *old(self),
                *final(self),
                bufs,
                bufs,
                motion_step(
                    old(self).r.data@,
                    *ctx,
                    old(self).state(bufs),
                    node,
                    b1 as int,
                    old(self).r.cursor(),
                ),
                res,
            ),
    {
        let mv = if b1 == 0 {
            None
        } else {
            let index: u8 = match self.r.byte() {
                Ok(b) => b,
                Err(e) => return Err(e),
            };
            if index as usize >= ctx.mvs.len() {
                return Err(CellDecodeError::BadMvIndex { index });
            }
            Some(ctx.mvs[index as usize])
        };
        let ghost before = self.pending@;
        let next = Pending { cl: node.cl, ch: node.ch, leaf: Some(mv) };
        self.pending.push(next);
        assert(self.pending@ =~= before + seq![next]);
        Ok(())
    }

    /// A split node: its children are walked next, the first one first.
    fn split(&mut self, node: Pending, vertical: bool)
        requires
            !too_deep(node, vertical),
        ensures
            final(self).r == old(self).r,
            final(self).stats == old(self).stats,
            final(self).sticky == old(self).sticky,
            final(self).pending@ == old(self).pending@ + children(node, vertical),
    {
        let ghost before = self.pending@;
        if vertical {
            self.pending.push(Pending { cl: child(node.cl, true), ch: node.ch, leaf: node.leaf });
            self.pending.push(Pending { cl: child(node.cl, false), ch: node.ch, leaf: node.leaf });
        } else {
            self.pending.push(Pending { cl: node.cl, ch: child(node.ch, true), leaf: node.leaf });
            self.pending.push(Pending { cl: node.cl, ch: child(node.ch, false), leaf: node.leaf });
        }
        assert(self.pending@ =~= before + children(node, vertical));
    }

    /// Walk one node of either tree.
    fn step(
        &mut self,
        bufs: &mut PlaneBuffers,
        ctx: &PlaneContext<'_>,
        node: Pending,
    ) -> (res: Result<
        (),
        CellDecodeError,
    >)
        requires
            old(self).r.inside(),
            old(self).counters_small(),
            leaves_fit(old(bufs).banks, strip_seqs(old(bufs).strips@)),
            in_tree(node),
        ensures
            Self::stepped(
                *old(self),
                *final(self),
                *old(bufs),
                *final(bufs),
                node_step(
                    old(self).r.data@,
                    *ctx,
                    old(bufs).banks,
                    old(self).state(*old(bufs)),
                    node,
                ),
                res,
            ),
    {
        let b0: u8 = match self.r.bit() {
            Ok(b) => b,
            Err(e) => return Err(e),
        };
        let b1: u8 = match self.r.bit() {
            Ok(b) => b,
            Err(e) => return Err(e),
        };
        if b0 == 0 {
            let k: u32 = if b1 == 0 {
                node.cl
            } else {
                node.ch
            };
            if k >= 128 {
                return Err(CellDecodeError::TreeTooDeep);
            }
            self.split(node, b1 == 0);
            return Ok(());
        }
        match node.leaf {
            None => self.motion_leaf(ctx, node, b1, Ghost(*bufs)),
            Some(mv) => self.vq_leaf(bufs, ctx, node, mv, b1),
        }
    }
}

/// Decode one plane's payload into `bufs` and give the plane's
/// statistics.
///
/// The strips end up as the walk over the payload leaves them, with the
/// end-of-strip fix-up where the walk succeeds.
pub fn decode_plane(
    payload: &[u8],
    bufs: &mut PlaneBuffers,
    ctx: &PlaneContext<'_>,
) -> (res: Result<
    PlaneStats,
    CellDecodeError,
>)
    requires
        old(bufs).decodable(),
    ensures
        final(bufs).width == old(bufs).width,
        final(bufs).height == old(bufs).height,
        final(bufs).banks == old(bufs).banks,
        final(bufs).decodable(),
        ({
            let end = plane_walk(
                payload@,
                *ctx,
                old(bufs).banks,
                strip_seqs(old(bufs).strips@),
            );
            match res {
                Ok(stats) => {
                    &&& end.error is None
                    &&& stats.tally() == end.state.tally
                    &&& consistent(stats.tally())
                    &&& stats.bytes == end.state.cursor.pos
                    &&& 1 <= stats.bytes <= payload@.len()
                    &&& strip_seqs(final(bufs).strips@) == edges_fixed(
                        end.state.strips,
                        old(bufs).banks,
                        old(bufs).height as int,
                    )
                },
                Err(e) => {
                    &&& end.error == Some(e)
                    &&& strip_seqs(final(bufs).strips@) == end.state.strips
                },
            }
        }),
{
    let mut w = Walker {
        r: Reader { data: payload, pos: 0, acc: 0, nbits: 0 },
        stats: PlaneStats::default(),
        sticky: false,
        pending: Vec::new(),
    };
    w.pending.push(Pending { cl: 1, ch: 1, leaf: None });
    let ghost strips0 = strip_seqs(bufs.strips@);
    let ghost end = plane_walk(payload@, *ctx, bufs.banks, strips0);
    proof {
        decoding_keeps_shape_and_count(payload@, *ctx, bufs.banks, strips0);
        assert(w.pending@ =~= seq![root()]);
        assert(w.state(*bufs) == walk_start(strips0));
        assert(w.pending@.drop_last() =~= Seq::empty());
        assert(cells_pending(w.pending@.drop_last()) == 0);
        assert(cells_below(root()) == 0x4000) by (nonlinear_arith)
            requires
                cells_below(root()) == 128int * 128int,
        ;
        assert(cells_pending(w.pending@) == 0x4000);
    }
    while w.pending.len() > 0
        invariant
            bufs.width == old(bufs).width,
            bufs.height == old(bufs).height,
            bufs.banks == old(bufs).banks,
            old(bufs).decodable(),
            strips0 == strip_seqs(old(bufs).strips@),
            same_shape(end.state.strips, strips0),
            same_shape(strip_seqs(bufs.strips@), strips0),
            leaves_fit(bufs.banks, strip_seqs(bufs.strips@)),
            w.r.data@ == payload@,
            w.r.inside(),
            w.stats.bytes == 0,
            consistent(w.stats.tally()),
            numbered(w.pending@),
            w.stats.cells + cells_pending(w.pending@) <= 0x4000,
            w.stats.cells <= 0x4000,
            end == plane_walk(payload@, *ctx, old(bufs).banks, strips0),
            end == walk(payload@, *ctx, bufs.banks, w.state(*bufs), w.pending@),
        decreases w.r.cursor().bits_left(payload@),
    {
        let ghost before = w.pending@;
        let ghost st = w.state(*bufs);
        proof {
            walk_makes_progress(payload@, *ctx, bufs.banks, st, before.last());
            pending_stays_in_budget(payload@, *ctx, bufs.banks, st, before, 0x4000);
            assert(in_tree(before[before.len() - 1]));
        }
        let node = match w.pending.pop() {
            Some(node) => node,
            None => return Ok(w.stats),
        };
        let res = w.step(bufs, ctx, node);
        match res {
            Ok(_) => {},
            Err(e) => {
                proof {
                    lemma_shape_decides_decodable(*old(bufs), *bufs);
                }
                return Err(e);
            },
        }
        proof {
            shape_decides_fit(bufs.banks, st.strips, strip_seqs(bufs.strips@));
        }
    }
    let mut stats = w.stats;
    stats.bytes = w.r.pos;
    let ghost walked = strip_seqs(bufs.strips@);
    let n: usize = bufs.strips.len();
    let mut i: usize = 0;
    while i < n
        invariant
            i <= n,
            n == bufs.strips@.len(),
            n == walked.len(),
            bufs.width == old(bufs).width,
            bufs.height == old(bufs).height,
            bufs.banks == old(bufs).banks,
            old(bufs).edges_fit(),
            strips0 == strip_seqs(old(bufs).strips@),
            same_shape(walked, strips0),
            forall|k: int|
                0 <= k < n ==> #[trigger] bufs.strips@[k]@ == if k < i {
                    edge_fixed(walked[k], bufs.height as int, strip_width(bufs.banks, n as int, k))
                } else {
                    walked[k]
                },
        decreases n - i,
    {
        let sw: u32 = if i + 1 == n {
            bufs.banks.last_strip
        } else {
            bufs.banks.full_strip
        };
        let height: u32 = bufs.height;
        assert(old(bufs).strips@[i as int]@.len() == strips0[i as int].len());
        assert(bufs.strips@[i as int]@ == walked[i as int]);
        fix_edge(&mut bufs.strips[i], height, sw);
        i = i + 1;
    }
    assert(strip_seqs(bufs.strips@) =~= edges_fixed(walked, bufs.banks, bufs.height as int));
    proof {
        lemma_shape_decides_decodable(*old(bufs), *bufs);
    }
    Ok(stats)
}

/// Buffers of the same shape and banks are decodable alike.
proof fn lemma_shape_decides_decodable(a: PlaneBuffers, b: PlaneBuffers)
    requires
        a.decodable(),
        b.height == a.height,
        b.banks == a.banks,
        same_shape(strip_seqs(b.strips@), strip_seqs(a.strips@)),
    ensures
        b.decodable(),
{
    shape_decides_fit(a.banks, strip_seqs(a.strips@), strip_seqs(b.strips@));
    assert forall|i: int| 0 <= i < b.strips@.len() implies (#[trigger] b.strips@[i])@.len()
        == a.strips@[i]@.len() by {
        assert(strip_seqs(b.strips@)[i].len() == strip_seqs(a.strips@)[i].len());
    }
}

/// Fresh buffers whose banks are those of their plane are decodable.
proof fn lemma_fresh_is_decodable(
    b: PlaneBuffers,
    width: int,
    full_strip: int,
    luma_width: int,
    fill: u8,
)
    requires
        b.is_fresh(fill),
        0 < full_strip <= 0xb0,
        b.banks.built_for(width, b.height as int, full_strip, luma_width),
    ensures
        b.decodable(),
{
    banks_place_leaves_in_their_strips(
        b.banks,
        width,
        b.height as int,
        full_strip,
        luma_width,
        strip_seqs(b.strips@),
    );
}

/// Repeat the last column of a strip in the byte after it.
fn fix_edge(s: &mut Vec<u8>, height: u32, width: u32)
    requires
        0 < width < 0xb0 && height > 0 ==> height * 0xb0 + width < old(s)@.len(),
    ensures
        final(s)@ == edge_fixed(old(s)@, height as int, width as int),
{
    if width == 0 || width >= STRIP_ROW_STRIDE {
        return;
    }
    let n: usize = s.len();
    let mut y: u32 = 0;
    while y < height
        invariant
            y <= height,
            n == s@.len(),
            n == old(s)@.len(),
            0 < width < 0xb0,
            height > 0 ==> height * 0xb0 + width < n,
            forall|j: int|
                0 <= j < n ==> #[trigger] s@[j] == if 1 <= j / 0xb0 <= y && j % 0xb0 == width {
                    old(s)@[j - 1]
                } else {
                    old(s)@[j]
                },
        decreases height - y,
    {
        let i: usize = (y as usize + 1) * 0xb0 + width as usize;
        s[i] = s[i - 1];
        y = y + 1;
    }
    assert(s@ =~= edge_fixed(old(s)@, height as int, width as int));
}

impl PlaneBuffers {
    /// One fresh strip of a plane of `height` rows: the predictor row and
    /// below it nothing but `fill`.
    pub open spec fn fresh_strip(height: int, fill: u8) -> Seq<u8> {
        Seq::new(
            ((height + 2) * 0xb0) as nat,
            |j: int|
                if j < 0xb0 {
                    STRIP_TOP_SAMPLE
                } else {
                    fill
                },
        )
    }

    /// All strips are fresh ones.
    pub open spec fn is_fresh(self, fill: u8) -> bool {
        &&& self.strips@.len() == self.banks.nstrips
        &&& forall|i: int|
            0 <= i < self.strips@.len() ==> (#[trigger] self.strips@[i])@ == Self::fresh_strip(
                self.height as int,
                fill,
            )
    }

    /// Allocate a plane's strips, every sample at `fill` and the predictor
    /// row at [`STRIP_TOP_SAMPLE`].
    pub fn new(width: u32, height: u32, banks: PlaneBanks, fill: u8) -> (r: Self)
        requires
            (height + 2) * 0xb0 <= usize::MAX,
        ensures
            r.width == width,
            r.height == height,
            r.banks == banks,
            r.is_fresh(fill),
    {
        let len: usize = (height as usize + 2) * 0xb0;
        let mut strips: Vec<Vec<u8>> = Vec::new();
        let mut i: u32 = 0;
        while i < banks.nstrips
            invariant
                i <= banks.nstrips,
                len == (height + 2) * 0xb0,
                strips@.len() == i,
                forall|k: int|
                    0 <= k < i ==> (#[trigger] strips@[k])@ == Self::fresh_strip(height as int, fill),
            decreases banks.nstrips - i,
        {
            let mut s: Vec<u8> = Vec::new();
            let mut j: usize = 0;
            while j < len
                invariant
                    j <= len,
                    s@.len() == j,
                    forall|k: int|
                        0 <= k < j ==> #[trigger] s@[k] == if k < 0xb0 {
                            STRIP_TOP_SAMPLE
                        } else {
                            fill
                        },
                decreases len - j,
            {
                s.push(
                    if j < 0xb0 {
                        STRIP_TOP_SAMPLE
                    } else {
                        fill
                    },
                );
                j = j + 1;
            }
            assert(s@ =~= Self::fresh_strip(height as int, fill));
            strips.push(s);
            i = i + 1;
        }
        PlaneBuffers { width, height, banks, strips }
    }

    /// The luma plane of a `width x height` picture.
    pub fn luma(width: u32, height: u32) -> (r: Self)
        requires
            (height + 2) * 0xb0 <= usize::MAX,
            banks_fit(width as int, height as int, LUMA_STRIP_WIDTH as int, width as int),
        ensures
            r.width == width,
            r.height == height,
            r.banks.built_for(width as int, height as int, LUMA_STRIP_WIDTH as int, width as int),
            r.is_fresh(0),
            r.decodable(),
    {
        let r = Self::new(width, height, PlaneBanks::luma(width, height), 0);
        proof {
            lemma_fresh_is_decodable(r, width as int, LUMA_STRIP_WIDTH as int, width as int, 0);
        }
        r
    }

    /// A chroma plane of a `width x height` picture.
    pub fn chroma(width: u32, height: u32) -> (r: Self)
        requires
            (chroma_extent(height as int) + 2) * 0xb0 <= usize::MAX,
            banks_fit(
                chroma_extent(width as int),
                chroma_extent(height as int),
                CHROMA_STRIP_WIDTH as int,
                width as int,
            ),
        ensures
            r.width == chroma_extent(width as int),
            r.height == chroma_extent(height as int),
            r.banks.built_for(
                chroma_extent(width as int),
                chroma_extent(height as int),
                CHROMA_STRIP_WIDTH as int,
                width as int,
            ),
            r.is_fresh(0),
            r.decodable(),
    {
        let (cw, ch) = chroma_plane_dims(width, height);
        let r = Self::new(cw, ch, PlaneBanks::chroma(width, height), 0);
        proof {
            lemma_fresh_is_decodable(r, cw as int, CHROMA_STRIP_WIDTH as int, width as int, 0);
        }
        r
    }

    /// Sample `(x, y)` of the plane; `None` outside the plane and where
    /// its strip does not hold it.
    pub open spec fn sample_at(self, x: int, y: int) -> Option<u8> {
        let strip = x / (self.banks.full_strip as int);
        let at = strip_index(y, x % (self.banks.full_strip as int));
        if x < self.width && y < self.height && strip < self.strips@.len() && at
            < self.strips@[strip]@.len() {
            Some(self.strips@[strip]@[at])
        } else {
            None
        }
    }

    /// Sample `(x, y)` of the plane (7-bit internal range), `None` outside
    /// the plane.
    pub fn sample(&self, x: u32, y: u32) -> (r: Option<u8>)
        requires
            self.banks.full_strip > 0 || x >= self.width || y >= self.height,
        ensures
            r == self.sample_at(x as int, y as int),
    {
        if x >= self.width || y >= self.height {
            return None;
        }
        let strip: usize = (x / self.banks.full_strip) as usize;
        let col: u32 = x % self.banks.full_strip;
        if strip >= self.strips.len() {
            return None;
        }
        let at: u64 = (y as u64 + 1) * 0xb0 + col as u64;
        let s = &self.strips[strip];
        if at >= s.len() as u64 {
            return None;
        }
        Some(s[at as usize])
    }

    /// The 8-bit output value at `(x, y)`: the 7-bit sample upshifted, 0
    /// where there is none.
    pub open spec fn pixel_at(self, x: int, y: int) -> u8 {
        match self.sample_at(x, y) {
            Some(v) => (v % 128 * 2) as u8,
            None => 0,
        }
    }

    /// The plane as `out_w x out_h` 8-bit samples, cropped from the
    /// decoded plane.
    pub fn to_pixels(&self, out_w: u32, out_h: u32) -> (r: Vec<u8>)
        requires
            self.banks.full_strip > 0 || self.width == 0 || self.height == 0,
            out_w * out_h <= u32::MAX,
        ensures
            r@.len() == out_w * out_h,
            forall|x: int, y: int|
                0 <= x < out_w && 0 <= y < out_h ==> r@[y * out_w + x] == #[trigger] self.pixel_at(
                    x,
                    y,
                ),
    {
        let mut out: Vec<u8> = Vec::new();
        let mut y: u32 = 0;
        assert(0 * out_w == 0) by (nonlinear_arith);
        while y < out_h
            invariant
                self.banks.full_strip > 0 || self.width == 0 || self.height == 0,
                y <= out_h,
                out@.len() == y * out_w,
                forall|i: int, j: int|
                    0 <= i < out_w && 0 <= j < y ==> out@[j * out_w + i]
                        == #[trigger] self.pixel_at(i, j),
            decreases out_h - y,
        {
            let mut x: u32 = 0;
            while x < out_w
                invariant
                    self.banks.full_strip > 0 || self.width == 0 || self.height == 0,
                    x <= out_w,
                    y < out_h,
                    out@.len() == y * out_w + x,
                    forall|i: int, j: int|
                        0 <= i < out_w && 0 <= j < y ==> out@[j * out_w + i]
                            == #[trigger] self.pixel_at(i, j),
                    forall|i: int|
                        0 <= i < x ==> out@[y * out_w + i] == #[trigger] self.pixel_at(i, y as int),
                decreases out_w - x,
            {
                let v: u8 = match self.sample(x, y) {
                    Some(v) => v % 128 * 2,
                    None => 0,
                };
                let ghost before = out@;
                out.push(v);
                assert forall|i: int, j: int| 0 <= i < out_w && 0 <= j < y implies out@[j * out_w + i]
                    == #[trigger] self.pixel_at(i, j) by {
                    lemma_raster_order(i, j, out_w as int, y as int);
                    assert(before[j * out_w + i] == self.pixel_at(i, j));
                }
                assert forall|i: int| 0 <= i < x + 1 implies out@[y * out_w + i]
                    == #[trigger] self.pixel_at(i, y as int) by {
                    lemma_raster_order(0, 0, out_w as int, y as int + 1);
                    if i < x {
                        assert(before[y * out_w + i] == self.pixel_at(i, y as int));
                    }
                }
                x = x + 1;
            }
            assert(y * out_w + out_w == (y + 1) * out_w) by (nonlinear_arith);
            y = y + 1;
        }
        assert(out_h * out_w == out_w * out_h) by (nonlinear_arith);
        out
    }

    /// Whether [`decode_plane`] can decode into these buffers.
    pub fn is_decodable(&self) -> (r: bool)
        ensures
            r == self.decodable(),
    {
        let n: usize = self.strips.len();
        let ghost strips = strip_seqs(self.strips@);
        let mut cl: u32 = 0;
        while cl < 256
            invariant
                cl <= 256,
                strips == strip_seqs(self.strips@),
                forall|a: int, b: int|
                    0 <= a < cl && 0 <= b < 256 ==> match #[trigger] leaf_rect(
                        self.banks,
                        strips.len() as int,
                        a,
                        b,
                    ) {
                        Ok(cell) => rect_fits(cell, strips[cell.strip as int].len() as int),
                        Err(_) => true,
                    },
            decreases 256 - cl,
        {
            let mut ch: u32 = 0;
            while ch < 256
                invariant
                    cl < 256,
                    ch <= 256,
                    strips == strip_seqs(self.strips@),
                    forall|a: int, b: int|
                        0 <= a <= cl && 0 <= b < 256 && (a < cl || b < ch) ==> match #[trigger] leaf_rect(
                            self.banks,
                            strips.len() as int,
                            a,
                            b,
                        ) {
                            Ok(cell) => rect_fits(cell, strips[cell.strip as int].len() as int),
                            Err(_) => true,
                        },
                decreases 256 - ch,
            {
                if let Ok(cell) = self.position(cl, ch) {
                    let end: u64 = (cell.y as u64 + cell.h as u64) * 0xb0 + cell.x as u64
                        + cell.w as u64;
                    assert(leaf_rect(self.banks, strips.len() as int, cl as int, ch as int) == Ok::<
                        LeafRect,
                        CellDecodeError,
                    >(cell));
                    assert(strips[cell.strip as int] == self.strips@[cell.strip as int]@);
                    if end > self.strips[cell.strip].len() as u64 {
                        return false;
                    }
                }
                ch = ch + 1;
            }
            cl = cl + 1;
        }
        let mut i: usize = 0;
        while i < n
            invariant
                i <= n,
                n == self.strips@.len(),
                strips == strip_seqs(self.strips@),
                forall|k: int|
                    0 <= k < i ==> {
                        let width = strip_width(self.banks, n as int, k);
                        0 < width < 0xb0 && self.height > 0 ==> self.height * 0xb0 + width
                            < (#[trigger] self.strips@[k])@.len()
                    },
            decreases n - i,
        {
            let sw: u32 = if i + 1 == n {
                self.banks.last_strip
            } else {
                self.banks.full_strip
            };
            if sw > 0 && sw < STRIP_ROW_STRIDE && self.height > 0 {
                let end: u64 = self.height as u64 * 0xb0 + sw as u64;
                if end >= self.strips[i].len() as u64 {
                    return false;
                }
            }
            i = i + 1;
        }
        true
    }

    /// The byte after the last column of every picture row lies in its
    /// strip.
    pub open spec fn edges_fit(self) -> bool {
        forall|i: int|
            0 <= i < self.strips@.len() ==> {
                let width = strip_width(self.banks, self.strips@.len() as int, i);
                0 < width < 0xb0 && self.height > 0 ==> self.height * 0xb0 + width
                    < (#[trigger] self.strips@[i])@.len()
            }
    }

    /// Every cell that the banks can place lies inside its strip buffer,
    /// and so does the column the end-of-strip fix-up writes.
    pub open spec fn decodable(self) -> bool {
        leaves_fit(self.banks, strip_seqs(self.strips@)) && self.edges_fit()
    }
}

proof fn lemma_raster_order(i: int, j: int, width: int, rows: int)
    requires
        0 <= i < width || i == 0,
        0 <= j < rows,
        width >= 0,
    ensures
        i < width ==> 0 <= j * width + i < rows * width,
        0 <= j * width,
{
    assert(i < width ==> j * width + i < rows * width) by (nonlinear_arith)
        requires
            0 <= j < rows,
            width >= 0,
    ;
    assert(0 <= j * width) by (nonlinear_arith)
        requires
            0 <= j,
            width >= 0,
    ;
}

} // verus!
