//! What a plane payload means: the mathematical model of the plane
//! decoder, from the bit cursor up to the walk over the whole tree.
use super::bytes::{dword_at, le32, word_at};
use super::cell_decoder::{CellDecodeError, Family, LeafRect, Pending, PlaneContext};
use super::geometry_bank::{PlaneBanks, STRIP_ROW_STRIDE, UNDER_FOUR_CODE, UNDER_FOUR_YPOS};
use super::picture_layer::MotionVector;
use super::staging::{STAGING_BLOCK_COUNT, STAGING_BLOCK_STRIDE};
use super::vq::{signed_byte, ARENA_BANDS_OFFSET, ARENA_BAND_COUNT, ARENA_BAND_LEN, ARENA_HALF_LEN};
use vstd::prelude::*;

verus! {

/// The bit cursor: the next byte to take and the bits left of the last
/// byte taken for bits, most significant first.
pub ghost struct Cursor {
    pub pos: int,
    pub acc: int,
    pub nbits: int,
}

impl Cursor {
    /// The cursor stands inside `data`.
    pub open spec fn inside(self, data: Seq<u8>) -> bool {
        &&& 0 <= self.pos <= data.len()
        &&& 0 <= self.nbits <= 8
        &&& 0 <= self.acc <= 255
    }

    /// The number of bits not yet taken.
    pub open spec fn bits_left(self, data: Seq<u8>) -> int {
        8 * (data.len() - self.pos) + self.nbits
    }
}

/// The next bit and the cursor after it; `None` at the end of the data.
pub open spec fn next_bit(data: Seq<u8>, c: Cursor) -> Option<(int, Cursor)> {
    if c.nbits > 0 {
        Some((c.acc / 128, Cursor { pos: c.pos, acc: c.acc * 2 % 256, nbits: c.nbits - 1 }))
    } else if c.pos < data.len() {
        Some(
            (
                data[c.pos] as int / 128,
                Cursor { pos: c.pos + 1, acc: data[c.pos] as int * 2 % 256, nbits: 7 },
            ),
        )
    } else {
        None
    }
}

/// The byte index of `(row, col)` inside a strip buffer; row -1 is the
/// predictor row.
pub open spec fn strip_index(row: int, col: int) -> int {
    (row + 1) * 0xb0 + col
}

/// A buffer with the bytes from `at` on replaced by `row`.
pub open spec fn with_row(s: Seq<u8>, at: int, row: Seq<u8>) -> Seq<u8> {
    Seq::new(
        s.len(),
        |j: int|
            if at <= j < at + row.len() {
                row[j - at]
            } else {
                s[j]
            },
    )
}

/// A strip with every one of the first `n` rows of a cell replaced by the
/// row of the same number out of `rows`.
pub open spec fn with_cell_rows(
    s: Seq<u8>,
    cell: LeafRect,
    rows: spec_fn(int) -> Seq<u8>,
    n: int,
) -> Seq<
    u8,
>
    decreases n,
{
    if n <= 0 {
        s
    } else {
        with_row(
            with_cell_rows(s, cell, rows, n - 1),
            strip_index(cell.y + n - 1, cell.x as int),
            rows(n - 1),
        )
    }
}

/// The row above a cell.
pub open spec fn row_above(s: Seq<u8>, cell: LeafRect) -> Seq<u8> {
    let at = strip_index(cell.y - 1, cell.x as int);
    s.subrange(at, at + cell.w)
}

/// Copy-upper: every row of the cell takes the row above it.
pub open spec fn copied_upper(s: Seq<u8>, cell: LeafRect) -> Seq<u8> {
    with_cell_rows(s, cell, |r: int| row_above(s, cell), cell.h as int)
}

/// The sample a half-pixel filter takes at byte `i` of the reference
/// strip; `None` where a byte it reads is not in the strip.
pub open spec fn filtered_sample(rs: Seq<u8>, i: int, mv: MotionVector) -> Option<int> {
    let down = if mv.vert_half {
        0xb0int
    } else {
        0
    };
    let right = if mv.horiz_half {
        1int
    } else {
        0
    };
    if i < 0 || i + down + right >= rs.len() {
        None
    } else {
        let a = if mv.horiz_half {
            (rs[i] + rs[i + 1]) / 2
        } else {
            rs[i] as int
        };
        let b = if mv.horiz_half {
            (rs[i + down] + rs[i + down + 1]) / 2
        } else {
            rs[i + down] as int
        };
        Some(
            (if mv.vert_half {
                (a + b) / 2
            } else {
                a
            }) % 128,
        )
    }
}

/// The motion-compensated sample of the pixel `(r, c)` of a cell.
pub open spec fn fetched(
    rs: Seq<u8>,
    cell: LeafRect,
    mv: MotionVector,
    r: int,
    c: int,
) -> Option<int> {
    filtered_sample(rs, strip_index(cell.y + r, cell.x + c) + mv.offset(), mv)
}

/// Every sample of a cell can be fetched.
pub open spec fn fetchable(rs: Seq<u8>, cell: LeafRect, mv: MotionVector) -> bool {
    forall|r: int, c: int|
        0 <= r < cell.h && 0 <= c < cell.w ==> #[trigger] fetched(rs, cell, mv, r, c) is Some
}

/// The motion-compensated row `r` of a cell.
pub open spec fn fetched_row(rs: Seq<u8>, cell: LeafRect, mv: MotionVector, r: int) -> Seq<u8> {
    Seq::new(cell.w as nat, |c: int| fetched(rs, cell, mv, r, c)->0 as u8)
}

/// Motion compensation of a cell.
pub open spec fn compensated(s: Seq<u8>, rs: Seq<u8>, cell: LeafRect, mv: MotionVector) -> Seq<u8> {
    with_cell_rows(s, cell, |r: int| fetched_row(rs, cell, mv, r), cell.h as int)
}

/// The buffers' strips as sequences.
pub open spec fn strip_seqs(v: Seq<Vec<u8>>) -> Seq<Seq<u8>> {
    Seq::new(v.len(), |i: int| v[i]@)
}

/// The rectangle of the leaf `(cl, ch)`.
pub open spec fn leaf_rect(banks: PlaneBanks, nstrips: int, cl: int, ch: int) -> Result<
    LeafRect,
    CellDecodeError,
> {
    let slot = banks.full.strip@[ch];
    let bank = banks.slot_bank(slot as int);
    if bank.h4@[cl] == UNDER_FOUR_CODE || bank.w4@[ch] == UNDER_FOUR_CODE || bank.ypos@[cl]
        >= UNDER_FOUR_YPOS {
        Err(CellDecodeError::UnderFourNode)
    } else if slot >= nstrips {
        Err(CellDecodeError::BadStrip)
    } else {
        Ok(
            LeafRect {
                strip: slot as usize,
                x: bank.xpos@[ch],
                y: bank.ypos@[cl] / 0xb0,
                w: (4 * bank.w4@[ch]) as u32,
                h: (4 * bank.h4@[cl]) as u32,
            },
        )
    }
}

/// The two code tables a mode byte selects.
pub ghost struct Codebook {
    pub bytes: Seq<u8>,
    pub primary: int,
    pub secondary: int,
}

/// The tables of a band, out of the staging image or the arena.
pub open spec fn codebook(ctx: PlaneContext<'_>, staging: bool, band: int) -> Option<Codebook> {
    if staging {
        let block = ctx.cb_offset + band;
        if 0 <= block < STAGING_BLOCK_COUNT {
            Some(
                Codebook {
                    bytes: ctx.staging@,
                    primary: block * STAGING_BLOCK_STRIDE,
                    secondary: block * STAGING_BLOCK_STRIDE + 0x400,
                },
            )
        } else {
            None
        }
    } else if 0 <= band < ARENA_BAND_COUNT {
        Some(
            Codebook {
                bytes: ctx.arena@,
                primary: ARENA_BANDS_OFFSET + ARENA_BAND_LEN * band,
                secondary: ARENA_BANDS_OFFSET + ARENA_BAND_LEN * band + ARENA_HALF_LEN,
            },
        )
    } else {
        None
    }
}

/// A delta rounded toward zero to an even value.
pub open spec fn evened(d: int) -> int {
    if d % 2 == 0 {
        d
    } else if d > 0 {
        d - 1
    } else {
        d + 1
    }
}

/// The signed low byte of a dyad.
pub open spec fn dyad_low(dyad: int) -> int {
    signed_byte((dyad % 0x100) as u8)
}

/// The signed high byte of a dyad, the low byte's borrow folded in.
pub open spec fn dyad_high(dyad: int) -> int {
    signed_byte((dyad / 0x100 % 0x100) as u8) + if dyad_low(dyad) < 0 {
        1int
    } else {
        0
    }
}

/// The four pixel deltas of two dyads.
pub open spec fn pixel_deltas(low: int, high: int) -> Seq<int> {
    seq![
        evened(dyad_low(low)),
        evened(dyad_high(low)),
        evened(dyad_low(high)),
        evened(dyad_high(high)),
    ]
}

/// What one literal code says: the four pixel deltas and the position
/// after it, or `None` where the data ends inside it.
///
/// The raw 32-bit sum of predictor and table word decides by its top bit
/// between the one-byte form, whose word is `(hi << 16) + lo` with a
/// signed `lo`, and the two-byte form, whose low dyad comes from the high
/// half of the word the continuation byte names.
pub open spec fn literal_code(
    data: Seq<u8>,
    pos: int,
    bytes: Seq<u8>,
    table: int,
    b: int,
    pred: int,
) -> Option<
    (Seq<int>, int),
> {
    let word = dword_at(bytes, table + 4 * b);
    if (pred + word) % 0x1_0000_0000 < 0x8000_0000 {
        let lo = word % 0x1_0000;
        let borrow = if lo >= 0x8000 {
            1int
        } else {
            0
        };
        Some((pixel_deltas(lo, (word / 0x1_0000 + borrow) % 0x1_0000), pos))
    } else if pos < data.len() {
        let c_hi = word_at(bytes, table + 4 * data[pos] + 2);
        Some(
            (
                pixel_deltas((c_hi + 0x8000) % 0x1_0000, (word / 0x1_0000 + 0x8000) % 0x1_0000),
                pos + 1,
            ),
        )
    } else {
        None
    }
}

/// A pixel with a delta added, as a byte.
pub open spec fn shifted(p: u8, d: int) -> u8 {
    ((p + d) % 0x100) as u8
}

/// How the codes of a cell lie in it and what they are read against.
pub ghost struct CellCode {
    pub cell: LeafRect,
    pub book: Codebook,
    /// 8x8 blocks of doubled pixels (E / F) rather than 4x4 blocks (A / B).
    pub doubled: bool,
    /// The codes are residuals over the cell's own content (B / F).
    pub own: bool,
}

impl CellCode {
    /// The side of a block.
    pub open spec fn side(self) -> int {
        if self.doubled {
            8
        } else {
            4
        }
    }

    /// The number of blocks in a row of blocks.
    pub open spec fn columns(self) -> int {
        self.cell.w as int / self.side()
    }

    /// The number of blocks.
    pub open spec fn total(self) -> int {
        self.cell.h as int / self.side() * self.columns()
    }

    /// The top row of block `n`.
    pub open spec fn block_y(self, n: int) -> int {
        self.cell.y + self.side() * (n / self.columns())
    }

    /// The left column of block `n`.
    pub open spec fn block_x(self, n: int) -> int {
        self.cell.x + self.side() * (n % self.columns())
    }

    /// The table of the code at row position `p`.
    pub open spec fn table(self, p: int) -> int {
        if p % 2 == 0 {
            self.book.secondary
        } else {
            self.book.primary
        }
    }
}

/// A block of a cell: its place and its cell's codes.
pub ghost struct BlockPlace {
    pub code: CellCode,
    pub y: int,
    pub x: int,
}

impl BlockPlace {
    /// The first of the rows that row position `p` of the block writes.
    pub open spec fn row(self, p: int) -> int {
        self.y + if self.code.doubled {
            2 * p
        } else {
            p
        }
    }

    /// The byte index of the predictor of row position `p`: the row above,
    /// or the row itself for a residual.
    pub open spec fn predictor_index(self, p: int) -> int {
        strip_index(
            if self.code.own {
                self.row(p)
            } else {
                self.row(p) - 1
            },
            self.x,
        )
    }

    /// Pixel `i` of the predictor of row position `p`: a doubled block
    /// takes every other byte.
    pub open spec fn predictor_pixel(self, s: Seq<u8>, p: int, i: int) -> u8 {
        s[self.predictor_index(p) + if self.code.doubled {
            2 * i
        } else {
            i
        }]
    }

    /// The predictor of row position `p` as a double word.
    pub open spec fn predictor(self, s: Seq<u8>, p: int) -> int {
        le32(
            self.predictor_pixel(s, p, 0),
            self.predictor_pixel(s, p, 1),
            self.predictor_pixel(s, p, 2),
            self.predictor_pixel(s, p, 3),
        )
    }

    /// Pixel `i` that the deltas `d` give at row position `p`.
    pub open spec fn decoded_pixel(self, s: Seq<u8>, p: int, d: Seq<int>, i: int) -> u8 {
        shifted(self.predictor_pixel(s, p, i), d[i])
    }
}

/// A strip with one decoded row of four pixels stored at `(y, x)` of a
/// doubled block: both halves of each pixel in row `y + 1`, and in row `y`
/// the average with the row above, or the pixel itself at the strip top.
pub open spec fn with_doubled(s: Seq<u8>, y: int, x: int, pixels: Seq<u8>) -> Seq<u8> {
    let above = strip_index(y - 1, x);
    let first = Seq::new(
        8,
        |j: int|
            if y == 0 {
                pixels[j / 2]
            } else {
                ((s[above + j] % 128 + pixels[j / 2] % 128) / 2) as u8
            },
    );
    let second = Seq::new(8, |j: int| pixels[j / 2]);
    with_row(with_row(s, strip_index(y, x), first), strip_index(y + 1, x), second)
}

/// A doubled row pair of residuals: every byte of the two rows with its
/// delta added.
pub open spec fn residual_row(s: Seq<u8>, y: int, x: int, d: Seq<int>) -> Seq<u8> {
    Seq::new(8, |j: int| shifted(s[strip_index(y, x) + j], d[j / 2]))
}

/// A strip with the deltas of a doubled residual added to both its rows.
pub open spec fn with_residual(s: Seq<u8>, y: int, x: int, d: Seq<int>) -> Seq<u8> {
    with_row(
        with_row(s, strip_index(y, x), residual_row(s, y, x, d)),
        strip_index(y + 1, x),
        residual_row(s, y + 1, x, d),
    )
}

/// Every byte of a row is a 7-bit value.
pub open spec fn seven_bit(row: Seq<u8>) -> bool {
    forall|j: int| 0 <= j < row.len() ==> #[trigger] row[j] < 0x80
}

/// The four pixels that the deltas `d` give at row position `p`.
pub open spec fn decoded_pixels(at: BlockPlace, s: Seq<u8>, p: int, d: Seq<int>) -> Seq<u8> {
    Seq::new(4, |i: int| at.decoded_pixel(s, p, d, i))
}

/// The deltas of a code, applied at row position `p` of a block; `None`
/// where a pixel leaves the 7-bit range.
pub open spec fn applied(at: BlockPlace, s: Seq<u8>, p: int, d: Seq<int>) -> Option<Seq<u8>> {
    let y = at.row(p);
    let pixels = decoded_pixels(at, s, p, d);
    if at.code.doubled && at.code.own {
        if seven_bit(residual_row(s, y, at.x, d)) && seven_bit(residual_row(s, y + 1, at.x, d)) {
            Some(with_residual(s, y, at.x, d))
        } else {
            None
        }
    } else if !seven_bit(pixels) {
        None
    } else if at.code.doubled {
        Some(with_doubled(s, y, at.x, pixels))
    } else {
        Some(with_row(s, strip_index(y, at.x), pixels))
    }
}

/// Row positions `from..to` of a block filled from their predictors: each
/// repeats the row above; a residual leaves the content as it is.
pub open spec fn filled(at: BlockPlace, s: Seq<u8>, from: int, to: int) -> Seq<u8>
    decreases to - from,
{
    if from >= to || at.code.own {
        s
    } else {
        let pixels = Seq::new(4, |i: int| at.predictor_pixel(s, from, i));
        let next = if at.code.doubled {
            with_doubled(s, at.row(from), at.x, pixels)
        } else {
            with_row(s, strip_index(at.row(from), at.x), pixels)
        };
        filled(at, next, from + 1, to)
    }
}

/// The state while the codes of a cell are read.
pub ghost struct CodeState {
    pub strip: Seq<u8>,
    pub pos: int,
    pub sticky: bool,
}

/// What one code does: the state after it, the next row position of the
/// block (4 when the block is done), and the blocks that a run has yet to
/// fill or to pass over.
pub ghost struct CodeStep {
    pub state: CodeState,
    pub next: int,
    pub fill: int,
    pub pass: int,
    pub error: Option<CellDecodeError>,
}

/// A step that fails.
pub open spec fn failed(st: CodeState, error: CellDecodeError) -> CodeStep {
    CodeStep { state: st, next: 4, fill: 0, pass: 0, error: Some(error) }
}

/// A step to row position `next`.
pub open spec fn moved(strip: Seq<u8>, pos: int, sticky: bool, next: int) -> CodeStep {
    CodeStep { state: CodeState { strip, pos, sticky }, next, fill: 0, pass: 0, error: None }
}

/// The run a counter byte asks for: `(blocks to fill, blocks to pass)`;
/// `None` for a counter that is rejected.
pub open spec fn run_of(counter: int) -> Option<(int, int)> {
    if counter % 32 == 0 || counter >= 64 {
        None
    } else if counter >= 32 {
        Some((0, counter % 32))
    } else {
        Some((counter, 0))
    }
}

/// A literal code `b` at row position `p`.
pub open spec fn literal_step(
    data: Seq<u8>,
    st: CodeState,
    at: BlockPlace,
    p: int,
    b: int,
) -> CodeStep {
    match literal_code(
        data,
        st.pos + 1,
        at.code.book.bytes,
        at.code.table(p),
        b,
        at.predictor(st.strip, p),
    ) {
        None => failed(st, CellDecodeError::StreamExhausted),
        Some((d, pos)) => match applied(at, st.strip, p, d) {
            None => failed(st, CellDecodeError::RangeFault),
            Some(strip) => moved(strip, pos, st.sticky, p + 1),
        },
    }
}

/// The literal fill `0xF8`: a marked pixel value for the first row.
pub open spec fn fill_value_step(data: Seq<u8>, st: CodeState, at: BlockPlace) -> CodeStep {
    if st.pos + 1 >= data.len() {
        failed(st, CellDecodeError::StreamExhausted)
    } else {
        let v = (data[st.pos + 1] % 128 + 0x80) as u8;
        moved(
            with_row(st.strip, strip_index(at.y, at.x), seq![v, v, v, v]),
            st.pos + 2,
            st.sticky,
            1,
        )
    }
}

/// The run escape `0xFB`: the rest of this block and the blocks after it.
pub open spec fn run_step(data: Seq<u8>, st: CodeState, at: BlockPlace, p: int) -> CodeStep {
    if st.pos + 1 >= data.len() {
        failed(st, CellDecodeError::StreamExhausted)
    } else {
        match run_of(data[st.pos + 1] as int) {
            None => failed(st, CellDecodeError::BadCounter { counter: data[st.pos + 1] }),
            Some((fill, pass)) => if fill > 0 {
                CodeStep {
                    state: CodeState {
                        strip: filled(at, st.strip, p, 4),
                        pos: st.pos + 2,
                        sticky: false,
                    },
                    next: 4,
                    fill: fill - if st.sticky {
                        0int
                    } else {
                        1
                    },
                    pass: 0,
                    error: None,
                }
            } else {
                CodeStep {
                    state: CodeState { strip: st.strip, pos: st.pos + 2, sticky: st.sticky },
                    next: 4,
                    fill: 0,
                    pass: pass - 1,
                    error: None,
                }
            },
        }
    }
}

/// What the code at the cursor does at row position `p` of a block.
///
/// While the sticky flag is set, a `0xFA` or `0xFD` at the cursor is not
/// consumed but repeats. The escapes that toggle or obey the flag leave
/// their byte unread where the flag is then set.
#[verifier::opaque]
pub open spec fn code_step(data: Seq<u8>, st: CodeState, at: BlockPlace, p: int) -> CodeStep {
    if st.pos >= data.len() {
        failed(st, CellDecodeError::StreamExhausted)
    } else {
        let b = data[st.pos];
        let refused = CellDecodeError::BadEscape { escape: b, position: p as u8 };
        if st.sticky && b == 0xFA {
            moved(st.strip, st.pos, true, 4)
        } else if st.sticky && b == 0xFD {
            moved(filled(at, st.strip, p, 4), st.pos, true, 4)
        } else if b < 0xF8 {
            literal_step(data, st, at, p, b as int)
        } else if b == 0xF8 {
            if at.code.doubled || p != 0 {
                failed(st, refused)
            } else {
                fill_value_step(data, st, at)
            }
        } else if b == 0xF9 || b == 0xFA {
            if p != 0 {
                failed(st, refused)
            } else {
                let sticky = if b == 0xF9 {
                    !st.sticky
                } else {
                    st.sticky
                };
                moved(st.strip, st.pos + if sticky { 0int } else { 1 }, sticky, 4)
            }
        } else if b == 0xFB {
            run_step(data, st, at, p)
        } else if b == 0xFC || b == 0xFD {
            let sticky = if b == 0xFC {
                !st.sticky
            } else {
                st.sticky
            };
            moved(filled(at, st.strip, p, 4), st.pos + if sticky { 0int } else { 1 }, sticky, 4)
        } else if b == 0xFE {
            if p > 1 {
                failed(st, refused)
            } else {
                moved(filled(at, st.strip, p, 3), st.pos + 1, st.sticky, 3)
            }
        } else {
            if p != 0 {
                failed(st, refused)
            } else {
                moved(filled(at, st.strip, 0, 2), st.pos + 1, st.sticky, 2)
            }
        }
    }
}

/// The codes of one block from row position `p` on.
pub open spec fn block_codes(data: Seq<u8>, st: CodeState, at: BlockPlace, p: int) -> CodeStep
    decreases 4 - p,
{
    proof {
        reveal(code_step);
    }
    let step = code_step(data, st, at, p);
    if p >= 4 || step.error is Some || step.next >= 4 {
        step
    } else {
        block_codes(data, step.state, at, step.next)
    }
}

/// Where decoding a cell's codes ends.
pub ghost struct CodeEnd {
    pub state: CodeState,
    pub error: Option<CellDecodeError>,
}

/// Block `n` of a cell.
pub open spec fn block_place(code: CellCode, n: int) -> BlockPlace {
    BlockPlace { code, y: code.block_y(n), x: code.block_x(n) }
}

/// The blocks of a cell from block `n` on, row-group major, with `fill`
/// blocks yet to fill and `pass` blocks yet to pass over.
pub open spec fn cell_codes(
    data: Seq<u8>,
    st: CodeState,
    code: CellCode,
    n: int,
    fill: int,
    pass: int,
) -> CodeEnd
    decreases code.total() - n,
{
    if n >= code.total() {
        CodeEnd { state: st, error: None }
    } else if fill > 0 {
        let strip = filled(block_place(code, n), st.strip, 0, 4);
        cell_codes(
            data,
            CodeState { strip, pos: st.pos, sticky: st.sticky },
            code,
            n + 1,
            fill - 1,
            pass,
        )
    } else if pass > 0 {
        cell_codes(data, st, code, n + 1, 0, pass - 1)
    } else {
        let step = block_codes(data, st, block_place(code, n), 0);
        if step.error is Some {
            CodeEnd { state: step.state, error: step.error }
        } else {
            cell_codes(data, step.state, code, n + 1, step.fill, step.pass)
        }
    }
}

/// What a mode byte selects.
pub ghost struct ModePlan {
    pub staging: bool,
    pub lut: bool,
    pub family: Family,
}

/// The family of a mode byte's high nibble in a cell that is or is not
/// motion compensated; `None` where such a cell does not admit the family.
pub open spec fn mode_family(hi: int, mc: bool) -> Option<Family> {
    if hi == 0 || hi == 1 {
        Some(
            if mc {
                Family::B
            } else {
                Family::A
            },
        )
    } else if hi == 0xA {
        Some(
            if mc {
                Family::F
            } else {
                Family::E
            },
        )
    } else if (hi == 3 || hi == 4) && !mc {
        Some(Family::C)
    } else if (hi == 0xB || hi == 0xC) && mc {
        Some(Family::D)
    } else {
        None
    }
}

/// The plan of a mode byte.
pub open spec fn mode_plan(mode: u8, mc: bool) -> Result<ModePlan, CellDecodeError> {
    let hi = mode as int / 16;
    let lo = mode as int % 16;
    if !(hi == 0 || hi == 1 || hi == 3 || hi == 4 || hi == 0xA || hi == 0xB || hi == 0xC) {
        Err(CellDecodeError::BadModeByte { mode })
    } else {
        match mode_family(hi, mc) {
            None => Err(CellDecodeError::FamilyGate { mode }),
            Some(family) => Ok(
                ModePlan {
                    staging: hi == 0 || hi == 3 || hi == 0xA || hi == 0xB,
                    lut: lo >= 8 && (hi == 0 || hi == 3 || hi == 0xA),
                    family,
                },
            ),
        }
    }
}

/// The row above a cell rewritten through bank `band` of the predictor
/// table; the marker bit of each byte stays.
pub open spec fn rewritten(s: Seq<u8>, table: Seq<u8>, cell: LeafRect, band: int) -> Seq<u8> {
    let row = row_above(s, cell);
    with_row(
        s,
        strip_index(cell.y - 1, cell.x as int),
        Seq::new(row.len(), |i: int| table[band * 128 + row[i] as int % 128] | (row[i] & 0x80)),
    )
}

/// The mode byte of a cell and the codes after it.
pub open spec fn unpacked(
    data: Seq<u8>,
    st: CodeState,
    ctx: PlaneContext<'_>,
    cell: LeafRect,
    mc: bool,
) -> (Option<Family>, CodeEnd) {
    if st.pos >= data.len() {
        (None, CodeEnd { state: st, error: Some(CellDecodeError::StreamExhausted) })
    } else {
        let mode = data[st.pos];
        let lo = mode as int % 16;
        match mode_plan(mode, mc) {
            Err(e) => (None, CodeEnd { state: st, error: Some(e) }),
            Ok(plan) => {
                let strip = if plan.lut {
                    rewritten(st.strip, ctx.lut@, cell, lo % 8)
                } else {
                    st.strip
                };
                let next = CodeState { strip, pos: st.pos + 1, sticky: st.sticky };
                match codebook(ctx, plan.staging, lo) {
                    None => (
                        None,
                        CodeEnd { state: next, error: Some(CellDecodeError::BadStagingBlock) },
                    ),
                    Some(book) => {
                        let doubled = plan.family == Family::E || plan.family == Family::F;
                        let own = plan.family == Family::B || plan.family == Family::F;
                        if plan.family == Family::C || plan.family == Family::D {
                            (
                                None,
                                CodeEnd {
                                    state: next,
                                    error: Some(CellDecodeError::UnsupportedFamily { mode }),
                                },
                            )
                        } else {
                            (
                                Some(plan.family),
                                cell_codes(
                                    data,
                                    next,
                                    CellCode { cell, book, doubled, own },
                                    0,
                                    0,
                                    0,
                                ),
                            )
                        }
                    },
                }
            },
        }
    }
}

/// The counters of a plane decode.
pub ghost struct Tally {
    pub cells: int,
    pub coded_cells: int,
    pub copy_upper: int,
    pub skipped: int,
    pub inter: int,
    pub families: Seq<int>,
}

/// The counters before the first cell.
pub open spec fn no_cells() -> Tally {
    Tally {
        cells: 0,
        coded_cells: 0,
        copy_upper: 0,
        skipped: 0,
        inter: 0,
        families: seq![0, 0, 0, 0, 0, 0],
    }
}

/// The state of the walk over the plane's tree.
pub ghost struct WalkState {
    pub cursor: Cursor,
    pub strips: Seq<Seq<u8>>,
    pub sticky: bool,
    pub tally: Tally,
}

/// Where the walk, or one step of it, ends: the nodes that a step leaves
/// to be walked stand in the order in which they are pushed.
pub ghost struct WalkStep {
    pub state: WalkState,
    pub push: Seq<Pending>,
    pub error: Option<CellDecodeError>,
}

/// The heap index of a child.
pub open spec fn child_index(k: int, second: bool) -> int {
    if second {
        2 * k + 1
    } else {
        2 * k
    }
}

/// A walk step that fails.
pub open spec fn walk_failed(st: WalkState, error: CellDecodeError) -> WalkStep {
    WalkStep { state: st, push: Seq::empty(), error: Some(error) }
}

/// A split takes the node past the last heap index, 255.
pub open spec fn too_deep(node: Pending, vertical: bool) -> bool {
    if vertical {
        node.cl >= 128
    } else {
        node.ch >= 128
    }
}

/// The two children of a split node, the second one first, so that the
/// first one is taken first.
pub open spec fn children(node: Pending, vertical: bool) -> Seq<Pending> {
    if vertical {
        seq![
            Pending { cl: child_index(node.cl as int, true) as u32, ..node },
            Pending { cl: child_index(node.cl as int, false) as u32, ..node },
        ]
    } else {
        seq![
            Pending { ch: child_index(node.ch as int, true) as u32, ..node },
            Pending { ch: child_index(node.ch as int, false) as u32, ..node },
        ]
    }
}

/// A walk state that has moved on to another cursor.
pub open spec fn at_cursor(st: WalkState, cursor: Cursor) -> WalkState {
    WalkState { cursor, ..st }
}

/// One node of the motion tree.
pub open spec fn motion_step(
    data: Seq<u8>,
    ctx: PlaneContext<'_>,
    st: WalkState,
    node: Pending,
    b1: int,
    c: Cursor,
) -> WalkStep {
    if b1 == 0 {
        WalkStep {
            state: at_cursor(st, c),
            push: seq![Pending { leaf: Some(None), ..node }],
            error: None,
        }
    } else if c.pos >= data.len() {
        walk_failed(st, CellDecodeError::StreamExhausted)
    } else if data[c.pos] >= ctx.mvs@.len() {
        walk_failed(st, CellDecodeError::BadMvIndex { index: data[c.pos] })
    } else {
        WalkStep {
            state: at_cursor(st, Cursor { pos: c.pos + 1, ..c }),
            push: seq![Pending { leaf: Some(Some(ctx.mvs@[data[c.pos] as int])), ..node }],
            error: None,
        }
    }
}

/// The strips with a cell's motion-compensated content, where it has a
/// vector; `None` where the fetch leaves the reference.
pub open spec fn predicted(
    ctx: PlaneContext<'_>,
    strips: Seq<Seq<u8>>,
    cell: LeafRect,
    mv: Option<MotionVector>,
) -> Option<Seq<Seq<u8>>> {
    match mv {
        None => Some(strips),
        Some(mv) => match ctx.reference {
            None => None,
            Some(reference) => if cell.strip < reference.strips@.len() && fetchable(
                reference.strips@[cell.strip as int]@,
                cell,
                mv,
            ) {
                Some(
                    strips.update(
                        cell.strip as int,
                        compensated(
                            strips[cell.strip as int],
                            reference.strips@[cell.strip as int]@,
                            cell,
                            mv,
                        ),
                    ),
                )
            } else {
                None
            },
        },
    }
}

/// The counters after a family's cell.
pub open spec fn family_counted(families: Seq<int>, family: Family) -> Seq<int> {
    families.update(family_index(family), families[family_index(family)] + 1)
}

/// The place of a family in the histogram.
pub open spec fn family_index(family: Family) -> int {
    match family {
        Family::A => 0,
        Family::B => 1,
        Family::C => 2,
        Family::D => 3,
        Family::E => 4,
        Family::F => 5,
    }
}

/// A coded cell of the walk.
pub open spec fn coded_step(
    data: Seq<u8>,
    ctx: PlaneContext<'_>,
    st: WalkState,
    cell: LeafRect,
    mc: bool,
) -> WalkStep {
    let (family, end) = unpacked(
        data,
        CodeState {
            strip: st.strips[cell.strip as int],
            pos: st.cursor.pos,
            sticky: st.sticky,
        },
        ctx,
        cell,
        mc,
    );
    let strips = st.strips.update(cell.strip as int, end.state.strip);
    if end.error is Some {
        walk_failed(WalkState { strips, ..st }, end.error->0)
    } else {
        WalkStep {
            state: WalkState {
                cursor: Cursor { pos: end.state.pos, ..st.cursor },
                strips,
                sticky: end.state.sticky,
                tally: Tally {
                    coded_cells: st.tally.coded_cells + 1,
                    families: family_counted(st.tally.families, family->0),
                    ..st.tally
                },
            },
            push: Seq::empty(),
            error: None,
        }
    }
}

/// A leaf of the VQ tree: the cell is placed and motion compensated, then
/// coded, copied from above or left. On a motion-compensated cell the
/// copy keeps the fetched content.
pub open spec fn leaf_step(
    data: Seq<u8>,
    ctx: PlaneContext<'_>,
    banks: PlaneBanks,
    st: WalkState,
    node: Pending,
    b1: int,
) -> WalkStep {
    let mv = node.leaf->0;
    match leaf_rect(banks, st.strips.len() as int, node.cl as int, node.ch as int) {
        Err(e) => walk_failed(st, e),
        Ok(cell) => match predicted(ctx, st.strips, cell, mv) {
            None => walk_failed(st, CellDecodeError::McOutOfRange),
            Some(strips) => {
                let placed = WalkState {
                    strips,
                    tally: Tally {
                        cells: st.tally.cells + 1,
                        inter: st.tally.inter + if mv is Some {
                            1int
                        } else {
                            0
                        },
                        ..st.tally
                    },
                    ..st
                };
                if b1 == 1 {
                    coded_step(data, ctx, placed, cell, mv is Some)
                } else {
                    null_step(data, ctx, placed, cell, mv is Some)
                }
            },
        },
    }
}

/// A VQ_NULL leaf: its one- or two-bit sub-code.
pub open spec fn null_step(
    data: Seq<u8>,
    ctx: PlaneContext<'_>,
    st: WalkState,
    cell: LeafRect,
    mc: bool,
) -> WalkStep {
    match next_bit(data, st.cursor) {
        None => walk_failed(st, CellDecodeError::StreamExhausted),
        Some((s0, c0)) => if s0 == 1 {
            coded_step(data, ctx, at_cursor(st, c0), cell, mc)
        } else {
            match next_bit(data, c0) {
                None => walk_failed(st, CellDecodeError::StreamExhausted),
                Some((s1, c1)) => if s1 == 0 {
                    let i = cell.strip as int;
                    WalkStep {
                        state: WalkState {
                            cursor: c1,
                            strips: if mc {
                                st.strips
                            } else {
                                st.strips.update(i, copied_upper(st.strips[i], cell))
                            },
                            sticky: st.sticky,
                            tally: Tally { copy_upper: st.tally.copy_upper + 1, ..st.tally },
                        },
                        push: Seq::empty(),
                        error: None,
                    }
                } else {
                    WalkStep {
                        state: WalkState {
                            cursor: c1,
                            tally: Tally { skipped: st.tally.skipped + 1, ..st.tally },
                            ..st
                        },
                        push: Seq::empty(),
                        error: None,
                    }
                },
            }
        },
    }
}

/// One node of either tree: its two code bits and what they ask for.
pub open spec fn node_step(
    data: Seq<u8>,
    ctx: PlaneContext<'_>,
    banks: PlaneBanks,
    st: WalkState,
    node: Pending,
) -> WalkStep {
    match next_bit(data, st.cursor) {
        None => walk_failed(st, CellDecodeError::StreamExhausted),
        Some((b0, c0)) => match next_bit(data, c0) {
            None => walk_failed(st, CellDecodeError::StreamExhausted),
            Some((b1, c1)) => if b0 == 0 {
                if too_deep(node, b1 == 0) {
                    walk_failed(at_cursor(st, c1), CellDecodeError::TreeTooDeep)
                } else {
                    WalkStep {
                        state: at_cursor(st, c1),
                        push: children(node, b1 == 0),
                        error: None,
                    }
                }
            } else if node.leaf is None {
                motion_step(data, ctx, st, node, b1, c1)
            } else {
                leaf_step(data, ctx, banks, at_cursor(st, c1), node, b1)
            },
        },
    }
}

/// A cell lies inside a strip buffer of `len` bytes.
pub open spec fn rect_fits(cell: LeafRect, len: int) -> bool {
    (cell.y + cell.h) * 0xb0 + cell.x + cell.w <= len
}

/// Every leaf the banks can place lies inside its strip.
pub open spec fn leaves_fit(banks: PlaneBanks, strips: Seq<Seq<u8>>) -> bool {
    forall|cl: int, ch: int|
        0 <= cl < 256 && 0 <= ch < 256 ==> match #[trigger] leaf_rect(
            banks,
            strips.len() as int,
            cl,
            ch,
        ) {
            Ok(cell) => rect_fits(cell, strips[cell.strip as int].len() as int),
            Err(_) => true,
        }
}

/// Filling keeps the length of the strip.
pub proof fn filled_keeps_length(at: BlockPlace, s: Seq<u8>, from: int, to: int)
    ensures
        filled(at, s, from, to).len() == s.len(),
    decreases to - from,
{
    if from < to && !at.code.own {
        let pixels = Seq::new(4, |i: int| at.predictor_pixel(s, from, i));
        let next = if at.code.doubled {
            with_doubled(s, at.row(from), at.x, pixels)
        } else {
            with_row(s, strip_index(at.row(from), at.x), pixels)
        };
        filled_keeps_length(at, next, from + 1, to);
    }
}

/// A code never moves the cursor back past itself, takes the block
/// onward, and keeps the length of the strip.
pub proof fn code_makes_progress(data: Seq<u8>, st: CodeState, at: BlockPlace, p: int)
    requires
        0 <= st.pos <= data.len(),
        0 <= p < 4,
    ensures
        ({
            let step = code_step(data, st, at, p);
            &&& st.pos <= step.state.pos <= data.len()
            &&& step.state.strip.len() == st.strip.len()
            &&& p < step.next <= 4
            &&& 0 <= step.fill <= 31
            &&& 0 <= step.pass <= 31
            &&& step.next < 4 ==> step.fill == 0 && step.pass == 0
        }),
{
    reveal(code_step);
    filled_keeps_length(at, st.strip, p, 4);
    filled_keeps_length(at, st.strip, p, 3);
    filled_keeps_length(at, st.strip, 0, 2);
}

/// The same of all the codes of a block.
pub proof fn block_makes_progress(data: Seq<u8>, st: CodeState, at: BlockPlace, p: int)
    requires
        0 <= st.pos <= data.len(),
        0 <= p < 4,
    ensures
        ({
            let step = block_codes(data, st, at, p);
            &&& st.pos <= step.state.pos <= data.len()
            &&& step.state.strip.len() == st.strip.len()
            &&& 0 <= step.fill <= 31
            &&& 0 <= step.pass <= 31
        }),
    decreases 4 - p,
{
    code_makes_progress(data, st, at, p);
    let step = code_step(data, st, at, p);
    if !(step.error is Some || step.next >= 4) {
        block_makes_progress(data, step.state, at, step.next);
    }
}

/// The same of all the codes of a cell.
pub proof fn cell_makes_progress(
    data: Seq<u8>,
    st: CodeState,
    code: CellCode,
    n: int,
    fill: int,
    pass: int,
)
    requires
        0 <= st.pos <= data.len(),
    ensures
        ({
            let end = cell_codes(data, st, code, n, fill, pass);
            &&& st.pos <= end.state.pos <= data.len()
            &&& end.state.strip.len() == st.strip.len()
        }),
    decreases code.total() - n,
{
    if n >= code.total() {
    } else if fill > 0 {
        let at = block_place(code, n);
        filled_keeps_length(at, st.strip, 0, 4);
        cell_makes_progress(
            data,
            CodeState { strip: filled(at, st.strip, 0, 4), pos: st.pos, sticky: st.sticky },
            code,
            n + 1,
            fill - 1,
            pass,
        );
    } else if pass > 0 {
        cell_makes_progress(data, st, code, n + 1, 0, pass - 1);
    } else {
        block_makes_progress(data, st, block_place(code, n), 0);
        let step = block_codes(data, st, block_place(code, n), 0);
        if step.error is None {
            cell_makes_progress(data, step.state, code, n + 1, step.fill, step.pass);
        }
    }
}

proof fn lemma_unpacked_progress(
    data: Seq<u8>,
    st: CodeState,
    ctx: PlaneContext<'_>,
    cell: LeafRect,
    mc: bool,
)
    requires
        0 <= st.pos <= data.len(),
    ensures
        ({
            let (family, end) = unpacked(data, st, ctx, cell, mc);
            &&& st.pos <= end.state.pos <= data.len()
            &&& end.state.strip.len() == st.strip.len()
        }),
{
    if st.pos < data.len() {
        let mode = data[st.pos];
        let lo = mode as int % 16;
        if let Ok(plan) = mode_plan(mode, mc) {
            let strip = if plan.lut {
                rewritten(st.strip, ctx.lut@, cell, lo % 8)
            } else {
                st.strip
            };
            let next = CodeState { strip, pos: st.pos + 1, sticky: st.sticky };
            if let Some(book) = codebook(ctx, plan.staging, lo) {
                let doubled = plan.family == Family::E || plan.family == Family::F;
                let own = plan.family == Family::B || plan.family == Family::F;
                cell_makes_progress(data, next, CellCode { cell, book, doubled, own }, 0, 0, 0);
            }
        }
    }
}

/// Two strip sets of the same shape.
pub open spec fn same_shape(a: Seq<Seq<u8>>, b: Seq<Seq<u8>>) -> bool {
    &&& a.len() == b.len()
    &&& forall|i: int| 0 <= i < a.len() ==> #[trigger] a[i].len() == b[i].len()
}

proof fn lemma_cell_rows_length(s: Seq<u8>, cell: LeafRect, rows: spec_fn(int) -> Seq<u8>, n: int)
    ensures
        with_cell_rows(s, cell, rows, n).len() == s.len(),
    decreases n,
{
    if n > 0 {
        lemma_cell_rows_length(s, cell, rows, n - 1);
    }
}

proof fn lemma_coded_progress(
    data: Seq<u8>,
    ctx: PlaneContext<'_>,
    st: WalkState,
    cell: LeafRect,
    mc: bool,
)
    requires
        st.cursor.inside(data),
        cell.strip < st.strips.len(),
    ensures
        ({
            let step = coded_step(data, ctx, st, cell, mc);
            &&& step.error is None ==> step.state.cursor.inside(data)
                && step.state.cursor.bits_left(data) <= st.cursor.bits_left(data)
            &&& same_shape(step.state.strips, st.strips)
            &&& step.push.len() == 0
        }),
{
    lemma_unpacked_progress(
        data,
        CodeState {
            strip: st.strips[cell.strip as int],
            pos: st.cursor.pos,
            sticky: st.sticky,
        },
        ctx,
        cell,
        mc,
    );
}

/// A step of the walk takes at least two bits and keeps the shape of the
/// strips.
pub proof fn walk_makes_progress(
    data: Seq<u8>,
    ctx: PlaneContext<'_>,
    banks: PlaneBanks,
    st: WalkState,
    node: Pending,
)
    requires
        st.cursor.inside(data),
    ensures
        ({
            let step = node_step(data, ctx, banks, st, node);
            &&& step.error is None ==> step.state.cursor.inside(data)
                && step.state.cursor.bits_left(data) < st.cursor.bits_left(data)
            &&& same_shape(step.state.strips, st.strips)
        }),
{
    if let Some((b0, c0)) = next_bit(data, st.cursor) {
        assert(c0.inside(data) && c0.bits_left(data) == st.cursor.bits_left(data) - 1);
        if let Some((b1, c1)) = next_bit(data, c0) {
            assert(c1.inside(data) && c1.bits_left(data) == st.cursor.bits_left(data) - 2);
            if b0 != 0 && node.leaf is Some {
                lemma_leaf_progress(data, ctx, banks, at_cursor(st, c1), node, b1);
            }
        }
    }
}

proof fn lemma_leaf_progress(
    data: Seq<u8>,
    ctx: PlaneContext<'_>,
    banks: PlaneBanks,
    st: WalkState,
    node: Pending,
    b1: int,
)
    requires
        st.cursor.inside(data),
        node.leaf is Some,
    ensures
        ({
            let step = leaf_step(data, ctx, banks, st, node, b1);
            &&& step.error is None ==> step.state.cursor.inside(data)
                && step.state.cursor.bits_left(data) <= st.cursor.bits_left(data)
            &&& same_shape(step.state.strips, st.strips)
            &&& step.push.len() == 0
        }),
{
    let mv = node.leaf->0;
    if let Ok(cell) = leaf_rect(banks, st.strips.len() as int, node.cl as int, node.ch as int) {
        let i = cell.strip as int;
        lemma_predicted_shape(ctx, st.strips, cell, mv);
        if let Some(strips) = predicted(ctx, st.strips, cell, mv) {
            let placed = WalkState {
                strips,
                tally: Tally {
                    cells: st.tally.cells + 1,
                    inter: st.tally.inter + if mv is Some {
                        1int
                    } else {
                        0
                    },
                    ..st.tally
                },
                ..st
            };
            if b1 == 1 {
                lemma_coded_progress(data, ctx, placed, cell, mv is Some);
            } else if let Some((s0, c0)) = next_bit(data, placed.cursor) {
                if s0 == 1 {
                    lemma_coded_progress(data, ctx, at_cursor(placed, c0), cell, mv is Some);
                } else {
                    lemma_cell_rows_length(
                        placed.strips[i],
                        cell,
                        |r: int| row_above(placed.strips[i], cell),
                        cell.h as int,
                    );
                }
            }
        }
    }
}

proof fn lemma_predicted_shape(
    ctx: PlaneContext<'_>,
    strips: Seq<Seq<u8>>,
    cell: LeafRect,
    mv: Option<MotionVector>,
)
    requires
        cell.strip < strips.len(),
    ensures
        predicted(ctx, strips, cell, mv) matches Some(t) ==> same_shape(t, strips),
{
    let i = cell.strip as int;
    if let Some(mv) = mv {
        if let Some(reference) = ctx.reference {
            let rs = reference.strips@[i]@;
            lemma_cell_rows_length(
                strips[i],
                cell,
                |r: int| fetched_row(rs, cell, mv, r),
                cell.h as int,
            );
        }
    }
}

/// The walk over the nodes that are pending, the last one first.
pub open spec fn walk(
    data: Seq<u8>,
    ctx: PlaneContext<'_>,
    banks: PlaneBanks,
    st: WalkState,
    pending: Seq<Pending>,
) -> WalkStep
    decreases st.cursor.bits_left(data),
    when st.cursor.inside(data)
{
    if pending.len() == 0 {
        WalkStep { state: st, push: Seq::empty(), error: None }
    } else {
        proof {
            walk_makes_progress(data, ctx, banks, st, pending.last());
        }
        let step = node_step(data, ctx, banks, st, pending.last());
        if step.error is Some {
            step
        } else {
            walk(data, ctx, banks, step.state, pending.drop_last() + step.push)
        }
    }
}

/// Same-shaped strips hold the same leaves.
pub proof fn shape_decides_fit(banks: PlaneBanks, a: Seq<Seq<u8>>, b: Seq<Seq<u8>>)
    requires
        leaves_fit(banks, a),
        same_shape(b, a),
    ensures
        leaves_fit(banks, b),
{
    assert forall|cl: int, ch: int| 0 <= cl < 256 && 0 <= ch < 256 implies match #[trigger] leaf_rect(
        banks,
        b.len() as int,
        cl,
        ch,
    ) {
        Ok(cell) => rect_fits(cell, b[cell.strip as int].len() as int),
        Err(_) => true,
    } by {
        if let Ok(cell) = leaf_rect(banks, a.len() as int, cl, ch) {
            assert(b[cell.strip as int].len() == a[cell.strip as int].len());
        }
    }
}

/// How many leaves of a tree of heap indices up to 255 can lie below
/// index `k`.
pub open spec fn leaves_below(k: int) -> int {
    if k <= 1 {
        128
    } else if k <= 3 {
        64
    } else if k <= 7 {
        32
    } else if k <= 15 {
        16
    } else if k <= 31 {
        8
    } else if k <= 63 {
        4
    } else if k <= 127 {
        2
    } else {
        1
    }
}

/// How many cells can lie below a node.
pub open spec fn cells_below(node: Pending) -> int {
    leaves_below(node.cl as int) * leaves_below(node.ch as int)
}

/// How many cells can lie below the pending nodes.
pub open spec fn cells_pending(pending: Seq<Pending>) -> int
    decreases pending.len(),
{
    if pending.len() == 0 {
        0
    } else {
        cells_pending(pending.drop_last()) + cells_below(pending.last())
    }
}

/// How many cells of a family a walk has coded.
pub open spec fn family_count(t: Tally, family: Family) -> int {
    t.families[family_index(family)]
}

/// The counters of a walk agree with one another: every cell is coded,
/// copied or skipped, every coded cell is of one family, families C and D
/// have no cells, B and F have motion-compensated cells alone, and A and
/// E have only others.
pub open spec fn consistent(t: Tally) -> bool {
    &&& 0 <= t.coded_cells
    &&& 0 <= t.copy_upper
    &&& 0 <= t.skipped
    &&& t.coded_cells + t.copy_upper + t.skipped == t.cells
    &&& 0 <= t.inter <= t.cells
    &&& t.families.len() == 6
    &&& forall|i: int| 0 <= i < 6 ==> 0 <= #[trigger] t.families[i] <= t.coded_cells
    &&& family_count(t, Family::A) + family_count(t, Family::B) + family_count(t, Family::E)
        + family_count(t, Family::F) == t.coded_cells
    &&& family_count(t, Family::C) == 0
    &&& family_count(t, Family::D) == 0
    &&& family_count(t, Family::B) + family_count(t, Family::F) <= t.inter
    &&& family_count(t, Family::A) + family_count(t, Family::E) <= t.cells - t.inter
}

proof fn lemma_cells_pending_concat(a: Seq<Pending>, b: Seq<Pending>)
    ensures
        cells_pending(a + b) == cells_pending(a) + cells_pending(b),
    decreases b.len(),
{
    if b.len() == 0 {
        assert(a + b =~= a);
    } else {
        assert((a + b).drop_last() =~= a + b.drop_last());
        lemma_cells_pending_concat(a, b.drop_last());
    }
}

/// The node has heap indices of the tree, 1 to 255.
pub open spec fn in_tree(node: Pending) -> bool {
    1 <= node.cl <= 255 && 1 <= node.ch <= 255
}

/// The nodes have heap indices of the tree.
pub open spec fn numbered(pending: Seq<Pending>) -> bool {
    forall|i: int| 0 <= i < pending.len() ==> in_tree(#[trigger] pending[i])
}

proof fn lemma_cells_nonnegative(pending: Seq<Pending>)
    ensures
        0 <= cells_pending(pending),
    decreases pending.len(),
{
    if pending.len() > 0 {
        lemma_cells_nonnegative(pending.drop_last());
        let node = pending.last();
        assert(0 <= cells_below(node)) by (nonlinear_arith)
            requires
                cells_below(node) == leaves_below(node.cl as int) * leaves_below(node.ch as int),
                0 <= leaves_below(node.cl as int),
                0 <= leaves_below(node.ch as int),
        ;
    }
}

proof fn lemma_split_budget(node: Pending, vertical: bool)
    requires
        in_tree(node),
        !too_deep(node, vertical),
    ensures
        cells_pending(children(node, vertical)) <= cells_below(node),
        numbered(children(node, vertical)),
{
    let kids = children(node, vertical);
    assert(kids.drop_last().drop_last() =~= Seq::empty());
    assert(cells_pending(kids.drop_last().drop_last()) == 0);
    assert(kids.drop_last().last() == kids[0]);
    assert(cells_pending(kids.drop_last()) == cells_below(kids[0]));
    assert(cells_pending(kids) == cells_below(kids[0]) + cells_below(kids[1]));
    let v = leaves_below(node.cl as int);
    let h = leaves_below(node.ch as int);
    if vertical {
        let a = leaves_below(kids[0].cl as int);
        let b = leaves_below(kids[1].cl as int);
        assert(a + b <= v);
        assert(a * h + b * h <= v * h) by (nonlinear_arith)
            requires
                a + b <= v,
                h >= 0,
        ;
    } else {
        let a = leaves_below(kids[0].ch as int);
        let b = leaves_below(kids[1].ch as int);
        assert(a + b <= h);
        assert(v * a + v * b <= v * h) by (nonlinear_arith)
            requires
                a + b <= h,
                v >= 0,
        ;
    }
}

/// A step of the walk counts no more cells than lie below its node, and
/// keeps the counters consistent.
pub proof fn step_stays_in_budget(
    data: Seq<u8>,
    ctx: PlaneContext<'_>,
    banks: PlaneBanks,
    st: WalkState,
    node: Pending,
)
    requires
        consistent(st.tally),
        st.cursor.inside(data),
        in_tree(node),
    ensures
        ({
            let step = node_step(data, ctx, banks, st, node);
            step.error is None ==> {
                &&& consistent(step.state.tally)
                &&& step.state.tally.cells + cells_pending(step.push) <= st.tally.cells + cells_below(
                    node,
                )
                &&& numbered(step.push)
            }
        }),
{
    let step = node_step(data, ctx, banks, st, node);
    if step.error is None {
        let (b0, c0) = next_bit(data, st.cursor)->0;
        let (b1, c1) = next_bit(data, c0)->0;
        if b0 == 0 {
            lemma_split_budget(node, b1 == 0);
        } else if node.leaf is None {
            let n = step.push[0];
            assert(step.push.drop_last() =~= Seq::empty());
            assert(cells_pending(step.push.drop_last()) == 0);
            assert(step.push.last() == n);
            assert(cells_pending(step.push) == cells_below(n));
        } else {
            let v = leaves_below(node.cl as int);
            let h = leaves_below(node.ch as int);
            assert(1 <= v * h) by (nonlinear_arith)
                requires
                    1 <= v,
                    1 <= h,
            ;
            assert(cells_pending(Seq::<Pending>::empty()) == 0);
        }
    }
}

/// The walk stays in the budget of the whole tree: the bound of the
/// pending nodes carries over to the nodes pending after a step.
pub proof fn pending_stays_in_budget(
    data: Seq<u8>,
    ctx: PlaneContext<'_>,
    banks: PlaneBanks,
    st: WalkState,
    pending: Seq<Pending>,
    bound: int,
)
    requires
        consistent(st.tally),
        st.cursor.inside(data),
        pending.len() > 0,
        numbered(pending),
        st.tally.cells + cells_pending(pending) <= bound,
    ensures
        ({
            let step = node_step(data, ctx, banks, st, pending.last());
            step.error is None ==> {
                let next = pending.drop_last() + step.push;
                &&& consistent(step.state.tally)
                &&& numbered(next)
                &&& step.state.tally.cells + cells_pending(next) <= bound
                &&& step.state.tally.cells <= bound
            }
        }),
{
    let node = pending.last();
    assert(pending[pending.len() - 1] == node);
    step_stays_in_budget(data, ctx, banks, st, node);
    let step = node_step(data, ctx, banks, st, node);
    lemma_cells_pending_concat(pending.drop_last(), step.push);
    lemma_cells_nonnegative(pending.drop_last() + step.push);
    if step.error is None {
        let next = pending.drop_last() + step.push;
        assert forall|i: int| 0 <= i < next.len() implies in_tree(#[trigger] next[i]) by {
            if i < pending.len() - 1 {
                assert(next[i] == pending[i]);
            } else {
                assert(next[i] == step.push[i - (pending.len() - 1)]);
            }
        }
    }
}

/// The end-of-strip fix-up: in every picture row the byte after the last
/// column repeats it.
pub open spec fn edge_fixed(s: Seq<u8>, height: int, width: int) -> Seq<u8> {
    if width == 0 || width >= STRIP_ROW_STRIDE {
        s
    } else {
        Seq::new(
            s.len(),
            |j: int|
                if 1 <= j / 0xb0 <= height && j % 0xb0
                    == width {
                    s[j - 1]
                } else {
                    s[j]
                },
        )
    }
}

/// The width of strip `i` out of `n`.
pub open spec fn strip_width(banks: PlaneBanks, n: int, i: int) -> int {
    if i + 1 == n {
        banks.last_strip as int
    } else {
        banks.full_strip as int
    }
}

/// All strips after the end-of-strip fix-up.
pub open spec fn edges_fixed(strips: Seq<Seq<u8>>, banks: PlaneBanks, height: int) -> Seq<Seq<u8>> {
    Seq::new(
        strips.len(),
        |i: int| edge_fixed(strips[i], height, strip_width(banks, strips.len() as int, i)),
    )
}

/// The state in which a plane decode starts.
pub open spec fn walk_start(strips: Seq<Seq<u8>>) -> WalkState {
    WalkState {
        cursor: Cursor { pos: 0, acc: 0, nbits: 0 },
        strips,
        sticky: false,
        tally: no_cells(),
    }
}

/// The root node of the plane's tree.
pub open spec fn root() -> Pending {
    Pending { cl: 1, ch: 1, leaf: None }
}

/// Decoding a plane's payload: the walk from the root.
pub open spec fn plane_walk(
    data: Seq<u8>,
    ctx: PlaneContext<'_>,
    banks: PlaneBanks,
    strips: Seq<Seq<u8>>,
) -> WalkStep {
    walk(data, ctx, banks, walk_start(strips), seq![root()])
}

proof fn lemma_walk_keeps(
    data: Seq<u8>,
    ctx: PlaneContext<'_>,
    banks: PlaneBanks,
    st: WalkState,
    pending: Seq<Pending>,
    bound: int,
)
    requires
        st.cursor.inside(data),
        consistent(st.tally),
        numbered(pending),
        st.tally.cells + cells_pending(pending) <= bound,
        st.tally.cells <= bound,
    ensures
        ({
            let end = walk(data, ctx, banks, st, pending);
            &&& same_shape(end.state.strips, st.strips)
            &&& end.error is None ==> {
                &&& end.state.cursor.inside(data)
                &&& end.state.cursor.bits_left(data) <= st.cursor.bits_left(data)
                &&& pending.len() > 0 ==> end.state.cursor.bits_left(data)
                    < st.cursor.bits_left(data)
                &&& consistent(end.state.tally)
                &&& end.state.tally.cells <= bound
            }
        }),
    decreases st.cursor.bits_left(data),
{
    if pending.len() > 0 {
        walk_makes_progress(data, ctx, banks, st, pending.last());
        pending_stays_in_budget(data, ctx, banks, st, pending, bound);
        let step = node_step(data, ctx, banks, st, pending.last());
        if step.error is None {
            lemma_walk_keeps(data, ctx, banks, step.state, pending.drop_last() + step.push, bound);
        }
    }
}

/// Decoding a plane keeps the number of strips and the size of each.
/// Where it succeeds it takes at least one byte and none past the
/// payload, and counts every cell it places exactly once: as coded,
/// copied or skipped. The family counts sum to the coded cells, families
/// C and D have none, and B and F have no more than there are INTER
/// cells. No payload places more than 16384 cells.
pub proof fn decoding_keeps_shape_and_count(
    data: Seq<u8>,
    ctx: PlaneContext<'_>,
    banks: PlaneBanks,
    strips: Seq<Seq<u8>>,
)
    ensures
        ({
            let end = plane_walk(data, ctx, banks, strips);
            &&& same_shape(end.state.strips, strips)
            &&& end.error is None ==> {
                &&& 1 <= end.state.cursor.pos <= data.len()
                &&& consistent(end.state.tally)
                &&& end.state.tally.cells <= 16384
            }
        }),
{
    let pending = seq![root()];
    assert(pending.drop_last() =~= Seq::empty());
    assert(cells_pending(pending.drop_last()) == 0);
    assert(pending.last() == root());
    assert(cells_below(root()) == 16384) by (nonlinear_arith)
        requires
            cells_below(root()) == 128int * 128int,
    ;
    assert(cells_pending(pending) == 16384);
    lemma_walk_keeps(data, ctx, banks, walk_start(strips), pending, 16384);
}

/// A code whose deltas are all zero repeats its predictor, as a fill of
/// its row position does, where the predictor is in the 7-bit range.
pub proof fn zero_deltas_repeat_the_predictor(at: BlockPlace, s: Seq<u8>, p: int)
    requires
        !at.code.own,
        0 <= p < 4,
        forall|i: int| 0 <= i < 4 ==> #[trigger] at.predictor_pixel(s, p, i) < 0x80,
    ensures
        applied(at, s, p, seq![0, 0, 0, 0]) == Some(filled(at, s, p, p + 1)),
{
    let d: Seq<int> = seq![0, 0, 0, 0];
    let pixels = Seq::new(4, |i: int| at.predictor_pixel(s, p, i));
    assert(decoded_pixels(at, s, p, d) =~= pixels);
    let next = if at.code.doubled {
        with_doubled(s, at.row(p), at.x, pixels)
    } else {
        with_row(s, strip_index(at.row(p), at.x), pixels)
    };
    assert(filled(at, next, p + 1, p + 1) == next);
}

/// Copy-upper leaves every row of the cell equal to the row above the
/// cell, where the rows do not run into one another.
pub proof fn copied_rows_equal_the_row_above(s: Seq<u8>, cell: LeafRect, r: int, c: int)
    requires
        rect_fits(cell, s.len() as int),
        cell.w <= 0xb0,
        0 <= r < cell.h,
        0 <= c < cell.w,
    ensures
        copied_upper(s, cell)[strip_index(cell.y + r, cell.x + c)] == s[strip_index(
            cell.y - 1,
            cell.x + c,
        )],
{
    lemma_copied_row(s, cell, cell.h as int, r, c);
}

proof fn lemma_copied_row(s: Seq<u8>, cell: LeafRect, n: int, r: int, c: int)
    requires
        rect_fits(cell, s.len() as int),
        cell.w <= 0xb0,
        0 <= r < n <= cell.h,
        0 <= c < cell.w,
    ensures
        with_cell_rows(s, cell, |r: int| row_above(s, cell), n)[strip_index(cell.y + r, cell.x + c)]
            == s[strip_index(cell.y - 1, cell.x + c)],
    decreases n,
{
    let rows = |r: int| row_above(s, cell);
    lemma_cell_rows_length(s, cell, rows, n - 1);
    if r < n - 1 {
        lemma_copied_row(s, cell, n - 1, r, c);
    }
}

} // verus!
