//! What the escapes of a cell do to its pixels, and in what order its
//! blocks and codes are taken.
use super::cell_decoder::{CellDecodeError, Family, LeafRect, PlaneContext};
use super::code_laws::{in_span, pixel};
use super::plane_model::{
    block_codes, block_place, cell_codes, code_step, codebook, filled, rewritten, unpacked,
    with_doubled, with_row, BlockPlace, CellCode, CodeState, Codebook,
};
use vstd::prelude::*;

verus! {

/// The block's rows lie in the strip.
pub open spec fn block_fits(at: BlockPlace, len: int) -> bool {
    &&& at.y >= 0
    &&& at.x >= 0
    &&& if at.code.doubled {
        (at.y + 8) * 0xb0 + at.x + 8 <= len
    } else {
        (at.y + 4) * 0xb0 + at.x + 4 <= len
    }
}

/// Row positions `from..to` of a 4x4 block hold the row above the first of
/// them, and no other byte has changed.
pub open spec fn rows_repeat(s: Seq<u8>, after: Seq<u8>, y: int, x: int, from: int, to: int) -> bool {
    &&& after.len() == s.len()
    &&& forall|r: int, i: int|
        from <= r < to && 0 <= i < 4 ==> #[trigger] pixel(after, y + r, x + i) == pixel(
            s,
            y + from - 1,
            x + i,
        )
    &&& forall|j: int|
        0 <= j < s.len() && (forall|r: int| from <= r < to ==> !#[trigger] in_span(j, y + r, x, 4))
            ==> #[trigger] after[j] == s[j]
}

/// Byte `j` of row position `r` of an 8x8 block whose positions are filled
/// from position `from` on: the lower row has the even column's byte of
/// the row above position `from`; the upper row its low seven bits, but
/// at position `from` the mean with the row above, or the byte itself at
/// the top of the strip.
pub open spec fn pair_repeats(
    s: Seq<u8>,
    after: Seq<u8>,
    y: int,
    x: int,
    from: int,
    r: int,
    j: int,
) -> bool {
    let v = pixel(s, y + 2 * from - 1, x + j / 2 * 2);
    &&& pixel(after, y + 2 * r + 1, x + j) == v
    &&& r > from ==> pixel(after, y + 2 * r, x + j) == v % 128
    &&& r == from && y + 2 * r == 0 ==> pixel(after, y + 2 * r, x + j) == v
    &&& r == from && y + 2 * r > 0 ==> pixel(after, y + 2 * r, x + j) == (pixel(
        s,
        y + 2 * r - 1,
        x + j,
    ) % 128 + v % 128) / 2
}

/// Row positions `from..to` of an 8x8 block repeat the row above the first
/// of them, and no other byte has changed.
pub open spec fn pairs_repeat(s: Seq<u8>, after: Seq<u8>, y: int, x: int, from: int, to: int) -> bool {
    &&& after.len() == s.len()
    &&& forall|r: int, j: int|
        from <= r < to && 0 <= j < 8 ==> #[trigger] pair_repeats(s, after, y, x, from, r, j)
    &&& forall|j: int|
        0 <= j < s.len() && (forall|r: int|
            2 * from <= r < 2 * to ==> !#[trigger] in_span(j, y + r, x, 8)) ==> #[trigger] after[j]
            == s[j]
}

/// Row positions `from..to` of a block are filled: a residual block keeps
/// its content, any other one repeats the row above.
pub open spec fn positions_repeat(
    s: Seq<u8>,
    after: Seq<u8>,
    at: BlockPlace,
    from: int,
    to: int,
) -> bool {
    if at.code.own {
        after == s
    } else if at.code.doubled {
        pairs_repeat(s, after, at.y, at.x, from, to)
    } else {
        rows_repeat(s, after, at.y, at.x, from, to)
    }
}

proof fn lemma_rows_repeat(s: Seq<u8>, at: BlockPlace, from: int, to: int)
    requires
        !at.code.own,
        !at.code.doubled,
        block_fits(at, s.len() as int),
        0 <= from <= to <= 4,
    ensures
        rows_repeat(s, filled(at, s, from, to), at.y, at.x, from, to),
    decreases to - from,
{
    let (y, x) = (at.y, at.x);
    let after = filled(at, s, from, to);
    if from < to {
        let above = Seq::new(4, |i: int| at.predictor_pixel(s, from, i));
        let next = with_row(s, (y + from + 1) * 0xb0 + x, above);
        assert(after == filled(at, next, from + 1, to));
        lemma_rows_repeat(next, at, from + 1, to);
        assert forall|i: int| 0 <= i < 4 implies #[trigger] pixel(next, y + from, x + i) == pixel(
            s,
            y + from - 1,
            x + i,
        ) by {}
        assert forall|r: int, i: int| from <= r < to && 0 <= i < 4 implies #[trigger] pixel(
            after,
            y + r,
            x + i,
        ) == pixel(s, y + from - 1, x + i) by {
            let k = (y + from + 1) * 0xb0 + x + i;
            assert(pixel(next, y + from, x + i) == pixel(s, y + from - 1, x + i));
            if r == from {
                assert forall|q: int| from + 1 <= q < to implies !#[trigger] in_span(
                    k,
                    y + q,
                    x,
                    4,
                ) by {}
                assert(after[k] == next[k]);
            } else {
                assert(pixel(after, y + r, x + i) == pixel(next, y + from, x + i));
            }
        }
        assert forall|j: int|
            0 <= j < s.len() && (forall|r: int|
                from <= r < to ==> !#[trigger] in_span(j, y + r, x, 4)) implies #[trigger] after[j]
            == s[j] by {
            assert(!in_span(j, y + from, x, 4));
            assert(after[j] == next[j]);
        }
    }
}

proof fn lemma_pairs_repeat(s: Seq<u8>, at: BlockPlace, from: int, to: int)
    requires
        !at.code.own,
        at.code.doubled,
        block_fits(at, s.len() as int),
        0 <= from <= to <= 4,
    ensures
        pairs_repeat(s, filled(at, s, from, to), at.y, at.x, from, to),
    decreases to - from,
{
    let (y, x) = (at.y, at.x);
    let after = filled(at, s, from, to);
    if from < to {
        let row = y + 2 * from;
        let above = Seq::new(4, |i: int| at.predictor_pixel(s, from, i));
        let next = with_doubled(s, row, x, above);
        assert(after == filled(at, next, from + 1, to));
        lemma_pairs_repeat(next, at, from + 1, to);
        assert forall|j: int| 0 <= j < 8 implies #[trigger] pair_repeats(
            s,
            next,
            y,
            x,
            from,
            from,
            j,
        ) by {
            let v = above[j / 2];
            assert(v == pixel(s, row - 1, x + j / 2 * 2)) by {
                assert(x + j / 2 * 2 == x + 2 * (j / 2));
            }
            assert(next[(row + 2) * 0xb0 + x + j] == v);
        }
        assert forall|r: int, j: int| from <= r < to && 0 <= j < 8 implies #[trigger] pair_repeats(
            s,
            after,
            y,
            x,
            from,
            r,
            j,
        ) by {
            assert(pair_repeats(s, next, y, x, from, from, j));
            if r == from {
                let k = (row + 1) * 0xb0 + x + j;
                assert forall|q: int| 2 * (from + 1) <= q < 2 * to implies !#[trigger] in_span(
                    k,
                    y + q,
                    x,
                    8,
                ) by {}
                assert forall|q: int| 2 * (from + 1) <= q < 2 * to implies !#[trigger] in_span(
                    k + 0xb0,
                    y + q,
                    x,
                    8,
                ) by {}
                assert(after[k] == next[k]);
                assert(after[k + 0xb0] == next[k + 0xb0]);
            } else {
                assert(pair_repeats(next, after, y, x, from + 1, r, j));
                let e = j / 2 * 2;
                assert(pair_repeats(s, next, y, x, from, from, e));
                assert(e / 2 * 2 == e);
            }
        }
        assert forall|j: int|
            0 <= j < s.len() && (forall|r: int|
                2 * from <= r < 2 * to ==> !#[trigger] in_span(j, y + r, x, 8)) implies #[trigger] after[j]
            == s[j] by {
            assert(!in_span(j, y + 2 * from, x, 8));
            assert(!in_span(j, y + (2 * from + 1), x, 8));
            assert(after[j] == next[j]);
        }
    }
}

proof fn lemma_positions_repeat(s: Seq<u8>, at: BlockPlace, from: int, to: int)
    requires
        block_fits(at, s.len() as int),
        0 <= from <= to <= 4,
    ensures
        positions_repeat(s, filled(at, s, from, to), at, from, to),
{
    if at.code.own {
    } else if at.code.doubled {
        lemma_pairs_repeat(s, at, from, to);
    } else {
        lemma_rows_repeat(s, at, from, to);
    }
}

/// The escapes that fill a block. `0xFF`, at its first row position, fills
/// two positions and `0xFE`, at its first or second, all but the last;
/// the next code stands after them. `0xFD` fills the rest of the block and
/// `0xFC` too, and turns the sticky flag; while the flag is then set the
/// escape stays unread. At other positions `0xFF` and `0xFE` are refused.
pub proof fn fill_escapes_repeat_rows(data: Seq<u8>, st: CodeState, at: BlockPlace, p: int)
    requires
        0 <= p < 4,
        0 <= st.pos < data.len(),
        0xFC <= data[st.pos] <= 0xFF,
        block_fits(at, st.strip.len() as int),
    ensures
        ({
            let b = data[st.pos];
            let step = code_step(data, st, at, p);
            let after = step.state.strip;
            let sticky = if b == 0xFC {
                !st.sticky
            } else {
                st.sticky
            };
            if (b == 0xFF && p > 0) || (b == 0xFE && p > 1) {
                &&& step.error == Some(CellDecodeError::BadEscape { escape: b, position: p as u8 })
                &&& after == st.strip
            } else {
                let to = if b == 0xFF {
                    2int
                } else if b == 0xFE {
                    3
                } else {
                    4
                };
                &&& step.error is None
                &&& step.next == to
                &&& step.fill == 0
                &&& step.pass == 0
                &&& step.state.sticky == sticky
                &&& step.state.pos == st.pos + if sticky && to == 4 {
                    0int
                } else {
                    1
                }
                &&& positions_repeat(st.strip, after, at, p, to)
            }
        }),
{
    reveal(code_step);
    lemma_positions_repeat(st.strip, at, p, 4);
    if p <= 3 {
        lemma_positions_repeat(st.strip, at, p, 3);
    }
    lemma_positions_repeat(st.strip, at, 0, 2);
}

/// The escapes that pass over a block, at its first row position: `0xFA`,
/// and `0xF9`, which also turns the sticky flag; while the flag is then
/// set the escape stays unread. While it is set a `0xFA` passes at any
/// position.
pub proof fn pass_escapes_keep_the_block(data: Seq<u8>, st: CodeState, at: BlockPlace, p: int)
    requires
        0 <= p < 4,
        0 <= st.pos < data.len(),
        data[st.pos] == 0xF9 || data[st.pos] == 0xFA,
    ensures
        ({
            let b = data[st.pos];
            let step = code_step(data, st, at, p);
            let sticky = if b == 0xF9 {
                !st.sticky
            } else {
                st.sticky
            };
            &&& step.state.strip == st.strip
            &&& if p > 0 && !(b == 0xFA && st.sticky) {
                step.error == Some(CellDecodeError::BadEscape { escape: b, position: p as u8 })
            } else {
                &&& step.error is None
                &&& step.next == 4
                &&& step.fill == 0
                &&& step.pass == 0
                &&& step.state.sticky == sticky
                &&& step.state.pos == st.pos + if sticky {
                    0int
                } else {
                    1
                }
            }
        }),
{
    reveal(code_step);
}

/// The value escape `0xF8`: the first row of a 4x4 block takes the low
/// seven bits of the byte after it, marked. It is refused elsewhere.
pub proof fn value_escape_marks_a_row(data: Seq<u8>, st: CodeState, at: BlockPlace, p: int)
    requires
        0 <= p < 4,
        0 <= st.pos,
        st.pos + 1 < data.len(),
        data[st.pos] == 0xF8,
        block_fits(at, st.strip.len() as int),
    ensures
        ({
            let step = code_step(data, st, at, p);
            let after = step.state.strip;
            if p > 0 || at.code.doubled {
                &&& step.error == Some(
                    CellDecodeError::BadEscape { escape: 0xF8, position: p as u8 },
                )
                &&& after == st.strip
            } else {
                &&& step.error is None
                &&& step.next == 1
                &&& step.fill == 0
                &&& step.pass == 0
                &&& step.state.pos == st.pos + 2
                &&& step.state.sticky == st.sticky
                &&& after.len() == st.strip.len()
                &&& forall|i: int|
                    0 <= i < 4 ==> #[trigger] pixel(after, at.y, at.x + i) == 0x80 + data[st.pos
                        + 1] % 0x80
                &&& forall|j: int|
                    0 <= j < after.len() && !in_span(j, at.y, at.x, 4) ==> #[trigger] after[j]
                        == st.strip[j]
            }
        }),
{
    reveal(code_step);
}

/// The run escape `0xFB`. A counter of 1 to 31 fills that many blocks, this
/// one from row position `p` on, and one more where the sticky flag was
/// set, which it clears. A counter of 33 to 63 passes over that many less
/// 32, this one among them. Any other counter is refused.
pub proof fn run_escape_counts_blocks(data: Seq<u8>, st: CodeState, at: BlockPlace, p: int)
    requires
        0 <= p < 4,
        0 <= st.pos,
        st.pos + 1 < data.len(),
        data[st.pos] == 0xFB,
        block_fits(at, st.strip.len() as int),
    ensures
        ({
            let counter = data[st.pos + 1];
            let step = code_step(data, st, at, p);
            let after = step.state.strip;
            if 1 <= counter <= 31 {
                &&& step.error is None
                &&& step.next == 4
                &&& step.state.pos == st.pos + 2
                &&& !step.state.sticky
                &&& 1 + step.fill == counter + if st.sticky {
                    1int
                } else {
                    0
                }
                &&& step.pass == 0
                &&& positions_repeat(st.strip, after, at, p, 4)
            } else if 33 <= counter <= 63 {
                &&& step.error is None
                &&& step.next == 4
                &&& step.state.pos == st.pos + 2
                &&& step.state.sticky == st.sticky
                &&& step.fill == 0
                &&& 1 + step.pass == counter - 32
                &&& after == st.strip
            } else {
                &&& step.error == Some(CellDecodeError::BadCounter { counter })
                &&& after == st.strip
            }
        }),
{
    reveal(code_step);
    lemma_positions_repeat(st.strip, at, p, 4);
}

/// A payload that ends before a code, before the counter of a run or
/// before the byte of a value is exhausted there.
pub proof fn codes_need_their_bytes(data: Seq<u8>, st: CodeState, at: BlockPlace, p: int)
    requires
        0 <= p < 4,
        0 <= st.pos <= data.len(),
        st.pos == data.len() || (st.pos + 1 == data.len() && (data[st.pos] == 0xFB || (
        data[st.pos] == 0xF8 && p == 0 && !at.code.doubled))),
    ensures
        code_step(data, st, at, p).error == Some(CellDecodeError::StreamExhausted),
        code_step(data, st, at, p).state.strip == st.strip,
{
    reveal(code_step);
}

/// The codes of a block stand one after another, from its first row
/// position on: the block ends with the code that fails or that reaches
/// its end, and begins anew at the position that a code leaves otherwise.
pub proof fn codes_follow_one_another(data: Seq<u8>, st: CodeState, at: BlockPlace, p: int)
    requires
        0 <= p < 4,
        0 <= st.pos <= data.len(),
    ensures
        ({
            let step = code_step(data, st, at, p);
            let end = block_codes(data, st, at, p);
            if step.error is Some || step.next == 4 {
                end == step
            } else {
                end == block_codes(data, step.state, at, step.next)
            }
        }),
{
    super::plane_model::code_makes_progress(data, st, at, p);
}

/// Block `(g, c)` of a cell, its `g`-th row of blocks and `c`-th column.
pub open spec fn block_at(code: CellCode, g: int, c: int) -> BlockPlace {
    let side: int = if code.doubled {
        8
    } else {
        4
    };
    BlockPlace { code, y: code.cell.y + side * g, x: code.cell.x + side * c }
}

/// The blocks of a cell are taken row by row, left to right, as many as
/// fit; each is filled or passed over while a run lasts, and decoded
/// otherwise.
pub proof fn blocks_are_taken_in_raster_order(
    data: Seq<u8>,
    st: CodeState,
    code: CellCode,
    g: int,
    c: int,
    fill: int,
    pass: int,
)
    requires
        0 <= st.pos <= data.len(),
        fill >= 0,
        pass >= 0,
        0 <= c,
        0 <= g,
        code.doubled ==> 8 * c + 8 <= code.cell.w && 8 * g + 8 <= code.cell.h,
        !code.doubled ==> 4 * c + 4 <= code.cell.w && 4 * g + 4 <= code.cell.h,
    ensures
        ({
            let columns = code.cell.w as int / if code.doubled {
                8int
            } else {
                4
            };
            let n = g * columns + c;
            let at = block_at(code, g, c);
            let end = cell_codes(data, st, code, n, fill, pass);
            let step = block_codes(data, st, at, 0);
            let repeated = CodeState { strip: filled(at, st.strip, 0, 4), ..st };
            if fill > 0 {
                end == cell_codes(data, repeated, code, n + 1, fill - 1, pass)
            } else if pass > 0 {
                end == cell_codes(data, st, code, n + 1, 0, pass - 1)
            } else if step.error is Some {
                end.state == step.state && end.error == step.error
            } else {
                end == cell_codes(data, step.state, code, n + 1, step.fill, step.pass)
            }
        }),
{
    let columns = code.columns();
    let rows = code.cell.h as int / code.side();
    let n = g * columns + c;
    if code.doubled {
        assert(columns == code.cell.w as int / 8 && rows == code.cell.h as int / 8);
    } else {
        assert(columns == code.cell.w as int / 4 && rows == code.cell.h as int / 4);
    }
    assert(c < columns && g < rows);
    vstd::arithmetic::div_mod::lemma_fundamental_div_mod_converse(n, columns, g, c);
    assert(n < rows * columns) by (nonlinear_arith)
        requires
            n == g * columns + c,
            c < columns,
            g < rows,
            columns > 0,
    ;
    assert(block_place(code, n) == block_at(code, g, c));
}

/// A cell is done when all its blocks are: `h / side` rows of `w / side`
/// blocks.
pub proof fn cells_end_after_their_blocks(
    data: Seq<u8>,
    st: CodeState,
    code: CellCode,
    n: int,
    fill: int,
    pass: int,
)
    requires
        code.doubled ==> n >= (code.cell.h as int / 8) * (code.cell.w as int / 8),
        !code.doubled ==> n >= (code.cell.h as int / 4) * (code.cell.w as int / 4),
    ensures
        cell_codes(data, st, code, n, fill, pass).state == st,
        cell_codes(data, st, code, n, fill, pass).error is None,
{
}

/// The mode byte of a cell. High nibbles 0 and 1 code 4x4 blocks and 0xA
/// codes 8x8 blocks, as residuals where the cell is motion compensated.
/// High nibble 1 takes the tables of arena band `lo`, the others those of
/// staging block `cb_offset + lo`: the primary table first and the
/// secondary 0x400 bytes after it. A low nibble of 8 or more with staged
/// tables first rewrites the row above the cell through bank `lo - 8` of
/// the predictor table. The codes follow the mode byte.
pub proof fn mode_bytes_choose_tables(
    data: Seq<u8>,
    st: CodeState,
    ctx: PlaneContext<'_>,
    cell: LeafRect,
    mc: bool,
    strip: Seq<u8>,
)
    requires
        0 <= st.pos < data.len(),
        ({
            let hi = data[st.pos] / 16;
            let lo = data[st.pos] % 16;
            &&& hi == 0 || hi == 1 || hi == 0xA
            &&& hi != 1 ==> 0 <= ctx.cb_offset + lo < 24
            &&& if hi != 1 && lo >= 8 {
                lut_applied(st.strip, strip, ctx.lut@, cell, lo - 8)
            } else {
                strip == st.strip
            }
        }),
        cell.y * 0xb0 + cell.x + cell.w <= st.strip.len(),
    ensures
        ({
            let hi = data[st.pos] / 16;
            let lo = data[st.pos] % 16;
            let (family, end) = unpacked(data, st, ctx, cell, mc);
            let base: int = if hi == 1 {
                0x20 + 0x800 * lo
            } else {
                0x800 * (ctx.cb_offset + lo)
            };
            let book = Codebook {
                bytes: if hi == 1 {
                    ctx.arena@
                } else {
                    ctx.staging@
                },
                primary: base,
                secondary: base + 0x400,
            };
            &&& family == Some(
                if hi == 0xA {
                    if mc {
                        Family::F
                    } else {
                        Family::E
                    }
                } else {
                    if mc {
                        Family::B
                    } else {
                        Family::A
                    }
                },
            )
            &&& end == cell_codes(
                data,
                CodeState { strip, pos: st.pos + 1, sticky: st.sticky },
                CellCode { cell, book, doubled: hi == 0xA, own: mc },
                0,
                0,
                0,
            )
        }),
{
    let hi = data[st.pos] / 16;
    let lo = data[st.pos] % 16;
    if hi != 1 && lo >= 8 {
        assert(lo as int % 8 == lo - 8);
        assert(rewritten(st.strip, ctx.lut@, cell, lo - 8) =~= strip) by {
            let t = rewritten(st.strip, ctx.lut@, cell, lo - 8);
            assert forall|j: int| 0 <= j < t.len() implies #[trigger] t[j] == strip[j] by {
                let i = j - (cell.y * 0xb0 + cell.x);
                if 0 <= i < cell.w {
                    assert(pixel(strip, cell.y - 1, cell.x + i) == strip[j]);
                }
            }
        }
    }
    let block = ctx.cb_offset + lo;
    if hi != 1 {
        assert(codebook(ctx, true, lo as int) is Some);
    }
}

/// The row above a cell has gone through a bank of the predictor table:
/// each byte's low seven bits index the bank, its marker bit stays. No
/// other byte has changed.
pub open spec fn lut_applied(
    s: Seq<u8>,
    after: Seq<u8>,
    table: Seq<u8>,
    cell: LeafRect,
    bank: int,
) -> bool {
    &&& after.len() == s.len()
    &&& forall|i: int|
        0 <= i < cell.w ==> #[trigger] pixel(after, cell.y - 1, cell.x + i) == table[bank * 128
            + pixel(s, cell.y - 1, cell.x + i) % 128] | (pixel(s, cell.y - 1, cell.x + i) & 0x80)
    &&& forall|j: int|
        0 <= j < s.len() && !in_span(j, cell.y - 1, cell.x as int, cell.w as int)
            ==> #[trigger] after[j] == s[j]
}

/// The mode bytes that select nothing: other high nibbles than 0, 1, 3, 4,
/// 0xA, 0xB and 0xC are faults, and so is a staging block outside the
/// image.
pub proof fn mode_bytes_can_be_refused(
    data: Seq<u8>,
    st: CodeState,
    ctx: PlaneContext<'_>,
    cell: LeafRect,
    mc: bool,
)
    requires
        0 <= st.pos < data.len(),
    ensures
        ({
            let mode = data[st.pos];
            let hi = mode / 16;
            let block = ctx.cb_offset + mode % 16;
            let end = unpacked(data, st, ctx, cell, mc).1;
            &&& hi == 2 || 5 <= hi <= 9 || hi >= 0xD ==> end.error == Some(
                CellDecodeError::BadModeByte { mode },
            ) && end.state.strip == st.strip
            &&& (hi == 0 || hi == 0xA) && !(0 <= block < 24) ==> end.error == Some(
                CellDecodeError::BadStagingBlock,
            )
        }),
{
}

} // verus!
