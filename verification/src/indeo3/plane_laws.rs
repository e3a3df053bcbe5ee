//! Laws of the plane decoder: where it writes, and what it does not
//! depend on.
use super::cell_decoder::{CellDecodeError, Family, LeafRect, Pending, PlaneBuffers, PlaneContext};
use super::geometry_bank::PlaneBanks;
use super::plane_model::{
    applied, at_cursor, block_codes, block_makes_progress, block_place, cell_codes, children,
    code_makes_progress, code_step, codebook, coded_step, copied_upper, decoded_pixels, fetched_row,
    filled, in_tree, leaf_rect, leaf_step, literal_code, mode_plan, next_bit, node_step, plane_walk,
    predicted, rect_fits, residual_row, rewritten, root, row_above, strip_index, unpacked, walk,
    walk_makes_progress, walk_start, with_cell_rows, with_doubled, with_residual, with_row,
    BlockPlace, CellCode, CodeState, Tally, WalkState,
};
use super::staging::STAGING_BLOCK_COUNT;
use vstd::prelude::*;

verus! {

/// Byte `j` of a strip is a pixel of row `r` of a cell; row -1 is the row
/// above the cell.
pub open spec fn in_cell_row(cell: LeafRect, r: int, j: int) -> bool {
    strip_index(cell.y + r, cell.x as int) <= j < strip_index(cell.y + r, cell.x as int) + cell.w
}

/// Byte `j` of a strip is a pixel of a cell.
pub open spec fn in_cell(cell: LeafRect, j: int) -> bool {
    exists|r: int| 0 <= r < cell.h && #[trigger] in_cell_row(cell, r, j)
}

/// Two strips differ in a cell alone.
pub open spec fn same_outside(a: Seq<u8>, b: Seq<u8>, cell: LeafRect) -> bool {
    &&& a.len() == b.len()
    &&& forall|j: int| 0 <= j < a.len() && !in_cell(cell, j) ==> #[trigger] a[j] == b[j]
}

/// A row written inside a cell changes the cell alone.
proof fn lemma_row_in_cell(s: Seq<u8>, cell: LeafRect, y: int, x: int, row: Seq<u8>)
    requires
        cell.y <= y < cell.y + cell.h,
        cell.x <= x,
        x + row.len() <= cell.x + cell.w,
    ensures
        same_outside(with_row(s, strip_index(y, x), row), s, cell),
{
    let t = with_row(s, strip_index(y, x), row);
    assert forall|j: int| 0 <= j < s.len() && !in_cell(cell, j) implies #[trigger] t[j] == s[j] by {
        if strip_index(y, x) <= j < strip_index(y, x) + row.len() {
            assert(in_cell_row(cell, y - cell.y, j));
        }
    }
}

proof fn lemma_same_outside_chains(a: Seq<u8>, b: Seq<u8>, c: Seq<u8>, cell: LeafRect)
    requires
        same_outside(a, b, cell),
        same_outside(b, c, cell),
    ensures
        same_outside(a, c, cell),
{
    assert forall|j: int| 0 <= j < a.len() && !in_cell(cell, j) implies #[trigger] a[j] == c[j] by {
        assert(a[j] == b[j]);
    }
}

/// A block lies in its cell.
pub open spec fn block_in_cell(at: BlockPlace) -> bool {
    let cell = at.code.cell;
    let side = at.code.side();
    &&& cell.y <= at.y
    &&& at.y + side <= cell.y + cell.h
    &&& cell.x <= at.x
    &&& at.x + side <= cell.x + cell.w
}

/// Every block of a cell lies in it.
pub proof fn blocks_lie_in_their_cell(code: CellCode, n: int)
    requires
        0 <= n < code.total(),
    ensures
        block_in_cell(block_place(code, n)),
{
    let c = code.columns();
    let q = code.cell.h as int / code.side();
    let side = code.side();
    assert(c > 0) by (nonlinear_arith)
        requires
            0 <= n < q * c,
            q >= 0,
            c >= 0,
    ;
    vstd::arithmetic::div_mod::lemma_fundamental_div_mod(n, c);
    vstd::arithmetic::div_mod::lemma_mod_bound(n, c);
    let (a, b) = (n / c, n % c);
    assert(0 <= a < q) by (nonlinear_arith)
        requires
            n == c * a + b,
            0 <= b < c,
            0 <= n < q * c,
    ;
}

proof fn lemma_doubled_in_cell(s: Seq<u8>, at: BlockPlace, p: int, pixels: Seq<u8>)
    requires
        block_in_cell(at),
        at.code.doubled,
        0 <= p < 4,
    ensures
        same_outside(with_doubled(s, at.row(p), at.x, pixels), s, at.code.cell),
{
    let cell = at.code.cell;
    let y = at.row(p);
    let above = strip_index(y - 1, at.x);
    let first = Seq::new(
        8,
        |j: int|
            if y == 0 {
                pixels[j / 2]
            } else {
                ((s[above + j] % 128 + pixels[j / 2] % 128) / 2) as u8
            },
    );
    let second = Seq::new(8, |j: int| pixels[j / 2]);
    let t = with_row(s, strip_index(y, at.x), first);
    lemma_row_in_cell(s, cell, y, at.x, first);
    lemma_row_in_cell(t, cell, y + 1, at.x, second);
    lemma_same_outside_chains(with_row(t, strip_index(y + 1, at.x), second), t, s, cell);
}

proof fn lemma_applied_in_cell(at: BlockPlace, s: Seq<u8>, p: int, d: Seq<int>)
    requires
        block_in_cell(at),
        0 <= p < 4,
    ensures
        applied(at, s, p, d) matches Some(t) ==> same_outside(t, s, at.code.cell),
{
    let cell = at.code.cell;
    let y = at.row(p);
    let pixels = decoded_pixels(at, s, p, d);
    if at.code.doubled && at.code.own {
        let t = with_row(s, strip_index(y, at.x), residual_row(s, y, at.x, d));
        lemma_row_in_cell(s, cell, y, at.x, residual_row(s, y, at.x, d));
        lemma_row_in_cell(t, cell, y + 1, at.x, residual_row(s, y + 1, at.x, d));
        lemma_same_outside_chains(with_residual(s, y, at.x, d), t, s, cell);
    } else if at.code.doubled {
        lemma_doubled_in_cell(s, at, p, pixels);
    } else {
        lemma_row_in_cell(s, cell, y, at.x, pixels);
    }
}

proof fn lemma_filled_in_cell(at: BlockPlace, s: Seq<u8>, from: int, to: int)
    requires
        block_in_cell(at),
        0 <= from,
        to <= 4,
    ensures
        same_outside(filled(at, s, from, to), s, at.code.cell),
    decreases to - from,
{
    if from < to && !at.code.own {
        let pixels = Seq::new(4, |i: int| at.predictor_pixel(s, from, i));
        let next = if at.code.doubled {
            with_doubled(s, at.row(from), at.x, pixels)
        } else {
            with_row(s, strip_index(at.row(from), at.x), pixels)
        };
        if at.code.doubled {
            lemma_doubled_in_cell(s, at, from, pixels);
        } else {
            lemma_row_in_cell(s, at.code.cell, at.row(from), at.x, pixels);
        }
        lemma_filled_in_cell(at, next, from + 1, to);
        lemma_same_outside_chains(filled(at, next, from + 1, to), next, s, at.code.cell);
    }
}

proof fn lemma_code_in_cell(data: Seq<u8>, st: CodeState, at: BlockPlace, p: int)
    requires
        block_in_cell(at),
        0 <= p < 4,
    ensures
        same_outside(code_step(data, st, at, p).state.strip, st.strip, at.code.cell),
{
    reveal(code_step);
    lemma_filled_in_cell(at, st.strip, p, 4);
    lemma_filled_in_cell(at, st.strip, p, 3);
    lemma_filled_in_cell(at, st.strip, 0, 2);
    if st.pos < data.len() {
        let b = data[st.pos];
        if let Some((d, pos)) = literal_code(
            data,
            st.pos + 1,
            at.code.book.bytes,
            at.code.table(p),
            b as int,
            at.predictor(st.strip, p),
        ) {
            lemma_applied_in_cell(at, st.strip, p, d);
        }
        if st.pos + 1 < data.len() {
            let v = (data[st.pos + 1] % 128 + 0x80) as u8;
            lemma_row_in_cell(st.strip, at.code.cell, at.y, at.x, seq![v, v, v, v]);
        }
    }
}

proof fn lemma_block_in_cell(data: Seq<u8>, st: CodeState, at: BlockPlace, p: int)
    requires
        block_in_cell(at),
        0 <= st.pos <= data.len(),
        0 <= p < 4,
    ensures
        same_outside(block_codes(data, st, at, p).state.strip, st.strip, at.code.cell),
    decreases 4 - p,
{
    let step = code_step(data, st, at, p);
    lemma_code_in_cell(data, st, at, p);
    code_makes_progress(data, st, at, p);
    if !(step.error is Some || step.next >= 4) {
        lemma_block_in_cell(data, step.state, at, step.next);
        lemma_same_outside_chains(
            block_codes(data, step.state, at, step.next).state.strip,
            step.state.strip,
            st.strip,
            at.code.cell,
        );
    }
}

/// The codes of a cell write the cell alone, whatever they are and however
/// they end.
pub proof fn codes_write_their_cell_alone(
    data: Seq<u8>,
    st: CodeState,
    code: CellCode,
    n: int,
    fill: int,
    pass: int,
)
    requires
        0 <= st.pos <= data.len(),
        0 <= n,
    ensures
        same_outside(
            cell_codes(data, st, code, n, fill, pass).state.strip,
            st.strip,
            code.cell,
        ),
    decreases code.total() - n,
{
    if n < code.total() {
        let at = block_place(code, n);
        blocks_lie_in_their_cell(code, n);
        if fill > 0 {
            let strip = filled(at, st.strip, 0, 4);
            let next = CodeState { strip, pos: st.pos, sticky: st.sticky };
            lemma_filled_in_cell(at, st.strip, 0, 4);
            codes_write_their_cell_alone(data, next, code, n + 1, fill - 1, pass);
            lemma_same_outside_chains(
                cell_codes(data, next, code, n + 1, fill - 1, pass).state.strip,
                strip,
                st.strip,
                code.cell,
            );
        } else if pass > 0 {
            codes_write_their_cell_alone(data, st, code, n + 1, 0, pass - 1);
        } else {
            let step = block_codes(data, st, at, 0);
            lemma_block_in_cell(data, st, at, 0);
            block_makes_progress(data, st, at, 0);
            if step.error is None {
                codes_write_their_cell_alone(data, step.state, code, n + 1, step.fill, step.pass);
                lemma_same_outside_chains(
                    cell_codes(data, step.state, code, n + 1, step.fill, step.pass).state.strip,
                    step.state.strip,
                    st.strip,
                    code.cell,
                );
            }
        }
    }
}

/// Rows written over a cell change the cell alone.
proof fn lemma_cell_rows_in_cell(s: Seq<u8>, cell: LeafRect, rows: spec_fn(int) -> Seq<u8>, n: int)
    requires
        n <= cell.h,
        forall|r: int| 0 <= r < n ==> (#[trigger] rows(r)).len() == cell.w,
    ensures
        same_outside(with_cell_rows(s, cell, rows, n), s, cell),
    decreases n,
{
    if n > 0 {
        lemma_cell_rows_in_cell(s, cell, rows, n - 1);
        let t = with_cell_rows(s, cell, rows, n - 1);
        lemma_row_in_cell(t, cell, cell.y + n - 1, cell.x as int, rows(n - 1));
        lemma_same_outside_chains(with_cell_rows(s, cell, rows, n), t, s, cell);
    }
}

/// Two strips differ in a cell and the row above it alone.
pub open spec fn same_beyond(a: Seq<u8>, b: Seq<u8>, cell: LeafRect) -> bool {
    &&& a.len() == b.len()
    &&& forall|j: int|
        0 <= j < a.len() && !in_cell(cell, j) && !in_cell_row(cell, -1, j) ==> #[trigger] a[j]
            == b[j]
}

proof fn lemma_unpacked_in_cell(
    data: Seq<u8>,
    st: CodeState,
    ctx: PlaneContext<'_>,
    cell: LeafRect,
    mc: bool,
)
    requires
        0 <= st.pos <= data.len(),
    ensures
        same_beyond(unpacked(data, st, ctx, cell, mc).1.state.strip, st.strip, cell),
{
    if st.pos < data.len() {
        let mode = data[st.pos];
        if let Ok(plan) = mode_plan(mode, mc) {
            let lo = mode as int % 16;
            let strip = if plan.lut {
                rewritten(st.strip, ctx.lut@, cell, lo % 8)
            } else {
                st.strip
            };
            assert(same_beyond(strip, st.strip, cell));
            let next = CodeState { strip, pos: st.pos + 1, sticky: st.sticky };
            if let Some(book) = codebook(ctx, plan.staging, lo) {
                let code = CellCode {
                    cell,
                    book,
                    doubled: plan.family == Family::E || plan.family
                        == Family::F,
                    own: plan.family == Family::B || plan.family
                        == Family::F,
                };
                codes_write_their_cell_alone(data, next, code, 0, 0, 0);
                let last = cell_codes(data, next, code, 0, 0, 0).state.strip;
                assert forall|j: int|
                    0 <= j < last.len() && !in_cell(cell, j) && !in_cell_row(cell, -1, j) implies
                    #[trigger] last[j] == st.strip[j] by {
                    assert(last[j] == strip[j]);
                }
            }
        }
    }
}

/// A high nibble of the families that code two rows at a time.
pub open spec fn two_row_nibble(hi: int) -> bool {
    hi == 3 || hi == 4 || hi == 0xB || hi == 0xC
}

/// A mode byte of high nibble 3, 4, 0xB or 0xC never decodes, on any of
/// the sixteen bands: it is reported as `UnsupportedFamily` where the
/// motion compensation of the cell admits the family, and as `FamilyGate`
/// elsewhere. The pixels of the cell stay as they are.
pub proof fn two_row_families_are_reported(
    data: Seq<u8>,
    st: CodeState,
    ctx: PlaneContext<'_>,
    cell: LeafRect,
    mc: bool,
    j: int,
)
    requires
        0 <= st.pos < data.len(),
        two_row_nibble(data[st.pos] as int / 16),
        ({
            let hi = data[st.pos] as int / 16;
            hi == 3 || hi == 0xB ==> 0 <= ctx.cb_offset + data[st.pos] as int % 16
                < STAGING_BLOCK_COUNT
        }),
        cell.w <= 0xb0,
        in_cell(cell, j),
        0 <= j < st.strip.len(),
    ensures
        ({
            let mode = data[st.pos];
            let hi = mode as int / 16;
            let (family, end) = unpacked(data, st, ctx, cell, mc);
            &&& family is None
            &&& end.error == Some(
                if mc == (hi == 0xB || hi == 0xC) {
                    CellDecodeError::UnsupportedFamily { mode }
                } else {
                    CellDecodeError::FamilyGate { mode }
                },
            )
            &&& end.state.strip.len() == st.strip.len()
            &&& end.state.strip[j] == st.strip[j]
        }),
{
    let r = choose|r: int| 0 <= r < cell.h && #[trigger] in_cell_row(cell, r, j);
    assert(!in_cell_row(cell, -1, j));
}

/// A VQ leaf writes its cell and, at most, the row above it; the other
/// strips and the other bytes of its own strip stay as they are.
pub proof fn leaves_write_in_place(
    data: Seq<u8>,
    ctx: PlaneContext<'_>,
    banks: PlaneBanks,
    st: WalkState,
    node: Pending,
    b1: int,
    cell: LeafRect,
    i: int,
)
    requires
        st.cursor.inside(data),
        node.leaf is Some,
        leaf_rect(banks, st.strips.len() as int, node.cl as int, node.ch as int) == Ok::<
            LeafRect,
            CellDecodeError,
        >(cell),
        rect_fits(cell, st.strips[cell.strip as int].len() as int),
        0 <= i < st.strips.len(),
    ensures
        ({
            let after = leaf_step(data, ctx, banks, st, node, b1).state.strips;
            &&& after.len() == st.strips.len()
            &&& i != cell.strip ==> after[i] == st.strips[i]
            &&& i == cell.strip ==> same_beyond(after[i], st.strips[i], cell)
        }),
{
    let mv = node.leaf->0;
    let k = cell.strip as int;
    let s = st.strips[k];
    if let Some(strips) = predicted(ctx, st.strips, cell, mv) {
        assert(strips.len() == st.strips.len());
        assert(i != k ==> strips[i] == st.strips[i]);
        assert(same_beyond(strips[k], s, cell)) by {
            if let Some(v) = mv {
                let rs = ctx.reference->0.strips@[k]@;
                lemma_cell_rows_in_cell(
                    s,
                    cell,
                    |r: int| fetched_row(rs, cell, v, r),
                    cell.h as int,
                );
            }
        }
        let placed = WalkState {
            strips,
            tally: Tally {
                cells: st.tally.cells + 1,
                inter: st.tally.inter + if mv is Some {
                    1int
                } else {
                    0
                },
                ..st.tally
            },
            ..st
        };
        lemma_coded_in_place(data, ctx, placed, cell, mv is Some, s);
        if let Some((s0, c0)) = next_bit(data, placed.cursor) {
            lemma_coded_in_place(data, ctx, at_cursor(placed, c0), cell, mv is Some, s);
        }
        assert(row_above(strips[k], cell).len() == cell.w);
        lemma_cell_rows_in_cell(
            strips[k],
            cell,
            |r: int| row_above(strips[k], cell),
            cell.h as int,
        );
        let copied = copied_upper(strips[k], cell);
        assert forall|j: int|
            0 <= j < copied.len() && !in_cell(cell, j) && !in_cell_row(cell, -1, j) implies
            #[trigger] copied[j] == s[j] by {
            assert(copied[j] == strips[k][j]);
        }
    }
}

proof fn lemma_coded_in_place(
    data: Seq<u8>,
    ctx: PlaneContext<'_>,
    st: WalkState,
    cell: LeafRect,
    mc: bool,
    s: Seq<u8>,
)
    requires
        st.cursor.inside(data),
        cell.strip < st.strips.len(),
        same_beyond(st.strips[cell.strip as int], s, cell),
    ensures
        ({
            let after = coded_step(data, ctx, st, cell, mc).state.strips;
            &&& after.len() == st.strips.len()
            &&& forall|i: int|
                0 <= i < st.strips.len() && i != cell.strip ==> #[trigger] after[i] == st.strips[i]
            &&& same_beyond(after[cell.strip as int], s, cell)
        }),
{
    let k = cell.strip as int;
    let code = CodeState { strip: st.strips[k], pos: st.cursor.pos, sticky: st.sticky };
    lemma_unpacked_in_cell(data, code, ctx, cell, mc);
    let last = unpacked(data, code, ctx, cell, mc).1.state.strip;
    assert forall|j: int|
        0 <= j < last.len() && !in_cell(cell, j) && !in_cell_row(cell, -1, j) implies
        #[trigger] last[j] == s[j] by {
        assert(last[j] == st.strips[k][j]);
    }
}

/// The splits it takes from heap index `k` until the tree is too deep.
pub open spec fn splits_left(k: int) -> nat
    decreases 255 - k,
{
    if k >= 128 || k < 1 {
        1
    } else {
        1 + splits_left(2 * k)
    }
}

proof fn lemma_splits_descend(
    data: Seq<u8>,
    ctx: PlaneContext<'_>,
    banks: PlaneBanks,
    st: WalkState,
    pending: Seq<Pending>,
)
    requires
        data.len() >= 2,
        data[0] == 0,
        data[1] == 0,
        st.cursor.inside(data),
        st.cursor.pos <= 2,
        st.cursor.acc == 0,
        st.cursor.nbits % 2 == 0,
        pending.len() > 0,
        in_tree(pending.last()),
        8 * (2 - st.cursor.pos) + st.cursor.nbits == 2 * splits_left(pending.last().cl as int),
    ensures
        ({
            let end = walk(data, ctx, banks, st, pending);
            &&& end.error == Some(CellDecodeError::TreeTooDeep)
            &&& end.state.strips == st.strips
        }),
    decreases 255 - pending.last().cl,
{
    let node = pending.last();
    let step = node_step(data, ctx, banks, st, node);
    assert(st.cursor.pos < 2 ==> data[st.cursor.pos] == 0);
    let (b0, c0) = next_bit(data, st.cursor)->0;
    let (b1, c1) = next_bit(data, c0)->0;
    assert(b0 == 0 && b1 == 0 && c1.acc == 0);
    if node.cl < 128 {
        let next = pending.drop_last() + step.push;
        assert(next.last() == children(node, true)[1]);
        walk_makes_progress(data, ctx, banks, st, node);
        lemma_splits_descend(data, ctx, banks, step.state, next);
    }
}

/// A payload that starts with two zero bytes splits the root eight times
/// in one direction: the tree is too deep, whatever follows, and no strip
/// changes.
pub proof fn eight_splits_are_too_deep(
    data: Seq<u8>,
    ctx: PlaneContext<'_>,
    banks: PlaneBanks,
    strips: Seq<Seq<u8>>,
)
    requires
        data.len() >= 2,
        data[0] == 0,
        data[1] == 0,
    ensures
        plane_walk(data, ctx, banks, strips).error == Some(CellDecodeError::TreeTooDeep),
        plane_walk(data, ctx, banks, strips).state.strips == strips,
{
    assert(splits_left(1) == 8) by {
        reveal_with_fuel(splits_left, 9);
    }
    lemma_splits_descend(data, ctx, banks, walk_start(strips), seq![root()]);
}

/// The same context with another reference plane.
pub open spec fn with_reference<'a>(
    ctx: PlaneContext<'a>,
    reference: Option<&'a PlaneBuffers>,
) -> PlaneContext<'a> {
    PlaneContext { reference, ..ctx }
}

/// No pending node lies below an INTER leaf.
pub open spec fn none_inter(pending: Seq<Pending>) -> bool {
    forall|i: int|
        0 <= i < pending.len() ==> !((#[trigger] pending[i]).leaf matches Some(Some(_)))
}

proof fn lemma_intra_walk<'a>(
    data: Seq<u8>,
    ctx: PlaneContext<'a>,
    reference: Option<&'a PlaneBuffers>,
    banks: PlaneBanks,
    st: WalkState,
    pending: Seq<Pending>,
)
    requires
        st.cursor.inside(data),
        ctx.mvs@.len() == 0,
        none_inter(pending),
    ensures
        walk(data, ctx, banks, st, pending) == walk(
            data,
            with_reference(ctx, reference),
            banks,
            st,
            pending,
        ),
    decreases st.cursor.bits_left(data),
{
    if pending.len() > 0 {
        let alt = with_reference(ctx, reference);
        let node = pending.last();
        assert(!(pending[pending.len() - 1].leaf matches Some(Some(_))));
        let step = node_step(data, ctx, banks, st, node);
        walk_makes_progress(data, ctx, banks, st, node);
        assert(step == node_step(data, alt, banks, st, node));
        if step.error is None {
            let next = pending.drop_last() + step.push;
            assert forall|i: int| 0 <= i < next.len() implies !((
            #[trigger] next[i]).leaf matches Some(Some(_))) by {
                if i < pending.len() - 1 {
                    assert(next[i] == pending[i]);
                } else {
                    assert(next[i] == step.push[i - (pending.len() - 1)]);
                }
            }
            lemma_intra_walk(data, ctx, reference, banks, step.state, next);
        }
    }
}

/// A plane without motion vectors decodes the same whatever the reference
/// plane is.
pub proof fn planes_without_vectors_need_no_reference<'a>(
    data: Seq<u8>,
    ctx: PlaneContext<'a>,
    reference: Option<&'a PlaneBuffers>,
    banks: PlaneBanks,
    strips: Seq<Seq<u8>>,
)
    requires
        ctx.mvs@.len() == 0,
    ensures
        plane_walk(data, ctx, banks, strips) == plane_walk(
            data,
            with_reference(ctx, reference),
            banks,
            strips,
        ),
{
    lemma_intra_walk(data, ctx, reference, banks, walk_start(strips), seq![root()]);
}

} // verus!
