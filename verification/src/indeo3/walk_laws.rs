//! What the bits of a plane payload mean: the order of the bits, the
//! nodes of the two trees, the leaves and their motion compensation, said
//! of the bytes of the payload and of the strips.
use super::cell_decoder::{CellDecodeError, Family, LeafRect, Pending, PlaneBuffers, PlaneContext};
use super::code_laws::{in_span, pixel};
use super::geometry_bank::{
    extent, folded_slot, full_rule, last_rule, pow2_ceil, quarter_code, strip_slot, x_position,
    y_position, PlaneBanks, UNDER_FOUR_CODE, UNDER_FOUR_YPOS,
};
use super::geometry_laws::{
    columns_follow_the_tiling, inner_index, left_of, levels_tile_their_extent, narrow_level,
    rows_follow_the_tiling,
};
use super::picture_layer::MotionVector;
use super::plane_model::{
    coded_step, compensated, copied_rows_equal_the_row_above, copied_upper, edges_fixed, fetchable,
    fetched, fetched_row, leaf_rect, leaf_step, next_bit, node_step, plane_walk, predicted,
    unpacked, walk, walk_makes_progress, walk_start, with_cell_rows, CodeState, Cursor, WalkState,
};
use vstd::prelude::*;

verus! {

/// The first eight powers of two.
pub open spec fn power(k: int) -> int {
    if k <= 0 {
        1
    } else if k == 1 {
        2
    } else if k == 2 {
        4
    } else if k == 3 {
        8
    } else if k == 4 {
        16
    } else if k == 5 {
        32
    } else if k == 6 {
        64
    } else {
        128
    }
}

/// The cursor when `k` bits of byte `b` have been taken and the next whole
/// byte is at `pos`.
pub open spec fn within_byte(b: u8, k: int, pos: int) -> Cursor {
    Cursor { pos, acc: b * power(k) % 256, nbits: 8 - k }
}

/// Bits come out of a byte from the most significant down: the first bit
/// of a byte is its 128s bit and takes the byte off the payload, and bit
/// `k` is its `2^(7-k)`s bit, wherever the byte cursor has gone to since.
pub proof fn bits_come_most_significant_first(data: Seq<u8>, c: Cursor, b: u8, k: int)
    requires
        0 <= k < 8,
        k == 0 ==> c.nbits == 0 && 0 <= c.pos < data.len() && data[c.pos] == b,
        k > 0 ==> c == within_byte(b, k, c.pos),
    ensures
        ({
            let pos = c.pos + if k == 0 {
                1int
            } else {
                0
            };
            match next_bit(data, c) {
                Some((bit, after)) => {
                    &&& bit == b as int / power(7 - k) % 2
                    &&& after.pos == pos
                    &&& k < 7 ==> after == within_byte(b, k + 1, pos)
                    &&& k == 7 ==> after.nbits == 0
                },
                None => false,
            }
        }),
{
    let v = b as u32;
    if k == 0 {
        assert(v < 256);
    } else if k == 1 {
        assert((v * 2 % 256) / 128 == v / 64 % 2 && (v * 2 % 256) * 2 % 256 == v * 4 % 256)
            by (bit_vector)
            requires
                v < 256,
        ;
    } else if k == 2 {
        assert((v * 4 % 256) / 128 == v / 32 % 2 && (v * 4 % 256) * 2 % 256 == v * 8 % 256)
            by (bit_vector)
            requires
                v < 256,
        ;
    } else if k == 3 {
        assert((v * 8 % 256) / 128 == v / 16 % 2 && (v * 8 % 256) * 2 % 256 == v * 16 % 256)
            by (bit_vector)
            requires
                v < 256,
        ;
    } else if k == 4 {
        assert((v * 16 % 256) / 128 == v / 8 % 2 && (v * 16 % 256) * 2 % 256 == v * 32 % 256)
            by (bit_vector)
            requires
                v < 256,
        ;
    } else if k == 5 {
        assert((v * 32 % 256) / 128 == v / 4 % 2 && (v * 32 % 256) * 2 % 256 == v * 64 % 256)
            by (bit_vector)
            requires
                v < 256,
        ;
    } else if k == 6 {
        assert((v * 64 % 256) / 128 == v / 2 % 2 && (v * 64 % 256) * 2 % 256 == v * 128 % 256)
            by (bit_vector)
            requires
                v < 256,
        ;
    } else if k == 7 {
        assert((v * 128 % 256) / 128 == v / 1 % 2 && (v * 128 % 256) * 2 % 256 == v * 256 % 256)
            by (bit_vector)
            requires
                v < 256,
        ;
    }
}

/// A payload whose bytes and bits are used up has no further bit.
pub proof fn bits_end_with_the_payload(data: Seq<u8>, c: Cursor)
    requires
        0 <= c.nbits,
    ensures
        next_bit(data, c) is None <==> c.nbits == 0 && c.pos >= data.len(),
{
}

/// A node of either tree with the bits `0 0` splits vertically: its
/// children, the upper one next and then the lower one, have the vertical
/// indices `2 * cl` and `2 * cl + 1`. With `0 1` it splits horizontally,
/// the left part next and then the right one. A split past index 255 is
/// too deep.
pub proof fn splits_descend_one_tree(
    data: Seq<u8>,
    ctx: PlaneContext<'_>,
    banks: PlaneBanks,
    st: WalkState,
    node: Pending,
    c0: Cursor,
    b1: int,
    c1: Cursor,
)
    requires
        next_bit(data, st.cursor) == Some((0int, c0)),
        next_bit(data, c0) == Some((b1, c1)),
        1 <= node.cl <= 255,
        1 <= node.ch <= 255,
    ensures
        ({
            let step = node_step(data, ctx, banks, st, node);
            let k = if b1 == 0 {
                node.cl
            } else {
                node.ch
            };
            if k >= 128 {
                &&& step.error == Some(CellDecodeError::TreeTooDeep)
                &&& step.state.strips == st.strips
            } else {
                &&& step.error is None
                &&& step.state.cursor == c1
                &&& step.state.strips == st.strips
                &&& step.state.tally == st.tally
                &&& step.state.sticky == st.sticky
                &&& step.push.len() == 2
                &&& step.push[1].leaf == node.leaf
                &&& step.push[0].leaf == node.leaf
                &&& b1 == 0 ==> {
                    &&& step.push[1].cl == 2 * node.cl
                    &&& step.push[0].cl == 2 * node.cl + 1
                    &&& step.push[1].ch == node.ch
                    &&& step.push[0].ch == node.ch
                }
                &&& b1 != 0 ==> {
                    &&& step.push[1].ch == 2 * node.ch
                    &&& step.push[0].ch == 2 * node.ch + 1
                    &&& step.push[1].cl == node.cl
                    &&& step.push[0].cl == node.cl
                }
            }
        }),
{
}

/// The node pushed last is walked first, and the nodes below it come after
/// what it pushes. A plane starts with the root alone, and is done when no
/// node is left.
pub proof fn nodes_are_walked_last_in_first_out(
    data: Seq<u8>,
    ctx: PlaneContext<'_>,
    banks: PlaneBanks,
    st: WalkState,
    rest: Seq<Pending>,
    node: Pending,
    strips: Seq<Seq<u8>>,
)
    requires
        st.cursor.inside(data),
    ensures
        ({
            let step = node_step(data, ctx, banks, st, node);
            let end = walk(data, ctx, banks, st, rest.push(node));
            if step.error is Some {
                end.error == step.error && end.state == step.state
            } else {
                end == walk(data, ctx, banks, step.state, rest + step.push)
            }
        }),
        walk(data, ctx, banks, st, Seq::<Pending>::empty()).state == st,
        walk(data, ctx, banks, st, Seq::<Pending>::empty()).error is None,
        ({
            let start = WalkState {
                cursor: Cursor { pos: 0, acc: 0, nbits: 0 },
                strips,
                sticky: false,
                tally: plane_walk(Seq::empty(), ctx, banks, strips).state.tally,
            };
            plane_walk(data, ctx, banks, strips) == walk(
                data,
                ctx,
                banks,
                start,
                Seq::<Pending>::empty().push(Pending { cl: 1, ch: 1, leaf: None }),
            )
        }),
{
    let pending = rest.push(node);
    assert(pending.drop_last() =~= rest);
    assert(pending.last() == node);
    walk_makes_progress(data, ctx, banks, st, node);
    assert(Seq::<Pending>::empty().push(Pending { cl: 1, ch: 1, leaf: None }) =~= seq![
        Pending { cl: 1, ch: 1, leaf: None },
    ]);
}

/// A motion node with the bits `1 0` is an INTRA leaf: its VQ tree is next,
/// without a vector. With `1 1` it is an INTER leaf: the next whole byte is
/// the index of its vector, which must be in the plane's table, and its VQ
/// tree is next with that vector.
pub proof fn motion_leaves_name_their_vector(
    data: Seq<u8>,
    ctx: PlaneContext<'_>,
    banks: PlaneBanks,
    st: WalkState,
    node: Pending,
    c0: Cursor,
    b1: int,
    c1: Cursor,
)
    requires
        node.leaf is None,
        next_bit(data, st.cursor) == Some((1int, c0)),
        next_bit(data, c0) == Some((b1, c1)),
        b1 == 0 || b1 == 1,
        0 <= c1.pos,
    ensures
        ({
            let step = node_step(data, ctx, banks, st, node);
            &&& step.state.strips == st.strips
            &&& step.state.tally == st.tally
            &&& if b1 == 1 && c1.pos >= data.len() {
                step.error == Some(CellDecodeError::StreamExhausted)
            } else if b1 == 1 && data[c1.pos] >= ctx.mvs@.len() {
                step.error == Some(CellDecodeError::BadMvIndex { index: data[c1.pos] })
            } else {
                &&& step.error is None
                &&& step.push.len() == 1
                &&& step.push[0].cl == node.cl
                &&& step.push[0].ch == node.ch
                &&& step.push[0].leaf == Some(
                    if b1 == 1 {
                        Some(ctx.mvs@[data[c1.pos] as int])
                    } else {
                        None
                    },
                )
                &&& step.state.cursor.acc == c1.acc
                &&& step.state.cursor.nbits == c1.nbits
                &&& step.state.cursor.pos == c1.pos + b1
            }
        }),
{
}

/// A VQ leaf with its cell in place: the strips with the cell motion
/// compensated where it has a vector.
pub open spec fn placed(st: WalkState, strips: Seq<Seq<u8>>, mv: Option<MotionVector>) -> WalkState {
    WalkState {
        strips,
        tally: super::plane_model::Tally {
            cells: st.tally.cells + 1,
            inter: st.tally.inter + if mv is Some {
                1int
            } else {
                0
            },
            ..st.tally
        },
        ..st
    }
}

/// A VQ node with the bits `1 1` is coded. With `1 0` a further bit 1 makes
/// it coded too; `0 0` after them copies the row above it into every row,
/// unless the cell is motion compensated, and `0 1` keeps its content.
/// Every leaf counts as a cell.
pub proof fn vq_leaves_are_coded_copied_or_kept(
    data: Seq<u8>,
    ctx: PlaneContext<'_>,
    banks: PlaneBanks,
    st: WalkState,
    node: Pending,
    cell: LeafRect,
    strips: Seq<Seq<u8>>,
    c0: Cursor,
    b1: int,
    c1: Cursor,
)
    requires
        node.leaf is Some,
        next_bit(data, st.cursor) == Some((1int, c0)),
        next_bit(data, c0) == Some((b1, c1)),
        b1 == 0 || b1 == 1,
        leaf_rect(banks, st.strips.len() as int, node.cl as int, node.ch as int) == Ok::<
            LeafRect,
            CellDecodeError,
        >(cell),
        predicted(ctx, st.strips, cell, node.leaf->0) == Some(strips),
    ensures
        ({
            let step = node_step(data, ctx, banks, st, node);
            let mv = node.leaf->0;
            let i = cell.strip as int;
            let after = placed(WalkState { cursor: c1, ..st }, strips, mv);
            if b1 == 1 {
                step == coded_step(data, ctx, after, cell, mv is Some)
            } else {
                match next_bit(data, c1) {
                    None => step.error == Some(CellDecodeError::StreamExhausted),
                    Some((s0, c2)) => if s0 == 1 {
                        step == coded_step(
                            data,
                            ctx,
                            WalkState { cursor: c2, ..after },
                            cell,
                            mv is Some,
                        )
                    } else {
                        match next_bit(data, c2) {
                            None => step.error == Some(CellDecodeError::StreamExhausted),
                            Some((s1, c3)) => {
                                &&& step.error is None
                                &&& step.push.len() == 0
                                &&& step.state.cursor == c3
                                &&& step.state.sticky == st.sticky
                                &&& step.state.tally.cells == st.tally.cells + 1
                                &&& step.state.tally.coded_cells == st.tally.coded_cells
                                &&& step.state.tally.copy_upper == st.tally.copy_upper + if s1 == 0 {
                                    1int
                                } else {
                                    0
                                }
                                &&& step.state.tally.skipped == st.tally.skipped + if s1 == 0 {
                                    0int
                                } else {
                                    1
                                }
                                &&& step.state.strips == if s1 == 0 && mv is None {
                                    strips.update(i, copied_upper(strips[i], cell))
                                } else {
                                    strips
                                }
                            },
                        }
                    },
                }
            }
        }),
{
}

/// Where the whole-pixel part of a vector moves pixel `(row, col)` to, as
/// a byte of the reference strip: `vert` rows down and `horiz` columns
/// right.
pub open spec fn moved_to(row: int, col: int, mv: MotionVector) -> int {
    (row + mv.vert + 1) * 0xb0 + col + mv.horiz
}

/// The bytes that a vector's filter reads for a pixel are in the strip.
pub open spec fn can_fetch(len: int, row: int, col: int, mv: MotionVector) -> bool {
    let k = moved_to(row, col, mv);
    &&& k >= 0
    &&& k < len
    &&& mv.horiz_half ==> k + 1 < len
    &&& mv.vert_half ==> k + 0xb0 < len
    &&& mv.horiz_half && mv.vert_half ==> k + 0xb1 < len
}

/// A cell can be fetched exactly where all bytes that its pixels need are
/// in the reference strip.
pub proof fn cells_are_fetched_from_the_strip(rs: Seq<u8>, cell: LeafRect, mv: MotionVector)
    ensures
        fetchable(rs, cell, mv) <==> forall|r: int, c: int|
            0 <= r < cell.h && 0 <= c < cell.w ==> #[trigger] can_fetch(
                rs.len() as int,
                cell.y + r,
                cell.x + c,
                mv,
            ),
{
    if fetchable(rs, cell, mv) {
        assert forall|r: int, c: int| 0 <= r < cell.h && 0 <= c < cell.w implies #[trigger] can_fetch(
            rs.len() as int,
            cell.y + r,
            cell.x + c,
            mv,
        ) by {
            assert(fetched(rs, cell, mv, r, c) is Some);
        }
    }
    if forall|r: int, c: int|
        0 <= r < cell.h && 0 <= c < cell.w ==> #[trigger] can_fetch(
            rs.len() as int,
            cell.y + r,
            cell.x + c,
            mv,
        ) {
        assert forall|r: int, c: int| 0 <= r < cell.h && 0 <= c < cell.w implies #[trigger] fetched(
            rs,
            cell,
            mv,
            r,
            c,
        ) is Some by {
            assert(can_fetch(rs.len() as int, cell.y + r, cell.x + c, mv));
        }
    }
}

/// Motion compensation gives each pixel of a cell the reference sample
/// `vert` rows below it and `horiz` columns right of it; a half-pixel flag
/// takes the truncated mean with the row below, or with the column to the
/// right, and both flags the mean of the two rows' means. The result is in
/// the 7-bit range. Bytes outside the cell stay as they are.
pub proof fn compensation_moves_the_reference(
    s: Seq<u8>,
    rs: Seq<u8>,
    cell: LeafRect,
    mv: MotionVector,
    r: int,
    c: int,
)
    requires
        fetchable(rs, cell, mv),
        (cell.y + cell.h) * 0xb0 + cell.x + cell.w <= s.len(),
        cell.w <= 0xb0,
        0 <= r < cell.h,
        0 <= c < cell.w,
    ensures
        ({
            let k = moved_to(cell.y + r, cell.x + c, mv);
            let v = pixel(compensated(s, rs, cell, mv), cell.y + r, cell.x + c);
            &&& !mv.vert_half && !mv.horiz_half ==> v == rs[k] % 128
            &&& mv.vert_half && !mv.horiz_half ==> v == (rs[k] + rs[k + 0xb0]) / 2 % 128
            &&& !mv.vert_half && mv.horiz_half ==> v == (rs[k] + rs[k + 1]) / 2 % 128
            &&& mv.vert_half && mv.horiz_half ==> v == ((rs[k] + rs[k + 1]) / 2 + (rs[k + 0xb0]
                + rs[k + 0xb1]) / 2) / 2 % 128
        }),
        compensated(s, rs, cell, mv).len() == s.len(),
        forall|j: int|
            0 <= j < s.len() && (forall|q: int|
                0 <= q < cell.h ==> !#[trigger] in_span(
                    j,
                    cell.y + q,
                    cell.x as int,
                    cell.w as int,
                )) ==> #[trigger] compensated(s, rs, cell, mv)[j] == s[j],
{
    let rows = |r: int| fetched_row(rs, cell, mv, r);
    lemma_rows_stand(s, cell, rows, cell.h as int, r, c);
    assert(fetched(rs, cell, mv, r, c) is Some);
    lemma_rows_beyond(s, cell, rows, cell.h as int);
}

/// Rows written over a cell that is no wider than the strip's rows stand.
proof fn lemma_rows_stand(
    s: Seq<u8>,
    cell: LeafRect,
    rows: spec_fn(int) -> Seq<u8>,
    n: int,
    r: int,
    c: int,
)
    requires
        (cell.y + cell.h) * 0xb0 + cell.x + cell.w <= s.len(),
        cell.w <= 0xb0,
        forall|q: int| 0 <= q < n ==> (#[trigger] rows(q)).len() == cell.w,
        0 <= r < n <= cell.h,
        0 <= c < cell.w,
    ensures
        with_cell_rows(s, cell, rows, n).len() == s.len(),
        pixel(with_cell_rows(s, cell, rows, n), cell.y + r, cell.x + c) == rows(r)[c],
    decreases n,
{
    lemma_rows_beyond(s, cell, rows, n - 1);
    if r < n - 1 {
        lemma_rows_stand(s, cell, rows, n - 1, r, c);
    }
    assert(rows(n - 1).len() == cell.w);
}

proof fn lemma_rows_beyond(s: Seq<u8>, cell: LeafRect, rows: spec_fn(int) -> Seq<u8>, n: int)
    requires
        forall|q: int| 0 <= q < n ==> (#[trigger] rows(q)).len() == cell.w,
    ensures
        with_cell_rows(s, cell, rows, n).len() == s.len(),
        forall|j: int|
            0 <= j < s.len() && (forall|q: int|
                0 <= q < n ==> !#[trigger] in_span(j, cell.y + q, cell.x as int, cell.w as int))
                ==> #[trigger] with_cell_rows(s, cell, rows, n)[j] == s[j],
    decreases n,
{
    if n > 0 {
        lemma_rows_beyond(s, cell, rows, n - 1);
        assert(rows(n - 1).len() == cell.w);
        let t = with_cell_rows(s, cell, rows, n);
        assert forall|j: int|
            0 <= j < s.len() && (forall|q: int|
                0 <= q < n ==> !#[trigger] in_span(j, cell.y + q, cell.x as int, cell.w as int)) implies
            #[trigger] t[j] == s[j] by {
            assert(!in_span(j, cell.y + (n - 1), cell.x as int, cell.w as int));
            assert(t[j] == with_cell_rows(s, cell, rows, n - 1)[j]);
        }
    }
}

/// An INTER cell is compensated from the reference plane's strip of the
/// same number, in its own strip alone; without a reference plane, or
/// where the fetch leaves its strip, the leaf is refused. A cell without a
/// vector keeps its content.
pub proof fn inter_cells_use_the_same_strip(
    ctx: PlaneContext<'_>,
    strips: Seq<Seq<u8>>,
    cell: LeafRect,
    mv: MotionVector,
)
    requires
        cell.strip < strips.len(),
    ensures
        predicted(ctx, strips, cell, None) == Some(strips),
        ctx.reference is None ==> predicted(ctx, strips, cell, Some(mv)) is None,
        ctx.reference matches Some(reference) ==> {
            let i = cell.strip as int;
            let rs = reference.strips@[i]@;
            match predicted(ctx, strips, cell, Some(mv)) {
                Some(after) => {
                    &&& i < reference.strips@.len()
                    &&& fetchable(rs, cell, mv)
                    &&& after.len() == strips.len()
                    &&& after[i] == compensated(strips[i], rs, cell, mv)
                    &&& forall|k: int|
                        0 <= k < strips.len() && k != i ==> #[trigger] after[k] == strips[k]
                },
                None => i >= reference.strips@.len() || !fetchable(rs, cell, mv),
            }
        },
{
}

/// A leaf that cannot be compensated is refused, before anything of it is
/// decoded; one that the banks cannot place is refused with their reason.
pub proof fn unplaced_leaves_are_refused(
    data: Seq<u8>,
    ctx: PlaneContext<'_>,
    banks: PlaneBanks,
    st: WalkState,
    node: Pending,
    b1: int,
)
    requires
        node.leaf is Some,
    ensures
        ({
            let step = leaf_step(data, ctx, banks, st, node, b1);
            match leaf_rect(banks, st.strips.len() as int, node.cl as int, node.ch as int) {
                Err(e) => step.error == Some(e) && step.state.strips == st.strips,
                Ok(cell) => predicted(ctx, st.strips, cell, node.leaf->0) is None ==> step.error
                    == Some(CellDecodeError::McOutOfRange) && step.state.strips == st.strips,
            }
        }),
{
}

/// Copy-upper changes no byte outside the cell.
pub proof fn copies_stay_in_their_cell(s: Seq<u8>, cell: LeafRect)
    requires
        cell.y * 0xb0 + cell.x + cell.w <= s.len(),
    ensures
        copied_upper(s, cell).len() == s.len(),
        forall|j: int|
            0 <= j < s.len() && (forall|q: int|
                0 <= q < cell.h ==> !#[trigger] in_span(
                    j,
                    cell.y + q,
                    cell.x as int,
                    cell.w as int,
                )) ==> #[trigger] copied_upper(s, cell)[j] == s[j],
{
    lemma_rows_beyond(
        s,
        cell,
        |r: int| super::plane_model::row_above(s, cell),
        cell.h as int,
    );
}

/// Copy-upper gives every pixel of a cell the pixel above the cell in its
/// column.
pub proof fn copies_repeat_the_row_above(s: Seq<u8>, cell: LeafRect, r: int, c: int)
    requires
        (cell.y + cell.h) * 0xb0 + cell.x + cell.w <= s.len(),
        cell.w <= 0xb0,
        0 <= r < cell.h,
        0 <= c < cell.w,
    ensures
        pixel(copied_upper(s, cell), cell.y + r, cell.x + c) == pixel(s, cell.y - 1, cell.x + c),
{
    copied_rows_equal_the_row_above(s, cell, r, c);
}

/// A finished plane differs from its walk in the column after the last
/// one of each strip alone, which repeats that column in every picture
/// row. The last strip has the residual width, the others the full one.
pub proof fn finished_strips_repeat_their_last_column(
    strips: Seq<Seq<u8>>,
    banks: PlaneBanks,
    height: int,
    i: int,
    y: int,
    x: int,
)
    requires
        0 <= i < strips.len(),
        0 <= height,
        -1 <= y,
        0 <= x < 0xb0,
        (y + 1) * 0xb0 + x < strips[i].len(),
    ensures
        ({
            let width = if i == strips.len() - 1 {
                banks.last_strip as int
            } else {
                banks.full_strip as int
            };
            let after = edges_fixed(strips, banks, height);
            &&& after.len() == strips.len()
            &&& after[i].len() == strips[i].len()
            &&& pixel(after[i], y, x) == if 0 <= y < height && x == width && width > 0 {
                pixel(strips[i], y, x - 1)
            } else {
                pixel(strips[i], y, x)
            }
        }),
{
    let j = (y + 1) * 0xb0 + x;
    assert(j / 0xb0 == y + 1 && j % 0xb0 == x);
}

/// The rectangle of a leaf: its vertical index gives its rows and its
/// horizontal index its columns. Its height is that of its tile of the
/// plane's rows, in whole groups of four, and its top row is where that
/// tile begins; its width is that of its tile of its strip, and its left
/// column where that tile begins unless an earlier level is too narrow for
/// leaves.
pub proof fn leaves_stand_on_their_tiles(
    banks: PlaneBanks,
    width: int,
    height: int,
    full_strip: int,
    luma_width: int,
    nstrips: int,
    cl: int,
    ch: int,
    cell: LeafRect,
)
    requires
        banks.built_for(width, height, full_strip, luma_width),
        1 <= cl <= 255,
        1 <= ch <= 255,
        0 <= height < 1024,
        leaf_rect(banks, nstrips, cl, ch) == Ok::<LeafRect, CellDecodeError>(cell),
    ensures
        ({
            let slot = banks.full.strip@[ch];
            let rule = if slot + 1 >= banks.nstrips {
                last_rule(width, height, full_strip, luma_width)
            } else {
                full_rule(width, height, full_strip, luma_width)
            };
            let tile = extent(ch, rule.l_level(), rule.this_strip);
            &&& cell.strip == slot
            &&& cell.strip < nstrips
            &&& cell.y == left_of(cl, 1, height)
            &&& cell.h == extent(cl, 1, height) / 4 * 4
            &&& 0 <= tile < 1024 ==> cell.w == tile / 4 * 4
            &&& rule.l_level() >= 1 && ch >= rule.l_level() && rule.this_strip >= 0
                && !narrow_level(inner_index(ch, rule.l_level()), rule.this_strip) ==> cell.x
                == left_of(ch, rule.l_level(), rule.this_strip)
        }),
{
    let slot = banks.full.strip@[ch];
    let bank = banks.slot_bank(slot as int);
    let rule = if slot + 1 >= banks.nstrips {
        last_rule(width, height, full_strip, luma_width)
    } else {
        full_rule(width, height, full_strip, luma_width)
    };
    assert(bank.follows(rule));
    assert(bank.h4@[cl] == quarter_code(cl, extent(cl, 1, height)));
    assert(bank.w4@[ch] == quarter_code(ch, extent(ch, rule.l_level(), rule.this_strip)));
    assert(bank.xpos@[ch] == x_position(ch, rule.l_level(), rule.this_strip));
    assert(bank.ypos@[cl] == y_position(cl, height));
    lemma_tile_rows(cl, height);
    lemma_tile_columns(ch, rule.l_level(), rule.this_strip);
}

proof fn lemma_tile_rows(cl: int, height: int)
    requires
        1 <= cl,
        0 <= height < 1024,
        y_position(cl, height) < UNDER_FOUR_YPOS,
        quarter_code(cl, extent(cl, 1, height)) != UNDER_FOUR_CODE,
    ensures
        y_position(cl, height) / 0xb0 == left_of(cl, 1, height),
        4 * quarter_code(cl, extent(cl, 1, height)) == extent(cl, 1, height) / 4 * 4,
{
    rows_follow_the_tiling(cl, height);
    levels_tile_their_extent(cl, 1, height);
    let e = extent(cl, 1, height);
    assert(0 <= e < 1024);
}

proof fn lemma_tile_columns(ch: int, level: int, strip: int)
    requires
        1 <= ch,
        quarter_code(ch, extent(ch, level, strip)) != UNDER_FOUR_CODE,
    ensures
        0 <= extent(ch, level, strip) < 1024 ==> 4 * quarter_code(ch, extent(ch, level, strip))
            == extent(ch, level, strip) / 4 * 4,
        level >= 1 && ch >= level && strip >= 0 && !narrow_level(inner_index(ch, level), strip)
            ==> x_position(ch, level, strip) == left_of(ch, level, strip),
{
    if level >= 1 && ch >= level && strip >= 0 {
        columns_follow_the_tiling(ch, level, strip);
    }
}

/// The tiles halve: the root tile of a level is the whole extent, and a
/// node's first child begins where it begins and has half its extent, in
/// whole groups of eight above eight and the larger half up to eight; its
/// second child has the rest.
pub proof fn tiles_halve(k: int, level: int, seed: int)
    requires
        1 <= level <= k,
        0 <= seed < 500,
    ensures
        k < 2 * level ==> extent(k, level, seed) == seed && left_of(k, level, seed) == 0,
        ({
            let p = extent(k, level, seed);
            let first = extent(2 * k, level, seed);
            let second = extent(2 * k + 1, level, seed);
            &&& first + second == p
            &&& left_of(2 * k, level, seed) == left_of(k, level, seed)
            &&& left_of(2 * k + 1, level, seed) == left_of(k, level, seed) + first
            &&& p > 8 ==> first % 8 == 0 && p - 8 < 2 * first <= p + 8
            &&& p <= 8 ==> first == p - p / 2
        }),
{
    levels_tile_their_extent(k, level, seed);
    assert((2 * k) / 2 == k && (2 * k) % 2 == 0);
    assert((2 * k + 1) / 2 == k && (2 * k + 1) % 2 == 1);
}

/// The strips of a plane stand side by side at the first level that has
/// room for all of them: node `i` of that level is strip `i`, and the
/// nodes below it belong to the same strip. In a three-strip picture the
/// fourth node is strip 2.
pub proof fn strips_stand_side_by_side(
    banks: PlaneBanks,
    width: int,
    height: int,
    full_strip: int,
    luma_width: int,
    level: int,
    i: int,
    k: int,
)
    requires
        banks.built_for(width, height, full_strip, luma_width),
        level == pow2_ceil(banks.nstrips as int),
        0 <= i < level,
        level + i < 256,
        level <= k,
        2 * k + 1 < 256,
    ensures
        level >= banks.nstrips,
        banks.full.strip@[level + i] == if i == 3 && 320 < luma_width <= 480 {
            2
        } else {
            i
        },
        banks.full.strip@[2 * k] == banks.full.strip@[k],
        banks.full.strip@[2 * k + 1] == banks.full.strip@[k],
{
    let rule = full_rule(width, height, full_strip, luma_width);
    super::geometry_bank::pow2_ceil_is_least(banks.nstrips as int, 0);
    assert(banks.full.follows(rule));
    assert(rule.p_level == level);
    let b = banks.full;
    assert(b.strip@[level + i] == folded_slot(strip_slot(level + i, level, false), rule.fold));
    assert(b.strip@[k] == folded_slot(strip_slot(k, level, false), rule.fold));
    assert(b.strip@[2 * k] == folded_slot(strip_slot(2 * k, level, false), rule.fold));
    assert(b.strip@[2 * k + 1] == folded_slot(strip_slot(2 * k + 1, level, false), rule.fold));
    assert((2 * k) / 2 == k && (2 * k + 1) / 2 == k);
}

/// A plane has as many strips as it needs for its width, and the last one
/// has what the others leave.
pub proof fn strips_cover_the_plane(
    banks: PlaneBanks,
    width: int,
    height: int,
    full_strip: int,
    luma_width: int,
)
    requires
        banks.built_for(width, height, full_strip, luma_width),
        width >= 1,
        full_strip >= 1,
    ensures
        banks.full_strip == full_strip,
        (banks.nstrips - 1) * full_strip + banks.last_strip == width,
        1 <= banks.last_strip <= full_strip,
{
    let n = banks.nstrips as int;
    let q = (width - 1) / full_strip;
    let r = (width - 1) % full_strip;
    vstd::arithmetic::div_mod::lemma_fundamental_div_mod(width - 1, full_strip);
    vstd::arithmetic::div_mod::lemma_mod_bound(width - 1, full_strip);
    assert(full_strip * q == q * full_strip) by (nonlinear_arith);
    if width <= full_strip {
        assert(q == 0) by (nonlinear_arith)
            requires
                width - 1 == full_strip * q + r,
                0 <= r < full_strip,
                0 <= width - 1 < full_strip,
        ;
    } else {
        assert(width + full_strip - 1 == full_strip * (q + 1) + r) by (nonlinear_arith)
            requires
                width - 1 == full_strip * q + r,
        ;
        vstd::arithmetic::div_mod::lemma_fundamental_div_mod_converse(
            width + full_strip - 1,
            full_strip,
            q + 1,
            r,
        );
    }
}

/// The samples of a plane stand in its strips from left to right: column
/// `c` of strip `i` is column `i * full_strip + c` of the plane, and row
/// `y` of the plane is row `y + 1` of the strip's 176-byte rows. A pixel of
/// the output is twice the sample's low seven bits.
pub proof fn samples_stand_in_their_strips(b: PlaneBuffers, i: int, c: int, y: int)
    requires
        0 <= i < b.strips@.len(),
        0 <= c < b.banks.full_strip,
        0 <= i * b.banks.full_strip + c < b.width,
        0 <= y < b.height,
        (y + 1) * 176 + c < b.strips@[i]@.len(),
    ensures
        ({
            let x = i * b.banks.full_strip + c;
            let v = b.strips@[i]@[(y + 1) * 176 + c];
            &&& b.sample_at(x, y) == Some(v)
            &&& b.pixel_at(x, y) == 2 * (v % 128)
        }),
{
    let full = b.banks.full_strip as int;
    vstd::arithmetic::div_mod::lemma_fundamental_div_mod_converse(i * full + c, full, i, c);
}

/// There is no sample outside the plane, and its pixel is 0.
pub proof fn no_samples_outside_the_plane(b: PlaneBuffers, x: int, y: int)
    requires
        x >= b.width || y >= b.height,
    ensures
        b.sample_at(x, y) is None,
        b.pixel_at(x, y) == 0,
{
}

/// What a leaf of strip slot `i` holds at its pixel `(r, c)` is the plane's
/// sample at row `cell.y + r` and column `i * full_strip + cell.x + c`.
pub proof fn cells_show_in_their_columns(b: PlaneBuffers, cell: LeafRect, r: int, c: int)
    requires
        cell.strip < b.strips@.len(),
        0 <= r < cell.h,
        0 <= c < cell.w,
        cell.x + cell.w <= b.banks.full_strip,
        cell.strip * b.banks.full_strip + cell.x + c < b.width,
        cell.y + cell.h <= b.height,
        (cell.y + cell.h) * 0xb0 + cell.x + cell.w <= b.strips@[cell.strip as int]@.len(),
    ensures
        b.sample_at(cell.strip * b.banks.full_strip + cell.x + c, cell.y + r) == Some(
            pixel(b.strips@[cell.strip as int]@, cell.y + r, cell.x + c),
        ),
{
    assert(0 <= cell.strip * b.banks.full_strip) by (nonlinear_arith);
    samples_stand_in_their_strips(b, cell.strip as int, cell.x + c, cell.y + r);
}

/// A coded leaf decodes its mode byte and codes from the next whole byte
/// on, into its own strip; the bits left of the last byte taken for bits
/// wait for the next node. Where the codes fail the leaf fails with them.
pub proof fn coded_leaves_decode_into_their_strip(
    data: Seq<u8>,
    ctx: PlaneContext<'_>,
    st: WalkState,
    cell: LeafRect,
    mc: bool,
    k: int,
)
    requires
        cell.strip < st.strips.len(),
        st.tally.families.len() == 6,
    ensures
        ({
            let i = cell.strip as int;
            let step = coded_step(data, ctx, st, cell, mc);
            let (family, end) = unpacked(
                data,
                CodeState { strip: st.strips[i], pos: st.cursor.pos, sticky: st.sticky },
                ctx,
                cell,
                mc,
            );
            &&& step.state.strips.len() == st.strips.len()
            &&& step.state.strips[i] == end.state.strip
            &&& 0 <= k < st.strips.len() && k != i ==> step.state.strips[k] == st.strips[k]
            &&& step.error == end.error
            &&& end.error is None ==> {
                let f = match family->0 {
                    Family::A => 0int,
                    Family::B => 1,
                    Family::C => 2,
                    Family::D => 3,
                    Family::E => 4,
                    Family::F => 5,
                };
                &&& step.push.len() == 0
                &&& step.state.cursor.pos == end.state.pos
                &&& step.state.cursor.acc == st.cursor.acc
                &&& step.state.cursor.nbits == st.cursor.nbits
                &&& step.state.sticky == end.state.sticky
                &&& step.state.tally.coded_cells == st.tally.coded_cells + 1
                &&& step.state.tally.cells == st.tally.cells
                &&& step.state.tally.inter == st.tally.inter
                &&& step.state.tally.families[f] == st.tally.families[f] + 1
                &&& forall|g: int|
                    0 <= g < 6 && g != f ==> #[trigger] step.state.tally.families[g]
                        == st.tally.families[g]
            }
        }),
{
}

/// The next whole byte must be there for a coded leaf's mode byte.
pub proof fn coded_leaves_need_a_mode_byte(
    data: Seq<u8>,
    ctx: PlaneContext<'_>,
    st: WalkState,
    cell: LeafRect,
    mc: bool,
)
    requires
        st.cursor.pos >= data.len(),
    ensures
        coded_step(data, ctx, st, cell, mc).error == Some(CellDecodeError::StreamExhausted),
{
}

/// Fresh strips hold the fill value in every picture row and 0x40 in the
/// row above the picture.
pub proof fn fresh_strips_start_at_mid_grey(b: PlaneBuffers, fill: u8, i: int, y: int, x: int)
    requires
        b.is_fresh(fill),
        0 <= i < b.strips@.len(),
        -1 <= y <= b.height,
        0 <= x < 0xb0,
    ensures
        b.strips@.len() == b.banks.nstrips,
        b.strips@[i]@.len() == (b.height + 2) * 0xb0,
        pixel(b.strips@[i]@, y, x) == if y == -1 {
            0x40
        } else {
            fill
        },
{
    assert(b.strips@[i]@ == PlaneBuffers::fresh_strip(b.height as int, fill));
}

/// A plane decode starts with the first bit of its payload, at the one
/// node 1, 1 of the motion tree, with no flag set and nothing counted, and
/// ends when no node is left.
pub proof fn decodes_start_at_the_root(
    data: Seq<u8>,
    ctx: PlaneContext<'_>,
    banks: PlaneBanks,
    strips: Seq<Seq<u8>>,
    i: int,
)
    ensures
        ({
            let st = walk_start(strips);
            let t = st.tally;
            &&& st.cursor.pos == 0
            &&& st.cursor.nbits == 0
            &&& st.strips == strips
            &&& !st.sticky
            &&& t.cells == 0 && t.coded_cells == 0 && t.copy_upper == 0 && t.skipped == 0
                && t.inter == 0
            &&& t.families.len() == 6
            &&& 0 <= i < 6 ==> t.families[i] == 0
            &&& plane_walk(data, ctx, banks, strips) == walk(
                data,
                ctx,
                banks,
                st,
                seq![Pending { cl: 1, ch: 1, leaf: None }],
            )
            &&& walk(data, ctx, banks, st, Seq::empty()).error is None
            &&& walk(data, ctx, banks, st, Seq::empty()).state == st
        }),
{
}

} // verus!
