//! What a reconstructed picture shows: the pixels of copied and kept
//! cells, and where every sample of a plane stands in the output.
use super::cell_null::{
    copied_cell, copied_cell_equals_its_upper_neighbour, marked_rows, marked_span,
};
use super::code_laws::{in_span, pixel};
use super::frame_assemble::{
    first_set, output_plane, output_planes, plane_geometry, zeros, AssembleError, PlaneModel,
};
use super::frame_output::{assembled, assembly_places_every_sample, strip_fault, with_strip};
use super::frame_reconstruct::{totals, upshifted_plane};
use super::frame_yuv::{full_planes, full_resolution, YuvError};
use super::frame::DecodedPlane;
use super::macroblock::{CellModel, NodeRect, VqLeaf, VqNull};
use super::plane_execute::{
    cell_offset, copied_bands, exec_unit, exec_units, marked_bands, plane_execution, ExecState,
    ReconstructedPlane,
};
use super::plane_reconstruct::{cell_entries, entries_of, CellDisposition, CellPlanEntry};
use super::strip_context::StripGeometry;
use vstd::prelude::*;

verus! {

/// The plan of some cells and one more: the plan of the cells, then the
/// one INTER leaf of an INTER cell, or all VQ leaves of an INTRA cell in
/// their order, each with its own rectangle.
pub proof fn plans_list_the_leaves_in_order(cells: Seq<CellModel>, cell: CellModel, i: int)
    ensures
        entries_of(Seq::empty()).len() == 0,
        ({
            let before = entries_of(cells);
            let after = entries_of(cells.push(cell));
            &&& 0 <= i < before.len() ==> after[i] == before[i]
            &&& match cell {
                CellModel::Inter { rect, mv_index } => {
                    &&& after.len() == before.len() + 1
                    &&& after.last() == (CellPlanEntry { rect, disposition: CellDisposition::Inter })
                },
                CellModel::Intra { rect, vq_leaves } => {
                    &&& after.len() == before.len() + vq_leaves.len()
                    &&& 0 <= i < vq_leaves.len() ==> {
                        let e = after[before.len() + i];
                        let v = vq_leaves[i];
                        &&& e.rect == v.rect
                        &&& e.disposition == CellDisposition::VqData <==> v.leaf is Data
                        &&& e.disposition == CellDisposition::VqNullCopy <==> v.leaf == VqLeaf::Null(
                            VqNull::Copy,
                        )
                        &&& e.disposition == CellDisposition::VqNullSkip <==> v.leaf == VqLeaf::Null(
                            VqNull::Skip,
                        )
                    }
                },
            }
        }),
{
    let all = cells.push(cell);
    assert(all.drop_last() =~= cells);
    assert(all.last() == cell);
    let before = entries_of(cells);
    let added = cell_entries(cell);
    assert(entries_of(all) == before + added);
    if 0 <= i < added.len() {
        assert((before + added)[before.len() + i] == added[i]);
    }
}

/// A cell fits a work buffer: a row above it and its own rows are there.
pub open spec fn cell_fits(rect: NodeRect, len: int) -> bool {
    &&& rect.w % 4 == 0
    &&& rect.h % 4 == 0
    &&& 0 < rect.w <= 0xb0
    &&& (rect.y + rect.h) * 0xb0 + rect.x + rect.w <= len
}

/// A copy leaf gives every pixel of its cell the pixel above the cell in
/// its column, and changes no other byte.
pub proof fn copy_leaves_repeat_the_row_above(s: Seq<u8>, rect: NodeRect)
    requires
        cell_fits(rect, s.len() as int),
    ensures
        ({
            let end = copied_bands(s, rect, 0);
            &&& end.overrun is None
            &&& end.strip.len() == s.len()
            &&& forall|r: int, c: int|
                0 <= r < rect.h && 0 <= c < rect.w ==> #[trigger] pixel(
                    end.strip,
                    rect.y + r,
                    rect.x + c,
                ) == pixel(s, rect.y - 1, rect.x + c)
            &&& forall|j: int|
                0 <= j < s.len() && (forall|r: int|
                    0 <= r < rect.h ==> !#[trigger] in_span(
                        j,
                        rect.y + r,
                        rect.x as int,
                        rect.w as int,
                    )) ==> #[trigger] end.strip[j] == s[j]
        }),
{
    lemma_copy_from(s, s, rect, 0);
}

/// `now` is `s` with the first `n` rows of a cell copied from the row
/// above it.
spec fn rows_copied(s: Seq<u8>, now: Seq<u8>, rect: NodeRect, n: int) -> bool {
    &&& now.len() == s.len()
    &&& forall|r: int, c: int|
        0 <= r < n && 0 <= c < rect.w ==> #[trigger] pixel(now, rect.y + r, rect.x + c) == pixel(
            s,
            rect.y - 1,
            rect.x + c,
        )
    &&& forall|j: int|
        0 <= j < s.len() && (forall|r: int|
            0 <= r < n ==> !#[trigger] in_span(j, rect.y + r, rect.x as int, rect.w as int))
            ==> #[trigger] now[j] == s[j]
}

proof fn lemma_copy_from(s: Seq<u8>, now: Seq<u8>, rect: NodeRect, n: int)
    requires
        cell_fits(rect, s.len() as int),
        0 <= n <= rect.h,
        n % 4 == 0,
        rows_copied(s, now, rect, n),
    ensures
        copied_bands(now, rect, n).overrun is None,
        rows_copied(s, copied_bands(now, rect, n).strip, rect, rect.h as int),
    decreases rect.h - n,
{
    if n < rect.h {
        let top = (rect.y + 1 + n) * 0xb0 + rect.x;
        let w = rect.w as int / 4;
        assert(cell_offset(rect, n) == top);
        super::plane_execute::lemma_copy_fits(now, top, 0, w);
        copied_cell_equals_its_upper_neighbour(now, top, w, 4);
        let next = copied_cell(now, top, 0, w, 4).strip;
        assert forall|c: int| 0 <= c < rect.w implies #[trigger] pixel(
            now,
            rect.y + n - 1,
            rect.x + c,
        ) == pixel(s, rect.y - 1, rect.x + c) by {
            if n > 0 {
                assert(pixel(now, rect.y + (n - 1), rect.x + c) == pixel(
                    s,
                    rect.y - 1,
                    rect.x + c,
                ));
            } else {
                let j = rect.y * 0xb0 + rect.x + c;
                assert(now[j] == s[j]);
            }
        }
        assert forall|r: int, c: int| 0 <= r < n + 4 && 0 <= c < rect.w implies #[trigger] pixel(
            next,
            rect.y + r,
            rect.x + c,
        ) == pixel(s, rect.y - 1, rect.x + c) by {
            let j = (rect.y + r + 1) * 0xb0 + rect.x + c;
            if r >= n {
                assert((j - top) == (r - n) * 0xb0 + c);
                assert((j - top) / 0xb0 == r - n && (j - top) % 0xb0 == c);
                assert(next[j] == now[top - 0xb0 + c]);
                assert(pixel(now, rect.y + n - 1, rect.x + c) == now[top - 0xb0 + c]);
            } else {
                assert(pixel(now, rect.y + r, rect.x + c) == now[j]);
                assert(next[j] == now[j]);
            }
        }
        assert forall|j: int|
            0 <= j < s.len() && (forall|r: int|
                0 <= r < n + 4 ==> !#[trigger] in_span(
                    j,
                    rect.y + r,
                    rect.x as int,
                    rect.w as int,
                )) implies #[trigger] next[j] == s[j] by {
            assert(now[j] == s[j]);
            if top <= j && (j - top) / 0xb0 < 4 && (j - top) % 0xb0 < 4 * w {
                let q = (j - top) / 0xb0;
                assert(in_span(j, rect.y + (n + q), rect.x as int, rect.w as int));
            }
            assert(next[j] == now[j]);
        }
        lemma_copy_from(s, next, rect, n + 4);
    }
}

/// A skip leaf sets the marker of every byte of its cell, keeps the low
/// seven bits of each, and changes no other byte.
pub proof fn skip_leaves_mark_their_cell(s: Seq<u8>, rect: NodeRect)
    requires
        cell_fits(rect, s.len() as int),
    ensures
        ({
            let end = marked_bands(s, rect, 0);
            &&& end.overrun is None
            &&& end.strip.len() == s.len()
            &&& forall|r: int, c: int|
                0 <= r < rect.h && 0 <= c < rect.w ==> #[trigger] pixel(
                    end.strip,
                    rect.y + r,
                    rect.x + c,
                ) == 128 + pixel(s, rect.y + r, rect.x + c) % 128
            &&& forall|j: int|
                0 <= j < s.len() && (forall|r: int|
                    0 <= r < rect.h ==> !#[trigger] in_span(
                        j,
                        rect.y + r,
                        rect.x as int,
                        rect.w as int,
                    )) ==> #[trigger] end.strip[j] == s[j]
        }),
{
    lemma_mark_from(s, s, rect, 0);
}

/// `now` is `s` with the first `n` rows of a cell marked.
spec fn rows_marked(s: Seq<u8>, now: Seq<u8>, rect: NodeRect, n: int) -> bool {
    &&& now.len() == s.len()
    &&& forall|r: int, c: int|
        0 <= r < n && 0 <= c < rect.w ==> #[trigger] pixel(now, rect.y + r, rect.x + c) == 128
            + pixel(s, rect.y + r, rect.x + c) % 128
    &&& forall|j: int|
        0 <= j < s.len() && (forall|r: int|
            0 <= r < n ==> !#[trigger] in_span(j, rect.y + r, rect.x as int, rect.w as int))
            ==> #[trigger] now[j] == s[j]
}

proof fn lemma_mark_row(s: Seq<u8>, now: Seq<u8>, rect: NodeRect, n: int)
    requires
        cell_fits(rect, s.len() as int),
        0 <= n < rect.h,
        rows_marked(s, now, rect, n),
    ensures
        rows_marked(
            s,
            marked_span(now, (rect.y + 1 + n) * 0xb0 + rect.x, rect.w as int),
            rect,
            n + 1,
        ),
{
    let off = (rect.y + 1 + n) * 0xb0 + rect.x;
    let next = marked_span(now, off, rect.w as int);
    assert forall|r: int, c: int| 0 <= r < n + 1 && 0 <= c < rect.w implies #[trigger] pixel(
        next,
        rect.y + r,
        rect.x + c,
    ) == 128 + pixel(s, rect.y + r, rect.x + c) % 128 by {
        let j = (rect.y + r + 1) * 0xb0 + rect.x + c;
        if r == n {
            assert forall|q: int| 0 <= q < n implies !#[trigger] in_span(
                j,
                rect.y + q,
                rect.x as int,
                rect.w as int,
            ) by {}
            assert(now[j] == s[j]);
        } else {
            assert(pixel(now, rect.y + r, rect.x + c) == now[j]);
        }
    }
    assert forall|j: int|
        0 <= j < s.len() && (forall|r: int|
            0 <= r < n + 1 ==> !#[trigger] in_span(j, rect.y + r, rect.x as int, rect.w as int)) implies
        #[trigger] next[j] == s[j] by {
        assert(!in_span(j, rect.y + n, rect.x as int, rect.w as int));
        assert(now[j] == s[j]);
    }
}

proof fn lemma_mark_from(s: Seq<u8>, now: Seq<u8>, rect: NodeRect, n: int)
    requires
        cell_fits(rect, s.len() as int),
        0 <= n <= rect.h,
        n % 4 == 0,
        rows_marked(s, now, rect, n),
    ensures
        marked_bands(now, rect, n).overrun is None,
        rows_marked(s, marked_bands(now, rect, n).strip, rect, rect.h as int),
    decreases rect.h - n,
{
    if n < rect.h {
        let top = (rect.y + 1 + n) * 0xb0 + rect.x;
        let w = rect.w as int;
        assert(cell_offset(rect, n) == top);
        assert(rect.w as int / 4 * 4 == w);
        let a = marked_span(now, top, w);
        let b = marked_span(a, top + 0xb0, w);
        let c = marked_span(b, top + 2 * 0xb0, w);
        let d = marked_span(c, top + 3 * 0xb0, w);
        lemma_mark_row(s, now, rect, n);
        lemma_mark_row(s, a, rect, n + 1);
        lemma_mark_row(s, b, rect, n + 2);
        lemma_mark_row(s, c, rect, n + 3);
        assert(marked_rows(now, top, 0, 4, w) == marked_rows(a, top, 1, 4, w));
        assert(marked_rows(a, top, 1, 4, w) == marked_rows(b, top, 2, 4, w));
        assert(marked_rows(b, top, 2, 4, w) == marked_rows(c, top, 3, 4, w));
        assert(marked_rows(c, top, 3, 4, w) == marked_rows(d, top, 4, 4, w));
        lemma_mark_from(s, d, rect, n + 4);
    }
}

/// One leaf of a plan: a copy or skip leaf is written and its samples are
/// counted; a coded or INTER leaf is counted as deferred, and the first
/// one is remembered with its place.
pub proof fn leaves_are_written_or_deferred(st: ExecState, i: int, e: CellPlanEntry)
    requires
        cell_fits(e.rect, st.work.len() as int),
        st.error is None,
        0 <= i <= usize::MAX,
        st.stats.copy_units < u64::MAX,
        st.stats.skip_units < u64::MAX,
        st.stats.vq_data_deferred < u64::MAX,
        st.stats.inter_deferred < u64::MAX,
        st.stats.bytes_written + e.rect.w * e.rect.h <= u64::MAX,
    ensures
        ({
            let after = exec_unit(st, i, e);
            let (a, b) = (st.stats, after.stats);
            let d = e.disposition;
            let one = |x: bool| if x {
                1int
            } else {
                0
            };
            &&& after.error is None
            &&& b.copy_units == a.copy_units + one(d == CellDisposition::VqNullCopy)
            &&& b.skip_units == a.skip_units + one(d == CellDisposition::VqNullSkip)
            &&& b.vq_data_deferred == a.vq_data_deferred + one(d == CellDisposition::VqData)
            &&& b.inter_deferred == a.inter_deferred + one(d == CellDisposition::Inter)
            &&& d == CellDisposition::VqNullCopy ==> after.work == copied_bands(
                st.work,
                e.rect,
                0,
            ).strip
            &&& d == CellDisposition::VqNullSkip ==> after.work == marked_bands(
                st.work,
                e.rect,
                0,
            ).strip
            &&& if d == CellDisposition::VqData || d == CellDisposition::Inter {
                &&& after.work == st.work
                &&& b.bytes_written == a.bytes_written
                &&& st.frontier is Some ==> after.frontier == st.frontier
                &&& st.frontier is None ==> after.frontier is Some && after.frontier->0.unit_index
                    == i && after.frontier->0.entry == e
            } else {
                &&& b.bytes_written == a.bytes_written + e.rect.w * e.rect.h
                &&& after.frontier == st.frontier
            }
        }),
{
    copy_leaves_repeat_the_row_above(st.work, e.rect);
    skip_leaves_mark_their_cell(st.work, e.rect);
    assert(e.rect.w * e.rect.h >= 0) by (nonlinear_arith);
}

/// A plan is carried out leaf by leaf, from its first leaf on, over a
/// buffer of zeros with one more row than the plane, until a leaf fails.
pub proof fn plans_run_from_their_first_leaf(
    st: ExecState,
    entries: Seq<CellPlanEntry>,
    i: int,
    height: int,
)
    requires
        0 <= i <= entries.len(),
        height >= 0,
    ensures
        st.error is Some ==> exec_units(st, entries, i) == st,
        i == entries.len() ==> exec_units(st, entries, i) == st,
        i < entries.len() && st.error is None ==> exec_units(st, entries, i) == exec_units(
            exec_unit(st, i, entries[i]),
            entries,
            i + 1,
        ),
        plane_execution(Seq::empty(), height).work.len() == (height + 1) * 0xb0,
        forall|j: int|
            0 <= j < (height + 1) * 0xb0 ==> #[trigger] plane_execution(
                Seq::empty(),
                height,
            ).work[j] == 0,
        plane_execution(entries, height) == exec_units(
            plane_execution(Seq::empty(), height),
            entries,
            0,
        ),
{
}

/// A reconstructed plane shows what its plan wrote: its byte `(y, x)` is
/// that of the work buffer, whose first row is the one above the plane.
pub proof fn planes_show_their_work(
    p: ReconstructedPlane,
    entries: Seq<CellPlanEntry>,
    plane_idx: int,
    width: int,
    height: int,
    y: int,
    x: int,
)
    requires
        p.executes(entries, plane_idx, width, height),
        0 <= y,
        0 <= x < 0xb0,
        (y + 1) * 0xb0 + x < plane_execution(entries, height).work.len(),
    ensures
        p.strip@[y * 0xb0 + x] == pixel(plane_execution(entries, height).work, y, x),
        p.plane_idx == plane_idx,
        p.plane_width == width,
        p.plane_height == height,
        p.stats == plane_execution(entries, height).stats,
        p.frontier == plane_execution(entries, height).frontier,
{
    let work = plane_execution(entries, height).work;
    assert(work.skip(0xb0)[y * 0xb0 + x] == work[y * 0xb0 + x + 0xb0]);
}

/// The output of a reconstructed plane: pixel `(x, y)` stands at
/// `y * width + x` and is twice the low seven bits of the buffer's byte.
pub proof fn output_pixels_double_their_samples(p: ReconstructedPlane, x: int, y: int)
    requires
        0 <= x < p.plane_width,
        0 <= y < p.plane_height,
    ensures
        ({
            let q = upshifted_plane(p);
            &&& q.plane_idx == p.plane_idx
            &&& q.width == p.plane_width
            &&& q.height == p.plane_height
            &&& q.pixels.len() == p.plane_width * p.plane_height
            &&& 0 <= y * p.plane_width + x < q.pixels.len()
            &&& q.pixels[y * p.plane_width + x] == if y * 176 + x < p.strip@.len() {
                p.strip@[y * 176 + x] % 128 * 2
            } else {
                0int
            }
        }),
{
    let w = p.plane_width as int;
    vstd::arithmetic::div_mod::lemma_fundamental_div_mod_converse(y * w + x, w, y, x);
    assert(0 <= y * w && y * w + x < w * p.plane_height) by (nonlinear_arith)
        requires
            0 <= y < p.plane_height,
            0 <= x < w,
    ;
}

/// The totals of a frame are the sums over its planes.
pub proof fn totals_add_up(planes: Seq<ReconstructedPlane>, p: ReconstructedPlane)
    ensures
        ({
            let a = totals(planes);
            let b = totals(planes.push(p));
            &&& b.planes == a.planes + 1
            &&& b.copy_units == a.copy_units + p.stats.copy_units
            &&& b.skip_units == a.skip_units + p.stats.skip_units
            &&& b.vq_data_deferred == a.vq_data_deferred + p.stats.vq_data_deferred
            &&& b.inter_deferred == a.inter_deferred + p.stats.inter_deferred
            &&& b.bytes_written == a.bytes_written + p.stats.bytes_written
        }),
        totals(Seq::empty()).planes == 0,
        totals(Seq::empty()).copy_units == 0,
        totals(Seq::empty()).skip_units == 0,
        totals(Seq::empty()).vq_data_deferred == 0,
        totals(Seq::empty()).inter_deferred == 0,
        totals(Seq::empty()).bytes_written == 0,
{
    assert(planes.push(p).drop_last() =~= planes);
}

proof fn lemma_assembled_length(
    dst: Seq<u8>,
    g: StripGeometry,
    strips: Seq<Seq<u8>>,
    stride: int,
    i: int,
    x0: int,
    written: int,
)
    ensures
        assembled(dst, g, strips, stride, i, x0, written).dst.len() == dst.len(),
    decreases g.strip_count - i,
{
    if i < g.strip_count && strip_fault(g, strips, i) is None {
        let w = g.width_of(i);
        let h = g.plane_height as int;
        lemma_assembled_length(
            with_strip(dst, strips[i], x0, w, h, stride),
            g,
            strips,
            stride,
            i + 1,
            x0 + w,
            written + w * h,
        );
    }
}

/// An output plane without padding: column `c` of strip `k` is column
/// `k * strip_width + c`, and each pixel is twice the low seven bits of
/// the strip's byte in 176-byte rows.
pub proof fn output_planes_join_their_strips(
    g: StripGeometry,
    strips: Seq<Seq<u8>>,
    plane_idx: int,
    p: PlaneModel,
    k: int,
    c: int,
    y: int,
)
    requires
        output_plane(g, strips, plane_idx) == Ok::<PlaneModel, AssembleError>(p),
        0 <= k < g.strip_count,
        0 <= c < if k == g.strip_count - 1 {
            g.last_strip_width
        } else {
            g.strip_width
        },
        0 <= y < g.plane_height,
    ensures
        p.plane_idx == plane_idx,
        p.width == g.plane_width,
        p.height == g.plane_height,
        0 <= y * g.plane_width + k * g.strip_width + c < p.pixels.len(),
        p.pixels[y * g.plane_width + k * g.strip_width + c] == strips[k][y * 176 + c] % 128 * 2,
{
    let empty = zeros(g.plane_width * g.plane_height);
    lemma_assembled_length(empty, g, strips, g.plane_width as int, 0, 0, 0);
    assembly_places_every_sample(
        zeros(g.plane_width * g.plane_height),
        g,
        strips,
        g.plane_width as int,
        k,
        c,
        y,
    );
}

/// The output planes of a frame are those of Y, V and U, in this order,
/// that the frame has and that have strips; each comes of its own
/// geometry and its own strips.
pub proof fn outputs_come_y_v_u(
    planes: Seq<DecodedPlane>,
    sets: Seq<(usize, Vec<Vec<u8>>)>,
    out: Seq<PlaneModel>,
    k: int,
    i: int,
)
    requires
        output_planes(planes, sets, 0, Seq::empty()) == Ok::<Seq<PlaneModel>, AssembleError>(out),
        0 <= k < out.len(),
        0 <= i < 3,
    ensures
        ({
            let idx = out[k].plane_idx;
            &&& 0 <= idx < 3
            &&& k > 0 ==> out[k - 1].plane_idx < idx
            &&& plane_geometry(planes, idx) matches Some(g)
            &&& first_set(sets, idx, 0) matches Some(strips)
            &&& output_plane(g, strips, idx) == Ok::<PlaneModel, AssembleError>(out[k])
        }),
        plane_geometry(planes, i) is Some && first_set(sets, i, 0) is Some ==> exists|j: int|
            0 <= j < out.len() && (#[trigger] out[j]).plane_idx == i,
{
    reveal_with_fuel(output_planes, 4);
    let none = Seq::<PlaneModel>::empty();
    let has = |i: int| plane_geometry(planes, i) is Some && first_set(sets, i, 0) is Some;
    let get = |i: int| output_plane(plane_geometry(planes, i)->0, first_set(sets, i, 0)->0, i)->Ok_0;
    let a = if has(0) {
        none.push(get(0))
    } else {
        none
    };
    let b = if has(1) {
        a.push(get(1))
    } else {
        a
    };
    let c = if has(2) {
        b.push(get(2))
    } else {
        b
    };
    assert(out == c);
    if has(i) {
        let j = if i == 0 {
            0int
        } else if i == 1 {
            a.len() as int
        } else {
            b.len() as int
        };
        assert(out[j].plane_idx == i);
    }
}

/// The strips of a plane are the first ones that carry its index.
pub proof fn strips_are_found_by_index(sets: Seq<(usize, Vec<Vec<u8>>)>, idx: int, from: int)
    requires
        0 <= from,
    ensures
        match first_set(sets, idx, from) {
            Some(strips) => exists|k: int|
                from <= k < sets.len() && (#[trigger] sets[k]).0 == idx && strips
                    == super::plane_model::strip_seqs(sets[k].1@) && forall|j: int|
                    from <= j < k ==> (#[trigger] sets[j]).0 != idx,
            None => forall|k: int| from <= k < sets.len() ==> (#[trigger] sets[k]).0 != idx,
        },
    decreases sets.len() - from,
{
    if from < sets.len() && sets[from].0 != idx {
        strips_are_found_by_index(sets, idx, from + 1);
        if let Some(strips) = first_set(sets, idx, from) {
            let k = choose|k: int|
                from + 1 <= k < sets.len() && (#[trigger] sets[k]).0 == idx && strips
                    == super::plane_model::strip_seqs(sets[k].1@) && forall|j: int|
                    from + 1 <= j < k ==> (#[trigger] sets[j]).0 != idx;
            assert forall|j: int| from <= j < k implies (#[trigger] sets[j]).0 != idx by {}
        }
    }
}

/// The full-resolution planes of a frame are those of its output planes,
/// one for one; Y is carried through as it is.
pub proof fn full_planes_correspond(
    planes: Seq<PlaneModel>,
    i: int,
    done: Seq<PlaneModel>,
    out: Seq<PlaneModel>,
    k: int,
)
    requires
        0 <= i <= planes.len(),
        full_planes(planes, i, done) == Ok::<Seq<PlaneModel>, YuvError>(out),
        0 <= k < out.len(),
    ensures
        out.len() == done.len() + planes.len() - i,
        k < done.len() ==> out[k] == done[k],
        k >= done.len() ==> full_resolution(planes[i + k - done.len()]) == Ok::<
            PlaneModel,
            YuvError,
        >(out[k]),
        k >= done.len() && planes[i + k - done.len()].plane_idx == 0 ==> out[k] == planes[i + k
            - done.len()],
    decreases planes.len() - i,
{
    if i < planes.len() {
        full_planes_correspond(planes, i + 1, done.push(full_resolution(planes[i])->Ok_0), out, k);
    }
}

} // verus!
