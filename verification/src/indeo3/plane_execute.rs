//! The execution of a reconstruction plan: the NULL leaves are written
//! into the plane's pixel buffer, the others are counted and left zero.
use super::bytes::{dword_at, with_dword};
use super::cell_null::{
    copied_cell, copied_group, copy_upper_cell, mark_edge_cell, marked_rows, marked_span, Access,
    CopyUpperError, CopyUpperGeometry, MarkEdgeError, MarkEdgeGeometry,
};
use super::frame_assemble::{zeroed, zeros};
use super::macroblock::{proper_cell, NodeRect};
use super::plane_reconstruct::{
    entries_area, proper_entries, CellDisposition, CellPlanEntry, PlaneReconstructPlan,
};
use super::text::{decimal, push_decimal};
use vstd::prelude::*;
use vstd::slice::slice_subrange;
use vstd::string::StringExecFns;

verus! {

/// Row stride of a plane's pixel buffer.
pub const STRIP_ROW_STRIDE: usize = 0xb0;

/// Bytes of a plane's pixel buffer.
pub fn plane_strip_len(plane_height: u32) -> (r: usize)
    requires
        plane_height * 0xb0 <= usize::MAX,
    ensures
        r == plane_height * 0xb0,
{
    plane_height as usize * 0xb0
}

/// How much of a plane was reconstructed.
#[derive(Debug, Clone, Copy, PartialEq, Eq, Structural)]
pub struct PlaneExecStats {
    /// Copy leaves reconstructed.
    pub copy_units: u64,
    /// Skip leaves reconstructed.
    pub skip_units: u64,
    /// Coded leaves deferred.
    pub vq_data_deferred: u64,
    /// INTER leaves deferred.
    pub inter_deferred: u64,
    /// Pixel bytes written.
    pub bytes_written: u64,
}

impl Default for PlaneExecStats {
    fn default() -> (r: Self)
        ensures
            r == Self::none(),
    {
        PlaneExecStats {
            copy_units: 0,
            skip_units: 0,
            vq_data_deferred: 0,
            inter_deferred: 0,
            bytes_written: 0,
        }
    }
}

impl PlaneExecStats {
    /// Nothing reconstructed and nothing deferred.
    pub open spec fn none() -> Self {
        PlaneExecStats {
            copy_units: 0,
            skip_units: 0,
            vq_data_deferred: 0,
            inter_deferred: 0,
            bytes_written: 0,
        }
    }

    /// All leaves.
    pub open spec fn units(self) -> int {
        self.copy_units + self.skip_units + self.vq_data_deferred + self.inter_deferred
    }

    /// Leaves reconstructed.
    pub fn reconstructed(&self) -> (r: u64)
        requires
            self.copy_units + self.skip_units <= u64::MAX,
        ensures
            r == self.copy_units + self.skip_units,
    {
        self.copy_units + self.skip_units
    }

    /// Leaves deferred.
    pub fn deferred(&self) -> (r: u64)
        requires
            self.vq_data_deferred + self.inter_deferred <= u64::MAX,
        ensures
            r == self.vq_data_deferred + self.inter_deferred,
    {
        self.vq_data_deferred + self.inter_deferred
    }

    /// All leaves.
    pub fn total(&self) -> (r: u64)
        requires
            self.units() <= u64::MAX,
        ensures
            r == self.units(),
    {
        self.reconstructed() + self.deferred()
    }
}

/// The first leaf that was deferred.
#[derive(Debug, Clone, Copy, PartialEq, Eq, Structural)]
pub struct DeferredFrontier {
    /// Its place in the plan.
    pub unit_index: usize,
    /// The leaf.
    pub entry: CellPlanEntry,
}

/// Why a plan cannot be executed.
#[derive(Debug, Clone, Copy, PartialEq, Eq, Structural)]
pub enum PlaneExecError {
    /// A copy leaf failed.
    CopyUpper {
        /// Its place in the plan.
        unit_index: usize,
        /// The error of the copy.
        source: CopyUpperError,
    },
    /// A skip leaf failed.
    MarkEdge {
        /// Its place in the plan.
        unit_index: usize,
        /// The error of the marking.
        source: MarkEdgeError,
    },
}

impl PlaneExecError {
    /// The message of the error.
    pub open spec fn text(self) -> Seq<char> {
        match self {
            PlaneExecError::CopyUpper { unit_index, source } => "unit "@ + decimal(
                unit_index as int,
            ) + ": "@ + source.text(),
            PlaneExecError::MarkEdge { unit_index, source } => "unit "@ + decimal(
                unit_index as int,
            ) + ": "@ + source.text(),
        }
    }

    /// The message of the error.
    pub fn message(&self) -> (r: String)
        ensures
            r@ == self.text(),
    {
        match self {
            PlaneExecError::CopyUpper { unit_index, source } => {
                let mut out = String::from_str("unit ");
                push_decimal(&mut out, *unit_index);
                out.append(": ");
                out.append(source.message().as_str());
                out
            },
            PlaneExecError::MarkEdge { unit_index, source } => {
                let mut out = String::from_str("unit ");
                push_decimal(&mut out, *unit_index);
                out.append(": ");
                out.append(source.message().as_str());
                out
            },
        }
    }
}

/// A reconstructed plane.
#[derive(Debug, Clone, PartialEq, Eq)]
pub struct ReconstructedPlane {
    /// Plane index.
    pub plane_idx: usize,
    /// Plane width in samples.
    pub plane_width: u32,
    /// Plane height in samples.
    pub plane_height: u32,
    /// The plane's pixel buffer.
    pub strip: Vec<u8>,
    /// How much was reconstructed.
    pub stats: PlaneExecStats,
    /// The first leaf that was deferred, if any was.
    pub frontier: Option<DeferredFrontier>,
}

/// The byte of a cell's row `row` and first column in the work buffer,
/// which has a predictor row of zeros above the plane's rows.
pub open spec fn cell_offset(rect: NodeRect, row: int) -> int {
    (rect.y + 1 + row) * 0xb0 + rect.x
}

/// Copy a cell four rows at a time from row `row` on, until an access does
/// not fit.
pub open spec fn copied_bands(s: Seq<u8>, rect: NodeRect, row: int) -> Access
    decreases rect.h + 4 - row,
{
    if row >= rect.h {
        Access { strip: s, overrun: None }
    } else {
        let band = copied_cell(s, cell_offset(rect, row), 0, rect.w as int / 4, 4);
        if band.overrun is Some {
            band
        } else {
            copied_bands(band.strip, rect, row + 4)
        }
    }
}

/// Mark a cell four rows at a time from row `row` on, until an access does
/// not fit.
pub open spec fn marked_bands(s: Seq<u8>, rect: NodeRect, row: int) -> Access
    decreases rect.h + 4 - row,
{
    if row >= rect.h {
        Access { strip: s, overrun: None }
    } else {
        let band = marked_rows(s, cell_offset(rect, row), 0, 4, rect.w as int / 4 * 4);
        if band.overrun is Some {
            band
        } else {
            marked_bands(band.strip, rect, row + 4)
        }
    }
}

/// The state of an execution.
pub ghost struct ExecState {
    pub work: Seq<u8>,
    pub stats: PlaneExecStats,
    pub frontier: Option<DeferredFrontier>,
    pub error: Option<PlaneExecError>,
}

/// The first deferred leaf after one more.
pub open spec fn frontier_after(
    frontier: Option<DeferredFrontier>,
    unit_index: int,
    entry: CellPlanEntry,
) -> Option<DeferredFrontier> {
    if frontier is Some {
        frontier
    } else {
        Some(DeferredFrontier { unit_index: unit_index as usize, entry })
    }
}

/// The execution of one leaf.
pub open spec fn exec_unit(st: ExecState, unit_index: int, entry: CellPlanEntry) -> ExecState {
    let bytes = (st.stats.bytes_written + entry.rect.area()) as u64;
    match entry.disposition {
        CellDisposition::VqNullCopy => {
            let end = copied_bands(st.work, entry.rect, 0);
            match end.overrun {
                Some(o) => ExecState {
                    work: end.strip,
                    error: Some(
                        PlaneExecError::CopyUpper {
                            unit_index: unit_index as usize,
                            source: CopyUpperError::OutOfBounds {
                                end: o as usize,
                                buffer_len: st.work.len() as usize,
                            },
                        },
                    ),
                    ..st
                },
                None => ExecState {
                    work: end.strip,
                    stats: PlaneExecStats {
                        copy_units: (st.stats.copy_units + 1) as u64,
                        bytes_written: bytes,
                        ..st.stats
                    },
                    ..st
                },
            }
        },
        CellDisposition::VqNullSkip => {
            let end = marked_bands(st.work, entry.rect, 0);
            match end.overrun {
                Some(o) => ExecState {
                    work: end.strip,
                    error: Some(
                        PlaneExecError::MarkEdge {
                            unit_index: unit_index as usize,
                            source: MarkEdgeError::OutOfBounds {
                                end: o as usize,
                                buffer_len: st.work.len() as usize,
                            },
                        },
                    ),
                    ..st
                },
                None => ExecState {
                    work: end.strip,
                    stats: PlaneExecStats {
                        skip_units: (st.stats.skip_units + 1) as u64,
                        bytes_written: bytes,
                        ..st.stats
                    },
                    ..st
                },
            }
        },
        CellDisposition::VqData => ExecState {
            stats: PlaneExecStats {
                vq_data_deferred: (st.stats.vq_data_deferred + 1) as u64,
                ..st.stats
            },
            frontier: frontier_after(st.frontier, unit_index, entry),
            ..st
        },
        CellDisposition::Inter => ExecState {
            stats: PlaneExecStats {
                inter_deferred: (st.stats.inter_deferred + 1) as u64,
                ..st.stats
            },
            frontier: frontier_after(st.frontier, unit_index, entry),
            ..st
        },
    }
}

/// The execution of the leaves from leaf `i` on, until one fails.
pub open spec fn exec_units(st: ExecState, entries: Seq<CellPlanEntry>, i: int) -> ExecState
    decreases entries.len() - i,
{
    if i >= entries.len() || st.error is Some {
        st
    } else {
        exec_units(exec_unit(st, i, entries[i]), entries, i + 1)
    }
}

/// The execution of a plan.
pub open spec fn plane_execution(entries: Seq<CellPlanEntry>, height: int) -> ExecState {
    exec_units(
        ExecState {
            work: zeros((height + 1) * 0xb0),
            stats: PlaneExecStats::none(),
            frontier: None,
            error: None,
        },
        entries,
        0,
    )
}

impl PlaneReconstructPlan {
    /// The plan's leaves are proper cells of a plane no larger than a
    /// picture can be, with no more samples than it.
    pub open spec fn sized(self) -> bool {
        &&& self.plane_width <= 0xffff
        &&& self.plane_height <= 0xffff
        &&& proper_entries(self.entries@, self.plane_width as int, self.plane_height as int)
        &&& entries_area(self.entries@) <= self.plane_width * self.plane_height
    }
}

impl ReconstructedPlane {
    /// The plane is what the execution of the leaves gives.
    pub open spec fn executes(
        self,
        entries: Seq<CellPlanEntry>,
        plane_idx: int,
        width: int,
        height: int,
    ) -> bool {
        let end = plane_execution(entries, height);
        &&& end.error is None
        &&& self.plane_idx == plane_idx
        &&& self.plane_width == width
        &&& self.plane_height == height
        &&& self.strip@ == end.work.skip(0xb0)
        &&& self.stats == end.stats
        &&& self.frontier == end.frontier
    }
}

/// Copy a cell.
fn copy_cell(work: &mut Vec<u8>, rect: NodeRect) -> (r: Result<(), CopyUpperError>)
    requires
        proper_cell(rect, 0xffff, 0xffff),
    ensures
        ({
            let end = copied_bands(old(work)@, rect, 0);
            &&& final(work)@ == end.strip
            &&& final(work)@.len() == old(work)@.len()
            &&& match r {
                Ok(_) => end.overrun is None,
                Err(e) => end.overrun matches Some(o) && e == (CopyUpperError::OutOfBounds {
                    end: o as usize,
                    buffer_len: old(work)@.len() as usize,
                }),
            }
        }),
{
    let ghost end = copied_bands(work@, rect, 0);
    let mut row: u32 = 0;
    while row < rect.h
        invariant
            row <= rect.h,
            row % 4 == 0,
            proper_cell(rect, 0xffff, 0xffff),
            work@.len() == old(work)@.len(),
            end == copied_bands(old(work)@, rect, 0),
            end == copied_bands(work@, rect, row as int),
        decreases rect.h - row,
    {
        let top: usize = (rect.y as usize + 1 + row as usize) * 0xb0 + rect.x as usize;
        let geometry = CopyUpperGeometry {
            width_dwords: (rect.w / 4) as usize,
            row_count: 4,
            top_left_offset: top,
        };
        match copy_upper_cell(work.as_mut_slice(), geometry) {
            Ok(_) => {},
            Err(e) => return Err(e),
        }
        row = row + 4;
    }
    Ok(())
}

/// Mark a cell.
fn mark_cell(work: &mut Vec<u8>, rect: NodeRect) -> (r: Result<(), MarkEdgeError>)
    requires
        proper_cell(rect, 0xffff, 0xffff),
    ensures
        ({
            let end = marked_bands(old(work)@, rect, 0);
            &&& final(work)@ == end.strip
            &&& final(work)@.len() == old(work)@.len()
            &&& match r {
                Ok(_) => end.overrun is None,
                Err(e) => end.overrun matches Some(o) && e == (MarkEdgeError::OutOfBounds {
                    end: o as usize,
                    buffer_len: old(work)@.len() as usize,
                }),
            }
        }),
{
    let ghost end = marked_bands(work@, rect, 0);
    let mut row: u32 = 0;
    while row < rect.h
        invariant
            row <= rect.h,
            row % 4 == 0,
            proper_cell(rect, 0xffff, 0xffff),
            work@.len() == old(work)@.len(),
            end == marked_bands(old(work)@, rect, 0),
            end == marked_bands(work@, rect, row as int),
        decreases rect.h - row,
    {
        let top: usize = (rect.y as usize + 1 + row as usize) * 0xb0 + rect.x as usize;
        let geometry = MarkEdgeGeometry {
            width_dwords: (rect.w / 4) as usize,
            row_count: 4,
            top_left_offset: top,
        };
        match mark_edge_cell(work.as_mut_slice(), geometry) {
            Ok(_) => {},
            Err(e) => return Err(e),
        }
        row = row + 4;
    }
    Ok(())
}

/// More leaves have no fewer samples.
proof fn lemma_area_grows(entries: Seq<CellPlanEntry>, k: int)
    requires
        0 <= k <= entries.len(),
    ensures
        0 <= entries_area(entries.take(k)) <= entries_area(entries),
    decreases entries.len(),
{
    if entries.len() > 0 {
        let rect = entries.last().rect;
        assert(0 <= rect.w * rect.h) by (nonlinear_arith)
            requires
                rect.w >= 0,
                rect.h >= 0,
        ;
        if k == entries.len() {
            assert(entries.take(k) =~= entries);
            lemma_area_grows(entries.drop_last(), k - 1);
        } else {
            lemma_area_grows(entries.drop_last(), k);
            assert(entries.drop_last().take(k) =~= entries.take(k));
        }
    }
}

/// Execute a reconstruction plan.
pub fn exec_plane_plan(
    plan: &PlaneReconstructPlan,
) -> (r: Result<ReconstructedPlane, PlaneExecError>)
    requires
        plan.sized(),
    ensures
        match r {
            Ok(p) => p.executes(
                plan.entries@,
                plan.plane_idx as int,
                plan.plane_width as int,
                plan.plane_height as int,
            ) && p.stats.units() == plan.entries@.len() && p.stats.bytes_written
                <= entries_area(plan.entries@),
            Err(e) => plane_execution(plan.entries@, plan.plane_height as int).error == Some(e),
        },
{
    let ghost entries = plan.entries@;
    let ghost end = plane_execution(entries, plan.plane_height as int);
    let len: usize = (plan.plane_height as usize + 1) * 0xb0;
    let mut work: Vec<u8> = zeroed(len);
    let mut stats = PlaneExecStats::default();
    let mut frontier: Option<DeferredFrontier> = None;
    let n: usize = plan.entries.len();
    let mut i: usize = 0;
    proof {
        let (w, h) = (plan.plane_width as int, plan.plane_height as int);
        assert(w * h <= 0xffff * 0xffff) by (nonlinear_arith)
            requires
                0 <= w <= 0xffff,
                0 <= h <= 0xffff,
        ;
        assert(entries.take(0) =~= Seq::empty());
    }
    while i < n
        invariant
            i <= n,
            n == plan.entries@.len(),
            entries == plan.entries@,
            plan.sized(),
            len == (plan.plane_height + 1) * 0xb0,
            work@.len() == len,
            end == plane_execution(entries, plan.plane_height as int),
            end == exec_units(
                ExecState { work: work@, stats, frontier, error: None },
                entries,
                i as int,
            ),
            stats.units() == i,
            stats.bytes_written <= entries_area(entries.take(i as int)),
            entries_area(entries) <= 0xffff * 0xffff,
        decreases n - i,
    {
        let entry = plan.entries[i];
        proof {
            let t = entries.take(i + 1);
            assert(t.drop_last() =~= entries.take(i as int));
            assert(t.last() == entry);
            lemma_area_grows(entries, i + 1);
            assert(proper_cell(
                entries[i as int].rect,
                plan.plane_width as int,
                plan.plane_height as int,
            ));
            let rect = entry.rect;
            assert(0 <= rect.w * rect.h <= 0xffff * 0xffff) by (nonlinear_arith)
                requires
                    0 <= rect.w <= 0xffff,
                    0 <= rect.h <= 0xffff,
            ;
        }
        let ghost st = ExecState { work: work@, stats, frontier, error: None };
        let ghost next = exec_unit(st, i as int, entry);
        match entry.disposition {
            CellDisposition::VqNullCopy => {
                match copy_cell(&mut work, entry.rect) {
                    Ok(_) => {},
                    Err(source) => {
                        assert(exec_units(next, entries, i + 1) == next);
                        return Err(PlaneExecError::CopyUpper { unit_index: i, source });
                    },
                }
                stats.copy_units = stats.copy_units + 1;
                stats.bytes_written = stats.bytes_written + entry.rect.w as u64
                    * entry.rect.h as u64;
            },
            CellDisposition::VqNullSkip => {
                match mark_cell(&mut work, entry.rect) {
                    Ok(_) => {},
                    Err(source) => {
                        assert(exec_units(next, entries, i + 1) == next);
                        return Err(PlaneExecError::MarkEdge { unit_index: i, source });
                    },
                }
                stats.skip_units = stats.skip_units + 1;
                stats.bytes_written = stats.bytes_written + entry.rect.w as u64
                    * entry.rect.h as u64;
            },
            CellDisposition::VqData => {
                stats.vq_data_deferred = stats.vq_data_deferred + 1;
                if frontier.is_none() {
                    frontier = Some(DeferredFrontier { unit_index: i, entry });
                }
            },
            CellDisposition::Inter => {
                stats.inter_deferred = stats.inter_deferred + 1;
                if frontier.is_none() {
                    frontier = Some(DeferredFrontier { unit_index: i, entry });
                }
            },
        }
        assert(next == (ExecState { work: work@, stats, frontier, error: None }));
        i = i + 1;
    }
    assert(entries.take(n as int) =~= entries);
    let mut strip: Vec<u8> = Vec::new();
    strip.extend_from_slice(slice_subrange(work.as_slice(), 0xb0, len));
    assert(strip@ =~= work@.skip(0xb0));
    Ok(
        ReconstructedPlane {
            plane_idx: plan.plane_idx,
            plane_width: plan.plane_width,
            plane_height: plan.plane_height,
            strip,
            stats,
            frontier,
        },
    )
}

proof fn lemma_group_fits(s: Seq<u8>, at: int, v: int, row: int)
    requires
        0 <= row <= 4,
        0 <= at,
        at + 3 * 0xb0 + 4 <= s.len(),
    ensures
        copied_group(s, at, v, row, 4).overrun is None,
        copied_group(s, at, v, row, 4).strip.len() == s.len(),
    decreases 4 - row,
{
    if row < 4 {
        lemma_group_fits(with_dword(s, at + row * 0xb0, v), at, v, row + 1);
    }
}

pub proof fn lemma_copy_fits(s: Seq<u8>, top: int, n: int, width: int)
    requires
        0 <= n <= width,
        0xb0 <= top,
        top + 4 * width + 3 * 0xb0 <= s.len(),
    ensures
        copied_cell(s, top, n, width, 4).overrun is None,
        copied_cell(s, top, n, width, 4).strip.len() == s.len(),
    decreases width - n,
{
    if n < width {
        let at = top + 4 * n;
        let v = dword_at(s, at - 0xb0);
        lemma_group_fits(s, at, v, 0);
        lemma_copy_fits(copied_group(s, at, v, 0, 4).strip, top, n + 1, width);
    }
}

proof fn lemma_mark_fits(s: Seq<u8>, top: int, row: int, bytes: int)
    requires
        0 <= row <= 4,
        0 <= top,
        0 <= bytes,
        top + 3 * 0xb0 + bytes <= s.len(),
    ensures
        marked_rows(s, top, row, 4, bytes).overrun is None,
        marked_rows(s, top, row, 4, bytes).strip.len() == s.len(),
    decreases 4 - row,
{
    if row < 4 {
        lemma_mark_fits(marked_span(s, top + row * 0xb0, bytes), top, row + 1, bytes);
    }
}

proof fn lemma_bands_fit(s: Seq<u8>, rect: NodeRect, row: int, width: int, height: int)
    requires
        proper_cell(rect, width, height),
        width <= 0xb0,
        s.len() == (height + 1) * 0xb0,
        0 <= row <= rect.h,
        row % 4 == 0,
    ensures
        copied_bands(s, rect, row).overrun is None,
        copied_bands(s, rect, row).strip.len() == s.len(),
        marked_bands(s, rect, row).overrun is None,
        marked_bands(s, rect, row).strip.len() == s.len(),
    decreases rect.h - row,
{
    if row < rect.h {
        let top = cell_offset(rect, row);
        lemma_copy_fits(s, top, 0, rect.w as int / 4);
        lemma_mark_fits(s, top, 0, rect.w as int / 4 * 4);
        lemma_bands_fit(
            copied_cell(s, top, 0, rect.w as int / 4, 4).strip,
            rect,
            row + 4,
            width,
            height,
        );
        lemma_bands_fit(
            marked_rows(s, top, 0, 4, rect.w as int / 4 * 4).strip,
            rect,
            row + 4,
            width,
            height,
        );
    }
}

proof fn lemma_execution(
    st: ExecState,
    entries: Seq<CellPlanEntry>,
    i: int,
    width: int,
    height: int,
)
    requires
        0 <= i <= entries.len() <= u64::MAX,
        proper_entries(entries, width, height),
        width <= 0xb0,
        st.work.len() == (height + 1) * 0xb0,
        st.error is None,
        st.stats.units() == i,
        st.frontier is Some <==> st.stats.vq_data_deferred + st.stats.inter_deferred > 0,
    ensures
        ({
            let end = exec_units(st, entries, i);
            &&& end.error is None
            &&& end.stats.units() == entries.len()
            &&& end.frontier is Some <==> end.stats.vq_data_deferred + end.stats.inter_deferred > 0
        }),
    decreases entries.len() - i,
{
    if i < entries.len() {
        let entry = entries[i];
        lemma_bands_fit(st.work, entry.rect, 0, width, height);
        lemma_execution(exec_unit(st, i, entry), entries, i + 1, width, height);
    }
}

/// A plane no wider than its buffer's rows never fails. Every leaf is
/// either reconstructed or deferred, and there is a first deferred leaf
/// exactly where one is deferred.
pub proof fn narrow_planes_execute(entries: Seq<CellPlanEntry>, width: int, height: int)
    requires
        entries.len() <= u64::MAX,
        proper_entries(entries, width, height),
        width <= 0xb0,
        height >= 0,
    ensures
        ({
            let end = plane_execution(entries, height);
            &&& end.error is None
            &&& end.stats.units() == entries.len()
            &&& end.frontier is Some <==> end.stats.vq_data_deferred + end.stats.inter_deferred > 0
        }),
{
    lemma_execution(
        ExecState {
            work: zeros((height + 1) * 0xb0),
            stats: PlaneExecStats::none(),
            frontier: None,
            error: None,
        },
        entries,
        0,
        width,
        height,
    );
}

} // verus!
