//! VQ_NULL cells: the copy-upper body, which copies the row above a cell
//! into it, and the mark-edge body, which sets the edge marker over it.
use super::bytes::{byte_of, dword_at, read_dword, with_dword, write_dword};
use super::cell_unpack::marked;
use super::reconstruct::{EDGE_MARKER_BIT, PREDICTOR_ROW_STRIDE};
use super::text::{decimal, push_decimal};
use vstd::prelude::*;
use vstd::string::StringExecFns;

verus! {

/// The most destination rows a body writes.
pub const COPY_UPPER_ROW_COUNT: usize = 4;

/// Bytes of a column group.
pub const COPY_UPPER_COLUMN_GROUP_BYTES: usize = 4;

/// The four destination displacements of an interleaved copy whose cursor
/// moves on by a column group before the lower two rows are stored.
pub const COPY_UPPER_RAW_ROW_OFFSETS: [usize; 4] = [0x000, 0x0b0, 0x15c, 0x20c];

/// The VQ_NULL sub-codes.
#[derive(Debug, Clone, Copy, PartialEq, Eq, Structural)]
pub enum VqNullSubCode {
    /// First bit 1: a mode byte follows.
    VqDataNoIndex,
    /// Bits 00: copy the row above.
    CopyUpper,
    /// Bits 01: set the edge marker.
    MarkEdge,
}

impl VqNullSubCode {
    /// Decode the sub-code from its bits; the second one counts only
    /// where the first is 0.
    pub fn from_bits(first_bit: bool, second_bit: bool) -> (r: Self)
        ensures
            r == if first_bit {
                VqNullSubCode::VqDataNoIndex
            } else if second_bit {
                VqNullSubCode::MarkEdge
            } else {
                VqNullSubCode::CopyUpper
            },
    {
        if first_bit {
            VqNullSubCode::VqDataNoIndex
        } else if second_bit {
            VqNullSubCode::MarkEdge
        } else {
            VqNullSubCode::CopyUpper
        }
    }

    /// `true` only for [`VqNullSubCode::CopyUpper`].
    pub fn is_copy_upper(self) -> (r: bool)
        ensures
            r == (self == VqNullSubCode::CopyUpper),
    {
        matches!(self, VqNullSubCode::CopyUpper)
    }

    /// `true` only for [`VqNullSubCode::MarkEdge`].
    pub fn is_mark_edge(self) -> (r: bool)
        ensures
            r == (self == VqNullSubCode::MarkEdge),
    {
        matches!(self, VqNullSubCode::MarkEdge)
    }
}

/// The geometry of one copy-upper cell.
#[derive(Debug, Clone, Copy, PartialEq, Eq, Structural)]
pub struct CopyUpperGeometry {
    /// Cell width in column groups (pixels / 4).
    pub width_dwords: usize,
    /// Number of destination rows (`1..=COPY_UPPER_ROW_COUNT`).
    pub row_count: usize,
    /// Byte offset of the cell's top-left pixel within the strip buffer.
    pub top_left_offset: usize,
}

/// The errors of the copy-upper body.
#[derive(Debug, Clone, Copy, PartialEq, Eq, Structural)]
pub enum CopyUpperError {
    /// `width_dwords` is zero.
    ZeroWidth,
    /// `row_count` is zero or exceeds [`COPY_UPPER_ROW_COUNT`].
    InvalidRowCount {
        /// The supplied row count.
        supplied: usize,
    },
    /// The row above the cell precedes the buffer.
    UpperNeighbourAboveBuffer,
    /// A read or write lands outside the strip buffer.
    OutOfBounds {
        /// The exclusive end byte offset the access requires.
        end: usize,
        /// The buffer length.
        buffer_len: usize,
    },
}

impl CopyUpperError {
    /// The message of the error.
    pub open spec fn text(self) -> Seq<char> {
        match self {
            CopyUpperError::ZeroWidth => "spec/07 §1.4: copy-upper cell width is zero"@,
            CopyUpperError::InvalidRowCount { supplied } =>
                "spec/07 §1.4: copy-upper row count "@ + decimal(supplied as int)
                + " not in 1..=4"@,
            CopyUpperError::UpperNeighbourAboveBuffer =>
                "spec/07 §1.4: copy-upper upper-neighbour row [edi - 0xb0] precedes strip buffer start"@,
            CopyUpperError::OutOfBounds { end, buffer_len } =>
                "spec/07 §1.4: copy-upper access end "@ + decimal(end as int)
                + " exceeds strip buffer length "@ + decimal(buffer_len as int),
        }
    }

    /// The message of the error.
    pub fn message(&self) -> (r: String)
        ensures
            r@ == self.text(),
    {
        match self {
            CopyUpperError::ZeroWidth => String::from_str(
                "spec/07 §1.4: copy-upper cell width is zero",
            ),
            CopyUpperError::InvalidRowCount { supplied } => {
                let mut out = String::from_str("spec/07 §1.4: copy-upper row count ");
                push_decimal(&mut out, *supplied);
                out.append(" not in 1..=4");
                out
            },
            CopyUpperError::UpperNeighbourAboveBuffer => String::from_str(
                "spec/07 §1.4: copy-upper upper-neighbour row [edi - 0xb0] precedes strip buffer start",
            ),
            CopyUpperError::OutOfBounds { end, buffer_len } => {
                let mut out = String::from_str("spec/07 §1.4: copy-upper access end ");
                push_decimal(&mut out, *end);
                out.append(" exceeds strip buffer length ");
                push_decimal(&mut out, *buffer_len);
                out
            },
        }
    }
}

/// What a copy-upper came to.
#[derive(Debug, Clone, Copy, PartialEq, Eq, Structural)]
pub struct CopyUpperStats {
    /// The number of destination rows written.
    pub rows_written: usize,
    /// The number of column groups copied per row.
    pub column_groups: usize,
    /// The number of pixel bytes copied.
    pub bytes_copied: usize,
}

impl Default for CopyUpperStats {
    fn default() -> (r: Self)
        ensures
            r == (CopyUpperStats { rows_written: 0, column_groups: 0, bytes_copied: 0 }),
    {
        CopyUpperStats { rows_written: 0, column_groups: 0, bytes_copied: 0 }
    }
}

/// A buffer and the end of the first access that did not fit it.
pub ghost struct Access {
    pub strip: Seq<u8>,
    pub overrun: Option<int>,
}

/// Store `v` in the rows of a column group from row `row` on, until one
/// does not fit.
pub open spec fn copied_group(s: Seq<u8>, at: int, v: int, row: int, rows: int) -> Access
    decreases rows - row,
{
    let off = at + row * 0xb0;
    if row >= rows {
        Access { strip: s, overrun: None }
    } else if off + 4 > s.len() {
        Access { strip: s, overrun: Some(off + 4) }
    } else {
        copied_group(with_dword(s, off, v), at, v, row + 1, rows)
    }
}

/// Copy the column groups of a cell from group `n` on: each takes the
/// double word above its first row.
pub open spec fn copied_cell(s: Seq<u8>, top: int, n: int, width: int, rows: int) -> Access
    decreases width - n,
{
    let at = top + 4 * n;
    let src = at - PREDICTOR_ROW_STRIDE;
    if n >= width {
        Access { strip: s, overrun: None }
    } else if src + 4 > s.len() {
        Access { strip: s, overrun: Some(src + 4) }
    } else {
        let group = copied_group(s, at, dword_at(s, src), 0, rows);
        if group.overrun is Some {
            group
        } else {
            copied_cell(group.strip, top, n + 1, width, rows)
        }
    }
}

/// The offsets of a cell's accesses fit a `usize`.
pub open spec fn accesses_fit(top: int, width: int) -> bool {
    top + 4 * width + 4 * 0xb0 + 4 <= usize::MAX && 16 * width <= usize::MAX
}

/// Execute the copy-upper body: every row of the cell takes the row above
/// the cell. Stops at the first access that does not fit.
pub fn copy_upper_cell(buffer: &mut [u8], geometry: CopyUpperGeometry) -> (res: Result<
    CopyUpperStats,
    CopyUpperError,
>)
    requires
        accesses_fit(geometry.top_left_offset as int, geometry.width_dwords as int),
    ensures
        final(buffer)@.len() == old(buffer)@.len(),
        ({
            let g = geometry;
            let end = copied_cell(
                old(buffer)@,
                g.top_left_offset as int,
                0,
                g.width_dwords as int,
                g.row_count as int,
            );
            if g.width_dwords == 0 {
                res == Err::<CopyUpperStats, CopyUpperError>(CopyUpperError::ZeroWidth)
                    && final(buffer)@ == old(buffer)@
            } else if g.row_count == 0 || g.row_count > COPY_UPPER_ROW_COUNT {
                res == Err::<CopyUpperStats, CopyUpperError>(
                    CopyUpperError::InvalidRowCount { supplied: g.row_count },
                ) && final(buffer)@ == old(buffer)@
            } else if g.top_left_offset < PREDICTOR_ROW_STRIDE {
                res == Err::<CopyUpperStats, CopyUpperError>(
                    CopyUpperError::UpperNeighbourAboveBuffer,
                ) && final(buffer)@ == old(buffer)@
            } else {
                &&& final(buffer)@ == end.strip
                &&& match res {
                    Ok(stats) => {
                        &&& end.overrun is None
                        &&& stats.rows_written == g.row_count
                        &&& stats.column_groups == g.width_dwords
                        &&& stats.bytes_copied == g.row_count * g.width_dwords * 4
                    },
                    Err(e) => end.overrun is Some && e == (CopyUpperError::OutOfBounds {
                        end: end.overrun->0 as usize,
                        buffer_len: old(buffer)@.len() as usize,
                    }),
                }
            }
        }),
{
    let w: usize = geometry.width_dwords;
    let rows: usize = geometry.row_count;
    let top: usize = geometry.top_left_offset;
    if w == 0 {
        return Err(CopyUpperError::ZeroWidth);
    }
    if rows == 0 || rows > COPY_UPPER_ROW_COUNT {
        return Err(CopyUpperError::InvalidRowCount { supplied: rows });
    }
    if top < PREDICTOR_ROW_STRIDE {
        return Err(CopyUpperError::UpperNeighbourAboveBuffer);
    }
    let len: usize = buffer.len();
    let ghost end = copied_cell(buffer@, top as int, 0, w as int, rows as int);
    let mut n: usize = 0;
    while n < w
        invariant
            n <= w,
            w == geometry.width_dwords,
            w > 0,
            rows == geometry.row_count,
            top == geometry.top_left_offset,
            1 <= rows <= 4,
            top >= PREDICTOR_ROW_STRIDE,
            accesses_fit(top as int, w as int),
            len == buffer@.len(),
            len == old(buffer)@.len(),
            end == copied_cell(old(buffer)@, top as int, 0, w as int, rows as int),
            end == copied_cell(buffer@, top as int, n as int, w as int, rows as int),
        decreases w - n,
    {
        let at: usize = top + n * COPY_UPPER_COLUMN_GROUP_BYTES;
        let src: usize = at - PREDICTOR_ROW_STRIDE;
        if src + 4 > len {
            return Err(CopyUpperError::OutOfBounds { end: src + 4, buffer_len: len });
        }
        let v: u32 = read_dword(buffer, src);
        let ghost before = buffer@;
        let ghost group = copied_group(buffer@, at as int, v as int, 0, rows as int);
        let mut row: usize = 0;
        while row < rows
            invariant
                row <= rows <= 4,
                n < w,
                w == geometry.width_dwords,
                rows == geometry.row_count,
                rows > 0,
                top == geometry.top_left_offset,
                top >= PREDICTOR_ROW_STRIDE,
                at == top + 4 * n,
                src == at - PREDICTOR_ROW_STRIDE,
                src + 4 <= len,
                accesses_fit(top as int, w as int),
                len == buffer@.len(),
                len == before.len(),
                len == old(buffer)@.len(),
                v == dword_at(before, src as int),
                end == copied_cell(old(buffer)@, top as int, 0, w as int, rows as int),
                end == copied_cell(before, top as int, n as int, w as int, rows as int),
                group == copied_group(before, at as int, v as int, 0, rows as int),
                group == copied_group(buffer@, at as int, v as int, row as int, rows as int),
            decreases rows - row,
        {
            let off: usize = at + row * 0xb0;
            if off + 4 > len {
                return Err(CopyUpperError::OutOfBounds { end: off + 4, buffer_len: len });
            }
            write_dword(buffer, off, v);
            row = row + 1;
        }
        n = n + 1;
    }
    assert(rows * w <= 4 * w && rows * w * 4 <= 16 * w) by (nonlinear_arith)
        requires
            rows <= 4,
            w >= 0,
    ;
    Ok(
        CopyUpperStats {
            rows_written: rows,
            column_groups: w,
            bytes_copied: rows * w * COPY_UPPER_COLUMN_GROUP_BYTES,
        },
    )
}

/// The geometry of one mark-edge cell. It reads nothing above the cell,
/// which may stand at the very top of the strip.
#[derive(Debug, Clone, Copy, PartialEq, Eq, Structural)]
pub struct MarkEdgeGeometry {
    /// Cell width in column groups (pixels / 4).
    pub width_dwords: usize,
    /// Number of cell rows to mark (`1..=COPY_UPPER_ROW_COUNT`).
    pub row_count: usize,
    /// Byte offset of the cell's top-left pixel within the strip buffer.
    pub top_left_offset: usize,
}

/// The errors of the mark-edge body.
#[derive(Debug, Clone, Copy, PartialEq, Eq, Structural)]
pub enum MarkEdgeError {
    /// `width_dwords` is zero.
    ZeroWidth,
    /// `row_count` is zero or exceeds [`COPY_UPPER_ROW_COUNT`].
    InvalidRowCount {
        /// The supplied row count.
        supplied: usize,
    },
    /// A marked region lands outside the strip buffer.
    OutOfBounds {
        /// The exclusive end byte offset the access requires.
        end: usize,
        /// The buffer length.
        buffer_len: usize,
    },
}

impl MarkEdgeError {
    /// The message of the error.
    pub open spec fn text(self) -> Seq<char> {
        match self {
            MarkEdgeError::ZeroWidth => "spec/04 §4: mark-edge cell width is zero"@,
            MarkEdgeError::InvalidRowCount { supplied } => "spec/04 §4: mark-edge row count "@
                + decimal(supplied as int) + " not in 1..=4"@,
            MarkEdgeError::OutOfBounds { end, buffer_len } =>
                "spec/04 §4: mark-edge access end "@ + decimal(end as int)
                + " exceeds strip buffer length "@ + decimal(buffer_len as int),
        }
    }

    /// The message of the error.
    pub fn message(&self) -> (r: String)
        ensures
            r@ == self.text(),
    {
        match self {
            MarkEdgeError::ZeroWidth => String::from_str("spec/04 §4: mark-edge cell width is zero"),
            MarkEdgeError::InvalidRowCount { supplied } => {
                let mut out = String::from_str("spec/04 §4: mark-edge row count ");
                push_decimal(&mut out, *supplied);
                out.append(" not in 1..=4");
                out
            },
            MarkEdgeError::OutOfBounds { end, buffer_len } => {
                let mut out = String::from_str("spec/04 §4: mark-edge access end ");
                push_decimal(&mut out, *end);
                out.append(" exceeds strip buffer length ");
                push_decimal(&mut out, *buffer_len);
                out
            },
        }
    }
}

/// What a mark-edge came to.
#[derive(Debug, Clone, Copy, PartialEq, Eq, Structural)]
pub struct MarkEdgeStats {
    /// The number of cell rows marked.
    pub rows_marked: usize,
    /// The number of column groups marked per row.
    pub column_groups: usize,
    /// The number of pixel bytes marked.
    pub bytes_marked: usize,
}

impl Default for MarkEdgeStats {
    fn default() -> (r: Self)
        ensures
            r == (MarkEdgeStats { rows_marked: 0, column_groups: 0, bytes_marked: 0 }),
    {
        MarkEdgeStats { rows_marked: 0, column_groups: 0, bytes_marked: 0 }
    }
}

/// A buffer with `n` bytes from `at` on marked.
pub open spec fn marked_span(s: Seq<u8>, at: int, n: int) -> Seq<u8> {
    Seq::new(
        s.len(),
        |j: int|
            if at <= j < at + n {
                marked(s[j])
            } else {
                s[j]
            },
    )
}

/// Mark the rows of a cell from row `row` on, until one does not fit.
pub open spec fn marked_rows(s: Seq<u8>, top: int, row: int, rows: int, bytes: int) -> Access
    decreases rows - row,
{
    let off = top + row * 0xb0;
    if row >= rows {
        Access { strip: s, overrun: None }
    } else if off + bytes > s.len() {
        Access { strip: s, overrun: Some(off + bytes) }
    } else {
        marked_rows(marked_span(s, off, bytes), top, row + 1, rows, bytes)
    }
}

/// Mark `n` bytes from `at` on.
fn mark_span(s: &mut [u8], at: usize, n: usize)
    requires
        at + n <= old(s)@.len(),
    ensures
        final(s)@ == marked_span(old(s)@, at as int, n as int),
{
    let len: usize = s.len();
    let mut i: usize = 0;
    while i < n
        invariant
            i <= n,
            len == s@.len(),
            len == old(s)@.len(),
            at + n <= len,
            forall|j: int|
                0 <= j < len ==> #[trigger] s@[j] == if at <= j < at + i {
                    marked(old(s)@[j])
                } else {
                    old(s)@[j]
                },
        decreases n - i,
    {
        let b: u8 = s[at + i];
        if b < EDGE_MARKER_BIT {
            s[at + i] = b + EDGE_MARKER_BIT;
        }
        i = i + 1;
    }
    assert(s@ =~= marked_span(old(s)@, at as int, n as int));
}

/// Execute the mark-edge body: set the edge marker of every byte of the
/// cell, leaving the low seven bits as they are. Stops at the first row
/// that does not fit.
pub fn mark_edge_cell(buffer: &mut [u8], geometry: MarkEdgeGeometry) -> (res: Result<
    MarkEdgeStats,
    MarkEdgeError,
>)
    requires
        accesses_fit(geometry.top_left_offset as int, geometry.width_dwords as int),
    ensures
        final(buffer)@.len() == old(buffer)@.len(),
        ({
            let g = geometry;
            let end = marked_rows(
                old(buffer)@,
                g.top_left_offset as int,
                0,
                g.row_count as int,
                4 * g.width_dwords,
            );
            if g.width_dwords == 0 {
                res == Err::<MarkEdgeStats, MarkEdgeError>(MarkEdgeError::ZeroWidth)
                    && final(buffer)@ == old(buffer)@
            } else if g.row_count == 0 || g.row_count > COPY_UPPER_ROW_COUNT {
                res == Err::<MarkEdgeStats, MarkEdgeError>(
                    MarkEdgeError::InvalidRowCount { supplied: g.row_count },
                ) && final(buffer)@ == old(buffer)@
            } else {
                &&& final(buffer)@ == end.strip
                &&& match res {
                    Ok(stats) => {
                        &&& end.overrun is None
                        &&& stats.rows_marked == g.row_count
                        &&& stats.column_groups == g.width_dwords
                        &&& stats.bytes_marked == g.row_count * (4 * g.width_dwords)
                    },
                    Err(e) => end.overrun is Some && e == (MarkEdgeError::OutOfBounds {
                        end: end.overrun->0 as usize,
                        buffer_len: old(buffer)@.len() as usize,
                    }),
                }
            }
        }),
{
    let rows: usize = geometry.row_count;
    let top: usize = geometry.top_left_offset;
    if geometry.width_dwords == 0 {
        return Err(MarkEdgeError::ZeroWidth);
    }
    if rows == 0 || rows > COPY_UPPER_ROW_COUNT {
        return Err(MarkEdgeError::InvalidRowCount { supplied: rows });
    }
    let len: usize = buffer.len();
    let bytes: usize = geometry.width_dwords * COPY_UPPER_COLUMN_GROUP_BYTES;
    let ghost end = marked_rows(buffer@, top as int, 0, rows as int, bytes as int);
    let mut row: usize = 0;
    while row < rows
        invariant
            row <= rows,
            rows == geometry.row_count,
            1 <= rows <= 4,
            geometry.width_dwords > 0,
            top == geometry.top_left_offset,
            bytes == 4 * geometry.width_dwords,
            accesses_fit(top as int, geometry.width_dwords as int),
            len == buffer@.len(),
            len == old(buffer)@.len(),
            end == marked_rows(old(buffer)@, top as int, 0, rows as int, bytes as int),
            end == marked_rows(buffer@, top as int, row as int, rows as int, bytes as int),
        decreases rows - row,
    {
        let off: usize = top + row * 0xb0;
        if off + bytes > len {
            return Err(MarkEdgeError::OutOfBounds { end: off + bytes, buffer_len: len });
        }
        mark_span(buffer, off, bytes);
        row = row + 1;
    }
    assert(rows * bytes <= 4 * bytes) by (nonlinear_arith)
        requires
            rows <= 4,
            bytes >= 0,
    ;
    Ok(
        MarkEdgeStats {
            rows_marked: rows,
            column_groups: geometry.width_dwords,
            bytes_marked: rows * bytes,
        },
    )
}

/// Marking a byte keeps its low seven bits, and marking it again changes
/// nothing.
pub proof fn marking_is_idempotent(b: u8)
    ensures
        marked(b) as int % 0x80 == b as int % 0x80,
        marked(b) >= 0x80,
        marked(marked(b)) == marked(b),
{
}

/// Marking a cell changes no byte but by its marker: every byte keeps its
/// low seven bits.
pub proof fn marked_cell_keeps_seven_bits(
    s: Seq<u8>,
    top: int,
    row: int,
    rows: int,
    bytes: int,
    j: int,
)
    requires
        0 <= j < s.len(),
    ensures
        marked_rows(s, top, row, rows, bytes).strip.len() == s.len(),
        marked_rows(s, top, row, rows, bytes).strip[j] as int % 0x80 == s[j] as int % 0x80,
        marked_rows(s, top, row, rows, bytes).strip[j] == s[j] || marked_rows(
            s,
            top,
            row,
            rows,
            bytes,
        ).strip[j] == marked(s[j]),
    decreases rows - row,
{
    let off = top + row * 0xb0;
    if row < rows && off + bytes <= s.len() {
        marked_cell_keeps_seven_bits(
            marked_span(s, off, bytes),
            top,
            row + 1,
            rows,
            bytes,
            j,
        );
    }
}

/// Every byte of a row of a cell is marked.
pub open spec fn row_is_marked(s: Seq<u8>, at: int, bytes: int) -> bool {
    &&& at + bytes <= s.len()
    &&& forall|j: int| at <= j < at + bytes ==> #[trigger] s[j] >= 0x80
}

/// Every row of a marked cell is marked, and marking the cell a second
/// time changes nothing.
pub proof fn marking_a_cell_twice_is_marking_it_once(s: Seq<u8>, top: int, rows: int, bytes: int)
    requires
        top >= 0,
        bytes > 0,
        marked_rows(s, top, 0, rows, bytes).overrun is None,
    ensures
        ({
            let once = marked_rows(s, top, 0, rows, bytes).strip;
            &&& forall|r: int|
                0 <= r < rows ==> #[trigger] row_is_marked(once, top + r * 0xb0, bytes)
            &&& marked_rows(once, top, 0, rows, bytes) == (Access { strip: once, overrun: None })
        }),
{
    let once = marked_rows(s, top, 0, rows, bytes).strip;
    assert forall|r: int| 0 <= r < rows implies #[trigger] row_is_marked(
        once,
        top + r * 0xb0,
        bytes,
    ) by {
        lemma_row_gets_marked(s, top, 0, rows, bytes, r);
    }
    lemma_marked_stays(once, top, 0, rows, bytes);
}

proof fn lemma_row_gets_marked(s: Seq<u8>, top: int, row: int, rows: int, bytes: int, r: int)
    requires
        top >= 0,
        bytes > 0,
        0 <= row <= r < rows,
        marked_rows(s, top, row, rows, bytes).overrun is None,
    ensures
        row_is_marked(marked_rows(s, top, row, rows, bytes).strip, top + r * 0xb0, bytes),
    decreases rows - row,
{
    let off = top + row * 0xb0;
    let next = marked_span(s, off, bytes);
    let end = marked_rows(next, top, row + 1, rows, bytes).strip;
    if r == row {
        marked_cell_keeps_seven_bits(next, top, row + 1, rows, bytes, off);
        assert forall|j: int| off <= j < off + bytes implies #[trigger] end[j] >= 0x80 by {
            marked_cell_keeps_seven_bits(next, top, row + 1, rows, bytes, j);
        }
    } else {
        lemma_row_gets_marked(next, top, row + 1, rows, bytes, r);
    }
}

proof fn lemma_marked_stays(s: Seq<u8>, top: int, row: int, rows: int, bytes: int)
    requires
        top >= 0,
        bytes > 0,
        row >= 0,
        forall|r: int| 0 <= r < rows ==> #[trigger] row_is_marked(s, top + r * 0xb0, bytes),
    ensures
        marked_rows(s, top, row, rows, bytes) == (Access { strip: s, overrun: None }),
    decreases rows - row,
{
    let off = top + row * 0xb0;
    if row < rows {
        assert(row_is_marked(s, off, bytes));
        assert(marked_span(s, off, bytes) =~= s);
        lemma_marked_stays(s, top, row + 1, rows, bytes);
    }
}

/// Copy-upper emits a cell identical to its upper neighbour: every byte of
/// the cell equals the byte of its column in the row above the cell, and
/// every byte outside the cell is unchanged.
pub proof fn copied_cell_equals_its_upper_neighbour(s: Seq<u8>, top: int, width: int, rows: int)
    requires
        top >= PREDICTOR_ROW_STRIDE,
        0 < 4 * width <= PREDICTOR_ROW_STRIDE,
        1 <= rows,
        copied_cell(s, top, 0, width, rows).overrun is None,
    ensures
        ({
            let end = copied_cell(s, top, 0, width, rows).strip;
            &&& end.len() == s.len()
            &&& forall|j: int|
                0 <= j < s.len() ==> #[trigger] end[j] == if in_cell(j, top, width, rows) {
                    s[top - PREDICTOR_ROW_STRIDE + (j - top) % 0xb0]
                } else {
                    s[j]
                }
        }),
{
    lemma_copied_from(s, s, top, 0, width, rows);
}

/// Byte `j` is one of the first `width` column groups of a cell.
pub open spec fn in_cell(j: int, top: int, width: int, rows: int) -> bool {
    top <= j && (j - top) / 0xb0 < rows && (j - top) % 0xb0 < 4 * width
}

proof fn lemma_copied_from(s: Seq<u8>, now: Seq<u8>, top: int, n: int, width: int, rows: int)
    requires
        top >= PREDICTOR_ROW_STRIDE,
        0 <= n <= width,
        4 * width <= PREDICTOR_ROW_STRIDE,
        1 <= rows,
        now.len() == s.len(),
        forall|j: int|
            0 <= j < s.len() ==> #[trigger] now[j] == if in_cell(j, top, n, rows) {
                s[top - PREDICTOR_ROW_STRIDE + (j - top) % 0xb0]
            } else {
                s[j]
            },
        copied_cell(now, top, n, width, rows).overrun is None,
    ensures
        ({
            let end = copied_cell(now, top, n, width, rows).strip;
            &&& end.len() == s.len()
            &&& forall|j: int|
                0 <= j < s.len() ==> #[trigger] end[j] == if in_cell(j, top, width, rows) {
                    s[top - PREDICTOR_ROW_STRIDE + (j - top) % 0xb0]
                } else {
                    s[j]
                }
        }),
    decreases width - n,
{
    if n < width {
        let at = top + 4 * n;
        let src = at - PREDICTOR_ROW_STRIDE;
        let v = dword_at(now, src);
        let group = copied_group(now, at, v, 0, rows);
        lemma_group(now, at, v, 0, rows);
        assert(now[src] == s[src] && now[src + 1] == s[src + 1] && now[src + 2] == s[src + 2]
            && now[src + 3] == s[src + 3]);
        assert forall|j: int| 0 <= j < s.len() implies #[trigger] group.strip[j] == if in_cell(
            j,
            top,
            n + 1,
            rows,
        ) {
            s[top - PREDICTOR_ROW_STRIDE + (j - top) % 0xb0]
        } else {
            s[j]
        } by {
            if at <= j && (j - at) / 0xb0 < rows && (j - at) % 0xb0 < 4 {
                let c = (j - at) % 0xb0;
                assert((j - top) % 0xb0 == 4 * n + c && (j - top) / 0xb0 == (j - at) / 0xb0);
                assert(group.strip[j] == now[src + c]);
            } else {
                assert(group.strip[j] == now[j]);
            }
        }
        lemma_copied_from(s, group.strip, top, n + 1, width, rows);
    }
}

proof fn lemma_group(now: Seq<u8>, at: int, v: int, row: int, rows: int)
    requires
        at >= 0,
        0 <= row <= rows,
        0 <= v <= u32::MAX,
        copied_group(now, at, v, row, rows).overrun is None,
    ensures
        ({
            let end = copied_group(now, at, v, row, rows).strip;
            &&& end.len() == now.len()
            &&& forall|j: int|
                0 <= j < now.len() ==> #[trigger] end[j] == if at + row * 0xb0 <= j && (j - at)
                    / 0xb0 < rows && (j - at) % 0xb0 < 4 {
                    byte_of(v, (j - at) % 0xb0)
                } else {
                    now[j]
                }
        }),
    decreases rows - row,
{
    if row < rows {
        let off = at + row * 0xb0;
        lemma_group(with_dword(now, off, v), at, v, row + 1, rows);
    }
}

} // verus!
