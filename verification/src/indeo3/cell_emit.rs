//! The in-cell predictor chain: drives one cell through the dyad-pair
//! arithmetic over a strip pixel buffer.
//!
//! The predictor of a row is the row just emitted above it, read back from
//! the buffer; above the buffer's first row it is the constant
//! [`TOP_OF_STRIP_PREDICTOR`].
use super::bytes::{le32, with_dword, write_dword};
use super::reconstruct::{
    emission, emit_variant, pack_predictor, DyadOutcome, EmittedRows, PREDICTOR_ROW_STRIDE,
    TOP_OF_STRIP_PREDICTOR,
};
use super::text::{decimal, push_decimal};
use super::vq::CellVariant;
use vstd::prelude::*;
use vstd::string::StringExecFns;

verus! {

/// The number of pixels one dyad-pair double word covers.
pub const PIXELS_PER_DYAD_DWORD: usize = 4;

/// The output rows of one source row.
pub open spec fn output_rows(variant: CellVariant) -> int {
    if variant == CellVariant::WithEdge {
        1
    } else {
        2
    }
}

/// The output rows the variant emits for one source row.
pub fn rows_per_source_row(variant: CellVariant) -> (r: usize)
    ensures
        r == output_rows(variant),
{
    match variant {
        CellVariant::WithEdge => 1,
        CellVariant::Plain | CellVariant::DoubledRow | CellVariant::FullyDoubled => 2,
    }
}

/// A variant emits as many rows as its destination advances by.
pub proof fn emission_fills_its_rows(
    variant: CellVariant,
    predictor: u32,
    primary: u32,
    secondary: u16,
)
    ensures
        emission(variant, predictor, primary, secondary).rows.count() == output_rows(variant),
{
}

/// The geometry of one cell.
#[derive(Debug, Clone, Copy, PartialEq, Eq, Structural)]
pub struct CellEmitGeometry {
    /// Cell width in dyad-pair double words (pixels / 4).
    pub width_dwords: usize,
    /// Number of source rows.
    pub source_rows: usize,
    /// Byte offset of the cell's top-left pixel within the strip buffer.
    pub top_left_offset: usize,
    /// The cell-shape variant.
    pub variant: CellVariant,
}

/// The delta entries of one position.
#[derive(Debug, Clone, Copy, PartialEq, Eq, Structural)]
pub struct DyadDelta {
    /// The primary-table double word.
    pub primary: u32,
    /// The secondary-table word, consulted only on a continuation.
    pub secondary: u16,
}

/// The errors of the in-cell predictor chain.
#[derive(Debug, Clone, Copy, PartialEq, Eq, Structural)]
pub enum CellEmitError {
    /// `width_dwords` or `source_rows` is zero.
    ZeroDimension {
        /// `true` if `width_dwords == 0`.
        is_width: bool,
    },
    /// The number of supplied deltas is not `width_dwords * source_rows`.
    DeltaCountMismatch {
        /// The expected entry count.
        expected: usize,
        /// The supplied entry count.
        supplied: usize,
    },
    /// A row's write region lands outside the strip buffer.
    WriteOutOfBounds {
        /// The exclusive end byte offset the store would require.
        write_end: usize,
        /// The buffer length.
        buffer_len: usize,
    },
    /// The dyad-pair add faulted.
    DyadFault {
        /// The source row of the faulting position.
        row: usize,
        /// The dyad column of the faulting position.
        dword: usize,
    },
}

impl CellEmitError {
    /// The message of the error.
    pub open spec fn text(self) -> Seq<char> {
        match self {
            CellEmitError::ZeroDimension { is_width } => "spec/07 §2.4: cell "@ + (if is_width {
                "width"@
            } else {
                "source-row count"@
            }) + " is zero"@,
            CellEmitError::DeltaCountMismatch { expected, supplied } => "spec/07 §2.4: dyad-delta count "@
                + decimal(supplied as int) + " != expected "@ + decimal(expected as int),
            CellEmitError::WriteOutOfBounds { write_end, buffer_len } => "spec/07 §1.2: row store end "@
                + decimal(write_end as int) + " exceeds strip buffer length "@ + decimal(
                buffer_len as int,
            ),
            CellEmitError::DyadFault { row, dword } =>
                "spec/07 §6.4: dyad-pair underflow fault (error code 2) at row "@ + decimal(
                row as int,
            ) + ", dword "@ + decimal(dword as int),
        }
    }

    /// The message of the error.
    pub fn message(&self) -> (r: String)
        ensures
            r@ == self.text(),
    {
        match self {
            CellEmitError::ZeroDimension { is_width } => {
                let mut out = String::from_str("spec/07 §2.4: cell ");
                if *is_width {
                    out.append("width");
                } else {
                    out.append("source-row count");
                }
                out.append(" is zero");
                out
            },
            CellEmitError::DeltaCountMismatch { expected, supplied } => {
                let mut out = String::from_str("spec/07 §2.4: dyad-delta count ");
                push_decimal(&mut out, *supplied);
                out.append(" != expected ");
                push_decimal(&mut out, *expected);
                out
            },
            CellEmitError::WriteOutOfBounds { write_end, buffer_len } => {
                let mut out = String::from_str("spec/07 §1.2: row store end ");
                push_decimal(&mut out, *write_end);
                out.append(" exceeds strip buffer length ");
                push_decimal(&mut out, *buffer_len);
                out
            },
            CellEmitError::DyadFault { row, dword } => {
                let mut out = String::from_str(
                    "spec/07 §6.4: dyad-pair underflow fault (error code 2) at row ",
                );
                push_decimal(&mut out, *row);
                out.append(", dword ");
                push_decimal(&mut out, *dword);
                out
            },
        }
    }
}

/// What driving a cell through the chain came to.
#[derive(Debug, Clone, Copy, PartialEq, Eq, Structural)]
pub struct CellEmitStats {
    /// The number of source rows processed.
    pub source_rows: usize,
    /// The number of output rows written.
    pub emitted_rows: usize,
    /// The number of positions that took the continuation path.
    pub continuation_bytes: usize,
}

impl Default for CellEmitStats {
    fn default() -> (r: Self)
        ensures
            r == (CellEmitStats { source_rows: 0, emitted_rows: 0, continuation_bytes: 0 }),
    {
        CellEmitStats { source_rows: 0, emitted_rows: 0, continuation_bytes: 0 }
    }
}

/// Predictor byte `i` of a write at `at`: the byte one row above it, or
/// the top-of-strip constant where the buffer does not hold it.
pub open spec fn predictor_byte(s: Seq<u8>, at: int, i: int) -> u8 {
    let j = at - PREDICTOR_ROW_STRIDE + i;
    if at >= PREDICTOR_ROW_STRIDE && j < s.len() {
        s[j]
    } else {
        TOP_OF_STRIP_PREDICTOR
    }
}

/// The predictor of a write at `at`.
pub open spec fn predictor_at(s: Seq<u8>, at: int) -> int {
    le32(
        predictor_byte(s, at, 0),
        predictor_byte(s, at, 1),
        predictor_byte(s, at, 2),
        predictor_byte(s, at, 3),
    )
}

/// The predictor double word of a write at `write_offset`.
pub fn predictor_dword(buffer: &[u8], write_offset: usize) -> (r: u32)
    ensures
        r == predictor_at(buffer@, write_offset as int),
{
    let n: usize = buffer.len();
    let mut bytes: [u8; 4] = [TOP_OF_STRIP_PREDICTOR; 4];
    if write_offset >= PREDICTOR_ROW_STRIDE {
        let at: usize = write_offset - PREDICTOR_ROW_STRIDE;
        let mut i: usize = 0;
        while i < 4
            invariant
                i <= 4,
                n == buffer@.len(),
                write_offset >= PREDICTOR_ROW_STRIDE,
                at == write_offset - PREDICTOR_ROW_STRIDE,
                forall|k: int|
                    0 <= k < i ==> #[trigger] bytes@[k] == predictor_byte(
                        buffer@,
                        write_offset as int,
                        k,
                    ),
                forall|k: int| i <= k < 4 ==> #[trigger] bytes@[k] == TOP_OF_STRIP_PREDICTOR,
            decreases 4 - i,
        {
            if n > i && at < n - i {
                bytes[i] = buffer[at + i];
            }
            i = i + 1;
        }
    }
    assert(forall|k: int|
        0 <= k < 4 ==> #[trigger] bytes@[k] == predictor_byte(buffer@, write_offset as int, k));
    pack_predictor(bytes)
}

/// The outcome of storing the rows of one position: the buffer, and the
/// end of the first row that does not fit.
pub ghost struct StoreEnd {
    pub strip: Seq<u8>,
    pub overrun: Option<int>,
}

/// Store the rows of a position, row by row, until one does not fit.
pub open spec fn stored_rows(s: Seq<u8>, at: int, rows: EmittedRows) -> StoreEnd {
    if at + 4 > s.len() {
        StoreEnd { strip: s, overrun: Some(at + 4) }
    } else {
        let one = with_dword(s, at, rows.first as int);
        match rows.second {
            None => StoreEnd { strip: one, overrun: None },
            Some(v) => {
                let below = at + PREDICTOR_ROW_STRIDE;
                if below + 4 > s.len() {
                    StoreEnd { strip: one, overrun: Some(below + 4) }
                } else {
                    StoreEnd { strip: with_dword(one, below, v as int), overrun: None }
                }
            },
        }
    }
}

/// Store the rows of a position; gives the end offset of the first row
/// that does not fit.
pub fn store_rows(s: &mut [u8], at: usize, rows: EmittedRows) -> (r: Result<(), usize>)
    requires
        at + (rows.count() - 1) * PREDICTOR_ROW_STRIDE + 4 <= usize::MAX,
    ensures
        final(s)@.len() == old(s)@.len(),
        ({
            let end = stored_rows(old(s)@, at as int, rows);
            &&& final(s)@ == end.strip
            &&& match r {
                Ok(_) => end.overrun is None,
                Err(e) => end.overrun == Some(e as int),
            }
        }),
{
    if at + 4 > s.len() {
        return Err(at + 4);
    }
    write_dword(s, at, rows.first);
    if let Some(v) = rows.second {
        let below: usize = at + PREDICTOR_ROW_STRIDE;
        if below + 4 > s.len() {
            return Err(below + 4);
        }
        write_dword(s, below, v);
    }
    Ok(())
}

/// The state of the chain.
pub ghost struct ChainEnd {
    pub strip: Seq<u8>,
    pub continuations: int,
    pub error: Option<CellEmitError>,
}

/// Where position `n` of a cell (row-major) writes.
pub open spec fn position_offset(g: CellEmitGeometry, n: int) -> int {
    g.top_left_offset + n / (g.width_dwords as int) * (output_rows(g.variant)
        * PREDICTOR_ROW_STRIDE) + n % (g.width_dwords as int) * 4
}

/// The chain over the positions of a cell from position `n` on, row by
/// row, left to right.
pub open spec fn chain(
    s: Seq<u8>,
    g: CellEmitGeometry,
    deltas: Seq<DyadDelta>,
    n: int,
    continuations: int,
) -> ChainEnd
    decreases deltas.len() - n,
{
    if n >= deltas.len() {
        ChainEnd { strip: s, continuations, error: None }
    } else {
        let w = g.width_dwords as int;
        let at = position_offset(g, n);
        let e = emission(
            g.variant,
            predictor_at(s, at) as u32,
            deltas[n].primary,
            deltas[n].secondary,
        );
        let end = stored_rows(s, at, e.rows);
        if e.outcome is Fault {
            ChainEnd {
                strip: s,
                continuations,
                error: Some(
                    CellEmitError::DyadFault { row: (n / w) as usize, dword: (n % w) as usize },
                ),
            }
        } else if end.overrun is Some {
            ChainEnd {
                strip: end.strip,
                continuations,
                error: Some(
                    CellEmitError::WriteOutOfBounds {
                        write_end: end.overrun->0 as usize,
                        buffer_len: s.len() as usize,
                    },
                ),
            }
        } else {
            chain(
                end.strip,
                g,
                deltas,
                n + 1,
                continuations + if e.outcome is Continuation {
                    1int
                } else {
                    0
                },
            )
        }
    }
}

/// The end of the last row that the chain stores fits a `usize`.
pub open spec fn chain_offsets_fit(g: CellEmitGeometry) -> bool {
    g.width_dwords > 0 && g.source_rows > 0 ==> g.top_left_offset + (g.source_rows
        * output_rows(g.variant) - 1) * PREDICTOR_ROW_STRIDE + 4 * g.width_dwords <= usize::MAX
}

/// Drive one cell through the in-cell predictor chain over a strip pixel
/// buffer, with one delta per position in row-major order.
pub fn emit_cell_chain(buffer: &mut [u8], geometry: CellEmitGeometry, deltas: &[DyadDelta]) -> (res:
    Result<CellEmitStats, CellEmitError>)
    requires
        geometry.width_dwords * geometry.source_rows <= usize::MAX,
        deltas@.len() == geometry.width_dwords * geometry.source_rows ==> chain_offsets_fit(
            geometry,
        ),
    ensures
        final(buffer)@.len() == old(buffer)@.len(),
        ({
            let g = geometry;
            let end = chain(old(buffer)@, g, deltas@, 0, 0);
            if g.width_dwords == 0 {
                res == Err::<CellEmitStats, CellEmitError>(
                    CellEmitError::ZeroDimension { is_width: true },
                ) && final(buffer)@ == old(buffer)@
            } else if g.source_rows == 0 {
                res == Err::<CellEmitStats, CellEmitError>(
                    CellEmitError::ZeroDimension { is_width: false },
                ) && final(buffer)@ == old(buffer)@
            } else if deltas@.len() != g.width_dwords * g.source_rows {
                res == Err::<CellEmitStats, CellEmitError>(
                    CellEmitError::DeltaCountMismatch {
                        expected: (g.width_dwords * g.source_rows) as usize,
                        supplied: deltas@.len() as usize,
                    },
                ) && final(buffer)@ == old(buffer)@
            } else {
                &&& final(buffer)@ == end.strip
                &&& match res {
                    Ok(stats) => {
                        &&& end.error is None
                        &&& stats.source_rows == g.source_rows
                        &&& stats.emitted_rows == g.source_rows * output_rows(g.variant)
                        &&& stats.continuation_bytes == end.continuations
                    },
                    Err(e) => end.error == Some(e),
                }
            }
        }),
{
    let w: usize = geometry.width_dwords;
    let rows: usize = geometry.source_rows;
    if w == 0 {
        return Err(CellEmitError::ZeroDimension { is_width: true });
    }
    if rows == 0 {
        return Err(CellEmitError::ZeroDimension { is_width: false });
    }
    let expected: usize = w * rows;
    if deltas.len() != expected {
        return Err(CellEmitError::DeltaCountMismatch { expected, supplied: deltas.len() });
    }
    let len: usize = buffer.len();
    let stride: usize = rows_per_source_row(geometry.variant) * PREDICTOR_ROW_STRIDE;
    let mut continuations: usize = 0;
    let mut row: usize = 0;
    let mut dword: usize = 0;
    let mut n: usize = 0;
    let mut row_offset: usize = geometry.top_left_offset;
    assert(0 * stride == 0 && 0 * w == 0) by (nonlinear_arith);
    while n < expected
        invariant
            w == geometry.width_dwords,
            rows == geometry.source_rows,
            w > 0,
            rows > 0,
            expected == w * rows,
            deltas@.len() == expected,
            len == buffer@.len(),
            len == old(buffer)@.len(),
            stride == output_rows(geometry.variant) * PREDICTOR_ROW_STRIDE,
            chain_offsets_fit(geometry),
            n <= expected,
            continuations <= n,
            dword < w,
            n == row * w + dword,
            row <= rows,
            row < rows ==> row_offset == geometry.top_left_offset + row * stride,
            chain(old(buffer)@, geometry, deltas@, 0, 0) == chain(
                buffer@,
                geometry,
                deltas@,
                n as int,
                continuations as int,
            ),
        decreases expected - n,
    {
        proof {
            lemma_row_and_column(n as int, row as int, dword as int, w as int, rows as int);
            lemma_row_stays_in_chain(geometry, row as int);
        }
        let at: usize = row_offset + dword * PIXELS_PER_DYAD_DWORD;
        assert(at == position_offset(geometry, n as int));
        let predictor: u32 = predictor_dword(buffer, at);
        let delta = deltas[n];
        let e = emit_variant(geometry.variant, predictor, delta.primary, delta.secondary);
        match e.outcome {
            DyadOutcome::Fault => {
                return Err(CellEmitError::DyadFault { row, dword });
            },
            _ => {},
        }
        match store_rows(buffer, at, e.rows) {
            Ok(_) => {},
            Err(write_end) => {
                return Err(CellEmitError::WriteOutOfBounds { write_end, buffer_len: len });
            },
        }
        match e.outcome {
            DyadOutcome::Continuation { pixels: _ } => {
                continuations = continuations + 1;
            },
            _ => {},
        }
        n = n + 1;
        dword = dword + 1;
        if dword == w {
            assert((row + 1) * w == row * w + w && (row + 1) * stride == row * stride + stride)
                by (nonlinear_arith);
            dword = 0;
            row = row + 1;
            if row < rows {
                proof {
                    lemma_row_stays_in_chain(geometry, row as int);
                }
                row_offset = row_offset + stride;
            }
        }
    }
    let per: usize = rows_per_source_row(geometry.variant);
    proof {
        lemma_row_stays_in_chain(geometry, rows - 1);
        assert(0 <= rows * per) by (nonlinear_arith);
    }
    Ok(
        CellEmitStats {
            source_rows: rows,
            emitted_rows: rows * per,
            continuation_bytes: continuations,
        },
    )
}

/// The last store of a row ends where the chain's offsets allow.
proof fn lemma_row_stays_in_chain(g: CellEmitGeometry, row: int)
    requires
        chain_offsets_fit(g),
        g.width_dwords > 0,
        0 <= row < g.source_rows,
    ensures
        0 <= row * (output_rows(g.variant) * PREDICTOR_ROW_STRIDE),
        g.top_left_offset + row * (output_rows(g.variant) * PREDICTOR_ROW_STRIDE) + 4
            * g.width_dwords + (output_rows(g.variant) - 1) * PREDICTOR_ROW_STRIDE <= usize::MAX,
        g.source_rows * output_rows(g.variant) <= usize::MAX,
{
    let rows = g.source_rows as int;
    let per = output_rows(g.variant);
    assert(0 <= row * (per * 0xb0) && row * (per * 0xb0) + (per - 1) * 0xb0 <= (rows * per - 1)
        * 0xb0 && rows * per - 1 <= (rows * per - 1) * 0xb0) by (nonlinear_arith)
        requires
            0 <= row < rows,
            per >= 1,
    ;
}

proof fn lemma_row_and_column(n: int, row: int, dword: int, w: int, rows: int)
    requires
        0 <= dword < w,
        0 <= row,
        n == row * w + dword,
        n < w * rows,
    ensures
        n / w == row,
        n % w == dword,
        row < rows,
{
    vstd::arithmetic::div_mod::lemma_fundamental_div_mod_converse(n, w, row, dword);
    assert(row < rows) by (nonlinear_arith)
        requires
            row * w + dword < w * rows,
            0 <= dword < w,
    ;
}

} // verus!
