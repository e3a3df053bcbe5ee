//! The static-table per-cell executor: walks a cell's mode-byte stream,
//! carries out what needs the static dyad table alone, and reports where
//! the per-frame arena would be needed.
use super::entropy::{position_class, FbCounter, ModeByte, ModeByteKind, PositionClass, RleEscape};
use super::reconstruct::PREDICTOR_ROW_STRIDE;
use super::text::{decimal, padded_hex, push_decimal, push_padded_hex};
use super::vq::{apply_row_band_seed, biased_byte, seed_index, signed_byte, DyadDeltaTable};
use vstd::prelude::*;
use vstd::string::StringExecFns;

verus! {

/// Geometry of the cell the executor walks.
#[derive(Debug, Clone, Copy, PartialEq, Eq, Structural)]
pub struct CellReconstructGeometry {
    /// Cell width in dyad-pair positions (pixels / 4).
    pub width_dwords: usize,
    /// Number of rows the cell spans.
    pub source_rows: usize,
    /// Byte offset of the cell's top-left pixel within the strip buffer.
    pub top_left_offset: usize,
}

impl CellReconstructGeometry {
    /// Where position `(row, dword)` writes, at `per` output rows for one
    /// source row.
    pub open spec fn offset(self, per: int, row: int, dword: int) -> int {
        self.top_left_offset + row * (per * PREDICTOR_ROW_STRIDE) + 4 * dword
    }

    /// Where the last position of the cell writes.
    pub open spec fn last_offset(self, per: int) -> int {
        self.offset(per, self.source_rows - 1, self.width_dwords - 1)
    }

    /// The offset of every position of the cell fits a `usize`.
    pub open spec fn offsets_fit(self, per: int) -> bool {
        self.width_dwords > 0 && self.source_rows > 0 ==> self.last_offset(per) <= usize::MAX
    }
}

/// The position after `(row, dword)` in a cell of the given width.
pub open spec fn next_position(width: int, row: int, dword: int) -> (int, int) {
    if dword + 1 >= width {
        (row + 1, 0)
    } else {
        (row, dword + 1)
    }
}

/// One mode byte's effect.
#[derive(Debug, Clone, Copy, PartialEq, Eq, Structural)]
pub enum PositionEffect {
    /// A literal seeded the predictor slot one row above.
    RowBandSeed {
        /// The signed delta.
        delta: i8,
        /// The predictor-slot byte index that was written.
        predictor_slot: usize,
    },
    /// An escape skipped rows without emitting deltas.
    RowSkip {
        /// The escape.
        escape: RleEscape,
        /// Number of rows skipped.
        rows_skipped: usize,
    },
    /// A counted run of positions repeated the row above or marked it.
    FbRun {
        /// The counter of the run.
        decoded: FbCounter,
        /// The positions the run covered.
        positions: usize,
    },
}

/// How a cell's mode-byte walk finished.
#[derive(Debug, Clone, PartialEq, Eq)]
pub enum CellOutcome {
    /// Every position resolved; the effects in row-major order.
    Complete(Vec<PositionEffect>),
    /// The walk reached a literal with a non-zero high nibble, which
    /// addresses the per-frame arena, and stopped before it.
    DeferredArena {
        /// The mode byte the walk stopped at.
        mode_byte: u8,
        /// Its high nibble.
        high_nibble: u8,
        /// The source row.
        row: usize,
        /// The dyad column.
        dword: usize,
        /// The effects emitted before.
        emitted: Vec<PositionEffect>,
    },
    /// The walk hit a cell-terminating `0xFB`.
    Terminated {
        /// The raw counter byte.
        counter: u8,
        /// The effects emitted before.
        emitted: Vec<PositionEffect>,
    },
}

/// Errors of the static-table executor.
#[derive(Debug, Clone, Copy, PartialEq, Eq, Structural)]
pub enum CellReconstructError {
    /// `width_dwords` or `source_rows` is zero.
    ZeroDimension {
        /// `true` if `width_dwords == 0`.
        is_width: bool,
    },
    /// The mode-byte slice ended before the walk did.
    ByteStreamExhausted {
        /// The byte index the next read would have used.
        next_index: usize,
        /// The slice length.
        supplied: usize,
    },
    /// An escape at a position that faults it.
    EscapeFault {
        /// The faulting escape byte.
        escape: u8,
        /// The position class.
        position: PositionClass,
        /// The source row.
        row: usize,
        /// The dyad column.
        dword: usize,
    },
    /// A row-band seed fell outside the strip buffer.
    SeedWriteOutOfBounds {
        /// The write index whose predictor slot was out of range.
        write_index: usize,
        /// The strip buffer length.
        buffer_len: usize,
    },
}

/// The name of a position class.
pub open spec fn class_name(p: PositionClass) -> Seq<char> {
    match p {
        PositionClass::CellFirst => "CellFirst"@,
        PositionClass::RowFirst => "RowFirst"@,
        PositionClass::Continuation1 => "Continuation1"@,
        PositionClass::Continuation2 => "Continuation2"@,
        PositionClass::Continuation3 => "Continuation3"@,
    }
}

/// The name of a position class.
pub fn position_name(p: PositionClass) -> (r: &'static str)
    ensures
        r@ == class_name(p),
{
    match p {
        PositionClass::CellFirst => "CellFirst",
        PositionClass::RowFirst => "RowFirst",
        PositionClass::Continuation1 => "Continuation1",
        PositionClass::Continuation2 => "Continuation2",
        PositionClass::Continuation3 => "Continuation3",
    }
}

impl CellReconstructError {
    /// The message of the error.
    pub open spec fn text(self) -> Seq<char> {
        match self {
            CellReconstructError::ZeroDimension { is_width } => "spec/07 §1.2: cell "@ + (
            if is_width {
                "width"@
            } else {
                "source-row count"@
            }) + " is zero"@,
            CellReconstructError::ByteStreamExhausted { next_index, supplied } =>
                "spec/06 §1.2: mode-byte stream exhausted at index "@ + decimal(next_index as int)
                + " (len "@ + decimal(supplied as int) + ")"@,
            CellReconstructError::EscapeFault { escape, position, row, dword } =>
                "spec/06 §4.3: escape "@ + padded_hex(escape as int, 2)
                + " faults (error code 1) at "@ + class_name(position) + " (row "@ + decimal(
                row as int,
            ) + ", dword "@ + decimal(dword as int) + ")"@,
            CellReconstructError::SeedWriteOutOfBounds { write_index, buffer_len } =>
                "spec/07 §3.2: row-band seed at write index "@ + decimal(write_index as int)
                + " is outside the "@ + decimal(buffer_len as int) + "-byte strip buffer"@,
        }
    }

    /// The message of the error.
    pub fn message(&self) -> (r: String)
        ensures
            r@ == self.text(),
    {
        match self {
            CellReconstructError::ZeroDimension { is_width } => {
                let mut out = String::from_str("spec/07 §1.2: cell ");
                if *is_width {
                    out.append("width");
                } else {
                    out.append("source-row count");
                }
                out.append(" is zero");
                out
            },
            CellReconstructError::ByteStreamExhausted { next_index, supplied } => {
                let mut out = String::from_str("spec/06 §1.2: mode-byte stream exhausted at index ");
                push_decimal(&mut out, *next_index);
                out.append(" (len ");
                push_decimal(&mut out, *supplied);
                out.append(")");
                out
            },
            CellReconstructError::EscapeFault { escape, position, row, dword } => {
                let mut out = String::from_str("spec/06 §4.3: escape ");
                push_padded_hex(&mut out, *escape as usize, 2);
                out.append(" faults (error code 1) at ");
                out.append(position_name(*position));
                out.append(" (row ");
                push_decimal(&mut out, *row);
                out.append(", dword ");
                push_decimal(&mut out, *dword);
                out.append(")");
                out
            },
            CellReconstructError::SeedWriteOutOfBounds { write_index, buffer_len } => {
                let mut out = String::from_str("spec/07 §3.2: row-band seed at write index ");
                push_decimal(&mut out, *write_index);
                out.append(" is outside the ");
                push_decimal(&mut out, *buffer_len);
                out.append("-byte strip buffer");
                out
            },
        }
    }
}

/// How a static walk stops.
pub ghost enum StaticStop {
    Complete,
    Deferred { mode_byte: u8, row: int, dword: int },
    Terminated { counter: u8 },
    Failed(CellReconstructError),
}

/// Where a static walk ends.
pub ghost struct StaticEnd {
    pub strip: Seq<u8>,
    pub effects: Seq<PositionEffect>,
    pub stop: StaticStop,
}

/// The row-band seed of a write at `at`: the strip with the slot one row
/// above it seeded, and the effect; `None` where the strip has no such
/// slot.
pub open spec fn seeded(
    strip: Seq<u8>,
    table: Seq<u8>,
    at: int,
    high_nibble: int,
    row: int,
    dword: int,
) -> Option<
    (Seq<u8>, int, int),
> {
    let slot = at - PREDICTOR_ROW_STRIDE;
    let b = table[seed_index(high_nibble, row, dword)];
    if 0 <= slot < strip.len() {
        Some((strip.update(slot, biased_byte(b)), signed_byte(b), slot))
    } else {
        None
    }
}

/// The walk over a cell's mode bytes from byte `cursor` and position
/// `(row, dword)` on.
pub open spec fn static_walk(
    strip: Seq<u8>,
    g: CellReconstructGeometry,
    bytes: Seq<u8>,
    table: Seq<u8>,
    cursor: int,
    row: int,
    dword: int,
    effects: Seq<PositionEffect>,
) -> StaticEnd
    decreases bytes.len() - cursor,
{
    let w = g.width_dwords as int;
    if row >= g.source_rows {
        StaticEnd { strip, effects, stop: StaticStop::Complete }
    } else if cursor >= bytes.len() {
        StaticEnd { strip, effects, stop: StaticStop::Failed(exhausted(bytes, cursor)) }
    } else {
        match ModeByte::kind_of(bytes[cursor]) {
            ModeByteKind::Literal(lit) => if lit.high_nibble != 0 {
                StaticEnd {
                    strip,
                    effects,
                    stop: StaticStop::Deferred { mode_byte: bytes[cursor], row, dword },
                }
            } else {
                let at = g.offset(1, row, dword);
                match seeded(strip, table, at, 0, row, dword) {
                    None => StaticEnd {
                        strip,
                        effects,
                        stop: StaticStop::Failed(
                            CellReconstructError::SeedWriteOutOfBounds {
                                write_index: at as usize,
                                buffer_len: strip.len() as usize,
                            },
                        ),
                    },
                    Some((next, delta, slot)) => {
                        let (r, d) = next_position(w, row, dword);
                        static_walk(
                            next,
                            g,
                            bytes,
                            table,
                            cursor + 1,
                            r,
                            d,
                            effects.push(
                                PositionEffect::RowBandSeed {
                                    delta: delta as i8,
                                    predictor_slot: slot as usize,
                                },
                            ),
                        )
                    },
                }
            },
            ModeByteKind::Escape(escape) => if !escape.accepts(PositionClass::of(row, dword)) {
                StaticEnd {
                    strip,
                    effects,
                    stop: StaticStop::Failed(
                        CellReconstructError::EscapeFault {
                            escape: bytes[cursor],
                            position: PositionClass::of(row, dword),
                            row: row as usize,
                            dword: dword as usize,
                        },
                    ),
                }
            } else {
                match escape {
                    RleEscape::Ff => static_walk(
                        strip,
                        g,
                        bytes,
                        table,
                        cursor + 1,
                        row + 1,
                        0,
                        effects.push(PositionEffect::RowSkip { escape, rows_skipped: 1 }),
                    ),
                    RleEscape::Fe => static_walk(
                        strip,
                        g,
                        bytes,
                        table,
                        cursor + 1,
                        row + 2,
                        0,
                        effects.push(PositionEffect::RowSkip { escape, rows_skipped: 2 }),
                    ),
                    RleEscape::Fd => StaticEnd {
                        strip,
                        effects: effects.push(
                            PositionEffect::RowSkip {
                                escape,
                                rows_skipped: (g.source_rows - row) as usize,
                            },
                        ),
                        stop: StaticStop::Complete,
                    },
                    RleEscape::Fb => StaticEnd {
                        strip,
                        effects,
                        stop: if cursor + 1 < bytes.len() {
                            StaticStop::Terminated { counter: bytes[cursor + 1] }
                        } else {
                            StaticStop::Failed(exhausted(bytes, cursor + 1))
                        },
                    },
                    _ => StaticEnd { strip, effects, stop: StaticStop::Complete },
                }
            },
        }
    }
}

/// The error of a read past the end of the mode bytes.
pub open spec fn exhausted(bytes: Seq<u8>, cursor: int) -> CellReconstructError {
    CellReconstructError::ByteStreamExhausted {
        next_index: cursor as usize,
        supplied: bytes.len() as usize,
    }
}

/// A result says what a static walk's end says.
pub open spec fn reports(res: Result<CellOutcome, CellReconstructError>, end: StaticEnd) -> bool {
    match end.stop {
        StaticStop::Complete => res matches Ok(CellOutcome::Complete(e)) && e@ == end.effects,
        StaticStop::Deferred { mode_byte, row, dword } => res matches Ok(
            CellOutcome::DeferredArena { mode_byte: m, high_nibble: h, row: r, dword: d, emitted: e },
        ) && m == mode_byte && h == mode_byte / 16 && r == row && d == dword && e@ == end.effects,
        StaticStop::Terminated { counter } => res matches Ok(
            CellOutcome::Terminated { counter: c, emitted: e },
        ) && c == counter && e@ == end.effects,
        StaticStop::Failed(err) => res == Err::<CellOutcome, CellReconstructError>(err),
    }
}

/// Where position `(row, dword)` writes.
pub fn position_offset(
    g: CellReconstructGeometry,
    per: usize,
    row: usize,
    dword: usize,
) -> (r: usize)
    requires
        g.offsets_fit(per as int),
        1 <= per <= 2,
        row < g.source_rows,
        dword < g.width_dwords,
    ensures
        r == g.offset(per as int, row as int, dword as int),
        r <= g.last_offset(per as int),
{
    let stride: usize = per * PREDICTOR_ROW_STRIDE;
    proof {
        let last = g.source_rows - 1;
        assert(0 <= row * stride <= last * stride) by (nonlinear_arith)
            requires
                0 <= row <= last,
                stride >= 0,
        ;
    }
    g.top_left_offset + row * stride + 4 * dword
}

/// Drive one cell through the static-table executor.
///
/// A literal with high nibble 0 seeds the predictor slot above its
/// position from the static table; one with another high nibble defers to
/// the arena. `0xFF`, `0xFE` and `0xFD` skip one, two and all remaining
/// rows; `0xFB` reads its counter and terminates the cell; the other
/// escapes end the cell. An escape that its position does not accept is an
/// error.
pub fn reconstruct_cell_static(
    strip: &mut [u8],
    geometry: CellReconstructGeometry,
    mode_bytes: &[u8],
    table: &DyadDeltaTable,
) -> (res: Result<CellOutcome, CellReconstructError>)
    requires
        geometry.offsets_fit(1),
    ensures
        final(strip)@.len() == old(strip)@.len(),
        if geometry.width_dwords == 0 {
            res == Err::<CellOutcome, CellReconstructError>(
                CellReconstructError::ZeroDimension { is_width: true },
            ) && final(strip)@ == old(strip)@
        } else if geometry.source_rows == 0 {
            res == Err::<CellOutcome, CellReconstructError>(
                CellReconstructError::ZeroDimension { is_width: false },
            ) && final(strip)@ == old(strip)@
        } else {
            let end = static_walk(
                old(strip)@,
                geometry,
                mode_bytes@,
                table@,
                0,
                0,
                0,
                Seq::empty(),
            );
            reports(res, end) && final(strip)@ == end.strip
        },
{
    if geometry.width_dwords == 0 {
        return Err(CellReconstructError::ZeroDimension { is_width: true });
    }
    if geometry.source_rows == 0 {
        return Err(CellReconstructError::ZeroDimension { is_width: false });
    }
    let len: usize = strip.len();
    let rows: usize = geometry.source_rows;
    let mut effects: Vec<PositionEffect> = Vec::new();
    let mut cursor: usize = 0;
    let mut row: usize = 0;
    let mut dword: usize = 0;
    let ghost end = static_walk(
        strip@,
        geometry,
        mode_bytes@,
        table@,
        0,
        0,
        0,
        Seq::empty(),
    );
    assert(effects@ =~= Seq::empty());
    while row < rows
        invariant
            rows == geometry.source_rows,
            rows > 0,
            geometry.width_dwords > 0,
            geometry.offsets_fit(1),
            dword < geometry.width_dwords,
            row <= rows + 1,
            cursor <= mode_bytes@.len(),
            len == strip@.len(),
            len == old(strip)@.len(),
            end == static_walk(
                old(strip)@,
                geometry,
                mode_bytes@,
                table@,
                0,
                0,
                0,
                Seq::empty(),
            ),
            end == static_walk(
                strip@,
                geometry,
                mode_bytes@,
                table@,
                cursor as int,
                row as int,
                dword as int,
                effects@,
            ),
        decreases mode_bytes@.len() - cursor,
    {
        let at: usize = position_offset(geometry, 1, row, dword);
        proof {
            lemma_rows_bounded(geometry, 1);
        }
        let supplied: usize = mode_bytes.len();
        if cursor >= supplied {
            return Err(
                CellReconstructError::ByteStreamExhausted { next_index: cursor, supplied },
            );
        }
        let raw: u8 = mode_bytes[cursor];
        cursor = cursor + 1;
        let position = position_class(row, dword);
        match ModeByte::classify(raw).kind {
            ModeByteKind::Literal(lit) => {
                if lit.high_nibble != 0 {
                    return Ok(
                        CellOutcome::DeferredArena {
                            mode_byte: raw,
                            high_nibble: lit.high_nibble,
                            row,
                            dword,
                            emitted: effects,
                        },
                    );
                }
                match apply_row_band_seed(table, strip, at, lit.high_nibble, row, dword) {
                    Some(seed) => {
                        effects.push(
                            PositionEffect::RowBandSeed {
                                delta: seed.delta,
                                predictor_slot: seed.predictor_slot,
                            },
                        );
                    },
                    None => {
                        return Err(
                            CellReconstructError::SeedWriteOutOfBounds {
                                write_index: at,
                                buffer_len: len,
                            },
                        );
                    },
                }
                dword = dword + 1;
                if dword >= geometry.width_dwords {
                    dword = 0;
                    row = row + 1;
                }
            },
            ModeByteKind::Escape(escape) => {
                if !escape.accepted_at(position) {
                    return Err(
                        CellReconstructError::EscapeFault { escape: raw, position, row, dword },
                    );
                }
                match escape {
                    RleEscape::Ff => {
                        effects.push(PositionEffect::RowSkip { escape, rows_skipped: 1 });
                        row = row + 1;
                        dword = 0;
                    },
                    RleEscape::Fe => {
                        effects.push(PositionEffect::RowSkip { escape, rows_skipped: 2 });
                        row = row + 2;
                        dword = 0;
                    },
                    RleEscape::Fd => {
                        effects.push(PositionEffect::RowSkip { escape, rows_skipped: rows - row });
                        return Ok(CellOutcome::Complete(effects));
                    },
                    RleEscape::Fb => {
                        if cursor >= supplied {
                            return Err(
                                CellReconstructError::ByteStreamExhausted {
                                    next_index: cursor,
                                    supplied,
                                },
                            );
                        }
                        return Ok(
                            CellOutcome::Terminated { counter: mode_bytes[cursor], emitted: effects },
                        );
                    },
                    RleEscape::Fc | RleEscape::F8 | RleEscape::F9 | RleEscape::Fa => {
                        return Ok(CellOutcome::Complete(effects));
                    },
                }
            },
        }
    }
    Ok(CellOutcome::Complete(effects))
}

/// A cell whose offsets fit has a row count that leaves room above it.
pub proof fn lemma_rows_bounded(g: CellReconstructGeometry, per: int)
    requires
        g.offsets_fit(per),
        per >= 1,
        g.width_dwords > 0,
        g.source_rows > 0,
    ensures
        g.source_rows + 1 <= usize::MAX,
{
    let last = g.source_rows - 1;
    let stride = per * PREDICTOR_ROW_STRIDE;
    assert(2 * last <= last * stride) by (nonlinear_arith)
        requires
            last >= 0,
            stride >= 2,
    ;
}

} // verus!
