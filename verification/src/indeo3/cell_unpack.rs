//! The arena-driven per-cell unpacker: a mode-byte stream drives arena
//! lookups, which drive pixel stores into a strip buffer.
//!
//! A literal is dispatched through its jump table. The canonical dyad
//! handlers seed the predictor slot from the static table, add the arena's
//! primary entry, take a continuation byte where the sum's sign bit asks
//! for one, and store the result in the shape of the cell's variant; other
//! handlers are reported, not carried out.
use super::bytes::{dword_at, read_dword, read_word, with_dword, word_at, write_dword};
use super::cell_emit::{
    output_rows, predictor_at, predictor_dword, rows_per_source_row, store_rows, stored_rows,
};
use super::cell_reconstruct::{
    class_name, lemma_rows_bounded, next_position, position_name, position_offset, seeded,
    CellReconstructGeometry, PositionEffect,
};
use super::entropy::{
    position_class, FbCounter, JumpTableEntry, LiteralMode, ModeByte, ModeByteKind, PositionClass,
    RleEscape, PRIMARY_TABLE_DISP, SECONDARY_TABLE_DISP,
};
use super::reconstruct::{
    dyad_sum, emission, emit_variant, DyadOutcome, EmittedRows, EDGE_MARKER_BIT,
    PREDICTOR_ROW_STRIDE,
};
use super::text::{decimal, hex, padded_hex, push_decimal, push_hex, push_padded_hex};
use super::vq::{apply_row_band_seed, CellVariant, DyadDeltaTable, VqArena, ARENA_LEN};
use vstd::prelude::*;
use vstd::string::StringExecFns;

verus! {

/// The two canonical literal-dyad handler addresses.
pub const CANONICAL_DYAD_HANDLERS: [u32; 2] = [0x1000_6c14, 0x1000_6c9c];

/// One canonical-dyad position's emission.
#[derive(Debug, Clone, Copy, PartialEq, Eq, Structural)]
pub struct DyadEmit {
    /// The literal mode byte.
    pub mode_byte: u8,
    /// The source row.
    pub row: usize,
    /// The dyad column.
    pub dword: usize,
    /// The static-table seed delta.
    pub seed_delta: i8,
    /// The last double word stored.
    pub pixels: u32,
    /// Number of rows stored.
    pub rows_written: usize,
    /// Whether a continuation byte was consumed.
    pub continuation: bool,
}

/// One position's effect.
#[derive(Debug, Clone, Copy, PartialEq, Eq, Structural)]
pub enum UnpackEffect {
    /// A canonical-dyad literal emitted pixels.
    Dyad(DyadEmit),
    /// An escape's effect.
    Static(PositionEffect),
}

/// How a cell's arena-driven walk finished.
#[derive(Debug, Clone, PartialEq, Eq)]
pub enum UnpackOutcome {
    /// Every position resolved.
    Complete(Vec<UnpackEffect>),
    /// The walk reached a literal whose handler is not carried out here,
    /// and stopped before it.
    DeferredHandler {
        /// The mode byte the walk stopped at.
        mode_byte: u8,
        /// The handler address, when pinned.
        handler_rva: Option<u32>,
        /// The source row.
        row: usize,
        /// The dyad column.
        dword: usize,
        /// The effects emitted before.
        emitted: Vec<UnpackEffect>,
    },
    /// Consumed by a carried next-cell-skip flag.
    SkippedByCarry,
}

/// One cell's unpacker run.
#[derive(Debug, Clone, PartialEq, Eq)]
pub struct UnpackRun {
    /// How the walk finished.
    pub outcome: UnpackOutcome,
    /// Bytes consumed from the mode-byte stream.
    pub bytes_consumed: usize,
    /// The next-cell-skip flag after this cell.
    pub next_cell_skip: bool,
}

/// Errors of the arena-driven unpacker.
#[derive(Debug, Clone, Copy, PartialEq, Eq, Structural)]
pub enum CellUnpackError {
    /// Zero width or zero rows.
    ZeroDimension {
        /// `true` if `width_dwords == 0`.
        is_width: bool,
    },
    /// The mode-byte stream ran out.
    ByteStreamExhausted {
        /// The byte index the next read would have used.
        next_index: usize,
        /// The stream length.
        supplied: usize,
    },
    /// An escape at a position that faults it.
    EscapeFault {
        /// The faulting escape byte.
        escape: u8,
        /// The position class.
        position: PositionClass,
        /// Source row.
        row: usize,
        /// Dyad column.
        dword: usize,
    },
    /// A literal mode byte indexed a fault slot.
    ModeByteFault {
        /// The faulting mode byte.
        mode_byte: u8,
        /// Source row.
        row: usize,
        /// Dyad column.
        dword: usize,
    },
    /// The low half's sign bit stayed set after the secondary add.
    DyadRangeFault {
        /// Source row.
        row: usize,
        /// Dyad column.
        dword: usize,
    },
    /// A row-band seed targeted a slot outside the strip.
    SeedWriteOutOfBounds {
        /// The write index.
        write_index: usize,
        /// The strip length.
        buffer_len: usize,
    },
    /// A store would exceed the strip buffer.
    StoreOutOfBounds {
        /// The exclusive end byte offset the store needed.
        write_end: usize,
        /// The strip length.
        buffer_len: usize,
    },
    /// A `0xFB` counter byte that starts no run.
    FbCounterInvalid {
        /// The rejected counter byte.
        counter: u8,
        /// Source row.
        row: usize,
        /// Dyad column.
        dword: usize,
    },
    /// An arena read fell outside the arena.
    ArenaReadOutOfBounds {
        /// The offending arena byte offset.
        offset: usize,
    },
}

impl CellUnpackError {
    /// The message of the error.
    pub open spec fn text(self) -> Seq<char> {
        match self {
            CellUnpackError::ZeroDimension { is_width } => "spec/07 §1.2: cell "@ + (if is_width {
                "width"@
            } else {
                "source-row count"@
            }) + " is zero"@,
            CellUnpackError::ByteStreamExhausted { next_index, supplied } =>
                "spec/06 §1.2: mode-byte stream exhausted at index "@ + decimal(next_index as int)
                + " (len "@ + decimal(supplied as int) + ")"@,
            CellUnpackError::EscapeFault { escape, position, row, dword } =>
                "spec/06 §4.3: escape "@ + padded_hex(escape as int, 2)
                + " faults (error code 1) at "@ + class_name(position) + " (row "@ + decimal(
                row as int,
            ) + ", dword "@ + decimal(dword as int) + ")"@,
            CellUnpackError::ModeByteFault { mode_byte, row, dword } =>
                "spec/06 §3.2: mode byte "@ + padded_hex(mode_byte as int, 2)
                + " indexes a fault slot (error code 1) at row "@ + decimal(row as int)
                + ", dword "@ + decimal(dword as int),
            CellUnpackError::DyadRangeFault { row, dword } =>
                "spec/07 §2.3: dyad delta out of representable range (error code 2) at row "@
                + decimal(row as int) + ", dword "@ + decimal(dword as int),
            CellUnpackError::SeedWriteOutOfBounds { write_index, buffer_len } =>
                "spec/07 §3.2: row-band seed at write index "@ + decimal(write_index as int)
                + " is outside the "@ + decimal(buffer_len as int) + "-byte strip buffer"@,
            CellUnpackError::StoreOutOfBounds { write_end, buffer_len } =>
                "spec/07 §2.2: variant store end "@ + decimal(write_end as int)
                + " exceeds the "@ + decimal(buffer_len as int) + "-byte strip buffer"@,
            CellUnpackError::FbCounterInvalid { counter, row, dword } =>
                "spec/06 §4.4: 0xFB counter "@ + padded_hex(counter as int, 2)
                + " is invalid (error code 1) at row "@ + decimal(row as int) + ", dword "@
                + decimal(dword as int),
            CellUnpackError::ArenaReadOutOfBounds { offset } =>
                "spec/07 §2.1: arena read at offset "@ + hex(offset as int)
                + " outside the 0x8020-byte arena"@,
        }
    }

    /// The message of the error.
    pub fn message(&self) -> (r: String)
        ensures
            r@ == self.text(),
    {
        match self {
            CellUnpackError::ZeroDimension { is_width } => {
                let mut out = String::from_str("spec/07 §1.2: cell ");
                if *is_width {
                    out.append("width");
                } else {
                    out.append("source-row count");
                }
                out.append(" is zero");
                out
            },
            CellUnpackError::ByteStreamExhausted { next_index, supplied } => {
                let mut out = String::from_str("spec/06 §1.2: mode-byte stream exhausted at index ");
                push_decimal(&mut out, *next_index);
                out.append(" (len ");
                push_decimal(&mut out, *supplied);
                out.append(")");
                out
            },
            CellUnpackError::EscapeFault { escape, position, row, dword } => {
                let mut out = String::from_str("spec/06 §4.3: escape ");
                push_padded_hex(&mut out, *escape as usize, 2);
                out.append(" faults (error code 1) at ");
                out.append(position_name(*position));
                out.append(" (row ");
                push_decimal(&mut out, *row);
                out.append(", dword ");
                push_decimal(&mut out, *dword);
                out.append(")");
                out
            },
            CellUnpackError::ModeByteFault { mode_byte, row, dword } => {
                let mut out = String::from_str("spec/06 §3.2: mode byte ");
                push_padded_hex(&mut out, *mode_byte as usize, 2);
                out.append(" indexes a fault slot (error code 1) at row ");
                push_decimal(&mut out, *row);
                out.append(", dword ");
                push_decimal(&mut out, *dword);
                out
            },
            CellUnpackError::DyadRangeFault { row, dword } => {
                let mut out = String::from_str(
                    "spec/07 §2.3: dyad delta out of representable range (error code 2) at row ",
                );
                push_decimal(&mut out, *row);
                out.append(", dword ");
                push_decimal(&mut out, *dword);
                out
            },
            CellUnpackError::SeedWriteOutOfBounds { write_index, buffer_len } => {
                let mut out = String::from_str("spec/07 §3.2: row-band seed at write index ");
                push_decimal(&mut out, *write_index);
                out.append(" is outside the ");
                push_decimal(&mut out, *buffer_len);
                out.append("-byte strip buffer");
                out
            },
            CellUnpackError::StoreOutOfBounds { write_end, buffer_len } => {
                let mut out = String::from_str("spec/07 §2.2: variant store end ");
                push_decimal(&mut out, *write_end);
                out.append(" exceeds the ");
                push_decimal(&mut out, *buffer_len);
                out.append("-byte strip buffer");
                out
            },
            CellUnpackError::FbCounterInvalid { counter, row, dword } => {
                let mut out = String::from_str("spec/06 §4.4: 0xFB counter ");
                push_padded_hex(&mut out, *counter as usize, 2);
                out.append(" is invalid (error code 1) at row ");
                push_decimal(&mut out, *row);
                out.append(", dword ");
                push_decimal(&mut out, *dword);
                out
            },
            CellUnpackError::ArenaReadOutOfBounds { offset } => {
                let mut out = String::from_str("spec/07 §2.1: arena read at offset ");
                push_hex(&mut out, *offset);
                out.append(" outside the 0x8020-byte arena");
                out
            },
        }
    }
}

/// The arena offset of a primary-table double word.
pub open spec fn primary_offset(low_nibble: int, col: int) -> int {
    low_nibble * 2048 + 4 * col + PRIMARY_TABLE_DISP
}

/// The arena offset of the secondary word a continuation byte names.
pub open spec fn secondary_offset(low_nibble: int, continuation: int) -> int {
    low_nibble * 2048 + 4 * continuation + SECONDARY_TABLE_DISP
}

/// The arena byte offset of a literal mode byte's primary-table double
/// word.
pub fn arena_primary_offset(low_nibble: u8, col: usize) -> (r: usize)
    requires
        primary_offset(low_nibble as int, col as int) <= usize::MAX,
    ensures
        r == primary_offset(low_nibble as int, col as int),
{
    low_nibble as usize * 2048 + 4 * col + PRIMARY_TABLE_DISP
}

/// The arena byte offset of the continuation path's secondary word.
pub fn arena_secondary_offset(low_nibble: u8, continuation_byte: u8) -> (r: usize)
    ensures
        r == secondary_offset(low_nibble as int, continuation_byte as int),
{
    low_nibble as usize * 2048 + 4 * (continuation_byte as usize) + SECONDARY_TABLE_DISP
}

/// Every secondary word a mode byte can name lies in the arena, and so do
/// the first 256 primary entries of every band.
pub proof fn bands_lie_in_the_arena(low_nibble: int, index: int)
    requires
        0 <= low_nibble < 16,
        0 <= index < 256,
    ensures
        secondary_offset(low_nibble, index) + 2 <= ARENA_LEN,
        primary_offset(low_nibble, index) + 4 <= ARENA_LEN,
{
}

/// Every offset that a walk at `per` output rows computes fits a `usize`:
/// the end of the last row it stores, and the arena offset of the last
/// position.
pub open spec fn walk_fits(g: CellReconstructGeometry, per: int) -> bool {
    g.width_dwords > 0 && g.source_rows > 0 ==> {
        &&& g.last_offset(per) + (per - 1) * PREDICTOR_ROW_STRIDE + 4 <= usize::MAX
        &&& primary_offset(15, g.width_dwords - 1) <= usize::MAX
    }
}

/// What an unpacker works on besides the strip.
pub ghost struct UnpackInput {
    pub g: CellReconstructGeometry,
    pub variant: CellVariant,
    pub bytes: Seq<u8>,
    pub table: Seq<u8>,
    pub arena: Seq<u8>,
}

/// What one dyad position comes to.
pub ghost struct DyadEnd {
    pub strip: Seq<u8>,
    pub cursor: int,
    pub result: Result<DyadEmit, CellUnpackError>,
}

/// The last row that is stored.
pub open spec fn last_row(rows: EmittedRows) -> u32 {
    match rows.second {
        Some(v) => v,
        None => rows.first,
    }
}

/// One canonical-dyad position: seed, primary add, optional continuation
/// byte at `cursor`, store.
#[verifier::opaque]
pub open spec fn dyad_at(
    strip: Seq<u8>,
    input: UnpackInput,
    lit: LiteralMode,
    row: int,
    dword: int,
    cursor: int,
) -> DyadEnd {
    let at = input.g.offset(output_rows(input.variant), row, dword);
    match seeded(strip, input.table, at, lit.high_nibble as int, row, dword) {
        None => DyadEnd {
            strip,
            cursor,
            result: Err(
                CellUnpackError::SeedWriteOutOfBounds {
                    write_index: at as usize,
                    buffer_len: strip.len() as usize,
                },
            ),
        },
        Some((s, delta, slot)) => {
            let off = primary_offset(lit.low_nibble as int, dword);
            let predictor = predictor_at(s, at) as u32;
            let primary = dword_at(input.arena, off) as u32;
            let continued = dyad_sum(predictor as int, primary as int) >= 0x8000_0000;
            let next = cursor + if continued {
                1int
            } else {
                0
            };
            let secondary = if continued {
                word_at(
                    input.arena,
                    secondary_offset(lit.low_nibble as int, input.bytes[cursor] as int),
                ) as u16
            } else {
                0
            };
            let e = emission(input.variant, predictor, primary, secondary);
            let stored = stored_rows(s, at, e.rows);
            if off + 4 > ARENA_LEN {
                DyadEnd {
                    strip: s,
                    cursor,
                    result: Err(CellUnpackError::ArenaReadOutOfBounds { offset: off as usize }),
                }
            } else if continued && cursor >= input.bytes.len() {
                DyadEnd { strip: s, cursor, result: Err(run_dry(input.bytes, cursor)) }
            } else if e.outcome is Fault {
                DyadEnd {
                    strip: s,
                    cursor: next,
                    result: Err(
                        CellUnpackError::DyadRangeFault {
                            row: row as usize,
                            dword: dword as usize,
                        },
                    ),
                }
            } else if stored.overrun is Some {
                DyadEnd {
                    strip: stored.strip,
                    cursor: next,
                    result: Err(
                        CellUnpackError::StoreOutOfBounds {
                            write_end: stored.overrun->0 as usize,
                            buffer_len: s.len() as usize,
                        },
                    ),
                }
            } else {
                DyadEnd {
                    strip: stored.strip,
                    cursor: next,
                    result: Ok(
                        DyadEmit {
                            mode_byte: lit.byte,
                            row: row as usize,
                            dword: dword as usize,
                            seed_delta: delta as i8,
                            pixels: last_row(e.rows),
                            rows_written: e.rows.count() as usize,
                            continuation: continued,
                        },
                    ),
                }
            }
        },
    }
}

/// The error of a read past the end of the mode bytes.
pub open spec fn run_dry(bytes: Seq<u8>, cursor: int) -> CellUnpackError {
    CellUnpackError::ByteStreamExhausted {
        next_index: cursor as usize,
        supplied: bytes.len() as usize,
    }
}

/// Carry out one canonical-dyad position.
fn dyad_position(
    strip: &mut [u8],
    geometry: CellReconstructGeometry,
    variant: CellVariant,
    lit: LiteralMode,
    row: usize,
    dword: usize,
    mode_bytes: &[u8],
    cursor: &mut usize,
    table: &DyadDeltaTable,
    arena: &VqArena,
) -> (res: Result<DyadEmit, CellUnpackError>)
    requires
        walk_fits(geometry, output_rows(variant)),
        row < geometry.source_rows,
        dword < geometry.width_dwords,
        lit.high_nibble < 16,
        lit.low_nibble < 16,
        *old(cursor) <= mode_bytes@.len(),
    ensures
        final(strip)@.len() == old(strip)@.len(),
        ({
            let end = dyad_at(
                old(strip)@,
                UnpackInput {
                    g: geometry,
                    variant,
                    bytes: mode_bytes@,
                    table: table@,
                    arena: arena@,
                },
                lit,
                row as int,
                dword as int,
                *old(cursor) as int,
            );
            &&& final(strip)@ == end.strip
            &&& res == end.result
            &&& res is Ok ==> *final(cursor) == end.cursor && *old(cursor) <= *final(cursor)
                <= mode_bytes@.len()
        }),
{
    proof {
        reveal(dyad_at);
    }
    let len: usize = strip.len();
    let per: usize = rows_per_source_row(variant);
    let at: usize = position_offset(geometry, per, row, dword);
    let delta: i8 = match apply_row_band_seed(table, strip, at, lit.high_nibble, row, dword) {
        Some(seed) => seed.delta,
        None => {
            return Err(CellUnpackError::SeedWriteOutOfBounds { write_index: at, buffer_len: len });
        },
    };
    let predictor: u32 = predictor_dword(strip, at);
    let off: usize = arena_primary_offset(lit.low_nibble, dword);
    if off > ARENA_LEN - 4 {
        return Err(CellUnpackError::ArenaReadOutOfBounds { offset: off });
    }
    let primary: u32 = read_dword(arena.as_bytes(), off);
    let continued: bool = (predictor as u64 + primary as u64) % 0x1_0000_0000 >= 0x8000_0000;
    let mut secondary: u16 = 0;
    if continued {
        if *cursor >= mode_bytes.len() {
            return Err(
                CellUnpackError::ByteStreamExhausted {
                    next_index: *cursor,
                    supplied: mode_bytes.len(),
                },
            );
        }
        let c: u8 = mode_bytes[*cursor];
        *cursor = *cursor + 1;
        let off: usize = arena_secondary_offset(lit.low_nibble, c);
        proof {
            bands_lie_in_the_arena(lit.low_nibble as int, c as int);
        }
        secondary = read_word(arena.as_bytes(), off);
    }
    let e = emit_variant(variant, predictor, primary, secondary);
    if let DyadOutcome::Fault = e.outcome {
        return Err(CellUnpackError::DyadRangeFault { row, dword });
    }
    match store_rows(strip, at, e.rows) {
        Ok(_) => {},
        Err(write_end) => {
            return Err(CellUnpackError::StoreOutOfBounds { write_end, buffer_len: len });
        },
    }
    let pixels: u32 = match e.rows.second {
        Some(v) => v,
        None => e.rows.first,
    };
    Ok(
        DyadEmit {
            mode_byte: lit.byte,
            row,
            dword,
            seed_delta: delta,
            pixels,
            rows_written: e.rows.len(),
            continuation: continued,
        },
    )
}

/// A byte with the edge marker set.
pub open spec fn marked(b: u8) -> u8 {
    if b < 0x80 {
        (b + 0x80) as u8
    } else {
        b
    }
}

/// A strip with the four bytes at `at` marked.
pub open spec fn with_marks(s: Seq<u8>, at: int) -> Seq<u8> {
    s.update(at, marked(s[at])).update(at + 1, marked(s[at + 1])).update(
        at + 2,
        marked(s[at + 2]),
    ).update(at + 3, marked(s[at + 3]))
}

/// What a run does at one row of a position: repeat the row above, or
/// mark.
pub open spec fn run_row(s: Seq<u8>, at: int, copy: bool) -> Seq<u8> {
    if copy {
        with_dword(s, at, predictor_at(s, at))
    } else {
        with_marks(s, at)
    }
}

/// Where a run ends: the strip, the position after it, the positions
/// covered, and the offset of a row that does not fit.
pub ghost struct RunEnd {
    pub strip: Seq<u8>,
    pub row: int,
    pub dword: int,
    pub positions: int,
    pub overrun: Option<int>,
}

/// A run of up to `left` positions from `(row, dword)` on, which stops at
/// the end of the cell.
#[verifier::opaque]
pub open spec fn run_from(
    s: Seq<u8>,
    g: CellReconstructGeometry,
    per: int,
    copy: bool,
    row: int,
    dword: int,
    left: int,
    done: int,
) -> RunEnd
    decreases left,
{
    if left <= 0 || row >= g.source_rows {
        RunEnd { strip: s, row, dword, positions: done, overrun: None }
    } else {
        let at = g.offset(per, row, dword);
        let below = at + PREDICTOR_ROW_STRIDE;
        if at + 4 > s.len() {
            RunEnd { strip: s, row, dword, positions: done, overrun: Some(at) }
        } else {
            let one = run_row(s, at, copy);
            if per > 1 && below + 4 > s.len() {
                RunEnd { strip: one, row, dword, positions: done, overrun: Some(below) }
            } else {
                let two = if per > 1 {
                    run_row(one, below, copy)
                } else {
                    one
                };
                let (r, d) = next_position(g.width_dwords as int, row, dword);
                run_from(two, g, per, copy, r, d, left - 1, done + 1)
            }
        }
    }
}

/// Repeat the row above, or mark, at one row of a position.
fn apply_run_row(s: &mut [u8], at: usize, copy: bool)
    requires
        at + 4 <= old(s)@.len(),
    ensures
        final(s)@ == run_row(old(s)@, at as int, copy),
        final(s)@.len() == old(s)@.len(),
{
    let n: usize = s.len();
    if copy {
        let v: u32 = predictor_dword(s, at);
        write_dword(s, at, v);
    } else {
        mark_byte(s, at);
        mark_byte(s, at + 1);
        mark_byte(s, at + 2);
        mark_byte(s, at + 3);
    }
}

/// Set the edge marker of one byte.
fn mark_byte(s: &mut [u8], at: usize)
    requires
        at < old(s)@.len(),
    ensures
        final(s)@ == old(s)@.update(at as int, marked(old(s)@[at as int])),
{
    let b: u8 = s[at];
    if b < EDGE_MARKER_BIT {
        s[at] = b + EDGE_MARKER_BIT;
    } else {
        assert(s@ =~= old(s)@.update(at as int, marked(old(s)@[at as int])));
    }
}

/// Carry out a counted run from `(row, dword)` on; gives the positions it
/// covered, or the offset of a row that does not fit.
fn fb_run(
    strip: &mut [u8],
    geometry: CellReconstructGeometry,
    row: &mut usize,
    dword: &mut usize,
    per: usize,
    decoded: FbCounter,
) -> (res: Result<usize, usize>)
    requires
        1 <= per <= 2,
        walk_fits(geometry, per as int),
        *old(row) < geometry.source_rows,
        *old(dword) < geometry.width_dwords,
        1 <= decoded.cells_to_skip,
    ensures
        final(strip)@.len() == old(strip)@.len(),
        ({
            let end = run_from(
                old(strip)@,
                geometry,
                per as int,
                decoded.copy_from_reference,
                *old(row) as int,
                *old(dword) as int,
                decoded.cells_to_skip - 1,
                0,
            );
            &&& final(strip)@ == end.strip
            &&& match res {
                Ok(n) => {
                    &&& end.overrun is None
                    &&& n == end.positions
                    &&& *final(row) == end.row
                    &&& *final(dword) == end.dword
                    &&& *final(row) <= geometry.source_rows
                    &&& *final(dword) < geometry.width_dwords
                },
                Err(at) => end.overrun == Some(at as int) && at + 4 <= usize::MAX,
            }
        }),
{
    let len: usize = strip.len();
    let copy: bool = decoded.copy_from_reference;
    let total: usize = decoded.cells_to_skip as usize - 1;
    let mut left: usize = total;
    proof {
        reveal(run_from);
    }
    let ghost end = run_from(
        strip@,
        geometry,
        per as int,
        copy,
        *row as int,
        *dword as int,
        left as int,
        0,
    );
    while left > 0 && *row < geometry.source_rows
        invariant
            1 <= per <= 2,
            walk_fits(geometry, per as int),
            *row <= geometry.source_rows,
            *dword < geometry.width_dwords,
            left <= total,
            copy == decoded.copy_from_reference,
            total == decoded.cells_to_skip - 1,
            len == strip@.len(),
            len == old(strip)@.len(),
            end == run_from(
                old(strip)@,
                geometry,
                per as int,
                copy,
                *old(row) as int,
                *old(dword) as int,
                total as int,
                0,
            ),
            end == run_from(
                strip@,
                geometry,
                per as int,
                copy,
                *row as int,
                *dword as int,
                left as int,
                total - left,
            ),
        decreases left,
    {
        proof {
            reveal(run_from);
        }
        let at: usize = position_offset(geometry, per, *row, *dword);
        if at + 4 > len {
            return Err(at);
        }
        apply_run_row(strip, at, copy);
        if per > 1 {
            let below: usize = at + PREDICTOR_ROW_STRIDE;
            if below + 4 > len {
                return Err(below);
            }
            apply_run_row(strip, below, copy);
        }
        *dword = *dword + 1;
        if *dword >= geometry.width_dwords {
            *dword = 0;
            *row = *row + 1;
        }
        left = left - 1;
    }
    Ok(total - left)
}

/// How an unpacker walk stops.
pub ghost enum UnpackStop {
    Complete { next_cell_skip: bool },
    Deferred { mode_byte: u8, handler_rva: Option<u32>, row: int, dword: int },
    Failed(CellUnpackError),
}

/// Where an unpacker walk ends.
pub ghost struct UnpackEnd {
    pub strip: Seq<u8>,
    pub effects: Seq<UnpackEffect>,
    pub cursor: int,
    pub stop: UnpackStop,
}

/// A slot that routes to one of the canonical dyad handlers.
pub open spec fn is_canonical(slot: JumpTableEntry) -> bool {
    slot == JumpTableEntry::Handler(0x1000_6c14) || slot == JumpTableEntry::Handler(0x1000_6c9c)
}

/// The walk over a cell's mode bytes from byte `cursor` and position
/// `(row, dword)` on.
pub open spec fn unpack_walk(
    strip: Seq<u8>,
    input: UnpackInput,
    cursor: int,
    row: int,
    dword: int,
    effects: Seq<UnpackEffect>,
) -> UnpackEnd
    decreases input.bytes.len() - cursor,
{
    proof {
        reveal(dyad_at);
    }
    let w = input.g.width_dwords as int;
    if row >= input.g.source_rows {
        unpack_complete(strip, effects, cursor, false)
    } else if cursor >= input.bytes.len() {
        unpack_failed(strip, effects, cursor, run_dry(input.bytes, cursor))
    } else {
        match ModeByte::kind_of(input.bytes[cursor]) {
            ModeByteKind::Literal(lit) => {
                let slot = lit.table().slot(lit.high_nibble as int);
                let end = dyad_at(strip, input, lit, row, dword, cursor + 1);
                if slot is Fault {
                    unpack_failed(
                        strip,
                        effects,
                        cursor,
                        CellUnpackError::ModeByteFault {
                            mode_byte: input.bytes[cursor],
                            row: row as usize,
                            dword: dword as usize,
                        },
                    )
                } else if !is_canonical(slot) {
                    UnpackEnd {
                        strip,
                        effects,
                        cursor,
                        stop: UnpackStop::Deferred {
                            mode_byte: input.bytes[cursor],
                            handler_rva: slot.handler(),
                            row,
                            dword,
                        },
                    }
                } else {
                    match end.result {
                        Err(e) => unpack_failed(end.strip, effects, cursor, e),
                        Ok(emit) => {
                            let (r, d) = next_position(w, row, dword);
                            unpack_walk(
                                end.strip,
                                input,
                                end.cursor,
                                r,
                                d,
                                effects.push(UnpackEffect::Dyad(emit)),
                            )
                        },
                    }
                }
            },
            ModeByteKind::Escape(escape) => if !escape.accepts(PositionClass::of(row, dword)) {
                unpack_failed(
                    strip,
                    effects,
                    cursor,
                    CellUnpackError::EscapeFault {
                        escape: input.bytes[cursor],
                        position: PositionClass::of(row, dword),
                        row: row as usize,
                        dword: dword as usize,
                    },
                )
            } else {
                match escape {
                    RleEscape::Ff => unpack_walk(
                        strip,
                        input,
                        cursor + 1,
                        row + 1,
                        0,
                        effects.push(row_skip(escape, 1)),
                    ),
                    RleEscape::Fe => unpack_walk(
                        strip,
                        input,
                        cursor + 1,
                        row + 2,
                        0,
                        effects.push(row_skip(escape, 2)),
                    ),
                    RleEscape::Fd => unpack_complete(
                        strip,
                        effects.push(row_skip(escape, input.g.source_rows - row)),
                        cursor + 1,
                        false,
                    ),
                    RleEscape::Fb => if cursor + 1 >= input.bytes.len() {
                        unpack_failed(strip, effects, cursor, run_dry(input.bytes, cursor + 1))
                    } else {
                        let counter = input.bytes[cursor + 1];
                        let run = run_from(
                            strip,
                            input.g,
                            output_rows(input.variant),
                            FbCounter::of(counter).copy_from_reference,
                            row,
                            dword,
                            counter as int % 32,
                            0,
                        );
                        if !FbCounter::of(counter).starts_run() {
                            unpack_failed(
                                strip,
                                effects,
                                cursor,
                                CellUnpackError::FbCounterInvalid {
                                    counter,
                                    row: row as usize,
                                    dword: dword as usize,
                                },
                            )
                        } else if run.overrun is Some {
                            unpack_failed(
                                run.strip,
                                effects,
                                cursor,
                                CellUnpackError::StoreOutOfBounds {
                                    write_end: (run.overrun->0 + 4) as usize,
                                    buffer_len: strip.len() as usize,
                                },
                            )
                        } else {
                            unpack_walk(
                                run.strip,
                                input,
                                cursor + 2,
                                run.row,
                                run.dword,
                                effects.push(
                                    UnpackEffect::Static(
                                        PositionEffect::FbRun {
                                            decoded: FbCounter::of(counter),
                                            positions: run.positions as usize,
                                        },
                                    ),
                                ),
                            )
                        }
                    },
                    RleEscape::Fc => unpack_complete(strip, effects, cursor + 1, true),
                    RleEscape::F9 => unpack_complete(strip, effects, cursor + 1, true),
                    _ => unpack_complete(strip, effects, cursor + 1, false),
                }
            },
        }
    }
}

/// The effect of a row skip.
pub open spec fn row_skip(escape: RleEscape, rows: int) -> UnpackEffect {
    UnpackEffect::Static(PositionEffect::RowSkip { escape, rows_skipped: rows as usize })
}

/// A walk that is complete.
pub open spec fn unpack_complete(
    strip: Seq<u8>,
    effects: Seq<UnpackEffect>,
    cursor: int,
    next_cell_skip: bool,
) -> UnpackEnd {
    UnpackEnd { strip, effects, cursor, stop: UnpackStop::Complete { next_cell_skip } }
}

/// A walk that failed.
pub open spec fn unpack_failed(
    strip: Seq<u8>,
    effects: Seq<UnpackEffect>,
    cursor: int,
    error: CellUnpackError,
) -> UnpackEnd {
    UnpackEnd { strip, effects, cursor, stop: UnpackStop::Failed(error) }
}

/// A result says what an unpacker walk's end says.
pub open spec fn unpack_reports(res: Result<UnpackRun, CellUnpackError>, end: UnpackEnd) -> bool {
    match end.stop {
        UnpackStop::Complete { next_cell_skip } => res matches Ok(run) && run.outcome matches UnpackOutcome::Complete(
            e,
        ) && e@ == end.effects && run.bytes_consumed == end.cursor && run.next_cell_skip
            == next_cell_skip,
        UnpackStop::Deferred { mode_byte, handler_rva, row, dword } => res matches Ok(run)
            && run.outcome matches UnpackOutcome::DeferredHandler {
            mode_byte: m,
            handler_rva: h,
            row: r,
            dword: d,
            emitted: e,
        } && m == mode_byte && h == handler_rva && r == row && d == dword && e@ == end.effects
            && run.bytes_consumed == end.cursor && !run.next_cell_skip,
        UnpackStop::Failed(err) => res == Err::<UnpackRun, CellUnpackError>(err),
    }
}

/// Drive one cell through the arena-driven unpacker.
pub fn unpack_cell(
    strip: &mut [u8],
    geometry: CellReconstructGeometry,
    variant: CellVariant,
    mode_bytes: &[u8],
    table: &DyadDeltaTable,
    arena: &VqArena,
    carry_in: bool,
) -> (res: Result<UnpackRun, CellUnpackError>)
    requires
        !carry_in ==> walk_fits(geometry, output_rows(variant)),
    ensures
        final(strip)@.len() == old(strip)@.len(),
        if geometry.width_dwords == 0 {
            res == Err::<UnpackRun, CellUnpackError>(
                CellUnpackError::ZeroDimension { is_width: true },
            ) && final(strip)@ == old(strip)@
        } else if geometry.source_rows == 0 {
            res == Err::<UnpackRun, CellUnpackError>(
                CellUnpackError::ZeroDimension { is_width: false },
            ) && final(strip)@ == old(strip)@
        } else if carry_in {
            res == Ok::<UnpackRun, CellUnpackError>(
                UnpackRun {
                    outcome: UnpackOutcome::SkippedByCarry,
                    bytes_consumed: 0,
                    next_cell_skip: false,
                },
            ) && final(strip)@ == old(strip)@
        } else {
            let end = unpack_walk(
                old(strip)@,
                UnpackInput {
                    g: geometry,
                    variant,
                    bytes: mode_bytes@,
                    table: table@,
                    arena: arena@,
                },
                0,
                0,
                0,
                Seq::empty(),
            );
            unpack_reports(res, end) && final(strip)@ == end.strip
        },
{
    if geometry.width_dwords == 0 {
        return Err(CellUnpackError::ZeroDimension { is_width: true });
    }
    if geometry.source_rows == 0 {
        return Err(CellUnpackError::ZeroDimension { is_width: false });
    }
    if carry_in {
        return Ok(
            UnpackRun {
                outcome: UnpackOutcome::SkippedByCarry,
                bytes_consumed: 0,
                next_cell_skip: false,
            },
        );
    }
    let len: usize = strip.len();
    let supplied: usize = mode_bytes.len();
    let rows: usize = geometry.source_rows;
    let per: usize = rows_per_source_row(variant);
    let mut effects: Vec<UnpackEffect> = Vec::new();
    let mut cursor: usize = 0;
    let mut row: usize = 0;
    let mut dword: usize = 0;
    let ghost input = UnpackInput {
        g: geometry,
        variant,
        bytes: mode_bytes@,
        table: table@,
        arena: arena@,
    };
    let ghost end = unpack_walk(strip@, input, 0, 0, 0, Seq::empty());
    assert(effects@ =~= Seq::empty());
    while row < rows
        invariant
            !carry_in,
            rows == geometry.source_rows,
            rows > 0,
            geometry.width_dwords > 0,
            per == output_rows(variant),
            walk_fits(geometry, per as int),
            dword < geometry.width_dwords,
            row <= rows + 1,
            supplied == mode_bytes@.len(),
            cursor <= supplied,
            len == strip@.len(),
            len == old(strip)@.len(),
            input == (UnpackInput {
                g: geometry,
                variant,
                bytes: mode_bytes@,
                table: table@,
                arena: arena@,
            }),
            end == unpack_walk(old(strip)@, input, 0, 0, 0, Seq::empty()),
            end == unpack_walk(
                strip@,
                input,
                cursor as int,
                row as int,
                dword as int,
                effects@,
            ),
        decreases supplied - cursor,
    {
        proof {
            lemma_rows_bounded(geometry, per as int);
        }
        if cursor >= supplied {
            return Err(CellUnpackError::ByteStreamExhausted { next_index: cursor, supplied });
        }
        let raw: u8 = mode_bytes[cursor];
        let start: usize = cursor;
        cursor = cursor + 1;
        let position = position_class(row, dword);
        match ModeByte::classify(raw).kind {
            ModeByteKind::Literal(lit) => {
                let entry = lit.dispatch_entry();
                if entry.is_fault() {
                    return Err(CellUnpackError::ModeByteFault { mode_byte: raw, row, dword });
                }
                let rva = entry.handler_rva();
                let canonical: bool = match rva {
                    Some(v) => v == CANONICAL_DYAD_HANDLERS[0] || v == CANONICAL_DYAD_HANDLERS[1],
                    None => false,
                };
                if !canonical {
                    return Ok(
                        UnpackRun {
                            outcome: UnpackOutcome::DeferredHandler {
                                mode_byte: raw,
                                handler_rva: rva,
                                row,
                                dword,
                                emitted: effects,
                            },
                            bytes_consumed: start,
                            next_cell_skip: false,
                        },
                    );
                }
                match dyad_position(
                    strip,
                    geometry,
                    variant,
                    lit,
                    row,
                    dword,
                    mode_bytes,
                    &mut cursor,
                    table,
                    arena,
                ) {
                    Ok(emit) => effects.push(UnpackEffect::Dyad(emit)),
                    Err(e) => return Err(e),
                }
                dword = dword + 1;
                if dword >= geometry.width_dwords {
                    dword = 0;
                    row = row + 1;
                }
            },
            ModeByteKind::Escape(escape) => {
                if !escape.accepted_at(position) {
                    return Err(CellUnpackError::EscapeFault { escape: raw, position, row, dword });
                }
                match escape {
                    RleEscape::Ff => {
                        effects.push(
                            UnpackEffect::Static(
                                PositionEffect::RowSkip { escape, rows_skipped: 1 },
                            ),
                        );
                        row = row + 1;
                        dword = 0;
                    },
                    RleEscape::Fe => {
                        effects.push(
                            UnpackEffect::Static(
                                PositionEffect::RowSkip { escape, rows_skipped: 2 },
                            ),
                        );
                        row = row + 2;
                        dword = 0;
                    },
                    RleEscape::Fd => {
                        effects.push(
                            UnpackEffect::Static(
                                PositionEffect::RowSkip { escape, rows_skipped: rows - row },
                            ),
                        );
                        return Ok(
                            UnpackRun {
                                outcome: UnpackOutcome::Complete(effects),
                                bytes_consumed: cursor,
                                next_cell_skip: false,
                            },
                        );
                    },
                    RleEscape::Fb => {
                        if cursor >= supplied {
                            return Err(
                                CellUnpackError::ByteStreamExhausted {
                                    next_index: cursor,
                                    supplied,
                                },
                            );
                        }
                        let counter: u8 = mode_bytes[cursor];
                        cursor = cursor + 1;
                        let decoded = FbCounter::decode(counter);
                        if !decoded.is_valid() {
                            return Err(CellUnpackError::FbCounterInvalid { counter, row, dword });
                        }
                        match fb_run(strip, geometry, &mut row, &mut dword, per, decoded) {
                            Ok(positions) => effects.push(
                                UnpackEffect::Static(PositionEffect::FbRun { decoded, positions }),
                            ),
                            Err(at) => {
                                return Err(
                                    CellUnpackError::StoreOutOfBounds {
                                        write_end: at + 4,
                                        buffer_len: len,
                                    },
                                );
                            },
                        }
                    },
                    RleEscape::Fc | RleEscape::F9 => {
                        return Ok(
                            UnpackRun {
                                outcome: UnpackOutcome::Complete(effects),
                                bytes_consumed: cursor,
                                next_cell_skip: true,
                            },
                        );
                    },
                    RleEscape::F8 | RleEscape::Fa => {
                        return Ok(
                            UnpackRun {
                                outcome: UnpackOutcome::Complete(effects),
                                bytes_consumed: cursor,
                                next_cell_skip: false,
                            },
                        );
                    },
                }
            },
        }
    }
    Ok(
        UnpackRun {
            outcome: UnpackOutcome::Complete(effects),
            bytes_consumed: cursor,
            next_cell_skip: false,
        },
    )
}

/// A cell's walk never reads past its mode bytes, and what it consumes
/// can be taken off the stream before the next cell.
pub proof fn walk_stays_in_its_bytes(
    strip: Seq<u8>,
    input: UnpackInput,
    cursor: int,
    row: int,
    dword: int,
    effects: Seq<UnpackEffect>,
)
    requires
        0 <= cursor <= input.bytes.len(),
    ensures
        cursor <= unpack_walk(strip, input, cursor, row, dword, effects).cursor
            <= input.bytes.len(),
    decreases input.bytes.len() - cursor,
{
    if row < input.g.source_rows && cursor < input.bytes.len() {
        match ModeByte::kind_of(input.bytes[cursor]) {
            ModeByteKind::Literal(lit) => {
                reveal(dyad_at);
                let end = dyad_at(strip, input, lit, row, dword, cursor + 1);
                if let Ok(emit) = end.result {
                    let (r, d) = next_position(input.g.width_dwords as int, row, dword);
                    walk_stays_in_its_bytes(
                        end.strip,
                        input,
                        end.cursor,
                        r,
                        d,
                        effects.push(UnpackEffect::Dyad(emit)),
                    );
                }
            },
            ModeByteKind::Escape(escape) => {
                walk_stays_in_its_bytes(
                    strip,
                    input,
                    cursor + 1,
                    row + 1,
                    0,
                    effects.push(row_skip(escape, 1)),
                );
                walk_stays_in_its_bytes(
                    strip,
                    input,
                    cursor + 1,
                    row + 2,
                    0,
                    effects.push(row_skip(escape, 2)),
                );
                if cursor + 1 < input.bytes.len() {
                    let counter = input.bytes[cursor + 1];
                    let run = run_from(
                        strip,
                        input.g,
                        output_rows(input.variant),
                        FbCounter::of(counter).copy_from_reference,
                        row,
                        dword,
                        counter as int % 32,
                        0,
                    );
                    walk_stays_in_its_bytes(
                        run.strip,
                        input,
                        cursor + 2,
                        run.row,
                        run.dword,
                        effects.push(
                            UnpackEffect::Static(
                                PositionEffect::FbRun {
                                    decoded: FbCounter::of(counter),
                                    positions: run.positions as usize,
                                },
                            ),
                        ),
                    );
                }
            },
        }
    }
}

/// Only the bytes that a complete walk consumes decide it: on any stream
/// that starts with the same bytes the walk ends the same way.
pub proof fn consumed_bytes_decide_the_walk(
    strip: Seq<u8>,
    input: UnpackInput,
    other: Seq<u8>,
    cursor: int,
    row: int,
    dword: int,
    effects: Seq<UnpackEffect>,
)
    requires
        0 <= cursor <= input.bytes.len(),
        ({
            let end = unpack_walk(strip, input, cursor, row, dword, effects);
            &&& end.stop is Complete
            &&& end.cursor <= other.len()
            &&& forall|i: int| 0 <= i < end.cursor ==> #[trigger] other[i] == input.bytes[i]
        }),
    ensures
        unpack_walk(strip, UnpackInput { bytes: other, ..input }, cursor, row, dword, effects)
            == unpack_walk(strip, input, cursor, row, dword, effects),
    decreases input.bytes.len() - cursor,
{
    let alt = UnpackInput { bytes: other, ..input };
    let end = unpack_walk(strip, input, cursor, row, dword, effects);
    walk_stays_in_its_bytes(strip, input, cursor, row, dword, effects);
    if row < input.g.source_rows {
        match ModeByte::kind_of(input.bytes[cursor]) {
            ModeByteKind::Literal(lit) => {
                let at = dyad_at(strip, input, lit, row, dword, cursor + 1);
                let emit = at.result->Ok_0;
                let (r, d) = next_position(input.g.width_dwords as int, row, dword);
                let more = effects.push(UnpackEffect::Dyad(emit));
                assert(cursor + 1 <= at.cursor <= cursor + 2 && at.cursor <= input.bytes.len()) by {
                    reveal(dyad_at);
                }
                walk_stays_in_its_bytes(at.strip, input, at.cursor, r, d, more);
                assert(other[cursor] == input.bytes[cursor]);
                assert(at.cursor == cursor + 2 ==> other[cursor + 1] == input.bytes[cursor + 1]);
                assert(dyad_at(strip, alt, lit, row, dword, cursor + 1) == at) by {
                    reveal(dyad_at);
                }
                consumed_bytes_decide_the_walk(at.strip, input, other, at.cursor, r, d, more);
            },
            ModeByteKind::Escape(escape) => {
                match escape {
                    RleEscape::Ff => {
                        let more = effects.push(row_skip(escape, 1));
                        walk_stays_in_its_bytes(strip, input, cursor + 1, row + 1, 0, more);
                        assert(other[cursor] == input.bytes[cursor]);
                        consumed_bytes_decide_the_walk(
                            strip,
                            input,
                            other,
                            cursor + 1,
                            row + 1,
                            0,
                            more,
                        );
                    },
                    RleEscape::Fe => {
                        let more = effects.push(row_skip(escape, 2));
                        walk_stays_in_its_bytes(strip, input, cursor + 1, row + 2, 0, more);
                        assert(other[cursor] == input.bytes[cursor]);
                        consumed_bytes_decide_the_walk(
                            strip,
                            input,
                            other,
                            cursor + 1,
                            row + 2,
                            0,
                            more,
                        );
                    },
                    RleEscape::Fb => {
                        let counter = input.bytes[cursor + 1];
                        let decoded = FbCounter::of(counter);
                        let run = run_from(
                            strip,
                            input.g,
                            output_rows(input.variant),
                            decoded.copy_from_reference,
                            row,
                            dword,
                            counter as int % 32,
                            0,
                        );
                        let more = effects.push(
                            UnpackEffect::Static(
                                PositionEffect::FbRun {
                                    decoded,
                                    positions: run.positions as usize,
                                },
                            ),
                        );
                        walk_stays_in_its_bytes(
                            run.strip,
                            input,
                            cursor + 2,
                            run.row,
                            run.dword,
                            more,
                        );
                        assert(other[cursor] == input.bytes[cursor]);
                        assert(other[cursor + 1] == counter);
                        consumed_bytes_decide_the_walk(
                            run.strip,
                            input,
                            other,
                            cursor + 2,
                            run.row,
                            run.dword,
                            more,
                        );
                    },
                    _ => {
                        assert(end.cursor == cursor + 1);
                        assert(other[cursor] == input.bytes[cursor]);
                    },
                }
            },
        }
    }
}

} // verus!
