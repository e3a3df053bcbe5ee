//! What the dyad unpackers write: the words of each position, the order
//! of the positions, and what every mode byte and escape does to a walk.
use super::bytes::{byte_of, le32};
use super::cell_emit::{
    chain, position_offset, predictor_at, predictor_byte, stored_rows, CellEmitError,
    CellEmitGeometry, ChainEnd, DyadDelta,
};
use super::cell_reconstruct::{
    next_position, seeded, static_walk, CellReconstructGeometry, PositionEffect, StaticEnd,
    StaticStop,
};
use super::cell_unpack::{
    dyad_at, run_from, run_row, unpack_walk, DyadEmit, RunEnd, UnpackEffect, UnpackInput,
    UnpackStop,
};
use super::entropy::{FbCategory, FbCounter, LiteralMode, RleEscape};
use super::reconstruct::{
    average_byte, average_word, dyad_outcome, emission, halved_word, DyadOutcome, VariantEmission,
};
use super::vq::CellVariant;
use vstd::prelude::*;

verus! {

/// Four bytes from `at` on, the first one lowest, as one number.
pub open spec fn word(s: Seq<u8>, at: int) -> int {
    s[at] + 256 * s[at + 1] + 65536 * s[at + 2] + 16777216 * s[at + 3]
}

/// The byte one row above byte `j`; 0 where the buffer has none.
pub open spec fn above(s: Seq<u8>, at: int, i: int) -> int {
    if 176 <= at && at - 176 + i < s.len() {
        s[at - 176 + i] as int
    } else {
        0
    }
}

/// The word one row above `at`.
pub open spec fn word_above(s: Seq<u8>, at: int) -> int {
    above(s, at, 0) + 256 * above(s, at, 1) + 65536 * above(s, at, 2) + 16777216 * above(s, at, 3)
}

/// Byte `i` of a number, the lowest one first.
pub open spec fn digit(v: int, i: int) -> int {
    if i == 0 {
        v % 256
    } else if i == 1 {
        v / 256 % 256
    } else if i == 2 {
        v / 65536 % 256
    } else {
        v / 16777216
    }
}

/// `pixels` is the sum of a predictor and a primary delta that keeps its
/// top bit clear.
pub open spec fn plain_sum(pred: int, primary: int, pixels: int) -> bool {
    &&& 0 <= pixels < 0x8000_0000
    &&& (pixels - pred - primary) % 0x1_0000_0000 == 0
}

/// `pixels` is the sum of a predictor and a primary delta with its top
/// bit set, which is dropped; the low half has its own top bit turned
/// and the secondary delta added, and ends with that bit clear.
pub open spec fn continued_sum(pred: int, primary: int, secondary: int, pixels: int) -> bool {
    let sum = (pred + primary) % 0x1_0000_0000;
    &&& pixels >= 0
    &&& pixels / 0x1_0000 + 0x8000 == sum / 0x1_0000
    &&& pixels % 0x1_0000 < 0x8000
    &&& (pixels - sum - 0x8000 - secondary) % 0x1_0000 == 0
}

/// A dyad pair is the plain sum where there is one; otherwise the
/// continued sum; it is refused where neither exists.
pub proof fn dyads_add_their_deltas(pred: u32, primary: u32, secondary: u16, pixels: u32)
    ensures
        (dyad_outcome(pred, primary, secondary) == DyadOutcome::Primary { pixels }) <==> plain_sum(
            pred as int,
            primary as int,
            pixels as int,
        ),
        (dyad_outcome(pred, primary, secondary) == DyadOutcome::Continuation { pixels })
            <==> continued_sum(pred as int, primary as int, secondary as int, pixels as int),
        dyad_outcome(pred, primary, secondary) is Fault ==> !plain_sum(
            pred as int,
            primary as int,
            pixels as int,
        ) && !continued_sum(pred as int, primary as int, secondary as int, pixels as int),
{
    let sum = (pred + primary) % 0x1_0000_0000;
    let low = (sum % 0x1_0000 + 0x8000 + secondary) % 0x1_0000;
    assert((pixels - sum - 0x8000 - secondary) % 0x1_0000 == 0 <==> pixels as int % 0x1_0000
        == low);
}

proof fn lemma_digits(a: u8, b: u8, c: u8, d: u8, i: int)
    requires
        0 <= i < 4,
    ensures
        0 <= le32(a, b, c, d) <= u32::MAX,
        digit(le32(a, b, c, d), i) == if i == 0 {
            a
        } else if i == 1 {
            b
        } else if i == 2 {
            c
        } else {
            d
        },
        byte_of(le32(a, b, c, d), i) == digit(le32(a, b, c, d), i),
{
    let v = le32(a, b, c, d);
    assert(v / 256 == b + 256 * c + 65536 * d);
    assert(v / 65536 == c + 256 * d);
    assert(v / 16777216 == d);
}

proof fn lemma_byte_is_digit(v: u32, i: int)
    requires
        0 <= i < 4,
    ensures
        byte_of(v as int, i) == digit(v as int, i),
        0 <= digit(v as int, i) < 256,
{
}

proof fn lemma_average_digits(a: u32, b: u32, i: int)
    requires
        0 <= i < 4,
    ensures
        0 <= average_word(a as int, b as int) <= u32::MAX,
        digit(average_word(a as int, b as int), i) == (digit(a as int, i) + digit(b as int, i)) / 2
            % 128,
{
    let m = |k: int| average_byte(byte_of(a as int, k), byte_of(b as int, k));
    lemma_digits(m(0), m(1), m(2), m(3), i);
    lemma_byte_is_digit(a, i);
    lemma_byte_is_digit(b, i);
}

proof fn lemma_halved_digits(a: u32, i: int)
    requires
        0 <= i < 4,
    ensures
        0 <= halved_word(a as int) <= u32::MAX,
        digit(halved_word(a as int), i) == digit(a as int, i) / 2,
{
    let m = |k: int| (byte_of(a as int, k) / 2) as u8;
    lemma_digits(m(0), m(1), m(2), m(3), i);
    lemma_byte_is_digit(a, i);
}

/// The rows a variant emits, byte by byte: a plain cell repeats the
/// pixels, a fully doubled one repeats their halves, and the others
/// begin with the 7-bit average of predictor and pixels, which a doubled
/// row follows with the pixels themselves.
pub proof fn rows_follow_their_variant(
    variant: CellVariant,
    pred: u32,
    primary: u32,
    secondary: u16,
    i: int,
)
    requires
        0 <= i < 4,
        !(dyad_outcome(pred, primary, secondary) is Fault),
    ensures
        ({
            let e = emission(variant, pred, primary, secondary);
            let pixels = match dyad_outcome(pred, primary, secondary) {
                DyadOutcome::Primary { pixels } => pixels as int,
                DyadOutcome::Continuation { pixels } => pixels as int,
                DyadOutcome::Fault => 0,
            };
            let p = digit(pixels, i);
            let average = (p + digit(pred as int, i)) / 2 % 128;
            let first = digit(e.rows.first as int, i);
            &&& e.outcome == dyad_outcome(pred, primary, secondary)
            &&& e.rows.second is None <==> variant == CellVariant::WithEdge
            &&& match variant {
                CellVariant::Plain => first == p && digit(e.rows.second->0 as int, i) == p,
                CellVariant::WithEdge => first == average,
                CellVariant::DoubledRow => first == average && digit(e.rows.second->0 as int, i)
                    == p,
                CellVariant::FullyDoubled => first == p / 2 && digit(e.rows.second->0 as int, i)
                    == p / 2,
            }
        }),
{
    let pixels = dyad_outcome(pred, primary, secondary).pixel_word() as u32;
    lemma_average_digits(pred, pixels, i);
    lemma_halved_digits(pixels, i);
}

/// What a position reads as its predictor is the word one row above it,
/// with 0 for bytes the buffer does not have.
pub proof fn predictors_stand_above(s: Seq<u8>, at: int)
    ensures
        predictor_at(s, at) == word_above(s, at),
{
}

/// Stored rows stand one below the other, lowest byte first; where one
/// does not fit, the rows before it are stored.
pub proof fn rows_stand_below_each_other(
    s: Seq<u8>,
    at: int,
    e: VariantEmission,
    j: int,
)
    requires
        0 <= at,
        0 <= j < s.len(),
    ensures
        ({
            let end = stored_rows(s, at, e.rows);
            let one = at + 4 <= s.len();
            let two = e.rows.second is Some && at + 180 <= s.len();
            &&& end.strip.len() == s.len()
            &&& end.overrun is None <==> one && (two || e.rows.second is None)
            &&& !one ==> end.overrun == Some(at + 4)
            &&& one && end.overrun is Some ==> end.overrun == Some(at + 180)
            &&& end.strip[j] == if one && at <= j < at + 4 {
                digit(e.rows.first as int, j - at)
            } else if two && at + 176 <= j < at + 180 {
                digit(e.rows.second->0 as int, j - at - 176)
            } else {
                s[j] as int
            }
        }),
{
}

/// The positions of a cell come row by row, left to right; its rows are
/// as far apart as the rows one of them emits.
pub proof fn positions_are_in_raster_order(g: CellEmitGeometry, row: int, dword: int)
    requires
        0 <= row,
        0 <= dword < g.width_dwords,
    ensures
        position_offset(g, row * g.width_dwords + dword) == g.top_left_offset + row * (if g.variant
            == CellVariant::WithEdge {
            176int
        } else {
            352
        }) + 4 * dword,
{
    vstd::arithmetic::div_mod::lemma_fundamental_div_mod_converse(
        row * g.width_dwords + dword,
        g.width_dwords as int,
        row,
        dword,
    );
}

/// A chain ends at its first refused position, named by its row and
/// column, and at its first row that does not fit; otherwise it stores
/// the position's rows and goes on with the next delta, with one more
/// continuation where the sum was a continued one.
pub proof fn chains_go_position_by_position(
    s: Seq<u8>,
    g: CellEmitGeometry,
    deltas: Seq<DyadDelta>,
    row: int,
    dword: int,
    continuations: int,
)
    requires
        0 <= row < g.source_rows,
        0 <= dword < g.width_dwords,
        0 <= row * g.width_dwords + dword < deltas.len(),
        s.len() <= usize::MAX,
    ensures
        ({
            let n = row * g.width_dwords + dword;
            let at = position_offset(g, n);
            let (primary, secondary) = (deltas[n].primary, deltas[n].secondary);
            let e = emission(g.variant, word_above(s, at) as u32, primary, secondary);
            let end = stored_rows(s, at, e.rows);
            let here = chain(s, g, deltas, n, continuations);
            if e.outcome is Fault {
                &&& here.strip == s
                &&& here.continuations == continuations
                &&& here.error == Some(
                    CellEmitError::DyadFault { row: row as usize, dword: dword as usize },
                )
            } else if end.overrun is Some {
                &&& here.strip == end.strip
                &&& here.continuations == continuations
                &&& here.error == Some(
                    CellEmitError::WriteOutOfBounds {
                        write_end: end.overrun->0 as usize,
                        buffer_len: s.len() as usize,
                    },
                )
            } else {
                here == chain(
                    end.strip,
                    g,
                    deltas,
                    n + 1,
                    if e.outcome is Primary {
                        continuations
                    } else {
                        continuations + 1
                    },
                )
            }
        }),
        chain(s, g, deltas, deltas.len() as int, continuations) == (ChainEnd {
            strip: s,
            continuations,
            error: None,
        }),
{
    vstd::arithmetic::div_mod::lemma_fundamental_div_mod_converse(
        row * g.width_dwords + dword,
        g.width_dwords as int,
        row,
        dword,
    );
    predictors_stand_above(s, position_offset(g, row * g.width_dwords + dword));
}

/// A seed goes to the byte one row above the position, biased by 128;
/// it is the table byte of its bank (512 bytes each), of the source row
/// modulo four (128 bytes each) and of the column modulo 128. The delta
/// is the signed reading of that byte.
pub proof fn seeds_bias_the_byte_above(
    strip: Seq<u8>,
    table: Seq<u8>,
    at: int,
    bank: int,
    row: int,
    dword: int,
)
    ensures
        seeded(strip, table, at, bank, row, dword) is Some <==> 176 <= at < strip.len() + 176,
        seeded(strip, table, at, bank, row, dword) matches Some((next, delta, slot)) ==> {
            let b = table[512 * bank + 128 * (row % 4) + dword % 128];
            &&& slot == at - 176
            &&& -128 <= delta < 128
            &&& (delta - b) % 256 == 0
            &&& (next[at - 176] - b - 128) % 256 == 0
            &&& next.len() == strip.len()
            &&& forall|j: int|
                0 <= j < strip.len() && j != at - 176 ==> #[trigger] next[j] == strip[j]
        },
{
}

/// A literal with a canonical handler that succeeds: the slot above is
/// seeded from its bank, the sum of the word above and of the arena word
/// of its band and column is emitted at its position, and a continued
/// sum takes one more byte, which names the secondary word.
pub proof fn literals_emit_at_their_position(
    strip: Seq<u8>,
    input: UnpackInput,
    lit: LiteralMode,
    row: int,
    dword: int,
    cursor: int,
    emit: DyadEmit,
)
    requires
        dyad_at(strip, input, lit, row, dword, cursor).result == Ok::<
            DyadEmit,
            super::cell_unpack::CellUnpackError,
        >(emit),
        0 <= row <= usize::MAX,
        0 <= dword <= usize::MAX,
        lit.low_nibble < 16,
    ensures
        ({
            let end = dyad_at(strip, input, lit, row, dword, cursor);
            let step = if input.variant == CellVariant::WithEdge {
                176int
            } else {
                352
            };
            let at = input.g.top_left_offset + row * step + 4 * dword;
            let seed = seeded(strip, input.table, at, lit.high_nibble as int, row, dword);
            let s = (seed->0).0;
            let primary = word(input.arena, lit.low_nibble * 2048 + 1024 + 4 * dword);
            let sum = (word_above(s, at) + primary) % 0x1_0000_0000;
            let k = lit.low_nibble * 2048 + 1026 + 4 * input.bytes[cursor];
            let secondary = if sum >= 0x8000_0000 {
                input.arena[k] + 256 * input.arena[k + 1]
            } else {
                0
            };
            let e = emission(
                input.variant,
                word_above(s, at) as u32,
                primary as u32,
                secondary as u16,
            );
            &&& seed is Some
            &&& emit.seed_delta == (seed->0).1
            &&& !(e.outcome is Fault)
            &&& end.strip == stored_rows(s, at, e.rows).strip
            &&& stored_rows(s, at, e.rows).overrun is None
            &&& emit.continuation == (sum >= 0x8000_0000)
            &&& end.cursor == if emit.continuation {
                cursor + 1
            } else {
                cursor
            }
            &&& emit.continuation ==> cursor < input.bytes.len()
            &&& emit.row == row
            &&& emit.dword == dword
            &&& emit.mode_byte == lit.byte
            &&& emit.rows_written == if input.variant == CellVariant::WithEdge {
                1int
            } else {
                2
            }
            &&& emit.pixels == if input.variant == CellVariant::WithEdge {
                e.rows.first
            } else {
                e.rows.second->0
            }
        }),
{
    reveal(dyad_at);
    let per = if input.variant == CellVariant::WithEdge {
        1int
    } else {
        2
    };
    let at = input.g.offset(per, row, dword);
    assert(row * (1 * 176) == row * 176 && row * (2 * 176) == row * 352);
    let seed = seeded(strip, input.table, at, lit.high_nibble as int, row, dword);
    let s = (seed->0).0;
    predictors_stand_above(s, at);
}

proof fn lemma_run_row(s: Seq<u8>, at: int, copy: bool, j: int)
    requires
        0 <= at,
        at + 4 <= s.len(),
        0 <= j < s.len(),
    ensures
        run_row(s, at, copy).len() == s.len(),
        run_row(s, at, copy)[j] == if at <= j < at + 4 {
            if copy {
                above(s, at, j - at)
            } else {
                128 + s[j] % 128
            }
        } else {
            s[j] as int
        },
{
    if copy && at <= j < at + 4 {
        lemma_digits(
            predictor_byte(s, at, 0),
            predictor_byte(s, at, 1),
            predictor_byte(s, at, 2),
            predictor_byte(s, at, 3),
            j - at,
        );
    }
}

/// A strip after one position of a run.
spec fn run_position(s: Seq<u8>, at: int, per: int, copy: bool) -> Seq<u8> {
    if per > 1 {
        run_row(run_row(s, at, copy), at + 176, copy)
    } else {
        run_row(s, at, copy)
    }
}

proof fn lemma_run_bytes(s: Seq<u8>, at: int, per: int, copy: bool, j: int)
    requires
        per == 1 || per == 2,
        0 <= at,
        at + 4 <= s.len(),
        per == 2 ==> at + 180 <= s.len(),
        0 <= j < s.len(),
    ensures
        run_position(s, at, per, copy).len() == s.len(),
        run_position(s, at, per, copy)[j] == if at <= j < at + 4 || per == 2 && at + 176 <= j < at
            + 180 {
            if copy {
                above(s, at, (j - at) % 176)
            } else {
                128 + s[j] % 128
            }
        } else {
            s[j] as int
        },
{
    let first = run_row(s, at, copy);
    lemma_run_row(s, at, copy, j);
    if per > 1 {
        lemma_run_row(first, at + 176, copy, j);
        if at + 176 <= j < at + 180 {
            lemma_run_row(s, at, copy, j - 176);
        }
    }
}

proof fn lemma_run_over(
    s: Seq<u8>,
    g: CellReconstructGeometry,
    per: int,
    copy: bool,
    row: int,
    dword: int,
    done: int,
)
    ensures
        run_from(s, g, per, copy, row, dword, 0, done) == (RunEnd {
            strip: s,
            row,
            dword,
            positions: done,
            overrun: None,
        }),
{
    reveal(run_from);
}

proof fn lemma_run_step(
    s: Seq<u8>,
    g: CellReconstructGeometry,
    per: int,
    copy: bool,
    row: int,
    dword: int,
    left: int,
    done: int,
)
    requires
        per == 1 || per == 2,
        0 <= g.offset(per, row, dword),
    ensures
        ({
            let at = g.offset(per, row, dword);
            let end = run_from(s, g, per, copy, row, dword, left, done);
            let (r, d) = next_position(g.width_dwords as int, row, dword);
            if left <= 0 || row >= g.source_rows {
                end == (RunEnd { strip: s, row, dword, positions: done, overrun: None })
            } else if at + 4 > s.len() {
                end.overrun == Some(at) && end.strip == s
            } else if per == 2 && at + 180 > s.len() {
                end.overrun == Some(at + 176)
            } else {
                end == run_from(
                    run_position(s, at, per, copy),
                    g,
                    per,
                    copy,
                    r,
                    d,
                    left - 1,
                    done + 1,
                )
            }
        }),
{
    reveal(run_from);
}

/// A counted run takes its positions in raster order until it has taken
/// all or the cell ends. At each one a copy stores the word above and a
/// mark sets the top bit of each byte; a cell of two rows per source row
/// does so in the second row too.
pub proof fn runs_take_positions_in_order(
    s: Seq<u8>,
    g: CellReconstructGeometry,
    per: int,
    copy: bool,
    row: int,
    dword: int,
    left: int,
    done: int,
    j: int,
)
    requires
        per == 1 || per == 2,
        0 <= row,
        0 <= dword < g.width_dwords,
        0 <= j < s.len(),
    ensures
        ({
            let at = g.top_left_offset + row * (176 * per) + 4 * dword;
            let end = run_from(s, g, per, copy, row, dword, left, done);
            let one = run_from(s, g, per, copy, row, dword, 1, done);
            if left <= 0 || row >= g.source_rows {
                end == (RunEnd { strip: s, row, dword, positions: done, overrun: None })
            } else if at + 4 > s.len() {
                end.overrun == Some(at) && end.strip == s
            } else if per == 2 && at + 180 > s.len() {
                end.overrun == Some(at + 176)
            } else {
                &&& one.overrun is None
                &&& one.positions == done + 1
                &&& one.row == if dword + 1 < g.width_dwords {
                    row
                } else {
                    row + 1
                }
                &&& one.dword == if dword + 1 < g.width_dwords {
                    dword + 1
                } else {
                    0
                }
                &&& one.strip.len() == s.len()
                &&& one.strip[j] == if at <= j < at + 4 || per == 2 && at + 176 <= j < at + 180 {
                    if copy {
                        above(s, at, (j - at) % 176)
                    } else {
                        128 + s[j] % 128
                    }
                } else {
                    s[j] as int
                }
                &&& end == run_from(
                    one.strip,
                    g,
                    per,
                    copy,
                    one.row,
                    one.dword,
                    left - 1,
                    done + 1,
                )
            }
        }),
{
    assert(row * (176 * per) == row * (per * 176)) by (nonlinear_arith);
    assert(row * (176 * per) >= 0) by (nonlinear_arith)
        requires
            row >= 0,
            per >= 1,
    ;
    let at = g.top_left_offset + row * (176 * per) + 4 * dword;
    assert(at == g.offset(per, row, dword));
    lemma_run_step(s, g, per, copy, row, dword, left, done);
    if at + 4 <= s.len() && (per == 1 || at + 180 <= s.len()) {
        lemma_run_bytes(s, at, per, copy, j);
    }
    if at + 4 <= s.len() && left > 0 && row < g.source_rows && (per == 1 || at + 180 <= s.len()) {
        lemma_run_step(s, g, per, copy, row, dword, 1, done);
        let (r, d) = next_position(g.width_dwords as int, row, dword);
        lemma_run_over(run_position(s, at, per, copy), g, per, copy, r, d, done + 1);
    }
}

/// An escape is taken where its row has just begun; one further into the
/// row only the lower ones down to `0xfb` are, each column one fewer up
/// to the third.
pub open spec fn taken_at(byte: u8, dword: int) -> bool {
    ||| dword == 0
    ||| dword == 1 && 0xfb <= byte <= 0xfe
    ||| dword == 2 && 0xfb <= byte <= 0xfd
    ||| dword >= 3 && 0xfb <= byte <= 0xfc
}

/// The effect says that the escape `byte` left out `rows` rows.
pub open spec fn leaves_out(e: PositionEffect, byte: u8, rows: int) -> bool {
    e matches PositionEffect::RowSkip { escape, rows_skipped } && escape.code() == byte
        && rows_skipped == rows
}

/// What an escape does to an unpacker's walk: `0xff` leaves out the rest
/// of its row, `0xfe` the next row too, `0xfd` the rest of the cell; so
/// do `0xf8`, `0xfa`, `0xf9` and `0xfc`, of which the last two have the
/// next cell skipped. None of them changes the strip.
pub proof fn escapes_leave_rows_out(
    strip: Seq<u8>,
    input: UnpackInput,
    cursor: int,
    row: int,
    dword: int,
    effects: Seq<UnpackEffect>,
)
    requires
        0 <= cursor < input.bytes.len(),
        0 <= row < input.g.source_rows,
        0 <= dword,
        input.bytes[cursor] >= 0xf8,
        input.bytes[cursor] != 0xfb,
    ensures
        ({
            let b = input.bytes[cursor];
            let end = unpack_walk(strip, input, cursor, row, dword, effects);
            if !taken_at(b, dword) {
                &&& end.stop is Failed
                &&& end.strip == strip
                &&& end.cursor == cursor
                &&& end.effects == effects
            } else if b == 0xff || b == 0xfe {
                let rows = 0x100 - b;
                exists|more: Seq<UnpackEffect>|
                    more.len() == effects.len() + 1 && more.drop_last() == effects
                        && more.last() is Static && leaves_out(more.last()->Static_0, b, rows)
                        && end == #[trigger] unpack_walk(
                        strip,
                        input,
                        cursor + 1,
                        row + rows,
                        0,
                        more,
                    )
            } else {
                &&& end.strip == strip
                &&& end.cursor == cursor + 1
                &&& end.stop == UnpackStop::Complete { next_cell_skip: b == 0xfc || b == 0xf9 }
                &&& b == 0xfd ==> end.effects.len() == effects.len() + 1
                    && end.effects.drop_last() == effects && end.effects.last() is Static && leaves_out(
                    end.effects.last()->Static_0,
                    b,
                    input.g.source_rows - row,
                )
                &&& b != 0xfd ==> end.effects == effects
            }
        }),
{
    let b = input.bytes[cursor];
    let escape = RleEscape::of(b)->0;
    let rows = 0x100 - b;
    let more = effects.push(
        UnpackEffect::Static(PositionEffect::RowSkip { escape, rows_skipped: rows as usize }),
    );
    assert(more.drop_last() =~= effects);
    let rest = effects.push(
        UnpackEffect::Static(
            PositionEffect::RowSkip {
                escape,
                rows_skipped: (input.g.source_rows - row) as usize,
            },
        ),
    );
    assert(rest.drop_last() =~= effects);
    if taken_at(b, dword) && (b == 0xff || b == 0xfe) {
        assert(unpack_walk(strip, input, cursor, row, dword, effects) == unpack_walk(
            strip,
            input,
            cursor + 1,
            row + rows,
            0,
            more,
        ));
    }
}

/// The escape `0xfb` reads a counter: its low five bits are the number of
/// positions of the run, bit 5 marks them in place of copying, and the
/// walk goes on behind the run. No positions, or a bit above, is refused;
/// so is a walk without the counter.
pub proof fn run_escapes_count_positions(
    strip: Seq<u8>,
    input: UnpackInput,
    cursor: int,
    row: int,
    dword: int,
    effects: Seq<UnpackEffect>,
)
    requires
        0 <= cursor < input.bytes.len(),
        0 <= row < input.g.source_rows,
        0 <= dword,
        input.bytes[cursor] == 0xfb,
    ensures
        ({
            let counter = input.bytes[cursor + 1];
            let end = unpack_walk(strip, input, cursor, row, dword, effects);
            let run = run_from(
                strip,
                input.g,
                if input.variant == CellVariant::WithEdge {
                    1
                } else {
                    2
                },
                counter < 32,
                row,
                dword,
                counter as int % 32,
                0,
            );
            if cursor + 1 == input.bytes.len() {
                &&& end.stop is Failed
                &&& end.strip == strip
            } else if counter >= 64 || counter % 32 == 0 {
                &&& end.stop is Failed
                &&& end.strip == strip
            } else if run.overrun is Some {
                &&& end.stop is Failed
                &&& end.strip == run.strip
            } else {
                end == unpack_walk(
                    run.strip,
                    input,
                    cursor + 2,
                    run.row,
                    run.dword,
                    effects.push(
                        UnpackEffect::Static(
                            PositionEffect::FbRun {
                                decoded: FbCounter::of(counter),
                                positions: run.positions as usize,
                            },
                        ),
                    ),
                )
            }
        }),
{
    let counter = input.bytes[cursor + 1];
    let run = run_from(
        strip,
        input.g,
        if input.variant == CellVariant::WithEdge {
            1
        } else {
            2
        },
        counter < 32,
        row,
        dword,
        counter as int % 32,
        0,
    );
    assert(counter < 64 ==> ((counter / 32) % 2 == 0 <==> counter < 32));
}

/// The fields of a run counter: its low five bits and one more are the
/// cells to skip, bit 5 clear means a copy, and a counter with a higher
/// bit or no low ones starts no run.
pub proof fn counters_read_their_bits(byte: u8)
    ensures
        ({
            let c = FbCounter::of(byte);
            &&& c.byte == byte
            &&& 1 <= c.cells_to_skip <= 32
            &&& (byte - (c.cells_to_skip - 1)) % 32 == 0
            &&& byte < 64 ==> (c.copy_from_reference <==> byte < 32)
            &&& c.reserved_bits_zero <==> byte < 64
            &&& c.category == FbCategory::Zero <==> byte >= 64 || byte == 0 || byte == 32
            &&& c.category == FbCategory::Copy <==> 0 < byte < 32
            &&& c.category == FbCategory::MarkSkipped <==> 32 < byte < 64
            &&& c.category.table_value() == if byte >= 64 || byte == 0 || byte == 32 {
                0int
            } else if byte < 32 {
                4
            } else {
                8
            }
        }),
{
}

/// A literal goes by its high nibble. Nibble 0 always emits, nibbles 3
/// and 10 do so where the low nibble is 8 or more: the walk then goes on
/// at the next position, behind the bytes that the position took.
/// Nibbles 2, 13, 14 and 15 are refused, and 5 to 9 where the low nibble
/// is 8 or more. At the rest the walk stops, with nothing taken.
pub proof fn literals_go_by_their_nibbles(
    strip: Seq<u8>,
    input: UnpackInput,
    cursor: int,
    row: int,
    dword: int,
    effects: Seq<UnpackEffect>,
)
    requires
        0 <= cursor < input.bytes.len(),
        0 <= row < input.g.source_rows,
        0 <= dword < input.g.width_dwords,
        input.bytes[cursor] < 0xf8,
    ensures
        ({
            let b = input.bytes[cursor];
            let (high, low) = (b / 16, b % 16);
            let end = unpack_walk(strip, input, cursor, row, dword, effects);
            let lit = LiteralMode::of(b);
            let one = dyad_at(strip, input, lit, row, dword, cursor + 1);
            &&& lit.byte == b
            &&& lit.high_nibble == high
            &&& lit.low_nibble == low
            &&& if high == 0 || low >= 8 && (high == 3 || high == 10) {
                match one.result {
                    Err(e) => {
                        &&& end.stop == UnpackStop::Failed(e)
                        &&& end.strip == one.strip
                        &&& end.effects == effects
                    },
                    Ok(emit) => end == unpack_walk(
                        one.strip,
                        input,
                        one.cursor,
                        if dword + 1 < input.g.width_dwords {
                            row
                        } else {
                            row + 1
                        },
                        if dword + 1 < input.g.width_dwords {
                            dword + 1
                        } else {
                            0
                        },
                        effects.push(UnpackEffect::Dyad(emit)),
                    ),
                }
            } else if high == 2 || high >= 13 || low >= 8 && 5 <= high <= 9 {
                &&& end.stop is Failed
                &&& end.strip == strip
                &&& end.effects == effects
            } else {
                &&& end.stop matches UnpackStop::Deferred { mode_byte, row: r, dword: d, .. }
                    && mode_byte == b && r == row && d == dword
                &&& end.strip == strip
                &&& end.cursor == cursor
                &&& end.effects == effects
            }
        }),
{
}

/// A walk ends when all rows of its cell are through, and fails where
/// its bytes end before.
pub proof fn walks_end_with_their_cell(
    strip: Seq<u8>,
    input: UnpackInput,
    cursor: int,
    row: int,
    dword: int,
    effects: Seq<UnpackEffect>,
)
    ensures
        ({
            let end = unpack_walk(strip, input, cursor, row, dword, effects);
            &&& row >= input.g.source_rows ==> end.stop == (UnpackStop::Complete {
                next_cell_skip: false,
            })
            &&& row < input.g.source_rows && cursor >= input.bytes.len() ==> end.stop is Failed
            &&& row >= input.g.source_rows || cursor >= input.bytes.len() ==> {
                &&& end.strip == strip
                &&& end.cursor == cursor
                &&& end.effects == effects
            }
        }),
{
}

/// The walk that uses the static table alone, literal by literal: one of
/// bank 0 seeds the byte above its position in a cell of single rows and
/// the walk goes on with the next byte at the next position; any other
/// stops it.
pub proof fn static_literals_seed(
    strip: Seq<u8>,
    g: CellReconstructGeometry,
    bytes: Seq<u8>,
    table: Seq<u8>,
    cursor: int,
    row: int,
    dword: int,
    effects: Seq<PositionEffect>,
)
    requires
        0 <= cursor < bytes.len(),
        0 <= row < g.source_rows,
        0 <= dword < g.width_dwords,
        bytes[cursor] < 0xf8,
        strip.len() <= usize::MAX,
    ensures
        ({
            let end = static_walk(strip, g, bytes, table, cursor, row, dword, effects);
            let at = g.top_left_offset + 176 * row + 4 * dword;
            let seed = seeded(strip, table, at, 0, row, dword);
            if bytes[cursor] >= 16 {
                &&& end.strip == strip
                &&& end.effects == effects
                &&& end.stop == StaticStop::Deferred { mode_byte: bytes[cursor], row, dword }
            } else if seed is None {
                end.stop is Failed && end.strip == strip && end.effects == effects
            } else {
                end == static_walk(
                    (seed->0).0,
                    g,
                    bytes,
                    table,
                    cursor + 1,
                    if dword + 1 < g.width_dwords {
                        row
                    } else {
                        row + 1
                    },
                    if dword + 1 < g.width_dwords {
                        dword + 1
                    } else {
                        0
                    },
                    effects.push(
                        PositionEffect::RowBandSeed {
                            delta: (seed->0).1 as i8,
                            predictor_slot: (at - 176) as usize,
                        },
                    ),
                )
            }
        }),
{
    let at = g.top_left_offset + 176 * row + 4 * dword;
    assert(at == g.offset(1, row, dword));
}

/// The escapes of the static walk: `0xff` and `0xfe` leave out one row or
/// two, `0xfd` the rest of the cell, `0xfb` ends the walk with its
/// counter, and the others end it.
pub proof fn static_escapes_leave_rows_out(
    strip: Seq<u8>,
    g: CellReconstructGeometry,
    bytes: Seq<u8>,
    table: Seq<u8>,
    cursor: int,
    row: int,
    dword: int,
    effects: Seq<PositionEffect>,
)
    requires
        0 <= cursor < bytes.len(),
        0 <= row < g.source_rows,
        0 <= dword,
        bytes[cursor] >= 0xf8,
    ensures
        ({
            let b = bytes[cursor];
            let end = static_walk(strip, g, bytes, table, cursor, row, dword, effects);
            if !taken_at(b, dword) {
                end.stop is Failed && end.strip == strip && end.effects == effects
            } else if b == 0xff || b == 0xfe {
                let rows = 0x100 - b;
                exists|more: Seq<PositionEffect>|
                    more.len() == effects.len() + 1 && more.drop_last() == effects
                        && leaves_out(more.last(), b, rows) && end
                        == #[trigger] static_walk(
                        strip,
                        g,
                        bytes,
                        table,
                        cursor + 1,
                        row + rows,
                        0,
                        more,
                    )
            } else if b == 0xfb {
                &&& end.strip == strip
                &&& end.effects == effects
                &&& cursor + 1 < bytes.len() ==> end.stop == (StaticStop::Terminated {
                    counter: bytes[cursor + 1],
                })
                &&& cursor + 1 >= bytes.len() ==> end.stop is Failed
            } else {
                &&& end.strip == strip
                &&& end.stop is Complete
                &&& b != 0xfd ==> end.effects == effects
                &&& b == 0xfd ==> end.effects.len() == effects.len() + 1
                    && end.effects.drop_last() == effects
                    && leaves_out(end.effects.last(), b, g.source_rows - row)
            }
        }),
        row < g.source_rows ==> static_walk(
            strip,
            g,
            bytes,
            table,
            bytes.len() as int,
            row,
            dword,
            effects,
        ).stop is Failed,
        static_walk(
            strip,
            g,
            bytes,
            table,
            cursor,
            g.source_rows as int,
            dword,
            effects,
        ) == (StaticEnd { strip, effects, stop: StaticStop::Complete }),
{
    let b = bytes[cursor];
    let escape = RleEscape::of(b)->0;
    let rows = 0x100 - b;
    let more = effects.push(PositionEffect::RowSkip { escape, rows_skipped: rows as usize });
    let rest = effects.push(
        PositionEffect::RowSkip { escape, rows_skipped: (g.source_rows - row) as usize },
    );
    assert(more.drop_last() =~= effects);
    assert(rest.drop_last() =~= effects);
    if taken_at(b, dword) && (b == 0xff || b == 0xfe) {
        assert(static_walk(strip, g, bytes, table, cursor, row, dword, effects) == static_walk(
            strip,
            g,
            bytes,
            table,
            cursor + 1,
            row + rows,
            0,
            more,
        ));
    }
}

} // verus!
