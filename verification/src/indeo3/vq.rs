//! The codebook tables a plane decode reads: the static dyad-delta table,
//! the per-frame arena and the cell-shape variants.
use super::reconstruct::PREDICTOR_ROW_STRIDE;
use vstd::prelude::*;

verus! {

/// Number of banks of the static dyad-delta table.
pub const DYAD_BANK_COUNT: usize = 16;

/// Bytes of one bank.
pub const DYAD_BANK_STRIDE: usize = 0x200;

/// Bytes of the whole table.
pub const DYAD_TABLE_LEN: usize = 0x2000;

/// Bytes of one of the four rows of a bank.
pub const DYAD_ROW_LEN: usize = 0x80;

/// Bytes of the per-frame arena.
pub const ARENA_LEN: usize = 0x8020;

/// Offset of band 0 in the arena.
pub const ARENA_BANDS_OFFSET: usize = 0x20;

/// Bands of the arena, one for each value of a mode byte's low nibble.
pub const ARENA_BAND_COUNT: usize = 16;

/// Bytes of one band of the arena.
pub const ARENA_BAND_LEN: usize = 0x800;

/// Bytes of a band's primary half, and of its secondary half.
pub const ARENA_HALF_LEN: usize = 0x400;

/// The cell-shape variants.
#[derive(Debug, Clone, Copy, PartialEq, Eq, Structural)]
pub enum CellVariant {
    /// Plain dyads.
    Plain,
    /// With-edge averaging.
    WithEdge,
    /// Doubled rows.
    DoubledRow,
    /// Doubled rows and columns.
    FullyDoubled,
}

/// The static dyad-delta table: sixteen banks of four 128-byte rows of
/// signed deltas.
#[derive(Debug, Clone)]
pub struct DyadDeltaTable {
    bytes: [u8; DYAD_TABLE_LEN],
}

impl View for DyadDeltaTable {
    type V = Seq<u8>;

    closed spec fn view(&self) -> Seq<u8> {
        self.bytes@
    }
}

impl DyadDeltaTable {
    /// The table with the given bytes; `None` unless there are
    /// [`DYAD_TABLE_LEN`] of them.
    pub fn from_bytes(bytes: &[u8]) -> (r: Option<Self>)
        ensures
            r is Some <==> bytes@.len() == DYAD_TABLE_LEN,
            r matches Some(t) ==> t@ == bytes@,
    {
        if bytes.len() != DYAD_TABLE_LEN {
            return None;
        }
        let mut out: [u8; DYAD_TABLE_LEN] = [0u8; DYAD_TABLE_LEN];
        let mut i: usize = 0;
        while i < DYAD_TABLE_LEN
            invariant
                i <= DYAD_TABLE_LEN,
                bytes@.len() == DYAD_TABLE_LEN,
                forall|j: int| 0 <= j < i ==> out@[j] == bytes@[j],
            decreases DYAD_TABLE_LEN - i,
        {
            out[i] = bytes[i];
            i = i + 1;
        }
        assert(out@ =~= bytes@);
        Some(DyadDeltaTable { bytes: out })
    }

    /// The table's bytes.
    pub fn as_bytes(&self) -> (r: &[u8])
        ensures
            r@ == self@,
            r@.len() == DYAD_TABLE_LEN,
    {
        self.bytes.as_slice()
    }
}

/// The table index of a row-band seed.
pub open spec fn seed_index(high_nibble: int, row: int, dword: int) -> int {
    high_nibble * DYAD_BANK_STRIDE + row % 4 * DYAD_ROW_LEN + dword % (DYAD_ROW_LEN as int)
}

/// The signed reading of a byte.
pub open spec fn signed_byte(b: u8) -> int {
    if b < 0x80 {
        b as int
    } else {
        b - 0x100
    }
}

/// A table byte as the predictor slot holds it: biased by 0x80.
pub open spec fn biased_byte(b: u8) -> u8 {
    ((b + 0x80) % 0x100) as u8
}

/// One row-band seed.
#[derive(Debug, Clone, Copy, PartialEq, Eq, Structural)]
pub struct RowBandSeed {
    /// The signed delta read from the table.
    pub delta: i8,
    /// The predictor-slot byte index that was written.
    pub predictor_slot: usize,
}

/// Read a byte as a signed value.
pub fn sign_extend(b: u8) -> (r: i8)
    ensures
        r == signed_byte(b),
{
    if b < 0x80 {
        b as i8
    } else {
        (b as i16 - 0x100) as i8
    }
}

/// Seed the predictor slot one row above `write_index` with the table
/// byte of `(high_nibble, row, dword)`, biased by 0x80. `None`, writing
/// nothing, when the slot is not in the strip.
pub fn apply_row_band_seed(
    table: &DyadDeltaTable,
    strip: &mut [u8],
    write_index: usize,
    high_nibble: u8,
    row: usize,
    dword: usize,
) -> (r: Option<RowBandSeed>)
    requires
        high_nibble < DYAD_BANK_COUNT,
    ensures
        r is Some <==> PREDICTOR_ROW_STRIDE <= write_index < old(strip)@.len() + PREDICTOR_ROW_STRIDE,
        r is None ==> final(strip)@ == old(strip)@,
        r matches Some(s) ==> {
            let b = table@[seed_index(high_nibble as int, row as int, dword as int)];
            &&& s.delta == signed_byte(b)
            &&& s.predictor_slot == write_index - PREDICTOR_ROW_STRIDE
            &&& final(strip)@ == old(strip)@.update(s.predictor_slot as int, biased_byte(b))
        },
{
    if write_index < PREDICTOR_ROW_STRIDE {
        return None;
    }
    let slot: usize = write_index - PREDICTOR_ROW_STRIDE;
    if slot >= strip.len() {
        return None;
    }
    let index: usize = high_nibble as usize * DYAD_BANK_STRIDE + row % 4 * DYAD_ROW_LEN + dword
        % DYAD_ROW_LEN;
    let b: u8 = table.as_bytes()[index];
    strip[slot] = ((b as u16 + 0x80) % 0x100) as u8;
    Some(RowBandSeed { delta: sign_extend(b), predictor_slot: slot })
}

/// The per-frame codebook arena.
#[derive(Debug, Clone)]
pub struct VqArena {
    bytes: [u8; ARENA_LEN],
}

impl View for VqArena {
    type V = Seq<u8>;

    closed spec fn view(&self) -> Seq<u8> {
        self.bytes@
    }
}

impl VqArena {
    /// An arena of zeros.
    pub fn new() -> (r: Self)
        ensures
            r@.len() == ARENA_LEN,
            forall|i: int| 0 <= i < ARENA_LEN ==> r@[i] == 0,
    {
        VqArena { bytes: [0u8; ARENA_LEN] }
    }

    /// The arena's bytes.
    pub fn as_bytes(&self) -> (r: &[u8])
        ensures
            r@ == self@,
            r@.len() == ARENA_LEN,
    {
        self.bytes.as_slice()
    }

    /// Store one byte of the arena.
    pub fn set_byte(&mut self, index: usize, value: u8)
        requires
            index < ARENA_LEN,
        ensures
            final(self)@ == old(self)@.update(index as int, value),
    {
        self.bytes[index] = value;
    }

    /// Where a band's primary half starts; `None` for a band outside the
    /// arena.
    pub fn band_primary_offset(band: usize) -> (r: Option<usize>)
        ensures
            r is Some <==> band < ARENA_BAND_COUNT,
            r matches Some(o) ==> o == ARENA_BANDS_OFFSET + ARENA_BAND_LEN * band && o
                + ARENA_BAND_LEN <= ARENA_LEN,
    {
        if band >= ARENA_BAND_COUNT {
            None
        } else {
            Some(ARENA_BANDS_OFFSET + ARENA_BAND_LEN * band)
        }
    }

    /// Where a band's secondary half starts; `None` for a band outside
    /// the arena.
    pub fn band_secondary_offset(band: usize) -> (r: Option<usize>)
        ensures
            r is Some <==> band < ARENA_BAND_COUNT,
            r matches Some(o) ==> o == ARENA_BANDS_OFFSET + ARENA_BAND_LEN * band + ARENA_HALF_LEN
                && o + ARENA_HALF_LEN <= ARENA_LEN,
    {
        match Self::band_primary_offset(band) {
            Some(o) => Some(o + ARENA_HALF_LEN),
            None => None,
        }
    }
}

} // verus!
