//! The single-position reconstruction arithmetic: the dyad-pair add and
//! the store shapes of the four cell variants.
use super::bytes::{byte_of, le32, u32_from_le};
use super::vq::CellVariant;
use vstd::prelude::*;

verus! {

/// Row stride of the strip pixel buffers: the predictor of a byte is the
/// byte this far before it.
pub const PREDICTOR_ROW_STRIDE: usize = 0xb0;

/// The edge-marker bit of a strip byte.
pub const EDGE_MARKER_BIT: u8 = 0x80;

/// The predictor byte of a row with no row above it in its buffer.
pub const TOP_OF_STRIP_PREDICTOR: u8 = 0x00;

/// The double word of four predictor bytes, the first one lowest.
pub fn pack_predictor(bytes: [u8; 4]) -> (r: u32)
    ensures
        r == le32(bytes@[0], bytes@[1], bytes@[2], bytes@[3]),
{
    u32_from_le(bytes[0], bytes[1], bytes[2], bytes[3])
}

/// The four bytes of a double word, the lowest one first.
pub fn unpack_pixels(v: u32) -> (r: [u8; 4])
    ensures
        forall|i: int| 0 <= i < 4 ==> #[trigger] r@[i] == byte_of(v as int, i),
{
    [
        (v % 0x100) as u8,
        (v / 0x100 % 0x100) as u8,
        (v / 0x1_0000 % 0x100) as u8,
        (v / 0x100_0000 % 0x100) as u8,
    ]
}

/// What the dyad-pair add comes to.
#[derive(Debug, Clone, Copy, PartialEq, Eq, Structural)]
pub enum DyadOutcome {
    /// The sum of predictor and primary delta stood as it is.
    Primary {
        /// The output pixels.
        pixels: u32,
    },
    /// The sum's sign bit asked for the secondary delta.
    Continuation {
        /// The output pixels.
        pixels: u32,
    },
    /// The low half's sign bit stayed set after the secondary delta.
    Fault,
}

impl DyadOutcome {
    /// The output pixels; 0 of a fault.
    pub open spec fn pixel_word(self) -> int {
        match self {
            DyadOutcome::Primary { pixels } => pixels as int,
            DyadOutcome::Continuation { pixels } => pixels as int,
            DyadOutcome::Fault => 0,
        }
    }
}

/// The 32-bit sum of predictor and primary delta.
pub open spec fn dyad_sum(predictor: int, primary: int) -> int {
    (predictor + primary) % 0x1_0000_0000
}

/// The low half after the sign bits are flipped and the secondary delta is
/// added.
pub open spec fn dyad_low_half(sum: int, secondary: int) -> int {
    (sum % 0x1_0000 + 0x8000 + secondary) % 0x1_0000
}

/// The dyad-pair add.
pub open spec fn dyad_outcome(predictor: u32, primary: u32, secondary: u16) -> DyadOutcome {
    let sum = dyad_sum(predictor as int, primary as int);
    let low = dyad_low_half(sum, secondary as int);
    if sum < 0x8000_0000 {
        DyadOutcome::Primary { pixels: sum as u32 }
    } else if low >= 0x8000 {
        DyadOutcome::Fault
    } else {
        DyadOutcome::Continuation { pixels: ((sum / 0x1_0000 - 0x8000) * 0x1_0000 + low) as u32 }
    }
}

/// Add a primary delta to a predictor; where the sum's sign bit is set,
/// flip the sign bits of both halves and add the secondary delta to the
/// low half, which must then have its sign bit clear.
pub fn apply_dyad_pair(predictor: u32, primary: u32, secondary: u16) -> (r: DyadOutcome)
    ensures
        r == dyad_outcome(predictor, primary, secondary),
{
    let sum: u32 = ((predictor as u64 + primary as u64) % 0x1_0000_0000) as u32;
    if sum < 0x8000_0000 {
        return DyadOutcome::Primary { pixels: sum };
    }
    let low: u32 = (sum % 0x1_0000 + 0x8000 + secondary as u32) % 0x1_0000;
    if low >= 0x8000 {
        return DyadOutcome::Fault;
    }
    DyadOutcome::Continuation { pixels: (sum / 0x1_0000 - 0x8000) * 0x1_0000 + low }
}

/// The 7-bit average of two pixel bytes.
pub open spec fn average_byte(a: u8, b: u8) -> u8 {
    ((a + b) / 2 % 0x80) as u8
}

/// The per-byte 7-bit average of two pixel words.
pub open spec fn average_word(a: int, b: int) -> int {
    le32(
        average_byte(byte_of(a, 0), byte_of(b, 0)),
        average_byte(byte_of(a, 1), byte_of(b, 1)),
        average_byte(byte_of(a, 2), byte_of(b, 2)),
        average_byte(byte_of(a, 3), byte_of(b, 3)),
    )
}

/// The per-byte half of a pixel word.
pub open spec fn halved_word(v: int) -> int {
    le32(
        (byte_of(v, 0) / 2) as u8,
        (byte_of(v, 1) / 2) as u8,
        (byte_of(v, 2) / 2) as u8,
        (byte_of(v, 3) / 2) as u8,
    )
}

/// The per-byte 7-bit average of two pixel words.
pub fn average_7bit(a: u32, b: u32) -> (r: u32)
    ensures
        r == average_word(a as int, b as int),
{
    let p = unpack_pixels(a);
    let q = unpack_pixels(b);
    assert(p@[0] == byte_of(a as int, 0) && q@[0] == byte_of(b as int, 0));
    u32_from_le(
        ((p[0] as u16 + q[0] as u16) / 2 % 0x80) as u8,
        ((p[1] as u16 + q[1] as u16) / 2 % 0x80) as u8,
        ((p[2] as u16 + q[2] as u16) / 2 % 0x80) as u8,
        ((p[3] as u16 + q[3] as u16) / 2 % 0x80) as u8,
    )
}

/// The per-byte half of a pixel word.
pub fn halve_fefefefe(v: u32) -> (r: u32)
    ensures
        r == halved_word(v as int),
{
    let p = unpack_pixels(v);
    u32_from_le(p[0] / 2, p[1] / 2, p[2] / 2, p[3] / 2)
}

/// The one or two rows a position stores.
#[derive(Debug, Clone, Copy, PartialEq, Eq, Structural)]
pub struct EmittedRows {
    /// The first row.
    pub first: u32,
    /// The second row, where the variant stores two.
    pub second: Option<u32>,
}

impl EmittedRows {
    /// The number of rows.
    pub open spec fn count(self) -> int {
        if self.second is Some {
            2
        } else {
            1
        }
    }

    /// Row `i`.
    pub open spec fn at(self, i: int) -> int {
        if i == 0 {
            self.first as int
        } else {
            self.second->0 as int
        }
    }

    /// The number of rows.
    pub fn len(&self) -> (r: usize)
        ensures
            r == self.count(),
    {
        match self.second {
            Some(_) => 2,
            None => 1,
        }
    }

    /// The rows, top first.
    pub fn to_vec(&self) -> (r: Vec<u32>)
        ensures
            r@.len() == self.count(),
            forall|i: int| 0 <= i < r@.len() ==> #[trigger] r@[i] == self.at(i),
    {
        let mut v: Vec<u32> = Vec::new();
        v.push(self.first);
        if let Some(s) = self.second {
            v.push(s);
        }
        v
    }
}

/// One position's arithmetic outcome and the rows it stores.
#[derive(Debug, Clone, Copy, PartialEq, Eq, Structural)]
pub struct VariantEmission {
    /// The dyad-pair add.
    pub outcome: DyadOutcome,
    /// The stored rows.
    pub rows: EmittedRows,
}

/// The rows a variant stores for the output pixels `pixels` over the
/// predictor `predictor`.
pub open spec fn variant_rows(variant: CellVariant, predictor: int, pixels: int) -> EmittedRows {
    match variant {
        CellVariant::Plain => EmittedRows { first: pixels as u32, second: Some(pixels as u32) },
        CellVariant::WithEdge => EmittedRows {
            first: average_word(predictor, pixels) as u32,
            second: None,
        },
        CellVariant::DoubledRow => EmittedRows {
            first: average_word(predictor, pixels) as u32,
            second: Some(pixels as u32),
        },
        CellVariant::FullyDoubled => EmittedRows {
            first: halved_word(pixels) as u32,
            second: Some(halved_word(pixels) as u32),
        },
    }
}

/// One position's emission.
pub open spec fn emission(
    variant: CellVariant,
    predictor: u32,
    primary: u32,
    secondary: u16,
) -> VariantEmission {
    let outcome = dyad_outcome(predictor, primary, secondary);
    VariantEmission { outcome, rows: variant_rows(variant, predictor as int, outcome.pixel_word()) }
}

/// Add a position's deltas to its predictor and shape the result as the
/// variant stores it.
pub fn emit_variant(variant: CellVariant, predictor: u32, primary: u32, secondary: u16) -> (r:
    VariantEmission)
    ensures
        r == emission(variant, predictor, primary, secondary),
{
    let outcome = apply_dyad_pair(predictor, primary, secondary);
    let pixels: u32 = match outcome {
        DyadOutcome::Primary { pixels } => pixels,
        DyadOutcome::Continuation { pixels } => pixels,
        DyadOutcome::Fault => 0,
    };
    let rows = match variant {
        CellVariant::Plain => EmittedRows { first: pixels, second: Some(pixels) },
        CellVariant::WithEdge => EmittedRows {
            first: average_7bit(predictor, pixels),
            second: None,
        },
        CellVariant::DoubledRow => EmittedRows {
            first: average_7bit(predictor, pixels),
            second: Some(pixels),
        },
        CellVariant::FullyDoubled => {
            let h: u32 = halve_fefefefe(pixels);
            EmittedRows { first: h, second: Some(h) }
        },
    };
    VariantEmission { outcome, rows }
}

} // verus!
