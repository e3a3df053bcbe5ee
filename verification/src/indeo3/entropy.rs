//! Byte-level entropy: the per-cell mode-byte stream and the `0xF8..0xFF`
//! run-length escapes.
//!
//! A literal mode byte splits into a jump-table selector (high nibble) and
//! a band selector (low nibble); an escape is accepted or faults by its
//! position in the cell.
use super::vq::CellVariant;
use vstd::prelude::*;

verus! {

/// The inclusive upper bound of a literal mode byte.
pub const LITERAL_MODE_MAX: u8 = 0xF7;

/// The inclusive lower bound of an escape byte.
pub const RLE_ESCAPE_MIN: u8 = 0xF8;

/// The per-frame-arena band stride a low nibble selects.
pub const ARENA_BAND_STRIDE: usize = 2048;

/// The dyad-pair primary-table base displacement.
pub const PRIMARY_TABLE_DISP: usize = 0x400;

/// The secondary-table dyad-word displacement.
pub const SECONDARY_TABLE_DISP: usize = 0x402;

/// The mask that flips the sign bits of both packed 16-bit halves.
pub const CONTINUATION_XOR: u32 = 0x8000_8000;

/// Variant A (plain) unpacker entry address.
pub const VARIANT_A_ENTRY: u32 = 0x1000_6bac;

/// Variant B (with-edge averaging) unpacker entry address.
pub const VARIANT_B_ENTRY: u32 = 0x1000_6fe1;

/// Variant C (doubled-row) unpacker entry address.
pub const VARIANT_C_ENTRY: u32 = 0x1000_818e;

/// Variant D (fully-doubled) unpacker entry address.
pub const VARIANT_D_ENTRY: u32 = 0x1000_72bb;

/// The structured view of a literal mode byte.
#[derive(Debug, Clone, Copy, PartialEq, Eq, Structural)]
pub struct LiteralMode {
    /// The raw mode byte.
    pub byte: u8,
    /// High nibble: the jump-table index.
    pub high_nibble: u8,
    /// Low nibble: band selector and jump-table flavour.
    pub low_nibble: u8,
    /// The byte displacement into the selected 16-entry jump table.
    pub jump_table_offset: u8,
    /// The per-frame-arena band base displacement.
    pub arena_band_offset: usize,
    /// Bit 3 of the low nibble: selects the first jump table where set.
    pub low_nibble_bit3: bool,
}

impl LiteralMode {
    /// The dispatch fields of a byte.
    pub open spec fn of(byte: u8) -> Self {
        LiteralMode {
            byte,
            high_nibble: (byte / 16) as u8,
            low_nibble: (byte % 16) as u8,
            jump_table_offset: (byte / 16 * 4) as u8,
            arena_band_offset: (byte % 16 * 2048) as usize,
            low_nibble_bit3: byte % 16 >= 8,
        }
    }

    /// Split a literal mode byte into its dispatch fields.
    pub fn from_byte(byte: u8) -> (r: Self)
        ensures
            r == Self::of(byte),
            r.high_nibble < 16,
            r.low_nibble < 16,
            r.arena_band_offset == r.low_nibble * 2048,
    {
        let high_nibble: u8 = byte / 16;
        let low_nibble: u8 = byte % 16;
        LiteralMode {
            byte,
            high_nibble,
            low_nibble,
            jump_table_offset: high_nibble * 4,
            arena_band_offset: low_nibble as usize * 2048,
            low_nibble_bit3: low_nibble >= 8,
        }
    }

    /// The jump table the dispatch consults.
    pub open spec fn table(self) -> JumpTable {
        if self.low_nibble_bit3 {
            JumpTable::First
        } else {
            JumpTable::Second
        }
    }

    /// Which of the two jump tables the dispatch consults.
    pub fn jump_table(self) -> (r: JumpTable)
        ensures
            r == self.table(),
    {
        if self.low_nibble_bit3 {
            JumpTable::First
        } else {
            JumpTable::Second
        }
    }

    /// The slot of the selected jump table at this byte's high nibble.
    pub fn dispatch_entry(self) -> (r: JumpTableEntry)
        ensures
            r == self.table().slot(self.high_nibble as int),
    {
        self.jump_table().entry(self.high_nibble)
    }

    /// `true` when this mode byte indexes a fault slot of its jump table.
    pub fn is_fault(self) -> (r: bool)
        ensures
            r == (self.table().slot(self.high_nibble as int) == JumpTableEntry::Fault),
    {
        self.dispatch_entry().is_fault()
    }
}

/// The two 16-entry mode-byte jump tables, selected by bit 3 of the low
/// nibble.
#[derive(Debug, Clone, Copy, PartialEq, Eq, Structural)]
pub enum JumpTable {
    /// Selected when the bit is set.
    First,
    /// Selected when the bit is clear.
    Second,
}

impl JumpTable {
    /// The table's base address.
    pub fn base_rva(self) -> (r: u32)
        ensures
            r == match self {
                JumpTable::First => 0x1000_6bd4u32,
                JumpTable::Second => 0x1000_6c50u32,
            },
    {
        match self {
            JumpTable::First => 0x1000_6bd4,
            JumpTable::Second => 0x1000_6c50,
        }
    }

    /// The slot at a high nibble. The tables differ at the nibbles 0, 3
    /// and 0xA, and at 5 to 9, which the first table faults and the
    /// second leaves open.
    pub open spec fn slot(self, high_nibble: int) -> JumpTableEntry {
        let n = high_nibble % 16;
        let first = self == JumpTable::First;
        if n == 0x0 {
            JumpTableEntry::Handler(
                if first {
                    0x1000_6c14
                } else {
                    0x1000_6c9c
                },
            )
        } else if n == 0x1 {
            JumpTableEntry::Handler(0x1000_6c90)
        } else if n == 0x3 {
            JumpTableEntry::Handler(
                if first {
                    0x1000_6c14
                } else {
                    0x1000_72c7
                },
            )
        } else if n == 0x4 {
            JumpTableEntry::Handler(0x1000_72bb)
        } else if 0x5 <= n <= 0x9 && !first {
            JumpTableEntry::Unspecified
        } else if n == 0xA {
            JumpTableEntry::Handler(
                if first {
                    0x1000_6c14
                } else {
                    0x1000_7a9b
                },
            )
        } else if n == 0xB {
            JumpTableEntry::Handler(0x1000_771c)
        } else if n == 0xC {
            JumpTableEntry::Handler(0x1000_7710)
        } else {
            JumpTableEntry::Fault
        }
    }

    /// Resolve the slot at index `high_nibble`; an index above 0xF is
    /// taken modulo 16.
    pub fn entry(self, high_nibble: u8) -> (r: JumpTableEntry)
        ensures
            r == self.slot(high_nibble as int),
    {
        let hn: u8 = high_nibble % 16;
        match self {
            JumpTable::First => match hn {
                0x0 | 0x3 | 0xA => JumpTableEntry::Handler(0x1000_6c14),
                0x1 => JumpTableEntry::Handler(0x1000_6c90),
                0x4 => JumpTableEntry::Handler(0x1000_72bb),
                0xB => JumpTableEntry::Handler(0x1000_771c),
                0xC => JumpTableEntry::Handler(0x1000_7710),
                _ => JumpTableEntry::Fault,
            },
            JumpTable::Second => match hn {
                0x0 => JumpTableEntry::Handler(0x1000_6c9c),
                0x1 => JumpTableEntry::Handler(0x1000_6c90),
                0x3 => JumpTableEntry::Handler(0x1000_72c7),
                0x4 => JumpTableEntry::Handler(0x1000_72bb),
                0x5 | 0x6 | 0x7 | 0x8 | 0x9 => JumpTableEntry::Unspecified,
                0xA => JumpTableEntry::Handler(0x1000_7a9b),
                0xB => JumpTableEntry::Handler(0x1000_771c),
                0xC => JumpTableEntry::Handler(0x1000_7710),
                _ => JumpTableEntry::Fault,
            },
        }
    }
}

/// The two tables agree on every index but those that tell the two
/// flavours apart.
pub proof fn tables_differ_only_where_flavours_do(n: int)
    requires
        0 <= n < 16,
    ensures
        JumpTable::First.slot(n) == JumpTable::Second.slot(n) <==> !(n == 0 || n == 3 || n == 0xA
            || 5 <= n <= 9),
{
}

/// The classification of a jump-table slot.
#[derive(Debug, Clone, Copy, PartialEq, Eq, Structural)]
pub enum JumpTableEntry {
    /// A handler at the given address.
    Handler(u32),
    /// The fault handler.
    Fault,
    /// A slot whose target is not pinned.
    Unspecified,
}

impl JumpTableEntry {
    /// `true` if the slot routes to the fault handler.
    pub fn is_fault(self) -> (r: bool)
        ensures
            r == (self is Fault),
    {
        matches!(self, JumpTableEntry::Fault)
    }

    /// The address of a handler slot.
    pub open spec fn handler(self) -> Option<u32> {
        match self {
            JumpTableEntry::Handler(rva) => Some(rva),
            _ => None,
        }
    }

    /// The handler address, when the slot is a handler.
    pub fn handler_rva(self) -> (r: Option<u32>)
        ensures
            r == self.handler(),
    {
        match self {
            JumpTableEntry::Handler(rva) => Some(rva),
            _ => None,
        }
    }
}

/// What a high nibble selects.
#[derive(Debug, Clone, Copy, PartialEq, Eq, Structural)]
pub enum HighNibbleAction {
    /// A dyad pair from the per-frame primary table.
    DyadPrimary,
    /// A single-pixel fill.
    SinglePixelFill,
    /// Any other behaviour.
    Other,
}

impl HighNibbleAction {
    /// Classify a high nibble.
    pub fn from_high_nibble(high_nibble: u8) -> (r: Self)
        ensures
            r == if high_nibble == 0 {
                HighNibbleAction::DyadPrimary
            } else if high_nibble == 1 {
                HighNibbleAction::SinglePixelFill
            } else {
                HighNibbleAction::Other
            },
    {
        match high_nibble {
            0x0 => HighNibbleAction::DyadPrimary,
            0x1 => HighNibbleAction::SinglePixelFill,
            _ => HighNibbleAction::Other,
        }
    }
}

/// The classification of a mode byte.
#[derive(Debug, Clone, Copy, PartialEq, Eq, Structural)]
pub enum ModeByteKind {
    /// A literal dyad index.
    Literal(LiteralMode),
    /// A run-length escape.
    Escape(RleEscape),
}

/// A classified mode byte.
#[derive(Debug, Clone, Copy, PartialEq, Eq, Structural)]
pub struct ModeByte {
    /// The raw byte.
    pub byte: u8,
    /// Its classification.
    pub kind: ModeByteKind,
}

impl ModeByte {
    /// The classification of a byte.
    pub open spec fn kind_of(byte: u8) -> ModeByteKind {
        if byte <= LITERAL_MODE_MAX {
            ModeByteKind::Literal(LiteralMode::of(byte))
        } else {
            ModeByteKind::Escape(RleEscape::of(byte)->0)
        }
    }

    /// Classify a mode byte.
    pub fn classify(byte: u8) -> (r: Self)
        ensures
            r.byte == byte,
            r.kind == Self::kind_of(byte),
    {
        let kind = match RleEscape::from_byte(byte) {
            Some(e) => ModeByteKind::Escape(e),
            None => ModeByteKind::Literal(LiteralMode::from_byte(byte)),
        };
        ModeByte { byte, kind }
    }

    /// `true` if the byte is a literal dyad index.
    pub fn is_literal(self) -> (r: bool)
        ensures
            r == (self.kind is Literal),
    {
        matches!(self.kind, ModeByteKind::Literal(_))
    }

    /// `true` if the byte is an escape.
    pub fn is_escape(self) -> (r: bool)
        ensures
            r == (self.kind is Escape),
    {
        matches!(self.kind, ModeByteKind::Escape(_))
    }
}

/// The eight run-length escapes.
#[derive(Debug, Clone, Copy, PartialEq, Eq, Structural)]
pub enum RleEscape {
    /// `0xF8`: edge-marker for the cell.
    F8,
    /// `0xF9`: mark and skip this block and the next one.
    F9,
    /// `0xFA`: mark the cell.
    Fa,
    /// `0xFB`: a run whose counter byte follows.
    Fb,
    /// `0xFC`: skip the rest of this cell and the next cell.
    Fc,
    /// `0xFD`: skip all remaining rows of the cell.
    Fd,
    /// `0xFE`: skip lines 1 and 2 of the block.
    Fe,
    /// `0xFF`: skip line 1 of the block.
    Ff,
}

impl RleEscape {
    /// The escape of a byte.
    pub open spec fn of(byte: u8) -> Option<Self> {
        if byte == 0xF8 {
            Some(RleEscape::F8)
        } else if byte == 0xF9 {
            Some(RleEscape::F9)
        } else if byte == 0xFA {
            Some(RleEscape::Fa)
        } else if byte == 0xFB {
            Some(RleEscape::Fb)
        } else if byte == 0xFC {
            Some(RleEscape::Fc)
        } else if byte == 0xFD {
            Some(RleEscape::Fd)
        } else if byte == 0xFE {
            Some(RleEscape::Fe)
        } else if byte == 0xFF {
            Some(RleEscape::Ff)
        } else {
            None
        }
    }

    /// The byte of an escape.
    pub open spec fn code(self) -> u8 {
        match self {
            RleEscape::F8 => 0xF8,
            RleEscape::F9 => 0xF9,
            RleEscape::Fa => 0xFA,
            RleEscape::Fb => 0xFB,
            RleEscape::Fc => 0xFC,
            RleEscape::Fd => 0xFD,
            RleEscape::Fe => 0xFE,
            RleEscape::Ff => 0xFF,
        }
    }

    /// Classify an escape byte; `None` for a literal mode byte.
    pub fn from_byte(byte: u8) -> (r: Option<Self>)
        ensures
            r == Self::of(byte),
            r is Some <==> byte >= RLE_ESCAPE_MIN,
    {
        match byte {
            0xF8 => Some(RleEscape::F8),
            0xF9 => Some(RleEscape::F9),
            0xFA => Some(RleEscape::Fa),
            0xFB => Some(RleEscape::Fb),
            0xFC => Some(RleEscape::Fc),
            0xFD => Some(RleEscape::Fd),
            0xFE => Some(RleEscape::Fe),
            0xFF => Some(RleEscape::Ff),
            _ => None,
        }
    }

    /// The escape byte value.
    pub fn byte(self) -> (r: u8)
        ensures
            r == self.code(),
    {
        match self {
            RleEscape::F8 => 0xF8,
            RleEscape::F9 => 0xF9,
            RleEscape::Fa => 0xFA,
            RleEscape::Fb => 0xFB,
            RleEscape::Fc => 0xFC,
            RleEscape::Fd => 0xFD,
            RleEscape::Fe => 0xFE,
            RleEscape::Ff => 0xFF,
        }
    }

    /// An escape's byte classifies as that escape, and the byte of a
    /// classified escape is the byte it was classified from.
    pub proof fn bytes_and_escapes_correspond(self, byte: u8)
        ensures
            Self::of(self.code()) == Some(self),
            Self::of(byte) matches Some(e) ==> e.code() == byte,
    {
    }

    /// How many bytes the escape consumes beyond itself.
    pub fn extra_bytes(self) -> (r: usize)
        ensures
            r == if self == RleEscape::Fb {
                1usize
            } else {
                0usize
            },
    {
        match self {
            RleEscape::Fb => 1,
            _ => 0,
        }
    }

    /// The acceptance matrix: every escape is accepted at the first
    /// position of a row; within a row `0xFF` faults at once, `0xFE`
    /// survives one position, `0xFD` two, and `0xFB` and `0xFC` all.
    pub open spec fn accepts(self, position: PositionClass) -> bool {
        match position {
            PositionClass::CellFirst => true,
            PositionClass::RowFirst => true,
            PositionClass::Continuation1 => 0xFB <= self.code() <= 0xFE,
            PositionClass::Continuation2 => 0xFB <= self.code() <= 0xFD,
            PositionClass::Continuation3 => 0xFB <= self.code() <= 0xFC,
        }
    }

    /// Is this escape accepted at the given position within the cell, or
    /// does it fault?
    pub fn accepted_at(self, position: PositionClass) -> (r: bool)
        ensures
            r == self.accepts(position),
    {
        match position {
            PositionClass::CellFirst | PositionClass::RowFirst => true,
            PositionClass::Continuation1 => matches!(
                self,
                RleEscape::Fb | RleEscape::Fc | RleEscape::Fd | RleEscape::Fe
            ),
            PositionClass::Continuation2 => matches!(
                self,
                RleEscape::Fb | RleEscape::Fc | RleEscape::Fd
            ),
            PositionClass::Continuation3 => matches!(self, RleEscape::Fb | RleEscape::Fc),
        }
    }
}

/// The position within a cell that decides which escapes are accepted.
#[derive(Debug, Clone, Copy, PartialEq, Eq, Structural)]
pub enum PositionClass {
    /// The very first position of a cell.
    CellFirst,
    /// The first position of a later row.
    RowFirst,
    /// The second position of a row.
    Continuation1,
    /// The third position of a row.
    Continuation2,
    /// Any later position of a row.
    Continuation3,
}

impl PositionClass {
    /// How far into a row the position is.
    pub open spec fn depth(self) -> int {
        match self {
            PositionClass::CellFirst => 0,
            PositionClass::RowFirst => 0,
            PositionClass::Continuation1 => 1,
            PositionClass::Continuation2 => 2,
            PositionClass::Continuation3 => 3,
        }
    }

    /// The class of the position `dword` of row `row`.
    pub open spec fn of(row: int, dword: int) -> Self {
        if dword == 0 {
            if row == 0 {
                PositionClass::CellFirst
            } else {
                PositionClass::RowFirst
            }
        } else if dword == 1 {
            PositionClass::Continuation1
        } else if dword == 2 {
            PositionClass::Continuation2
        } else {
            PositionClass::Continuation3
        }
    }

    /// The dispatch-base address of the class in variant A's first row.
    pub fn variant_a_row0_base_rva(self) -> (r: u32)
        ensures
            r == match self {
                PositionClass::CellFirst => 0x1000_68ecu32,
                PositionClass::RowFirst => 0x1000_6c18u32,
                PositionClass::Continuation1 => 0x1000_6a60u32,
                PositionClass::Continuation2 => 0x1000_6adcu32,
                PositionClass::Continuation3 => 0x1000_6b64u32,
            },
    {
        match self {
            PositionClass::CellFirst => 0x1000_68ec,
            PositionClass::RowFirst => 0x1000_6c18,
            PositionClass::Continuation1 => 0x1000_6a60,
            PositionClass::Continuation2 => 0x1000_6adc,
            PositionClass::Continuation3 => 0x1000_6b64,
        }
    }
}

/// Acceptance only narrows along a row: an escape accepted at a position
/// is accepted at every position that is no further into its row.
pub proof fn acceptance_narrows(e: RleEscape, p: PositionClass, q: PositionClass)
    requires
        q.depth() <= p.depth(),
        e.accepts(p),
    ensures
        e.accepts(q),
{
}

/// Classify the position `dword` of row `row` of a cell.
pub fn position_class(row: usize, dword: usize) -> (r: PositionClass)
    ensures
        r == PositionClass::of(row as int, dword as int),
{
    if dword == 0 {
        if row == 0 {
            PositionClass::CellFirst
        } else {
            PositionClass::RowFirst
        }
    } else if dword == 1 {
        PositionClass::Continuation1
    } else if dword == 2 {
        PositionClass::Continuation2
    } else {
        PositionClass::Continuation3
    }
}

/// The arena addresses a literal mode byte selects at one dyad column.
#[derive(Debug, Clone, Copy, PartialEq, Eq, Structural)]
pub struct DyadAddress {
    /// The arena band base offset.
    pub band_base: usize,
    /// The primary-table dyad offset.
    pub primary_offset: usize,
    /// The secondary-table dyad word offset.
    pub secondary_offset: usize,
}

impl DyadAddress {
    /// The dyad-pair addresses for a literal mode byte at column `col`.
    pub fn new(mode: LiteralMode, col: usize) -> (r: Self)
        requires
            mode.arena_band_offset + 4 * col + SECONDARY_TABLE_DISP <= usize::MAX,
        ensures
            r.band_base == mode.arena_band_offset,
            r.primary_offset == mode.arena_band_offset + 4 * col + PRIMARY_TABLE_DISP,
            r.secondary_offset == mode.arena_band_offset + 4 * col + SECONDARY_TABLE_DISP,
    {
        let band_base: usize = mode.arena_band_offset;
        DyadAddress {
            band_base,
            primary_offset: band_base + 4 * col + PRIMARY_TABLE_DISP,
            secondary_offset: band_base + 4 * col + SECONDARY_TABLE_DISP,
        }
    }
}

/// Whether a dyad sum asks for a continuation byte: its sign bit is set.
pub fn continuation_needed(dyad_sum: u32) -> (r: bool)
    ensures
        r == (dyad_sum >= 0x8000_0000),
{
    dyad_sum >= 0x8000_0000
}

/// Flip the sign bits of both halves of a dyad sum.
pub fn apply_continuation_xor(dyad_sum: u32) -> (r: u32)
    ensures
        r == dyad_sum ^ CONTINUATION_XOR,
{
    dyad_sum ^ CONTINUATION_XOR
}

/// Flipping the sign bits twice gives the sum back; once, it moves each
/// half by 0x8000 modulo 0x10000.
pub proof fn sign_flip_is_an_involution(sum: u32)
    ensures
        (sum ^ CONTINUATION_XOR) ^ CONTINUATION_XOR == sum,
        (sum ^ CONTINUATION_XOR) as int / 0x1_0000 == (sum as int / 0x1_0000 + 0x8000) % 0x1_0000,
        (sum ^ CONTINUATION_XOR) as int % 0x1_0000 == (sum as int % 0x1_0000 + 0x8000) % 0x1_0000,
{
    assert((sum ^ 0x8000_8000) ^ 0x8000_8000 == sum && (sum ^ 0x8000_8000) / 0x1_0000 == (sum
        / 0x1_0000 + 0x8000) % 0x1_0000 && (sum ^ 0x8000_8000) % 0x1_0000 == (sum % 0x1_0000
        + 0x8000) % 0x1_0000) by (bit_vector);
}

/// The category of a `0xFB` counter byte.
#[derive(Debug, Clone, Copy, PartialEq, Eq, Structural)]
pub enum FbCategory {
    /// A counter of no cells, or a reserved one.
    Zero,
    /// Copy from the reference.
    Copy,
    /// Mark skipped.
    MarkSkipped,
}

impl FbCategory {
    /// The table value of a category.
    pub open spec fn table_value(self) -> u8 {
        match self {
            FbCategory::Zero => 0x00,
            FbCategory::Copy => 0x04,
            FbCategory::MarkSkipped => 0x08,
        }
    }

    /// The category byte value the table holds.
    pub fn value(self) -> (r: u8)
        ensures
            r == self.table_value(),
    {
        match self {
            FbCategory::Zero => 0x00,
            FbCategory::Copy => 0x04,
            FbCategory::MarkSkipped => 0x08,
        }
    }

    /// The handler address of the category.
    pub fn handler_rva(self) -> (r: u32)
        ensures
            r == match self {
                FbCategory::Zero => 0x1000_6d34u32,
                FbCategory::Copy => 0x1000_6d39u32,
                FbCategory::MarkSkipped => 0x1000_6d97u32,
            },
    {
        match self {
            FbCategory::Zero => 0x1000_6d34,
            FbCategory::Copy => 0x1000_6d39,
            FbCategory::MarkSkipped => 0x1000_6d97,
        }
    }
}

/// The category of a counter byte: reserved high bits or a count of zero
/// make it void; otherwise bit 5 tells marking from copying.
pub open spec fn category_of(counter: int) -> FbCategory {
    if counter >= 0x40 || counter % 0x20 == 0 {
        FbCategory::Zero
    } else if counter < 0x20 {
        FbCategory::Copy
    } else {
        FbCategory::MarkSkipped
    }
}

/// The 256-byte counter-byte category table.
pub fn fb_category_table() -> (r: [u8; 256])
    ensures
        forall|c: int| 0 <= c < 256 ==> #[trigger] r@[c] == category_of(c).table_value(),
{
    let mut table: [u8; 256] = [0u8; 256];
    let mut c: usize = 0;
    while c < 256
        invariant
            c <= 256,
            forall|k: int| 0 <= k < c ==> #[trigger] table@[k] == category_of(k).table_value(),
        decreases 256 - c,
    {
        table[c] = fb_category(c as u8).value();
        c = c + 1;
    }
    table
}

/// Classify a counter byte.
pub fn fb_category(counter: u8) -> (r: FbCategory)
    ensures
        r == category_of(counter as int),
{
    if counter >= 0x40 || counter % 0x20 == 0 {
        FbCategory::Zero
    } else if counter < 0x20 {
        FbCategory::Copy
    } else {
        FbCategory::MarkSkipped
    }
}

/// The decomposition of a `0xFB` counter byte.
#[derive(Debug, Clone, Copy, PartialEq, Eq, Structural)]
pub struct FbCounter {
    /// The raw counter byte.
    pub byte: u8,
    /// The low five bits plus one.
    pub cells_to_skip: u8,
    /// Bit 5 clear: copy from the reference rather than mark skipped.
    pub copy_from_reference: bool,
    /// Whether the reserved high bits are zero.
    pub reserved_bits_zero: bool,
    /// The category of the counter.
    pub category: FbCategory,
}

impl FbCounter {
    /// The decomposition of a byte.
    pub open spec fn of(byte: u8) -> Self {
        FbCounter {
            byte,
            cells_to_skip: (byte % 32 + 1) as u8,
            copy_from_reference: byte / 32 % 2 == 0,
            reserved_bits_zero: byte < 0x40,
            category: category_of(byte as int),
        }
    }

    /// Decompose a counter byte.
    pub fn decode(byte: u8) -> (r: Self)
        ensures
            r == Self::of(byte),
    {
        FbCounter {
            byte,
            cells_to_skip: byte % 32 + 1,
            copy_from_reference: byte / 32 % 2 == 0,
            reserved_bits_zero: byte < 0x40,
            category: fb_category(byte),
        }
    }

    /// A counter that starts a run: of at least one position and with the
    /// reserved bits clear.
    pub open spec fn starts_run(self) -> bool {
        self.category != FbCategory::Zero
    }

    /// Whether the counter starts a run.
    pub fn is_valid(self) -> (r: bool)
        ensures
            r == self.starts_run(),
    {
        !matches!(self.category, FbCategory::Zero)
    }
}

/// The unpacker entry address of a cell-shape variant.
pub fn variant_entry_rva(variant: CellVariant) -> (r: u32)
    ensures
        r == match variant {
            CellVariant::Plain => VARIANT_A_ENTRY,
            CellVariant::WithEdge => VARIANT_B_ENTRY,
            CellVariant::DoubledRow => VARIANT_C_ENTRY,
            CellVariant::FullyDoubled => VARIANT_D_ENTRY,
        },
{
    match variant {
        CellVariant::Plain => VARIANT_A_ENTRY,
        CellVariant::WithEdge => VARIANT_B_ENTRY,
        CellVariant::DoubledRow => VARIANT_C_ENTRY,
        CellVariant::FullyDoubled => VARIANT_D_ENTRY,
    }
}

} // verus!
