//! The cell stack inside a strip-context slot.
use super::strip_context::{CELL_SUBARRAY_BEGIN, STRIP_SLOT_COUNT, STRIP_SLOT_STRIDE};
use vstd::prelude::*;

verus! {

/// Bytes of a cell-stack entry.
pub const CELL_STACK_ENTRY_SIZE: usize = 4;

/// First byte of the cell stack within a slot.
pub const CELL_STACK_BEGIN_OFFSET: usize = CELL_SUBARRAY_BEGIN;

/// Number of cell-stack entries that fit in one slot.
pub const CELL_STACK_MAX_ENTRIES: usize = 240;

/// Offset of the previous cell's bottom-right edge that the edge fix-up
/// reads.
pub const PER_CELL_EDGE_PREV_BR_OFFSET: usize = 0x24;

/// Offset in the previous cell at which the edge fix-up writes the next
/// cell's top edge.
pub const PER_CELL_EDGE_PREV_BR_NEXT_OFFSET: usize = 0x28;

/// Row stride of the edge fix-up.
pub const PER_CELL_EDGE_ROW_STRIDE: usize = 0xb0;

/// Rows the edge fix-up takes at a time.
pub const PER_CELL_EDGE_HEIGHT_STEP: u32 = 4;

/// Where the cell stack is read.
#[derive(Debug, Clone, Copy, PartialEq, Eq, Structural)]
pub enum CellStackReadSite {
    /// The source slot's top, for the entry check.
    SourceSlotTop,
    /// The destination slot's top, for the edge fix-up dispatch.
    DestSlotTop,
    /// The probe of the current cell position.
    CellPositionProbe,
}

impl CellStackReadSite {
    /// True iff a zero entry here means the strip-edge fix-up.
    pub fn zero_means_strip_edge(self) -> (r: bool)
        ensures
            r == (self == CellStackReadSite::DestSlotTop),
    {
        matches!(self, CellStackReadSite::DestSlotTop)
    }

    /// True iff a zero entry here selects the mirror sub-tables.
    pub fn zero_means_mirror_bank(self) -> (r: bool)
        ensures
            r == (self == CellStackReadSite::CellPositionProbe),
    {
        matches!(self, CellStackReadSite::CellPositionProbe)
    }

    /// True iff the load indexes the destination slot.
    pub fn uses_dest_slot_base(self) -> (r: bool)
        ensures
            r == (self != CellStackReadSite::SourceSlotTop),
    {
        matches!(self, CellStackReadSite::DestSlotTop | CellStackReadSite::CellPositionProbe)
    }
}

/// The byte of entry `entry_idx` within a slot.
pub open spec fn entry_offset(entry_idx: int) -> int {
    CELL_STACK_BEGIN_OFFSET + 4 * entry_idx
}

/// Byte offset of a cell-stack entry within a slot; `None` past the last
/// entry.
pub fn cell_stack_slot_offset(entry_idx: usize) -> (r: Option<usize>)
    ensures
        r is Some <==> entry_idx < CELL_STACK_MAX_ENTRIES,
        r matches Some(o) ==> o == entry_offset(entry_idx as int) && o + 4 <= STRIP_SLOT_STRIDE,
{
    if entry_idx >= CELL_STACK_MAX_ENTRIES {
        return None;
    }
    Some(CELL_STACK_BEGIN_OFFSET + CELL_STACK_ENTRY_SIZE * entry_idx)
}

/// Byte offset of a cell-stack entry within the strip-context array;
/// `None` past the last slot or entry.
pub fn cell_stack_array_offset(slot_idx: usize, entry_idx: usize) -> (r: Option<usize>)
    ensures
        r is Some <==> slot_idx < STRIP_SLOT_COUNT && entry_idx < CELL_STACK_MAX_ENTRIES,
        r matches Some(o) ==> o == slot_idx * 0x400 + entry_offset(entry_idx as int),
{
    if slot_idx >= STRIP_SLOT_COUNT {
        return None;
    }
    match cell_stack_slot_offset(entry_idx) {
        Some(o) => Some(slot_idx * 0x400 + o),
        None => None,
    }
}

/// No two entries of the array overlap, and every entry lies in its slot.
pub proof fn entries_are_disjoint(s: int, e: int, t: int, f: int)
    requires
        0 <= s < STRIP_SLOT_COUNT,
        0 <= t < STRIP_SLOT_COUNT,
        0 <= e < CELL_STACK_MAX_ENTRIES,
        0 <= f < CELL_STACK_MAX_ENTRIES,
        s != t || e != f,
    ensures
        ({
            let a = s * 0x400 + entry_offset(e);
            let b = t * 0x400 + entry_offset(f);
            (a + 4 <= b || b + 4 <= a) && s * 0x400 <= a && a + 4 <= (s + 1) * 0x400
        }),
{
}

/// What a cell-stack top asks for.
#[derive(Debug, Clone, Copy, PartialEq, Eq, Structural)]
pub enum CellStackTopDispatch {
    /// The strip-edge fix-up at the end of a strip.
    StripEdgeFixup,
    /// The edge fix-up between two cells.
    InterCellFixup {
        /// The cell-stack top.
        cell_data_ptr: u32,
    },
}

impl CellStackTopDispatch {
    /// Classify a destination slot's cell-stack top.
    pub fn from_dest_slot_top(cell_stack_top: u32) -> (r: Self)
        ensures
            r == if cell_stack_top == 0 {
                CellStackTopDispatch::StripEdgeFixup
            } else {
                CellStackTopDispatch::InterCellFixup { cell_data_ptr: cell_stack_top }
            },
    {
        if cell_stack_top == 0 {
            CellStackTopDispatch::StripEdgeFixup
        } else {
            CellStackTopDispatch::InterCellFixup { cell_data_ptr: cell_stack_top }
        }
    }

    /// True iff this is the strip-edge fix-up.
    pub fn is_strip_edge(self) -> (r: bool)
        ensures
            r == (self is StripEdgeFixup),
    {
        matches!(self, CellStackTopDispatch::StripEdgeFixup)
    }

    /// True iff this is the inter-cell fix-up.
    pub fn is_inter_cell(self) -> (r: bool)
        ensures
            r == (self is InterCellFixup),
    {
        !self.is_strip_edge()
    }

    /// The cell-data pointer of the inter-cell fix-up.
    pub fn cell_data_ptr(self) -> (r: Option<u32>)
        ensures
            r == match self {
                CellStackTopDispatch::InterCellFixup { cell_data_ptr } => Some(cell_data_ptr),
                CellStackTopDispatch::StripEdgeFixup => None,
            },
    {
        match self {
            CellStackTopDispatch::InterCellFixup { cell_data_ptr } => Some(cell_data_ptr),
            CellStackTopDispatch::StripEdgeFixup => None,
        }
    }
}

} // verus!
