//! The two reference banks and the ping-pong between them.
use super::header::{bit_set, FrameFlags};
use super::picture_layer::PLANE_COUNT;
use super::strip_context::{bank_slot, strip_slot_index};
use vstd::prelude::*;

verus! {

/// Distance between a plane's slots in the two banks.
pub const BANK_INVERSION_DELTA: usize = 3;

/// The two banks of strip-context slots.
#[derive(Debug, Clone, Copy, PartialEq, Eq, Structural)]
pub enum Bank {
    /// Slots 3, 4, 5 for Y, V, U.
    Primary,
    /// Slots 0, 1, 2 for Y, V, U.
    Secondary,
}

impl Bank {
    /// The bank the flags select.
    pub open spec fn of(flags: FrameFlags) -> Self {
        if bit_set(flags.0, 0x0200) {
            Bank::Secondary
        } else {
            Bank::Primary
        }
    }

    /// The other bank.
    pub open spec fn other(self) -> Self {
        match self {
            Bank::Primary => Bank::Secondary,
            Bank::Secondary => Bank::Primary,
        }
    }

    /// Decode the buffer-selector bit into a bank.
    pub fn from_buffer_selector(flags: FrameFlags) -> (r: Self)
        ensures
            r == Self::of(flags),
    {
        if flags.buffer_selector() {
            Bank::Secondary
        } else {
            Bank::Primary
        }
    }

    /// The opposite bank.
    pub fn opposite(self) -> (r: Self)
        ensures
            r == self.other(),
    {
        match self {
            Bank::Primary => Bank::Secondary,
            Bank::Secondary => Bank::Primary,
        }
    }

    /// The slot this bank assigns to a plane; `None` for an index that
    /// names no plane.
    pub fn slot_for_plane(self, plane_idx: usize) -> (r: Option<usize>)
        ensures
            r is Some <==> plane_idx < PLANE_COUNT,
            r matches Some(s) ==> s == bank_slot(plane_idx as int, self == Bank::Secondary),
    {
        strip_slot_index(plane_idx, matches!(self, Bank::Secondary))
    }

    /// True iff this is the primary bank.
    pub fn is_primary(self) -> (r: bool)
        ensures
            r == (self == Bank::Primary),
    {
        matches!(self, Bank::Primary)
    }

    /// True iff this is the secondary bank.
    pub fn is_secondary(self) -> (r: bool)
        ensures
            r == (self == Bank::Secondary),
    {
        matches!(self, Bank::Secondary)
    }
}

/// The destination and source slots of one plane.
#[derive(Debug, Clone, Copy, PartialEq, Eq, Structural)]
pub struct McBankAssignment {
    /// The plane index.
    pub plane_idx: usize,
    /// The bank the current frame writes into.
    pub dst_bank: Bank,
    /// The slot the current frame writes into.
    pub dst_slot: usize,
    /// The slot the motion fetch reads from.
    pub src_slot: usize,
}

impl McBankAssignment {
    /// The assignment of a plane: the current frame writes the selected
    /// bank and reads the other one.
    pub open spec fn of(flags: FrameFlags, plane_idx: int) -> Self {
        let dst = Bank::of(flags);
        McBankAssignment {
            plane_idx: plane_idx as usize,
            dst_bank: dst,
            dst_slot: bank_slot(plane_idx, dst == Bank::Secondary) as usize,
            src_slot: bank_slot(plane_idx, dst.other() == Bank::Secondary) as usize,
        }
    }

    /// Resolve the slots of a plane; `None` for an index that names no
    /// plane.
    pub fn resolve(flags: FrameFlags, plane_idx: usize) -> (r: Option<Self>)
        ensures
            r is Some <==> plane_idx < PLANE_COUNT,
            r matches Some(a) ==> a == Self::of(flags, plane_idx as int),
    {
        if plane_idx >= PLANE_COUNT {
            return None;
        }
        let dst_bank = Bank::from_buffer_selector(flags);
        let src_bank = dst_bank.opposite();
        match (dst_bank.slot_for_plane(plane_idx), src_bank.slot_for_plane(plane_idx)) {
            (Some(dst_slot), Some(src_slot)) => Some(
                McBankAssignment { plane_idx, dst_bank, dst_slot, src_slot },
            ),
            _ => None,
        }
    }

    /// The source bank.
    pub fn src_bank(self) -> (r: Bank)
        ensures
            r == self.dst_bank.other(),
    {
        self.dst_bank.opposite()
    }

    /// True if the two slots are equal.
    pub fn is_self_copy(self) -> (r: bool)
        ensures
            r == (self.dst_slot == self.src_slot),
    {
        self.dst_slot == self.src_slot
    }

    /// The distance between the two slots.
    pub fn slot_delta(self) -> (r: usize)
        ensures
            r == if self.dst_slot >= self.src_slot {
                self.dst_slot - self.src_slot
            } else {
                self.src_slot - self.dst_slot
            },
    {
        if self.dst_slot >= self.src_slot {
            self.dst_slot - self.src_slot
        } else {
            self.src_slot - self.dst_slot
        }
    }
}

/// The banks alternate: the opposite of the opposite is the bank itself,
/// and no bank is its own opposite.
pub proof fn opposite_is_an_involution(bank: Bank)
    ensures
        bank.other().other() == bank,
        bank.other() != bank,
{
}

/// A plane never reads the slot it writes; its two slots are
/// [`BANK_INVERSION_DELTA`] apart.
pub proof fn assignment_is_no_self_copy(flags: FrameFlags, plane_idx: int)
    requires
        0 <= plane_idx < PLANE_COUNT,
    ensures
        ({
            let a = McBankAssignment::of(flags, plane_idx);
            &&& a.dst_slot != a.src_slot
            &&& a.dst_slot == a.src_slot + BANK_INVERSION_DELTA || a.src_slot == a.dst_slot
                + BANK_INVERSION_DELTA
        }),
{
}

/// Flipping the selector bit between two frames swaps the roles of the
/// slots: the second frame reads what the first one wrote.
pub proof fn flipped_selector_swaps_slots(a: FrameFlags, b: FrameFlags, plane_idx: int)
    requires
        0 <= plane_idx < PLANE_COUNT,
        bit_set(a.0, 0x0200) != bit_set(b.0, 0x0200),
    ensures
        McBankAssignment::of(b, plane_idx).src_slot == McBankAssignment::of(a, plane_idx).dst_slot,
        McBankAssignment::of(b, plane_idx).dst_slot == McBankAssignment::of(a, plane_idx).src_slot,
{
}

/// No two planes share a slot, in one bank or across the two.
pub proof fn slots_are_distinct(p: int, q: int, a: bool, b: bool)
    requires
        0 <= p < PLANE_COUNT,
        0 <= q < PLANE_COUNT,
        bank_slot(p, a) == bank_slot(q, b),
    ensures
        p == q,
        a == b,
{
}

/// The flag of weight 512 selects the bank a frame writes: set, plane `i`
/// is written to slot `i` and read from slot `i + 3`; clear, the other way
/// round.
pub proof fn selectors_name_their_slots(flags: FrameFlags, plane_idx: int)
    requires
        0 <= plane_idx < 3,
    ensures
        ({
            let a = McBankAssignment::of(flags, plane_idx);
            let set = flags.0 % 1024 >= 512;
            &&& a.plane_idx == plane_idx
            &&& a.dst_bank == Bank::Secondary <==> set
            &&& set ==> a.dst_slot == plane_idx && a.src_slot == plane_idx + 3
            &&& !set ==> a.dst_slot == plane_idx + 3 && a.src_slot == plane_idx
        }),
{
}

} // verus!
