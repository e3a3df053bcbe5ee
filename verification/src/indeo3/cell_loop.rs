//! The per-cell preamble over a cell-geometry bank in memory, and the row
//! walk of a cell column.
use super::bytes::{dword_at, read_dword};
use super::reconstruct::PREDICTOR_ROW_STRIDE;
use vstd::prelude::*;

verus! {

/// Bytes of one cell-geometry bank.
pub const CELL_BANK_LEN: usize = 0x1300;

/// Offset of the `cl`-indexed row-counter table.
pub const CL_ROW_COUNTER_LUT: usize = 0x000;

/// Offset of the `ch`-indexed control table.
pub const CH_CONTROL_LUT: usize = 0x100;

/// Offset of the slot-index table.
pub const SLOT_INDEX_LUT: usize = 0x200;

/// Offset of the cell-data table.
pub const CELL_DATA_TABLE: usize = 0x300;

/// Offset of the cell-position table.
pub const CELL_POSITION_TABLE: usize = 0x700;

/// Offset of the mirror sub-tables.
pub const MIRROR_TABLE_OFFSET: usize = 0xb00;

/// The least cell-position offset that is malformed.
pub const CELL_POSITION_MAX: u32 = 0xf423f;

/// The mask that clears the intra-context flag.
pub const INTRA_CONTEXT_CLEAR_MASK: u32 = 0xbfffffff;

/// The intra-context flag, bit 30.
pub const INTRA_CONTEXT_FLAG: u32 = 0x40000000;

/// Which sub-tables of the bank a cell consults.
#[derive(Debug, Clone, Copy, PartialEq, Eq, Structural)]
pub enum CodebookBankView {
    /// The primary sub-tables.
    Primary,
    /// The mirror sub-tables.
    Mirror,
}

impl CodebookBankView {
    /// The view for a cell-stack top.
    pub open spec fn of(cell_stack_top: u32) -> Self {
        if cell_stack_top == 0 {
            CodebookBankView::Mirror
        } else {
            CodebookBankView::Primary
        }
    }

    /// The offset of the view's sub-tables.
    pub open spec fn base(self) -> int {
        match self {
            CodebookBankView::Primary => 0,
            CodebookBankView::Mirror => MIRROR_TABLE_OFFSET as int,
        }
    }

    /// Pick the bank view from the cell-stack top.
    pub fn from_cell_stack_top(cell_stack_top: u32) -> (r: Self)
        ensures
            r == Self::of(cell_stack_top),
    {
        if cell_stack_top == 0 {
            CodebookBankView::Mirror
        } else {
            CodebookBankView::Primary
        }
    }

    /// The byte offset from the bank base to this view's sub-tables.
    pub fn bank_base_offset(self) -> (r: usize)
        ensures
            r == self.base(),
    {
        match self {
            CodebookBankView::Primary => 0,
            CodebookBankView::Mirror => MIRROR_TABLE_OFFSET,
        }
    }

    /// True iff this is the mirror view.
    pub fn is_mirror(self) -> (r: bool)
        ensures
            r == (self == CodebookBankView::Mirror),
    {
        matches!(self, CodebookBankView::Mirror)
    }
}

/// The outcome of the per-cell preamble.
#[derive(Debug, Clone, Copy, PartialEq, Eq, Structural)]
pub enum CellLoopPreamble {
    /// The cell is ready.
    Ready(CellLoopState),
    /// The cell-position offset is malformed.
    CellPositionFault {
        /// The offset read.
        offset: u32,
    },
}

impl CellLoopPreamble {
    /// True iff the preamble produced a state.
    pub fn is_ready(&self) -> (r: bool)
        ensures
            r == (self is Ready),
    {
        matches!(self, CellLoopPreamble::Ready(_))
    }

    /// Borrow the state, on success.
    pub fn state(&self) -> (r: Option<&CellLoopState>)
        ensures
            match r {
                Some(s) => *self == CellLoopPreamble::Ready(*s),
                None => self is CellPositionFault,
            },
    {
        if let CellLoopPreamble::Ready(s) = self {
            Some(s)
        } else {
            None
        }
    }
}

/// What the inner kernel of a cell needs.
#[derive(Debug, Clone, Copy, PartialEq, Eq, Structural)]
pub struct CellLoopState {
    /// The row-loop counter.
    pub cl_inner: u8,
    /// The cell-position offset, below [`CELL_POSITION_MAX`].
    pub cell_position_offset: u32,
    /// Which sub-tables supplied the lookups.
    pub bank_view: CodebookBankView,
    /// The cell-state register with the intra-context flag cleared.
    pub ecx_post_clear: u32,
}

impl CellLoopState {
    /// Does the cell's state set the VQ_DATA flag, bit 31?
    pub fn vq_data_flag(self) -> (r: bool)
        ensures
            r == (self.ecx_post_clear >= 0x8000_0000),
    {
        self.ecx_post_clear >= 0x8000_0000
    }
}

/// Read the `cl`-indexed row counter; `None` if the bank does not hold it.
pub fn read_cl_row_counter(bank: &[u8], cl: u8) -> (r: Option<u8>)
    ensures
        r == if cl < bank@.len() {
            Some(bank@[cl as int])
        } else {
            None
        },
{
    let at: usize = cl as usize;
    if at < bank.len() {
        Some(bank[at])
    } else {
        None
    }
}

/// Where the cell-data entry of `cl` lies, from a sub-table base.
pub open spec fn cell_data_offset(base: int, cl: int) -> int {
    base + CELL_DATA_TABLE + 4 * cl
}

/// Read the `cl`-indexed cell-position double word; `None` if the bank
/// does not hold it.
pub fn read_cell_position_dword(bank: &[u8], cl: u8) -> (r: Option<u32>)
    ensures
        ({
            let at = cell_data_offset(0, cl as int);
            match r {
                Some(v) => at + 4 <= bank@.len() && v == dword_at(bank@, at),
                None => at + 4 > bank@.len(),
            }
        }),
{
    let start: usize = CELL_DATA_TABLE + 4 * cl as usize;
    if bank.len() < start + 4 {
        return None;
    }
    Some(read_dword(bank, start))
}

/// The outcome of the preamble: the view by the stack top, the position
/// offset, which a short bank gives as a fault at 0, the row counter, and
/// the register with its intra-context flag cleared.
pub open spec fn preamble(
    bank: Seq<u8>,
    cell_stack_top: u32,
    cl: u8,
    ecx: u32,
) -> CellLoopPreamble {
    let view = CodebookBankView::of(cell_stack_top);
    let at = cell_data_offset(view.base(), cl as int);
    if at + 4 > bank.len() {
        CellLoopPreamble::CellPositionFault { offset: 0 }
    } else if dword_at(bank, at) >= CELL_POSITION_MAX {
        CellLoopPreamble::CellPositionFault { offset: dword_at(bank, at) as u32 }
    } else {
        CellLoopPreamble::Ready(
            CellLoopState {
                cl_inner: bank[view.base() + cl],
                cell_position_offset: dword_at(bank, at) as u32,
                bank_view: view,
                ecx_post_clear: ecx & INTRA_CONTEXT_CLEAR_MASK,
            },
        )
    }
}

/// Run the per-cell preamble.
pub fn dispatch_cell_preamble(
    bank_primary: &[u8],
    cell_stack_top: u32,
    cl_in: u8,
    ecx_in: u32,
) -> (r:
    CellLoopPreamble)
    ensures
        r == preamble(bank_primary@, cell_stack_top, cl_in, ecx_in),
{
    let bank_view = CodebookBankView::from_cell_stack_top(cell_stack_top);
    let base: usize = bank_view.bank_base_offset();
    let at: usize = base + CELL_DATA_TABLE + 4 * cl_in as usize;
    if bank_primary.len() < at + 4 {
        return CellLoopPreamble::CellPositionFault { offset: 0 };
    }
    let offset: u32 = read_dword(bank_primary, at);
    if offset >= CELL_POSITION_MAX {
        return CellLoopPreamble::CellPositionFault { offset };
    }
    CellLoopPreamble::Ready(
        CellLoopState {
            cl_inner: bank_primary[base + cl_in as usize],
            cell_position_offset: offset,
            bank_view,
            ecx_post_clear: ecx_in & INTRA_CONTEXT_CLEAR_MASK,
        },
    )
}

/// Clearing the intra-context flag clears bit 30 and keeps every other
/// bit.
pub proof fn clearing_keeps_other_bits(ecx: u32, bit: u32)
    requires
        bit < 32,
    ensures
        (ecx & INTRA_CONTEXT_CLEAR_MASK) & INTRA_CONTEXT_FLAG == 0,
        bit != 30 ==> ((ecx & INTRA_CONTEXT_CLEAR_MASK) >> bit) & 1 == (ecx >> bit) & 1,
{
    assert((ecx & 0xbfffffff) & 0x40000000 == 0 && (bit != 30 ==> ((ecx & 0xbfffffff) >> bit) & 1
        == (ecx >> bit) & 1)) by (bit_vector)
        requires
            bit < 32,
    ;
}

/// One step of the row walk of a cell column.
#[derive(Debug, Clone, Copy, PartialEq, Eq, Structural)]
pub struct CellRowAdvance {
    /// The row counter after the step; 0 at the end of the column.
    pub cl_after: u8,
    /// The write cursor after the step.
    pub edi_after: usize,
    /// True iff the row was the last of the column.
    pub end_of_column: bool,
}

/// A sum that stays at the greatest `usize`.
pub open spec fn saturated(a: int, b: int) -> int {
    if a + b > usize::MAX {
        usize::MAX as int
    } else {
        a + b
    }
}

/// Advance the walk by one row; `None` when no row is left.
pub fn advance_row(cl_before: u8, edi_before: usize, cell_column_step: usize) -> (r: Option<
    CellRowAdvance,
>)
    ensures
        r is Some <==> cl_before > 0,
        r matches Some(a) ==> {
            &&& a.cl_after == cl_before - 1
            &&& a.end_of_column == (cl_before == 1)
            &&& a.edi_after == saturated(
                edi_before as int,
                if cl_before == 1 {
                    cell_column_step as int
                } else {
                    PREDICTOR_ROW_STRIDE as int
                },
            )
        },
{
    if cl_before == 0 {
        return None;
    }
    let step: usize = if cl_before == 1 {
        cell_column_step
    } else {
        PREDICTOR_ROW_STRIDE
    };
    Some(
        CellRowAdvance {
            cl_after: cl_before - 1,
            edi_after: edi_before.saturating_add(step),
            end_of_column: cl_before == 1,
        },
    )
}

/// The rows of a cell column: the counter before each row and the cursor
/// it is emitted at. The rows are a stride apart; the column step follows
/// the last one.
pub fn iterate_column_rows(cl_inner: u8, edi_start: usize, cell_column_step: usize) -> (r: Vec<
    (u8, usize),
>)
    ensures
        r@.len() == cl_inner,
        forall|i: int|
            0 <= i < r@.len() ==> (#[trigger] r@[i]).0 == cl_inner - i && r@[i].1 == saturated(
                edi_start as int,
                i * 0xb0,
            ),
{
    let mut out: Vec<(u8, usize)> = Vec::new();
    let mut cl: u8 = cl_inner;
    let mut edi: usize = edi_start;
    while cl > 0
        invariant
            cl <= cl_inner,
            out@.len() == cl_inner - cl,
            cl > 0 ==> edi == saturated(edi_start as int, (out@.len() * 0xb0) as int),
            forall|i: int|
                0 <= i < out@.len() ==> (#[trigger] out@[i]).0 == cl_inner - i && out@[i].1
                    == saturated(edi_start as int, i * 0xb0),
        decreases cl,
    {
        out.push((cl, edi));
        match advance_row(cl, edi, cell_column_step) {
            Some(a) => {
                cl = a.cl_after;
                edi = a.edi_after;
            },
            None => {
                return out;
            },
        }
    }
    out
}

/// A cell's preamble reads the mirror tables, 2816 bytes on, exactly where
/// the cell stack is empty. The row counter is the table byte of the
/// cell's index; its position is the word of that index 768 bytes further
/// on, lowest byte first. A position of 999999 or more, and an index whose
/// word the bank does not hold, is refused.
pub proof fn preambles_read_their_tables(bank: Seq<u8>, top: u32, cl: u8, ecx: u32)
    ensures
        ({
            let base = if top == 0 {
                2816int
            } else {
                0
            };
            let at = base + 768 + 4 * cl;
            let word = bank[at] + 256 * bank[at + 1] + 65536 * bank[at + 2] + 16777216 * bank[at
                + 3];
            match preamble(bank, top, cl, ecx) {
                CellLoopPreamble::Ready(s) => {
                    &&& at + 4 <= bank.len()
                    &&& word < 999999
                    &&& s.cl_inner == bank[base + cl]
                    &&& s.cell_position_offset == word
                    &&& s.bank_view is Mirror <==> top == 0
                    &&& s.ecx_post_clear == if ecx as int / 0x4000_0000 % 2 == 1 {
                        ecx - 0x4000_0000
                    } else {
                        ecx as int
                    }
                },
                CellLoopPreamble::CellPositionFault { offset } => {
                    &&& at + 4 > bank.len() || word >= 999999
                    &&& offset == if at + 4 > bank.len() {
                        0
                    } else {
                        word
                    }
                },
            }
        }),
{
    assert(ecx & 0xbfff_ffff == if ecx / 0x4000_0000 % 2 == 1 {
        (ecx - 0x4000_0000) as u32
    } else {
        ecx
    }) by (bit_vector);
}

} // verus!
