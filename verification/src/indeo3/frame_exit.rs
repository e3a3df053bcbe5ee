//! The end of a frame's plane loop: the three plane statuses folded into
//! one disposition.
use super::picture_layer::PLANE_COUNT;
use super::strip_context::{
    PlaneDecodeStatus, PLANE_DECODE_STATUS_MALFORMED, PLANE_DECODE_STATUS_OK,
};
use vstd::prelude::*;

verus! {

/// The order in which the planes are visited: U, V, Y.
pub const PLANE_ITERATION_ORDER: [usize; 3] = [2, 1, 0];

/// Address of the per-plane decode call.
pub const PER_PLANE_DECODE_CALL_SITE_RVA: u32 = 0x1000_4637;

/// Address of the per-plane decoder.
pub const PER_PLANE_DECODE_ENTRY_RVA: u32 = 0x1000_6538;

/// Address of the per-plane decoder's return.
pub const PER_PLANE_DECODE_RET_RVA: u32 = 0x1000_6b94;

/// Bytes that return takes off the stack.
pub const PER_PLANE_DECODE_RET_CLEANUP_BYTES: u32 = 0x1c;

/// Number of arguments of the per-plane decode call.
pub const PER_PLANE_DECODE_ARG_COUNT: u32 = 7;

/// Address of the output stage.
pub const FRAME_OUTPUT_RECONSTRUCTION_RVA: u32 = 0x1000_4644;

/// Address of the end-of-frame fault.
pub const FRAME_FAULT_RETURN_RVA: u32 = 0x1000_6ba2;

/// The outcome of a frame's plane loop.
#[derive(Debug, Clone, Copy, PartialEq, Eq, Structural)]
pub enum FrameExitDisposition {
    /// Every plane decoded.
    ProceedToReconstruction,
    /// At least one plane is malformed.
    EndOfFrameFault,
}

impl FrameExitDisposition {
    /// True iff every plane decoded.
    pub fn proceeds_to_reconstruction(self) -> (r: bool)
        ensures
            r == (self == FrameExitDisposition::ProceedToReconstruction),
    {
        matches!(self, FrameExitDisposition::ProceedToReconstruction)
    }

    /// True iff a plane is malformed.
    pub fn is_fault(self) -> (r: bool)
        ensures
            r == (self == FrameExitDisposition::EndOfFrameFault),
    {
        matches!(self, FrameExitDisposition::EndOfFrameFault)
    }

    /// The address control reaches.
    pub fn target_rva(self) -> (r: u32)
        ensures
            r == match self {
                FrameExitDisposition::ProceedToReconstruction => FRAME_OUTPUT_RECONSTRUCTION_RVA,
                FrameExitDisposition::EndOfFrameFault => FRAME_FAULT_RETURN_RVA,
            },
    {
        match self {
            FrameExitDisposition::ProceedToReconstruction => FRAME_OUTPUT_RECONSTRUCTION_RVA,
            FrameExitDisposition::EndOfFrameFault => FRAME_FAULT_RETURN_RVA,
        }
    }

    /// The status of the frame.
    pub fn frame_status(self) -> (r: i32)
        ensures
            r == match self {
                FrameExitDisposition::ProceedToReconstruction => PLANE_DECODE_STATUS_OK,
                FrameExitDisposition::EndOfFrameFault => PLANE_DECODE_STATUS_MALFORMED,
            },
    {
        match self {
            FrameExitDisposition::ProceedToReconstruction => PLANE_DECODE_STATUS_OK,
            FrameExitDisposition::EndOfFrameFault => PLANE_DECODE_STATUS_MALFORMED,
        }
    }
}

/// The plane statuses of a frame, folded.
#[derive(Debug, Clone, Copy, PartialEq, Eq, Structural)]
pub struct FramePlaneStatusFold {
    /// The disposition of the frame.
    pub disposition: FrameExitDisposition,
    /// Where in the iteration order the first malformed plane stands.
    pub first_fault_iteration_index: Option<usize>,
}

impl FramePlaneStatusFold {
    /// The fold of statuses in iteration order: the first malformed plane
    /// decides.
    pub open spec fn of(statuses: Seq<PlaneDecodeStatus>) -> Self {
        let first = if statuses[0] != PlaneDecodeStatus::Decoded {
            Some(0usize)
        } else if statuses[1] != PlaneDecodeStatus::Decoded {
            Some(1usize)
        } else if statuses[2] != PlaneDecodeStatus::Decoded {
            Some(2usize)
        } else {
            None
        };
        FramePlaneStatusFold {
            disposition: if first is Some {
                FrameExitDisposition::EndOfFrameFault
            } else {
                FrameExitDisposition::ProceedToReconstruction
            },
            first_fault_iteration_index: first,
        }
    }

    /// Fold the statuses in iteration order (U, V, Y).
    pub fn from_iteration_order(statuses: [PlaneDecodeStatus; 3]) -> (r: Self)
        ensures
            r == Self::of(statuses@),
    {
        let mut i: usize = 0;
        while i < PLANE_COUNT
            invariant
                i <= PLANE_COUNT,
                forall|k: int| 0 <= k < i ==> #[trigger] statuses@[k] == PlaneDecodeStatus::Decoded,
            decreases PLANE_COUNT - i,
        {
            if !statuses[i].is_ok() {
                return FramePlaneStatusFold {
                    disposition: FrameExitDisposition::EndOfFrameFault,
                    first_fault_iteration_index: Some(i),
                };
            }
            i = i + 1;
        }
        FramePlaneStatusFold {
            disposition: FrameExitDisposition::ProceedToReconstruction,
            first_fault_iteration_index: None,
        }
    }

    /// Fold the statuses in plane-index order (Y, V, U).
    pub fn from_plane_idx_order(statuses_by_plane_idx: [PlaneDecodeStatus; 3]) -> (r: Self)
        ensures
            r == Self::of(
                seq![
                    statuses_by_plane_idx@[2],
                    statuses_by_plane_idx@[1],
                    statuses_by_plane_idx@[0],
                ],
            ),
    {
        let in_order: [PlaneDecodeStatus; 3] = [
            statuses_by_plane_idx[PLANE_ITERATION_ORDER[0]],
            statuses_by_plane_idx[PLANE_ITERATION_ORDER[1]],
            statuses_by_plane_idx[PLANE_ITERATION_ORDER[2]],
        ];
        Self::from_iteration_order(in_order)
    }

    /// The plane index of the first malformed plane.
    pub fn first_fault_plane_idx(&self) -> (r: Option<usize>)
        requires
            self.first_fault_iteration_index matches Some(i) ==> i < PLANE_COUNT,
        ensures
            match self.first_fault_iteration_index {
                Some(i) => r == Some((2 - i) as usize),
                None => r is None,
            },
    {
        match self.first_fault_iteration_index {
            Some(i) => Some(PLANE_ITERATION_ORDER[i]),
            None => None,
        }
    }

    /// True iff every plane decoded.
    pub fn proceeds_to_reconstruction(&self) -> (r: bool)
        ensures
            r == (self.disposition == FrameExitDisposition::ProceedToReconstruction),
    {
        self.disposition.proceeds_to_reconstruction()
    }
}

/// A frame faults exactly when a plane is malformed; the reported plane is
/// malformed and every plane visited before it decoded.
pub proof fn fold_reports_the_first_fault(statuses: Seq<PlaneDecodeStatus>)
    requires
        statuses.len() == 3,
    ensures
        ({
            let fold = FramePlaneStatusFold::of(statuses);
            &&& fold.disposition == FrameExitDisposition::EndOfFrameFault
                <==> exists|i: int|
                0 <= i < 3 && #[trigger] statuses[i] == PlaneDecodeStatus::Malformed
            &&& fold.first_fault_iteration_index matches Some(k) ==> {
                &&& k < 3
                &&& statuses[k as int] == PlaneDecodeStatus::Malformed
                &&& forall|i: int|
                    0 <= i < k ==> #[trigger] statuses[i] == PlaneDecodeStatus::Decoded
            }
        }),
{
    assert(statuses[0] == PlaneDecodeStatus::Malformed || statuses[0]
        == PlaneDecodeStatus::Decoded);
    assert(statuses[1] == PlaneDecodeStatus::Malformed || statuses[1]
        == PlaneDecodeStatus::Decoded);
    assert(statuses[2] == PlaneDecodeStatus::Malformed || statuses[2]
        == PlaneDecodeStatus::Decoded);
}

/// The planes are visited each exactly once.
pub proof fn iteration_visits_every_plane(plane_idx: int)
    requires
        0 <= plane_idx < PLANE_COUNT,
    ensures
        PLANE_ITERATION_ORDER@[2 - plane_idx] == plane_idx,
        forall|i: int|
            0 <= i < PLANE_COUNT && #[trigger] PLANE_ITERATION_ORDER@[i] == plane_idx ==> i == 2
                - plane_idx,
{
}

} // verus!
