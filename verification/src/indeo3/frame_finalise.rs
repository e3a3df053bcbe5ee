//! Frame finalisation: the saved flags and frame number that the next
//! frame is held against, and the return code of this one.
use super::bank_select::Bank;
use super::header::{bit_set, FrameFlags, FrameHeader};
use vstd::prelude::*;

verus! {

/// Offset of the saved-flags slot in the instance state.
pub const SAVED_FRAME_FLAGS_SLOT_OFFSET: usize = 0x434;

/// Address of the store into the saved-flags slot.
pub const SAVED_FRAME_FLAGS_STORE_RVA: u32 = 0x1000_42c1;

/// Offset of the saved-frame-number slot in the instance state.
pub const SAVED_FRAME_NUMBER_SLOT_OFFSET: usize = 0x474;

/// Address of the store into the saved-frame-number slot.
pub const SAVED_FRAME_NUMBER_STORE_RVA: u32 = 0x1000_42a3;

/// Address of the continuity test.
pub const FRAME_NUMBER_CONTINUITY_CHECK_RVA: u32 = 0x1000_41f8;

/// Address of the seek path.
pub const FRAME_NUMBER_SEEK_PATH_RVA: u32 = 0x1000_4220;

/// There is no explicit buffer rotation: the banks alternate by the
/// selector bit alone.
pub const PERFORMS_BUFFER_ROTATION: bool = false;

/// Return value of an input-format error.
pub const RETURN_INPUT_ERROR: i32 = -100;

/// Return value of a successful decode.
pub const RETURN_SUCCESS: i32 = 0;

/// Return value that asks for the previous frame again.
pub const RETURN_REPEAT_PREVIOUS: i32 = 1;

/// The buffer-selector bit of the flags.
pub const BUFFER_SELECTOR_MASK: u16 = 0x0200;

/// The saved flags of the frame just decoded.
#[derive(Debug, Clone, Copy, PartialEq, Eq, Structural)]
pub struct SavedFrameFlags {
    /// The flags.
    pub flags: FrameFlags,
}

impl SavedFrameFlags {
    /// Save the flags of a frame.
    pub fn capture(header: &FrameHeader) -> (r: Self)
        ensures
            r.flags == header.bitstream.frame_flags,
    {
        SavedFrameFlags { flags: header.bitstream.frame_flags }
    }

    /// The saved buffer-selector bit.
    pub fn buffer_selector(self) -> (r: bool)
        ensures
            r == bit_set(self.flags.0, BUFFER_SELECTOR_MASK as int),
    {
        self.flags.buffer_selector()
    }

    /// The bank the next frame reads from.
    pub fn next_frame_read_bank(self) -> (r: Bank)
        ensures
            r == Bank::of(self.flags),
    {
        Bank::from_buffer_selector(self.flags)
    }
}

/// The saved frame number of the frame just decoded.
#[derive(Debug, Clone, Copy, PartialEq, Eq, Structural)]
pub struct SavedFrameNumber {
    /// The frame number.
    pub frame_number: u32,
}

impl SavedFrameNumber {
    /// Save the number of a frame.
    pub fn capture(header: &FrameHeader) -> (r: Self)
        ensures
            r.frame_number == header.frame.frame_number,
    {
        SavedFrameNumber { frame_number: header.frame.frame_number }
    }

    /// How an incoming number follows this one: the next number, modulo
    /// 2^32, is sequential.
    pub open spec fn continuity(self, incoming: u32) -> FrameContinuity {
        if incoming == (self.frame_number + 1) % 0x1_0000_0000 {
            FrameContinuity::Sequential
        } else {
            FrameContinuity::Discontinuous
        }
    }

    /// Classify an incoming frame number.
    pub fn classify(self, incoming_frame_number: u32) -> (r: FrameContinuity)
        ensures
            r == self.continuity(incoming_frame_number),
    {
        if incoming_frame_number as u64 == (self.frame_number as u64 + 1) % 0x1_0000_0000 {
            FrameContinuity::Sequential
        } else {
            FrameContinuity::Discontinuous
        }
    }
}

/// How an incoming frame number follows the saved one.
#[derive(Debug, Clone, Copy, PartialEq, Eq, Structural)]
pub enum FrameContinuity {
    /// The next number.
    Sequential,
    /// Any other number.
    Discontinuous,
}

impl FrameContinuity {
    /// True for [`FrameContinuity::Sequential`].
    pub fn is_sequential(self) -> (r: bool)
        ensures
            r == (self == FrameContinuity::Sequential),
    {
        matches!(self, FrameContinuity::Sequential)
    }
}

/// Exactly one frame number follows a saved one.
pub proof fn one_number_is_sequential(saved: SavedFrameNumber, a: u32, b: u32)
    requires
        saved.continuity(a) == FrameContinuity::Sequential,
    ensures
        saved.continuity(b) == FrameContinuity::Sequential <==> a == b,
{
}

/// The return disposition of a frame.
#[derive(Debug, Clone, Copy, PartialEq, Eq, Structural)]
pub enum DecodeReturn {
    /// The frame decoded.
    Success,
    /// An input-format error.
    InputError,
    /// The previous frame is shown again.
    RepeatPrevious,
    /// A plane's fault status.
    PlaneFault(i32),
}

impl DecodeReturn {
    /// The return value of a disposition.
    pub open spec fn value(self) -> i32 {
        match self {
            DecodeReturn::Success => RETURN_SUCCESS,
            DecodeReturn::InputError => RETURN_INPUT_ERROR,
            DecodeReturn::RepeatPrevious => RETURN_REPEAT_PREVIOUS,
            DecodeReturn::PlaneFault(code) => code,
        }
    }

    /// The return value.
    pub fn code(self) -> (r: i32)
        ensures
            r == self.value(),
    {
        match self {
            DecodeReturn::Success => RETURN_SUCCESS,
            DecodeReturn::InputError => RETURN_INPUT_ERROR,
            DecodeReturn::RepeatPrevious => RETURN_REPEAT_PREVIOUS,
            DecodeReturn::PlaneFault(code) => code,
        }
    }

    /// Whether the value is that of success.
    pub fn is_success(self) -> (r: bool)
        ensures
            r == (self.value() == RETURN_SUCCESS),
    {
        self.code() == RETURN_SUCCESS
    }
}

/// What finalising a frame leaves for the next one, and its return.
#[derive(Debug, Clone, Copy, PartialEq, Eq, Structural)]
pub struct FrameFinalisation {
    /// The saved flags.
    pub saved_flags: SavedFrameFlags,
    /// The saved frame number.
    pub saved_frame_number: SavedFrameNumber,
    /// The return disposition of this frame.
    pub return_value: DecodeReturn,
}

impl FrameFinalisation {
    /// The finalisation of a frame with these header fields.
    pub open spec fn of(flags: FrameFlags, frame_number: u32, return_value: DecodeReturn) -> Self {
        FrameFinalisation {
            saved_flags: SavedFrameFlags { flags },
            saved_frame_number: SavedFrameNumber { frame_number },
            return_value,
        }
    }

    /// Finalise a frame: save its flags and number, whatever its return.
    pub fn finalise(header: &FrameHeader, return_value: DecodeReturn) -> (r: Self)
        ensures
            r == Self::of(
                header.bitstream.frame_flags,
                header.frame.frame_number,
                return_value,
            ),
    {
        FrameFinalisation {
            saved_flags: SavedFrameFlags::capture(header),
            saved_frame_number: SavedFrameNumber::capture(header),
            return_value,
        }
    }
}

} // verus!
