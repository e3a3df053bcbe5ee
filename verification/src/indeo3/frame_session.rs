//! The decode session: holds what one frame saves for the next, and
//! admits or rejects each incoming frame by it.
use super::bank_select::Bank;
use super::bytes::{dword_at, word_at};
use super::frame_finalise::{DecodeReturn, FrameContinuity, FrameFinalisation};
use super::header::{
    bit_set, header_fault, FrameFlags, FrameHeader, HeaderError, NULL_FRAME_DATA_SIZE_BITS,
};
use super::text::{decimal, padded_hex, push_decimal, push_padded_hex};
use vstd::prelude::*;
use vstd::std_specs::convert::FromSpecImpl;
use vstd::string::StringExecFns;

verus! {

/// How a frame was admitted.
#[derive(Debug, Clone, Copy, PartialEq, Eq, Structural)]
pub enum FrameAdmission {
    /// The first frame of the session.
    FirstFrame,
    /// The next frame by number.
    Sequential,
    /// A NULL frame: the previous output is shown again.
    NullRepeat,
    /// An INTRA frame out of sequence.
    Seek,
}

impl FrameAdmission {
    /// `true` if the frame carries coded picture data.
    pub fn carries_picture(self) -> (r: bool)
        ensures
            r == (self != FrameAdmission::NullRepeat),
    {
        !matches!(self, FrameAdmission::NullRepeat)
    }

    /// `true` if the frame begins a fresh reference chain.
    pub fn is_resync_point(self) -> (r: bool)
        ensures
            r == (self == FrameAdmission::FirstFrame || self == FrameAdmission::Seek),
    {
        matches!(self, FrameAdmission::FirstFrame | FrameAdmission::Seek)
    }
}

/// An admitted frame.
#[derive(Debug, Clone, Copy, PartialEq, Eq, Structural)]
pub struct AdmittedFrame {
    /// How it was admitted.
    pub admission: FrameAdmission,
    /// The bank it reads its reference from.
    pub read_bank: Bank,
    /// Its return disposition.
    pub return_value: DecodeReturn,
    /// How its number follows the saved one; `None` for the first frame.
    pub continuity: Option<FrameContinuity>,
    /// Its frame number.
    pub frame_number: u32,
}

impl AdmittedFrame {
    /// `true` if the frame carries coded picture data.
    pub fn carries_picture(self) -> (r: bool)
        ensures
            r == (self.admission != FrameAdmission::NullRepeat),
    {
        self.admission.carries_picture()
    }
}

/// Why a frame is rejected.
#[derive(Debug, Clone, Copy, PartialEq, Eq, Structural)]
pub enum SessionError {
    /// Its header is rejected.
    Header(HeaderError),
    /// It is the first frame and no INTRA picture.
    FirstFrameNotIntra {
        /// Its flags.
        frame_flags: u16,
    },
    /// It is out of sequence and not INTRA.
    SeekNotIntra {
        /// The saved frame number.
        saved_frame_number: u32,
        /// Its frame number.
        incoming_frame_number: u32,
        /// Its flags.
        frame_flags: u16,
    },
}

impl SessionError {
    /// The message of the error.
    pub open spec fn text(self) -> Seq<char> {
        match self {
            SessionError::Header(e) => "indeo3 session: header: "@ + e.text(),
            SessionError::FirstFrameNotIntra { frame_flags } =>
                "spec/01 §3.2: first frame is INTER (frame_flags "@ + padded_hex(
                frame_flags as int,
                4,
            ) + "); an INTER first frame has no reference (return -100)"@,
            SessionError::SeekNotIntra {
                saved_frame_number,
                incoming_frame_number,
                frame_flags,
            } => "spec/01 §4: seek frame "@ + decimal(incoming_frame_number as int) + " (saved "@
                + decimal(saved_frame_number as int) + ") is not INTRA (frame_flags "@
                + padded_hex(frame_flags as int, 4)
                + "); a discontinuous non-INTRA frame has no valid reference"@,
        }
    }

    /// The message of the error.
    pub fn message(&self) -> (r: String)
        ensures
            r@ == self.text(),
    {
        match self {
            SessionError::Header(e) => {
                let mut out = String::from_str("indeo3 session: header: ");
                out.append(e.message().as_str());
                out
            },
            SessionError::FirstFrameNotIntra { frame_flags } => {
                let mut out = String::from_str("spec/01 §3.2: first frame is INTER (frame_flags ");
                push_padded_hex(&mut out, *frame_flags as usize, 4);
                out.append("); an INTER first frame has no reference (return -100)");
                out
            },
            SessionError::SeekNotIntra {
                saved_frame_number,
                incoming_frame_number,
                frame_flags,
            } => {
                let mut out = String::from_str("spec/01 §4: seek frame ");
                push_decimal(&mut out, *incoming_frame_number as usize);
                out.append(" (saved ");
                push_decimal(&mut out, *saved_frame_number as usize);
                out.append(") is not INTRA (frame_flags ");
                push_padded_hex(&mut out, *frame_flags as usize, 4);
                out.append("); a discontinuous non-INTRA frame has no valid reference");
                out
            },
        }
    }
}

impl FromSpecImpl<HeaderError> for SessionError {
    open spec fn obeys_from_spec() -> bool {
        true
    }

    open spec fn from_spec(e: HeaderError) -> Self {
        SessionError::Header(e)
    }
}

impl From<HeaderError> for SessionError {
    fn from(e: HeaderError) -> (r: Self) {
        SessionError::Header(e)
    }
}

/// The flags of a frame.
pub open spec fn flags_of(input: Seq<u8>) -> FrameFlags {
    FrameFlags(word_at(input, 0x12) as u16)
}

/// The number of a frame.
pub open spec fn number_of(input: Seq<u8>) -> u32 {
    dword_at(input, 0) as u32
}

/// A frame is a NULL frame.
pub open spec fn null_frame(input: Seq<u8>) -> bool {
    dword_at(input, 0x14) == NULL_FRAME_DATA_SIZE_BITS
}

/// A frame is INTRA.
pub open spec fn intra_frame(input: Seq<u8>) -> bool {
    bit_set(flags_of(input).0, 0x0004)
}

/// The admission of a session's first frame: it must be an INTRA picture,
/// and reads from its own bank.
pub open spec fn first_admission(input: Seq<u8>) -> Result<AdmittedFrame, SessionError> {
    if null_frame(input) || !intra_frame(input) {
        Err(SessionError::FirstFrameNotIntra { frame_flags: flags_of(input).0 })
    } else {
        Ok(
            AdmittedFrame {
                admission: FrameAdmission::FirstFrame,
                read_bank: Bank::of(flags_of(input)),
                return_value: DecodeReturn::Success,
                continuity: None,
                frame_number: number_of(input),
            },
        )
    }
}

/// The admission of a frame after the one that left `saved`: it reads
/// from the bank the saved flags select; a NULL frame repeats whatever its
/// number, and a frame out of sequence must be INTRA.
pub open spec fn later_admission(saved: FrameFinalisation, input: Seq<u8>) -> Result<
    AdmittedFrame,
    SessionError,
> {
    let continuity = saved.saved_frame_number.continuity(number_of(input));
    if !null_frame(input) && continuity == FrameContinuity::Discontinuous && !intra_frame(input) {
        Err(
            SessionError::SeekNotIntra {
                saved_frame_number: saved.saved_frame_number.frame_number,
                incoming_frame_number: number_of(input),
                frame_flags: flags_of(input).0,
            },
        )
    } else {
        Ok(
            AdmittedFrame {
                admission: if null_frame(input) {
                    FrameAdmission::NullRepeat
                } else if continuity == FrameContinuity::Sequential {
                    FrameAdmission::Sequential
                } else {
                    FrameAdmission::Seek
                },
                read_bank: Bank::of(saved.saved_flags.flags),
                return_value: if null_frame(input) {
                    DecodeReturn::RepeatPrevious
                } else {
                    DecodeReturn::Success
                },
                continuity: Some(continuity),
                frame_number: number_of(input),
            },
        )
    }
}

/// The admission of a frame to a session.
pub open spec fn admission(saved: Option<FrameFinalisation>, input: Seq<u8>) -> Result<
    AdmittedFrame,
    SessionError,
> {
    match header_fault(input) {
        Some(e) => Err(SessionError::Header(e)),
        None => match saved {
            None => first_admission(input),
            Some(saved) => later_admission(saved, input),
        },
    }
}

/// What a session holds after a frame: the frame's own flags and number
/// where it was admitted, what it held before where it was rejected.
pub open spec fn saved_after(saved: Option<FrameFinalisation>, input: Seq<u8>) -> Option<
    FrameFinalisation,
> {
    match admission(saved, input) {
        Ok(a) => Some(FrameFinalisation::of(flags_of(input), number_of(input), a.return_value)),
        Err(_) => saved,
    }
}

/// A decode session.
#[derive(Debug, Clone, Copy)]
pub struct DecodeSession {
    saved: Option<FrameFinalisation>,
}

impl Default for DecodeSession {
    fn default() -> (r: Self)
        ensures
            r@ is None,
    {
        DecodeSession { saved: None }
    }
}

impl View for DecodeSession {
    type V = Option<FrameFinalisation>;

    closed spec fn view(&self) -> Option<FrameFinalisation> {
        self.saved
    }
}

impl DecodeSession {
    /// A session with no frames admitted yet.
    pub fn new() -> (r: Self)
        ensures
            r@ is None,
    {
        DecodeSession { saved: None }
    }

    /// `true` if no frame has been admitted yet.
    pub fn is_empty(&self) -> (r: bool)
        ensures
            r == (self@ is None),
    {
        self.saved.is_none()
    }

    /// The number of the frame admitted last.
    pub fn saved_frame_number(&self) -> (r: Option<u32>)
        ensures
            match self@ {
                Some(s) => r == Some(s.saved_frame_number.frame_number),
                None => r is None,
            },
    {
        match self.saved {
            Some(s) => Some(s.saved_frame_number.frame_number),
            None => None,
        }
    }

    /// The bank the next frame would read from.
    pub fn next_read_bank(&self) -> (r: Option<Bank>)
        ensures
            match self@ {
                Some(s) => r == Some(Bank::of(s.saved_flags.flags)),
                None => r is None,
            },
    {
        match self.saved {
            Some(s) => Some(s.saved_flags.next_frame_read_bank()),
            None => None,
        }
    }

    /// Admit one frame. A rejected frame leaves the session as it was.
    pub fn admit_frame(&mut self, input: &[u8]) -> (r: Result<AdmittedFrame, SessionError>)
        ensures
            r == admission(old(self)@, input@),
            final(self)@ == saved_after(old(self)@, input@),
    {
        let header = match FrameHeader::parse(input) {
            Ok(h) => h,
            Err(e) => return Err(SessionError::from(e)),
        };
        let flags = header.bitstream.frame_flags;
        assert(flags == flags_of(input@));
        let frame_number: u32 = header.frame.frame_number;
        let is_null: bool = header.bitstream.is_null_frame();
        let admitted = match self.saved {
            None => self.admit_first(flags, frame_number, is_null, Ghost(input@)),
            Some(saved) => self.admit_subsequent(
                saved,
                flags,
                frame_number,
                is_null,
                Ghost(input@),
            ),
        };
        match admitted {
            Ok(a) => {
                self.saved = Some(FrameFinalisation::finalise(&header, a.return_value));
                Ok(a)
            },
            Err(e) => Err(e),
        }
    }

    /// Classify the first frame of a session.
    fn admit_first(
        &self,
        flags: FrameFlags,
        frame_number: u32,
        is_null: bool,
        Ghost(input): Ghost<Seq<u8>>,
    ) -> (r: Result<AdmittedFrame, SessionError>)
        requires
            flags == flags_of(input),
            frame_number == number_of(input),
            is_null == null_frame(input),
        ensures
            r == first_admission(input),
    {
        if is_null || !flags.intra() {
            return Err(SessionError::FirstFrameNotIntra { frame_flags: flags.bits() });
        }
        Ok(
            AdmittedFrame {
                admission: FrameAdmission::FirstFrame,
                read_bank: Bank::from_buffer_selector(flags),
                return_value: DecodeReturn::Success,
                continuity: None,
                frame_number,
            },
        )
    }

    /// Classify a frame that follows an admitted one.
    fn admit_subsequent(
        &self,
        saved: FrameFinalisation,
        flags: FrameFlags,
        frame_number: u32,
        is_null: bool,
        Ghost(input): Ghost<Seq<u8>>,
    ) -> (r: Result<AdmittedFrame, SessionError>)
        requires
            flags == flags_of(input),
            frame_number == number_of(input),
            is_null == null_frame(input),
        ensures
            r == later_admission(saved, input),
    {
        let read_bank = saved.saved_flags.next_frame_read_bank();
        let continuity = saved.saved_frame_number.classify(frame_number);
        if is_null {
            return Ok(
                AdmittedFrame {
                    admission: FrameAdmission::NullRepeat,
                    read_bank,
                    return_value: DecodeReturn::RepeatPrevious,
                    continuity: Some(continuity),
                    frame_number,
                },
            );
        }
        let admission = if continuity.is_sequential() {
            FrameAdmission::Sequential
        } else {
            if !flags.intra() {
                return Err(
                    SessionError::SeekNotIntra {
                        saved_frame_number: saved.saved_frame_number.frame_number,
                        incoming_frame_number: frame_number,
                        frame_flags: flags.bits(),
                    },
                );
            }
            FrameAdmission::Seek
        };
        Ok(
            AdmittedFrame {
                admission,
                read_bank,
                return_value: DecodeReturn::Success,
                continuity: Some(continuity),
                frame_number,
            },
        )
    }
}

/// A frame starts a reference chain only where it is an INTRA picture.
pub proof fn resync_points_are_intra(saved: Option<FrameFinalisation>, input: Seq<u8>)
    ensures
        admission(saved, input) matches Ok(a) && (a.admission == FrameAdmission::FirstFrame
            || a.admission == FrameAdmission::Seek) ==> intra_frame(input) && !null_frame(input),
{
}

/// A session once started stays started, and is started only by an
/// INTRA picture.
pub proof fn sessions_start_with_an_intra_picture(saved: Option<FrameFinalisation>, input: Seq<u8>)
    ensures
        saved is Some ==> saved_after(saved, input) is Some,
        saved is None && saved_after(saved, input) is Some ==> intra_frame(input) && !null_frame(
            input,
        ),
{
}

/// Once a session is started, a NULL frame with a valid header is always
/// admitted, as a repeat, whatever its number.
pub proof fn null_frames_always_repeat(saved: FrameFinalisation, input: Seq<u8>)
    requires
        header_fault(input) is None,
        null_frame(input),
    ensures
        admission(Some(saved), input) matches Ok(a) && a.admission == FrameAdmission::NullRepeat
            && a.return_value == DecodeReturn::RepeatPrevious,
{
}

/// Every admitted frame becomes the baseline of the next: the frame after
/// it is sequential exactly by its number, and reads the bank its flags
/// select.
pub proof fn admitted_frame_becomes_the_baseline(
    saved: Option<FrameFinalisation>,
    first: Seq<u8>,
    second: Seq<u8>,
)
    requires
        admission(saved, first) is Ok,
        admission(saved_after(saved, first), second) is Ok,
    ensures
        ({
            let a = admission(saved_after(saved, first), second)->Ok_0;
            &&& a.read_bank == Bank::of(flags_of(first))
            &&& a.continuity == Some(FrameContinuity::Sequential) <==> number_of(second) == (
            number_of(first) + 1) % 0x1_0000_0000
        }),
{
}

} // verus!
