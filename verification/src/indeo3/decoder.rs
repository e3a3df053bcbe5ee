//! The stateful decoder: admits each frame to its session, decodes and
//! reconstructs a picture, and shows the picture before again for a NULL
//! frame.
use super::bank_select::Bank;
use super::frame::{decode_frame, frame_fault, FrameDecodeError};
use super::frame_finalise::FrameFinalisation;
use super::frame_reconstruct::{
    input_units, lemma_decoded_units, reconstruct_fault, reconstruct_frame, FrameReconstructError,
    ReconstructedFrame,
};
use super::frame_session::{
    admission, intra_frame, null_frame, null_frames_always_repeat, saved_after, AdmittedFrame,
    DecodeSession, FrameAdmission, SessionError,
};
use super::header::{bit_set, header_fault, header_in};
use vstd::prelude::*;
use vstd::std_specs::convert::FromSpecImpl;
use vstd::string::StringExecFns;

verus! {

/// Why a frame is not decoded.
#[derive(Debug, Clone, Copy, PartialEq, Eq, Structural)]
pub enum DecoderError {
    /// The session rejects it.
    Session(SessionError),
    /// Its structure does not decode.
    Decode(FrameDecodeError),
    /// It cannot be reconstructed.
    Reconstruct(FrameReconstructError),
}

impl DecoderError {
    /// The message of the error.
    pub open spec fn text(self) -> Seq<char> {
        match self {
            DecoderError::Session(e) => "indeo3 decoder: "@ + e.text(),
            DecoderError::Decode(e) => "indeo3 decoder: "@ + e.text(),
            DecoderError::Reconstruct(e) => "indeo3 decoder: "@ + e.text(),
        }
    }

    /// The message of the error.
    pub fn message(&self) -> (r: String)
        ensures
            r@ == self.text(),
    {
        let mut out = String::from_str("indeo3 decoder: ");
        match self {
            DecoderError::Session(e) => {
                out.append(e.message().as_str());
            },
            DecoderError::Decode(e) => {
                out.append(e.message().as_str());
            },
            DecoderError::Reconstruct(e) => {
                out.append(e.message().as_str());
            },
        }
        out
    }
}

impl FromSpecImpl<SessionError> for DecoderError {
    open spec fn obeys_from_spec() -> bool {
        true
    }

    open spec fn from_spec(e: SessionError) -> Self {
        DecoderError::Session(e)
    }
}

impl From<SessionError> for DecoderError {
    fn from(e: SessionError) -> (r: Self) {
        DecoderError::Session(e)
    }
}

impl FromSpecImpl<FrameDecodeError> for DecoderError {
    open spec fn obeys_from_spec() -> bool {
        true
    }

    open spec fn from_spec(e: FrameDecodeError) -> Self {
        DecoderError::Decode(e)
    }
}

impl From<FrameDecodeError> for DecoderError {
    fn from(e: FrameDecodeError) -> (r: Self) {
        DecoderError::Decode(e)
    }
}

impl FromSpecImpl<FrameReconstructError> for DecoderError {
    open spec fn obeys_from_spec() -> bool {
        true
    }

    open spec fn from_spec(e: FrameReconstructError) -> Self {
        DecoderError::Reconstruct(e)
    }
}

impl From<FrameReconstructError> for DecoderError {
    fn from(e: FrameReconstructError) -> (r: Self) {
        DecoderError::Reconstruct(e)
    }
}

/// What decoding a frame gives.
#[derive(Debug, Clone, Copy, PartialEq, Eq)]
pub struct DecodedOutput<'a> {
    /// How the frame was admitted.
    pub admission: AdmittedFrame,
    /// `true` if the picture before is shown again.
    pub repeated_previous: bool,
    /// The picture to show.
    pub frame: &'a ReconstructedFrame,
}

impl<'a> DecodedOutput<'a> {
    /// The bank the frame reads its reference from.
    pub fn read_bank(&self) -> (r: Bank)
        ensures
            r == self.admission.read_bank,
    {
        self.admission.read_bank
    }

    /// `true` if the frame begins a fresh reference chain.
    pub fn is_resync_point(&self) -> (r: bool)
        ensures
            r == (self.admission.admission == FrameAdmission::FirstFrame
                || self.admission.admission == FrameAdmission::Seek),
    {
        self.admission.admission.is_resync_point()
    }
}

/// Why a codec frame carries no picture that can be shown.
pub open spec fn picture_error(input: Seq<u8>) -> Option<DecoderError> {
    match frame_fault(input) {
        Some(e) => Some(DecoderError::Decode(e)),
        None => match reconstruct_fault(input_units(input), 0) {
            Some(e) => Some(DecoderError::Reconstruct(e)),
            None => None,
        },
    }
}

/// Why a frame is not decoded by a decoder whose session holds `saved`.
pub open spec fn decode_error(saved: Option<FrameFinalisation>, input: Seq<u8>) -> Option<
    DecoderError,
> {
    match admission(saved, input) {
        Err(e) => Some(DecoderError::Session(e)),
        Ok(a) => if a.admission == FrameAdmission::NullRepeat {
            None
        } else {
            picture_error(input)
        },
    }
}

/// A stateful decoder.
#[derive(Debug, Clone)]
pub struct Indeo3Decoder {
    session: DecodeSession,
    previous: Option<ReconstructedFrame>,
}

impl Default for Indeo3Decoder {
    fn default() -> (r: Self)
        ensures
            r.saved() is None,
            r.held() is None,
            r.is_valid(),
    {
        Indeo3Decoder { session: DecodeSession::new(), previous: None }
    }
}

impl Indeo3Decoder {
    /// What the session holds.
    pub closed spec fn saved(self) -> Option<FrameFinalisation> {
        self.session@
    }

    /// The picture shown last.
    pub closed spec fn held(self) -> Option<ReconstructedFrame> {
        self.previous
    }

    /// A started decoder holds a picture.
    pub open spec fn is_valid(self) -> bool {
        self.saved() is Some ==> self.held() is Some
    }

    /// A decoder with no frames decoded yet.
    pub fn new() -> (r: Self)
        ensures
            r.saved() is None,
            r.held() is None,
            r.is_valid(),
    {
        Indeo3Decoder { session: DecodeSession::new(), previous: None }
    }

    /// `true` if no frame has been decoded yet.
    pub fn is_empty(&self) -> (r: bool)
        ensures
            r == (self.saved() is None),
    {
        self.session.is_empty()
    }

    /// The picture shown last, if any.
    pub fn previous_frame(&self) -> (r: Option<&ReconstructedFrame>)
        ensures
            match r {
                Some(f) => self.held() == Some(*f),
                None => self.held() is None,
            },
    {
        self.previous.as_ref()
    }

    /// Decode one frame. A NULL frame shows the picture before again. A
    /// rejected frame leaves the decoder as it was.
    pub fn decode(&mut self, input: &[u8]) -> (r: Result<DecodedOutput<'_>, DecoderError>)
        requires
            old(self).is_valid(),
        ensures
            final(self).is_valid(),
            match r {
                Err(e) => {
                    &&& decode_error(old(self).saved(), input@) == Some(e)
                    &&& final(self).saved() == old(self).saved()
                    &&& final(self).held() == old(self).held()
                },
                Ok(out) => {
                    &&& decode_error(old(self).saved(), input@) is None
                    &&& admission(old(self).saved(), input@) == Ok::<AdmittedFrame, SessionError>(
                        out.admission,
                    )
                    &&& final(self).saved() == saved_after(old(self).saved(), input@)
                    &&& final(self).held() == Some(*out.frame)
                    &&& out.repeated_previous == (out.admission.admission
                        == FrameAdmission::NullRepeat)
                    &&& if out.repeated_previous {
                        old(self).held() == Some(*out.frame)
                    } else {
                        out.frame.reconstructs(input_units(input@))
                    }
                },
            },
    {
        let before = self.session;
        let admitted = match self.session.admit_frame(input) {
            Ok(a) => a,
            Err(e) => return Err(DecoderError::from(e)),
        };
        let repeated: bool = matches!(admitted.admission, FrameAdmission::NullRepeat);
        if !repeated {
            let decoded = match decode_frame(input) {
                Ok(d) => d,
                Err(e) => {
                    self.session = before;
                    return Err(DecoderError::from(e));
                },
            };
            proof {
                lemma_decoded_units(
                    decoded,
                    input@,
                    bit_set(header_in(input@).bitstream.frame_flags.0, 0x0200),
                );
            }
            let reconstructed = match reconstruct_frame(&decoded) {
                Ok(f) => f,
                Err(e) => {
                    self.session = before;
                    return Err(DecoderError::from(e));
                },
            };
            self.previous = Some(reconstructed);
        }
        let frame: &ReconstructedFrame = self.previous.as_ref().unwrap();
        Ok(DecodedOutput { admission: admitted, repeated_previous: repeated, frame })
    }
}

/// A decoder starts with an INTRA picture, and once it is started a NULL
/// frame with a valid header never fails.
pub proof fn decoders_start_intra_and_repeat(saved: FrameFinalisation, input: Seq<u8>)
    ensures
        decode_error(None, input) is None ==> intra_frame(input) && !null_frame(input),
        header_fault(input) is None && null_frame(input) ==> decode_error(Some(saved), input)
            is None,
{
    if header_fault(input) is None && null_frame(input) {
        null_frames_always_repeat(saved, input);
    }
}

} // verus!
