//! The frame header and bitstream header of a codec frame.
use super::bytes::{dword_at, read_dword, read_word, word_at};
use super::text::{decimal, padded_hex, push_decimal, push_padded_hex};
use super::vq::{sign_extend, signed_byte};
use vstd::prelude::*;
use vstd::string::StringExecFns;

verus! {

/// The tag `FRMH` as a double word, part of the header checksum.
pub const MAGIC_FRMH: u32 = 0x4652_4d48;

/// The only `dec_version` value that is accepted.
pub const REQUIRED_DEC_VERSION: u16 = 0x0020;

/// Bytes of the frame header.
pub const FRAME_HEADER_LEN: usize = 16;

/// Bytes of the bitstream header.
pub const BITSTREAM_HEADER_LEN: usize = 48;

/// Bytes of the combined header.
pub const COMBINED_HEADER_LEN: usize = 64;

/// `frame_flags` bit 1: 8-bit YVU9 pixel format, which is rejected.
pub const FLAG_YVU9_8BIT: u16 = 0x0002;

/// The `data_size` that marks a NULL / sync frame.
pub const NULL_FRAME_DATA_SIZE_BITS: u32 = 0x0000_0080;

/// Least picture dimension a host offers.
pub const MIN_DIMENSION: u16 = 0x0010;

/// Greatest picture width a host offers.
pub const MAX_WIDTH: u16 = 0x0280;

/// Greatest picture height a host offers.
pub const MAX_HEIGHT: u16 = 0x01e0;

/// Why a header is rejected.
#[derive(Debug, Clone, Copy, PartialEq, Eq, Structural)]
pub enum HeaderError {
    /// The buffer is too short for the combined header.
    BufferTooShort {
        /// Bytes needed.
        needed: usize,
        /// Bytes present.
        actual: usize,
    },
    /// The frame header's `check_sum` does not match.
    ChecksumMismatch {
        /// Checksum read.
        got: u32,
        /// Checksum recomputed.
        expected: u32,
    },
    /// `frame_size` is not greater than the frame header.
    FrameSizeTooSmall {
        /// The `frame_size` read.
        frame_size: u32,
    },
    /// `dec_version` is not the required value.
    UnsupportedDecVersion {
        /// The `dec_version` read.
        got: u16,
    },
    /// `frame_flags` has the 8-bit YVU9 bit set.
    UnsupportedPixelFormat {
        /// The `frame_flags` read.
        flags: u16,
    },
}

impl HeaderError {
    /// The message of the error.
    pub open spec fn text(self) -> Seq<char> {
        match self {
            HeaderError::BufferTooShort { needed, actual } => "input buffer too short: need "@
                + decimal(needed as int) + " bytes, got "@ + decimal(actual as int),
            HeaderError::ChecksumMismatch { got, expected } =>
                "frame header check_sum mismatch: got "@ + padded_hex(got as int, 8)
                + ", expected "@ + padded_hex(expected as int, 8)
                + " (frame_number ^ unknown1 ^ frame_size ^ 'FRMH')"@,
            HeaderError::FrameSizeTooSmall { frame_size } => "frame_size "@ + padded_hex(
                frame_size as int,
                8,
            ) + " is not greater than the 16-byte frame header"@,
            HeaderError::UnsupportedDecVersion { got } => "unsupported dec_version "@ + padded_hex(
                got as int,
                4,
            ) + " (only 0x0020 is accepted)"@,
            HeaderError::UnsupportedPixelFormat { flags } =>
                "unsupported pixel format: frame_flags "@ + padded_hex(flags as int, 4)
                + " has YVU9_8BIT (bit 1) set"@,
        }
    }

    /// The message of the error.
    pub fn message(&self) -> (r: String)
        ensures
            r@ == self.text(),
    {
        match self {
            HeaderError::BufferTooShort { needed, actual } => {
                let mut out = String::from_str("input buffer too short: need ");
                push_decimal(&mut out, *needed);
                out.append(" bytes, got ");
                push_decimal(&mut out, *actual);
                out
            },
            HeaderError::ChecksumMismatch { got, expected } => {
                let mut out = String::from_str("frame header check_sum mismatch: got ");
                push_padded_hex(&mut out, *got as usize, 8);
                out.append(", expected ");
                push_padded_hex(&mut out, *expected as usize, 8);
                out.append(" (frame_number ^ unknown1 ^ frame_size ^ 'FRMH')");
                out
            },
            HeaderError::FrameSizeTooSmall { frame_size } => {
                let mut out = String::from_str("frame_size ");
                push_padded_hex(&mut out, *frame_size as usize, 8);
                out.append(" is not greater than the 16-byte frame header");
                out
            },
            HeaderError::UnsupportedDecVersion { got } => {
                let mut out = String::from_str("unsupported dec_version ");
                push_padded_hex(&mut out, *got as usize, 4);
                out.append(" (only 0x0020 is accepted)");
                out
            },
            HeaderError::UnsupportedPixelFormat { flags } => {
                let mut out = String::from_str("unsupported pixel format: frame_flags ");
                push_padded_hex(&mut out, *flags as usize, 4);
                out.append(" has YVU9_8BIT (bit 1) set");
                out
            },
        }
    }
}

/// The `frame_flags` word.
#[derive(Debug, Clone, Copy, PartialEq, Eq, Structural)]
pub struct FrameFlags(pub u16);

/// Whether the bit of weight `weight` is set in a word.
pub open spec fn bit_set(word: u16, weight: int) -> bool {
    word as int / weight % 2 == 1
}

impl FrameFlags {
    /// The raw word.
    pub fn bits(self) -> (r: u16)
        ensures
            r == self.0,
    {
        self.0
    }

    /// Bit 0: a periodic INTRA frame.
    pub fn periodic_intra(self) -> (r: bool)
        ensures
            r == bit_set(self.0, 0x0001),
    {
        self.0 % 2 == 1
    }

    /// Bit 1: 8-bit YVU9 pixel format.
    pub fn yvu9_8bit(self) -> (r: bool)
        ensures
            r == bit_set(self.0, 0x0002),
    {
        self.0 / 0x0002 % 2 == 1
    }

    /// Bit 2: an INTRA frame.
    pub fn intra(self) -> (r: bool)
        ensures
            r == bit_set(self.0, 0x0004),
    {
        self.0 / 0x0004 % 2 == 1
    }

    /// Neither bit 0 nor bit 2 is set: an INTER frame.
    pub fn is_inter(self) -> (r: bool)
        ensures
            r == (!bit_set(self.0, 0x0001) && !bit_set(self.0, 0x0004)),
    {
        !self.periodic_intra() && !self.intra()
    }

    /// Bit 3: the next frame is an INTRA frame.
    pub fn next_intra_hint(self) -> (r: bool)
        ensures
            r == bit_set(self.0, 0x0008),
    {
        self.0 / 0x0008 % 2 == 1
    }

    /// Bit 4: horizontal motion vectors in half pixels.
    pub fn mv_halfpel_horiz(self) -> (r: bool)
        ensures
            r == bit_set(self.0, 0x0010),
    {
        self.0 / 0x0010 % 2 == 1
    }

    /// Bit 5: vertical motion vectors in half pixels.
    pub fn mv_halfpel_vert(self) -> (r: bool)
        ensures
            r == bit_set(self.0, 0x0020),
    {
        self.0 / 0x0020 % 2 == 1
    }

    /// Bit 8: the frame may be skipped under buffer pressure.
    pub fn droppable_inter(self) -> (r: bool)
        ensures
            r == bit_set(self.0, 0x0100),
    {
        self.0 / 0x0100 % 2 == 1
    }

    /// Bit 9: the secondary rather than the primary reference buffer.
    pub fn buffer_selector(self) -> (r: bool)
        ensures
            r == bit_set(self.0, 0x0200),
    {
        self.0 / 0x0200 % 2 == 1
    }
}

/// The frame header, which precedes the bitstream header.
#[derive(Debug, Clone, Copy, PartialEq, Eq, Structural)]
pub struct FrameHeaderPreamble {
    /// Sequential frame counter.
    pub frame_number: u32,
    /// Reserved; any value.
    pub unknown1: u32,
    /// Identification checksum.
    pub check_sum: u32,
    /// Codec-frame size in bytes, from the start of the frame header.
    pub frame_size: u32,
}

/// The bitstream header.
#[derive(Debug, Clone, Copy, PartialEq, Eq)]
pub struct BitstreamHeader {
    /// Always [`REQUIRED_DEC_VERSION`].
    pub dec_version: u16,
    /// The flags.
    pub frame_flags: FrameFlags,
    /// Payload length in bits.
    pub data_size: u32,
    /// Signed codebook selection bias.
    pub cb_offset: i8,
    /// Ignored.
    pub reserved1: u8,
    /// Optional payload checksum; any value.
    pub checksum: u16,
    /// Coded picture height.
    pub height: u16,
    /// Coded picture width.
    pub width: u16,
    /// Offset of the Y plane from the start of the bitstream header.
    pub y_offset: u32,
    /// Offset of the V plane.
    pub v_offset: u32,
    /// Offset of the U plane.
    pub u_offset: u32,
    /// Ignored.
    pub reserved2: u32,
    /// Per-frame codebook indices: a primary index in the high nibble and
    /// a secondary one in the low nibble.
    pub alt_quant: [u8; 16],
}

impl BitstreamHeader {
    /// A NULL / sync frame.
    pub open spec fn is_null(self) -> bool {
        self.data_size == NULL_FRAME_DATA_SIZE_BITS
    }

    /// True iff this is a NULL / sync frame.
    pub fn is_null_frame(&self) -> (r: bool)
        ensures
            r == self.is_null(),
    {
        self.data_size == NULL_FRAME_DATA_SIZE_BITS
    }
}

/// The combined header at the start of a codec frame.
#[derive(Debug, Clone, Copy, PartialEq, Eq)]
pub struct FrameHeader {
    /// The frame header.
    pub frame: FrameHeaderPreamble,
    /// The bitstream header.
    pub bitstream: BitstreamHeader,
}

/// The checksum a frame header must carry.
pub open spec fn header_checksum(input: Seq<u8>) -> u32 {
    dword_at(input, 0) as u32 ^ dword_at(input, 4) as u32 ^ dword_at(input, 0xc) as u32
        ^ MAGIC_FRMH
}

/// Why a combined header is rejected; `None` where it is accepted. The
/// checks are made in this order.
pub open spec fn header_fault(input: Seq<u8>) -> Option<HeaderError> {
    if input.len() < COMBINED_HEADER_LEN {
        Some(
            HeaderError::BufferTooShort {
                needed: COMBINED_HEADER_LEN,
                actual: input.len() as usize,
            },
        )
    } else if dword_at(input, 8) != header_checksum(input) {
        Some(
            HeaderError::ChecksumMismatch {
                got: dword_at(input, 8) as u32,
                expected: header_checksum(input),
            },
        )
    } else if dword_at(input, 0xc) <= FRAME_HEADER_LEN {
        Some(HeaderError::FrameSizeTooSmall { frame_size: dword_at(input, 0xc) as u32 })
    } else if word_at(input, 0x10) != REQUIRED_DEC_VERSION {
        Some(HeaderError::UnsupportedDecVersion { got: word_at(input, 0x10) as u16 })
    } else if bit_set(word_at(input, 0x12) as u16, 0x0002) {
        Some(HeaderError::UnsupportedPixelFormat { flags: word_at(input, 0x12) as u16 })
    } else {
        None
    }
}

impl FrameHeader {
    /// The header holds what the bytes say, field for field.
    pub open spec fn describes(self, input: Seq<u8>) -> bool {
        &&& self.frame.frame_number == dword_at(input, 0)
        &&& self.frame.unknown1 == dword_at(input, 4)
        &&& self.frame.check_sum == dword_at(input, 8)
        &&& self.frame.frame_size == dword_at(input, 0xc)
        &&& self.bitstream.dec_version == word_at(input, 0x10)
        &&& self.bitstream.frame_flags.0 == word_at(input, 0x12)
        &&& self.bitstream.data_size == dword_at(input, 0x14)
        &&& self.bitstream.cb_offset == signed_byte(input[0x18])
        &&& self.bitstream.reserved1 == input[0x19]
        &&& self.bitstream.checksum == word_at(input, 0x1a)
        &&& self.bitstream.height == word_at(input, 0x1c)
        &&& self.bitstream.width == word_at(input, 0x1e)
        &&& self.bitstream.y_offset == dword_at(input, 0x20)
        &&& self.bitstream.v_offset == dword_at(input, 0x24)
        &&& self.bitstream.u_offset == dword_at(input, 0x28)
        &&& self.bitstream.reserved2 == dword_at(input, 0x2c)
        &&& self.bitstream.alt_quant@ == input.subrange(0x30, 0x40)
    }

    /// Parse the combined header at the start of a codec frame. Only its
    /// first [`COMBINED_HEADER_LEN`] bytes are read.
    pub fn parse(input: &[u8]) -> (r: Result<Self, HeaderError>)
        ensures
            match r {
                Ok(h) => header_fault(input@) is None && h.describes(input@),
                Err(e) => header_fault(input@) == Some(e),
            },
    {
        if input.len() < COMBINED_HEADER_LEN {
            return Err(
                HeaderError::BufferTooShort { needed: COMBINED_HEADER_LEN, actual: input.len() },
            );
        }
        let frame_number: u32 = read_dword(input, 0x00);
        let unknown1: u32 = read_dword(input, 0x04);
        let check_sum: u32 = read_dword(input, 0x08);
        let frame_size: u32 = read_dword(input, 0x0c);
        let expected: u32 = frame_number ^ unknown1 ^ frame_size ^ MAGIC_FRMH;
        if check_sum != expected {
            return Err(HeaderError::ChecksumMismatch { got: check_sum, expected });
        }
        if frame_size <= FRAME_HEADER_LEN as u32 {
            return Err(HeaderError::FrameSizeTooSmall { frame_size });
        }
        let dec_version: u16 = read_word(input, 0x10);
        if dec_version != REQUIRED_DEC_VERSION {
            return Err(HeaderError::UnsupportedDecVersion { got: dec_version });
        }
        let frame_flags = FrameFlags(read_word(input, 0x12));
        if frame_flags.yvu9_8bit() {
            return Err(HeaderError::UnsupportedPixelFormat { flags: frame_flags.bits() });
        }
        let mut alt_quant: [u8; 16] = [0u8; 16];
        let mut i: usize = 0;
        while i < 16
            invariant
                i <= 16,
                input@.len() >= COMBINED_HEADER_LEN,
                forall|k: int| 0 <= k < i ==> #[trigger] alt_quant@[k] == input@[0x30 + k],
            decreases 16 - i,
        {
            alt_quant[i] = input[0x30 + i];
            i = i + 1;
        }
        assert(alt_quant@ =~= input@.subrange(0x30, 0x40));
        Ok(
            FrameHeader {
                frame: FrameHeaderPreamble { frame_number, unknown1, check_sum, frame_size },
                bitstream: BitstreamHeader {
                    dec_version,
                    frame_flags,
                    data_size: read_dword(input, 0x14),
                    cb_offset: sign_extend(input[0x18]),
                    reserved1: input[0x19],
                    checksum: read_word(input, 0x1a),
                    height: read_word(input, 0x1c),
                    width: read_word(input, 0x1e),
                    y_offset: read_dword(input, 0x20),
                    v_offset: read_dword(input, 0x24),
                    u_offset: read_dword(input, 0x28),
                    reserved2: read_dword(input, 0x2c),
                    alt_quant,
                },
            },
        )
    }
}

/// Whether a header is accepted depends on its first 64 bytes alone.
pub proof fn header_depends_on_its_bytes(a: Seq<u8>, b: Seq<u8>)
    requires
        a.len() >= COMBINED_HEADER_LEN,
        b.len() >= COMBINED_HEADER_LEN,
        forall|i: int| 0 <= i < COMBINED_HEADER_LEN ==> #[trigger] a[i] == b[i],
    ensures
        header_fault(a) == header_fault(b),
        forall|h: FrameHeader| #[trigger] h.describes(a) == h.describes(b),
{
    assert(a.subrange(0x30, 0x40) =~= b.subrange(0x30, 0x40));
}

/// The header the bytes hold.
pub open spec fn header_in(input: Seq<u8>) -> FrameHeader {
    choose|h: FrameHeader| h.describes(input)
}

/// The bytes determine the header.
pub proof fn header_is_determined(h: FrameHeader, input: Seq<u8>)
    requires
        h.describes(input),
    ensures
        header_in(input) == h,
{
    let g = header_in(input);
    assert(g.describes(input));
    assert(g.bitstream.alt_quant =~= h.bitstream.alt_quant);
    assert(g.bitstream.frame_flags == h.bitstream.frame_flags);
}

/// The (primary, secondary) table-index pair of an `alt_quant` byte: high
/// and low nibble.
pub fn alt_quant_indices(byte: u8) -> (r: (u8, u8))
    ensures
        r.0 == byte as int / 16,
        r.1 == byte as int % 16,
{
    (byte / 16, byte % 16)
}

} // verus!
