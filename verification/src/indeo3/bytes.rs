//! Little-endian words inside byte buffers.
use vstd::prelude::*;

verus! {

/// The 16-bit word whose bytes are `b0` (low) and `b1`.
pub open spec fn le16(b0: u8, b1: u8) -> int {
    b0 + 0x100 * b1
}

/// The 32-bit word whose bytes are `b0` (low) to `b3`.
pub open spec fn le32(b0: u8, b1: u8, b2: u8, b3: u8) -> int {
    b0 + 0x100 * b1 + 0x1_0000 * b2 + 0x100_0000 * b3
}

/// Byte `i` (0 is the low one) of a word.
pub open spec fn byte_of(v: int, i: int) -> u8 {
    (if i == 0 {
        v % 0x100
    } else if i == 1 {
        v / 0x100 % 0x100
    } else if i == 2 {
        v / 0x1_0000 % 0x100
    } else {
        v / 0x100_0000 % 0x100
    }) as u8
}

/// The word at byte `i` of a buffer.
pub open spec fn word_at(s: Seq<u8>, i: int) -> int {
    le16(s[i], s[i + 1])
}

/// The double word at byte `i` of a buffer.
pub open spec fn dword_at(s: Seq<u8>, i: int) -> int {
    le32(s[i], s[i + 1], s[i + 2], s[i + 3])
}

/// A buffer with the double word at byte `i` replaced.
pub open spec fn with_dword(s: Seq<u8>, i: int, v: int) -> Seq<u8> {
    s.update(i, byte_of(v, 0)).update(i + 1, byte_of(v, 1)).update(i + 2, byte_of(v, 2)).update(
        i + 3,
        byte_of(v, 3),
    )
}

/// The bytes of a word give the word back.
pub proof fn bytes_round_trip(v: int)
    requires
        0 <= v <= u32::MAX,
    ensures
        le32(byte_of(v, 0), byte_of(v, 1), byte_of(v, 2), byte_of(v, 3)) == v,
{
}

/// A double word that was stored is read back.
pub proof fn stored_dword_reads_back(s: Seq<u8>, i: int, v: int)
    requires
        0 <= i,
        i + 4 <= s.len(),
        0 <= v <= u32::MAX,
    ensures
        dword_at(with_dword(s, i, v), i) == v,
{
    bytes_round_trip(v);
}

/// Assemble a 16-bit word.
pub fn u16_from_le(b0: u8, b1: u8) -> (r: u16)
    ensures
        r == le16(b0, b1),
{
    b0 as u16 + 0x100 * b1 as u16
}

/// Assemble a 32-bit word.
pub fn u32_from_le(b0: u8, b1: u8, b2: u8, b3: u8) -> (r: u32)
    ensures
        r == le32(b0, b1, b2, b3),
{
    b0 as u32 + 0x100 * b1 as u32 + 0x1_0000 * b2 as u32 + 0x100_0000 * b3 as u32
}

/// Read the 16-bit word at byte `i`.
pub fn read_word(s: &[u8], i: usize) -> (r: u16)
    requires
        i + 2 <= s@.len(),
    ensures
        r == word_at(s@, i as int),
{
    u16_from_le(s[i], s[i + 1])
}

/// Read the 32-bit word at byte `i`.
pub fn read_dword(s: &[u8], i: usize) -> (r: u32)
    requires
        i + 4 <= s@.len(),
    ensures
        r == dword_at(s@, i as int),
{
    u32_from_le(s[i], s[i + 1], s[i + 2], s[i + 3])
}

/// Store a 32-bit word at byte `i`.
pub fn write_dword(s: &mut [u8], i: usize, v: u32)
    requires
        i + 4 <= old(s)@.len(),
    ensures
        final(s)@ == with_dword(old(s)@, i as int, v as int),
{
    s[i] = (v % 0x100) as u8;
    s[i + 1] = (v / 0x100 % 0x100) as u8;
    s[i + 2] = (v / 0x1_0000 % 0x100) as u8;
    s[i + 3] = (v / 0x100_0000 % 0x100) as u8;
}

} // verus!
