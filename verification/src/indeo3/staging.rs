//! The codec-init codebook staging image.
use vstd::prelude::*;

verus! {

/// Bytes of one staging block: a primary and a secondary table of 1 KB.
pub const STAGING_BLOCK_STRIDE: usize = 0x800;

/// Number of staging blocks.
pub const STAGING_BLOCK_COUNT: usize = 24;

/// Bytes of the whole image.
pub const STAGING_LEN: usize = 0xc000;

/// The codec-init codebook staging image.
#[derive(Debug, Clone)]
pub struct StagingImage {
    bytes: [u8; STAGING_LEN],
}

impl View for StagingImage {
    type V = Seq<u8>;

    closed spec fn view(&self) -> Seq<u8> {
        self.bytes@
    }
}

impl StagingImage {
    /// The image with the given bytes; `None` unless there are
    /// [`STAGING_LEN`] of them.
    pub fn from_bytes(bytes: &[u8]) -> (r: Option<Self>)
        ensures
            r is Some <==> bytes@.len() == STAGING_LEN,
            r matches Some(t) ==> t@ == bytes@,
    {
        if bytes.len() != STAGING_LEN {
            return None;
        }
        let mut out: [u8; STAGING_LEN] = [0u8; STAGING_LEN];
        let mut i: usize = 0;
        while i < STAGING_LEN
            invariant
                i <= STAGING_LEN,
                bytes@.len() == STAGING_LEN,
                forall|j: int| 0 <= j < i ==> out@[j] == bytes@[j],
            decreases STAGING_LEN - i,
        {
            out[i] = bytes[i];
            i = i + 1;
        }
        assert(out@ =~= bytes@);
        Some(StagingImage { bytes: out })
    }

    /// The image's bytes.
    pub fn as_bytes(&self) -> (r: &[u8])
        ensures
            r@ == self@,
            r@.len() == STAGING_LEN,
    {
        self.bytes.as_slice()
    }
}

} // verus!
