//! Helpers shared by the decoders: a little-endian bit reader, the pixel
//! clamp and the cutting of a buffer into frames.
use vstd::arithmetic::power2::{lemma2_to64, lemma_pow2_strictly_increases, lemma_pow2_unfold, pow2};
use vstd::prelude::*;
use vstd::slice::slice_subrange;

verus! {

/// Bit `i` of a byte buffer, bits within a byte taken from the least
/// significant one up.
pub open spec fn stream_bit(buf: Seq<u8>, i: int) -> u8 {
    (buf[i / 8] >> ((i % 8) as u8)) & 1
}

/// The `n` bits from bit `pos` on, packed so that the first bit read is
/// the most significant one.
pub open spec fn msb_value(buf: Seq<u8>, pos: int, n: nat) -> nat
    decreases n,
{
    if n == 0 {
        0
    } else {
        2 * msb_value(buf, pos, (n - 1) as nat) + stream_bit(buf, pos + n - 1) as nat
    }
}

proof fn lemma_stream_bit(buf: Seq<u8>, i: int)
    ensures
        stream_bit(buf, i) <= 1,
{
    let b = buf[i / 8] >> ((i % 8) as u8);
    assert(b & 1 <= 1) by (bit_vector);
}

proof fn lemma_msb_value_bound(buf: Seq<u8>, pos: int, n: nat)
    ensures
        msb_value(buf, pos, n) < pow2(n),
    decreases n,
{
    if n == 0 {
        lemma2_to64();
    } else {
        lemma_msb_value_bound(buf, pos, (n - 1) as nat);
        lemma_stream_bit(buf, pos + n - 1);
        lemma_pow2_unfold(n);
    }
}

proof fn lemma_pow2_upto_24(n: nat)
    requires
        n <= 24,
    ensures
        pow2(n) <= 0x100_0000,
{
    lemma2_to64();
    if n < 24 {
        lemma_pow2_strictly_increases(n, 24);
    }
}

/// Little-endian bit reader, byte-aligned at construction.
///
/// Bytes are taken left to right, the bits within a byte least
/// significant first; a multi-bit read packs the first bit read into the
/// most significant place of the result.
#[derive(Debug)]
pub struct BitReader<'a> {
    buf: &'a [u8],
    pos_bits: usize,
}

impl<'a> BitReader<'a> {
    /// The bytes read from.
    pub closed spec fn bytes(self) -> Seq<u8> {
        self.buf@
    }

    /// The number of bits consumed so far.
    pub closed spec fn position(self) -> nat {
        self.pos_bits as nat
    }

    /// The cursor stays inside the buffer, whose bit count the cursor can
    /// hold.
    pub open spec fn well_formed(self) -> bool {
        &&& self.bytes().len() * 8 <= usize::MAX
        &&& self.position() <= self.bytes().len() * 8
    }

    /// The number of bits left.
    pub open spec fn remaining(self) -> int {
        self.bytes().len() * 8 - self.position()
    }

    /// Create a new reader positioned at bit 0 of `buf`.
    pub fn new(buf: &'a [u8]) -> (r: Self)
        requires
            buf@.len() * 8 <= usize::MAX,
        ensures
            r.well_formed(),
            r.bytes() == buf@,
            r.position() == 0,
    {
        BitReader { buf, pos_bits: 0 }
    }

    /// Current cursor, in bits, from the start of the buffer.
    pub fn pos_bits(&self) -> (r: usize)
        ensures
            r == self.position(),
    {
        self.pos_bits
    }

    /// Total bits still available.
    pub fn bits_remaining(&self) -> (r: usize)
        requires
            self.well_formed(),
        ensures
            r == self.remaining(),
    {
        self.buf.len() * 8 - self.pos_bits
    }

    /// `true` iff no bit is left.
    pub fn at_eof(&self) -> (r: bool)
        requires
            self.well_formed(),
        ensures
            r == (self.remaining() == 0),
    {
        self.bits_remaining() == 0
    }

    /// Pull one bit. Returns `None` past the end of the buffer.
    pub fn read_bit(&mut self) -> (r: Option<u8>)
        requires
            old(self).well_formed(),
        ensures
            final(self).well_formed(),
            final(self).bytes() == old(self).bytes(),
            r is Some <==> old(self).remaining() > 0,
            r matches Some(b) ==> b == stream_bit(old(self).bytes(), old(self).position() as int)
                && final(self).position() == old(self).position() + 1,
            r is None ==> final(self).position() == old(self).position(),
    {
        let byte_idx: usize = self.pos_bits / 8;
        let bit_idx: usize = self.pos_bits % 8;
        if byte_idx >= self.buf.len() {
            return None;
        }
        let b: u8 = self.buf[byte_idx];
        self.pos_bits = self.pos_bits + 1;
        Some((b >> (bit_idx as u8)) & 1)
    }

    /// Look at up to 24 bits without consuming them, packed
    /// most-significant first. `None` if more than 24 bits are asked for
    /// or fewer are left.
    pub fn peek_bits(&self, nbits: u8) -> (r: Option<u32>)
        requires
            self.well_formed(),
        ensures
            r is Some <==> nbits <= 24 && nbits <= self.remaining(),
            r matches Some(v) ==> v == msb_value(self.bytes(), self.position() as int, nbits as nat)
                && v < 0x100_0000,
    {
        if nbits == 0 {
            return Some(0);
        }
        if nbits > 24 {
            return None;
        }
        if self.bits_remaining() < nbits as usize {
            return None;
        }
        let mut value: u32 = 0;
        let mut i: usize = 0;
        while i < nbits as usize
            invariant
                self.well_formed(),
                i <= nbits <= 24,
                nbits <= self.remaining(),
                value == msb_value(self.bytes(), self.position() as int, i as nat),
            decreases nbits - i,
        {
            let p: usize = self.pos_bits + i;
            let byte_idx: usize = p / 8;
            let bit_idx: usize = p % 8;
            let b: u8 = self.buf[byte_idx];
            let bit: u8 = (b >> (bit_idx as u8)) & 1;
            proof {
                lemma_msb_value_bound(self.bytes(), self.position() as int, (i + 1) as nat);
                lemma_pow2_upto_24((i + 1) as nat);
            }
            value = 2 * value + bit as u32;
            i = i + 1;
        }
        proof {
            lemma_msb_value_bound(self.bytes(), self.position() as int, nbits as nat);
            lemma_pow2_upto_24(nbits as nat);
        }
        Some(value)
    }

    /// Read up to 24 bits and advance the cursor; the value is that of
    /// [`Self::peek_bits`].
    pub fn read_bits(&mut self, nbits: u8) -> (r: Option<u32>)
        requires
            old(self).well_formed(),
        ensures
            final(self).well_formed(),
            final(self).bytes() == old(self).bytes(),
            r is Some <==> nbits <= 24 && nbits <= old(self).remaining(),
            r matches Some(v) ==> v == msb_value(
                old(self).bytes(),
                old(self).position() as int,
                nbits as nat,
            ) && final(self).position() == old(self).position() + nbits,
            r is None ==> final(self).position() == old(self).position(),
    {
        match self.peek_bits(nbits) {
            Some(v) => {
                self.pos_bits = self.pos_bits + nbits as usize;
                Some(v)
            },
            None => None,
        }
    }

    /// Drop `nbits` bits. Returns `false`, dropping none, on underflow.
    pub fn skip_bits(&mut self, nbits: usize) -> (r: bool)
        requires
            old(self).well_formed(),
        ensures
            final(self).well_formed(),
            final(self).bytes() == old(self).bytes(),
            r == (nbits <= old(self).remaining()),
            final(self).position() == old(self).position() + if r { nbits as int } else { 0 },
    {
        if self.bits_remaining() < nbits {
            return false;
        }
        self.pos_bits = self.pos_bits + nbits;
        true
    }
}

/// The clamp of an integer to a pixel value.
pub open spec fn clipped(v: int) -> int {
    if v < 0 {
        0
    } else if v > 255 {
        255
    } else {
        v
    }
}

/// Saturating clamp to `0..=255`.
pub fn clip_u8(v: i32) -> (r: u8)
    ensures
        r == clipped(v as int),
{
    if v < 0 {
        0
    } else if v > 255 {
        255
    } else {
        v as u8
    }
}

/// Reading a span of bits in two pieces gives the two halves of reading it
/// at once: the first piece is the high part.
pub proof fn split_read(buf: Seq<u8>, pos: int, a: nat, b: nat)
    ensures
        msb_value(buf, pos, a + b) == msb_value(buf, pos, a) * pow2(b)
            + msb_value(buf, pos + a, b),
    decreases b,
{
    if b == 0 {
        lemma2_to64();
        assert(msb_value(buf, pos, a) * 1 == msb_value(buf, pos, a)) by (nonlinear_arith);
    } else {
        let c = (b - 1) as nat;
        split_read(buf, pos, a, c);
        lemma_pow2_unfold(b);
        let m = msb_value(buf, pos, a);
        let p = pow2(c);
        assert(2 * (m * p) == m * (2 * p)) by (nonlinear_arith);
        assert(pos + (a + b) - 1 == (pos + a) + b - 1);
        assert(((a + b) - 1) as nat == a + c);
    }
}

/// The frames of a buffer, at most `limit` of them: each is preceded by a
/// 16-bit little-endian length, taken modulo `modulus`, and is cut short
/// where the buffer ends.
pub open spec fn frames_of(data: Seq<u8>, modulus: int, limit: nat) -> Seq<Seq<u8>>
    decreases limit,
{
    if data.len() < 2 || limit == 0 {
        Seq::empty()
    } else {
        let end = 2 + frame_bytes(data, modulus);
        seq![data.subrange(2, end)] + frames_of(data.skip(end), modulus, (limit - 1) as nat)
    }
}

/// The length of the first frame of a buffer.
pub open spec fn frame_bytes(data: Seq<u8>, modulus: int) -> int {
    let len = (data[0] + 256 * data[1]) % modulus;
    if len < data.len() - 2 {
        len
    } else {
        data.len() - 2
    }
}

/// Cut a buffer into its length-prefixed frames.
pub fn cut_frames<'a>(data: &'a [u8], modulus: usize, limit: usize) -> (r: Vec<&'a [u8]>)
    requires
        modulus > 0,
    ensures
        Seq::new(r@.len(), |i: int| r@[i]@) == frames_of(data@, modulus as int, limit as nat),
{
    let n: usize = data.len();
    let ghost all = frames_of(data@, modulus as int, limit as nat);
    let ghost mut done: Seq<Seq<u8>> = Seq::empty();
    let mut out: Vec<&'a [u8]> = Vec::new();
    let mut at: usize = 0;
    let mut left: usize = limit;
    assert(data@.skip(0) =~= data@);
    assert(done + all =~= all);
    while left > 0 && n - at >= 2
        invariant
            at <= n,
            n == data@.len(),
            modulus > 0,
            all == done + frames_of(data@.skip(at as int), modulus as int, left as nat),
            done == Seq::new(out@.len(), |i: int| out@[i]@),
        decreases left,
    {
        let ghost rest = data@.skip(at as int);
        let len: usize = (data[at] as usize + 256 * data[at + 1] as usize) % modulus;
        let present: usize = n - at - 2;
        let take: usize = if len < present {
            len
        } else {
            present
        };
        let frame: &'a [u8] = slice_subrange(data, at + 2, at + 2 + take);
        out.push(frame);
        proof {
            let end = 2 + frame_bytes(rest, modulus as int);
            assert(frame@ =~= rest.subrange(2, end));
            assert(rest.skip(end) =~= data@.skip(at + end));
            let tail = frames_of(rest.skip(end), modulus as int, (left - 1) as nat);
            assert(done + (seq![frame@] + tail) =~= done.push(frame@) + tail);
            done = done.push(frame@);
            assert(done =~= Seq::new(out@.len(), |i: int| out@[i]@));
        }
        at = at + 2 + take;
        left = left - 1;
    }
    assert(done + Seq::empty() =~= done);
    out
}

/// The bits of a byte come from the least significant one up: bit `i` of
/// the stream is the quotient of its byte by a power of two, modulo two.
pub proof fn stream_bits_rise(buf: Seq<u8>, i: int)
    requires
        0 <= i < 8 * buf.len(),
    ensures
        stream_bit(buf, i) == buf[i / 8] as nat / pow2((i % 8) as nat) % 2,
        msb_value(buf, i, 1) == stream_bit(buf, i),
{
    let b = buf[i / 8];
    let shift = (i % 8) as u8;
    vstd::bits::lemma_u8_shr_is_div(b, shift);
    let q = b >> shift;
    assert(q & 1 == q % 2) by (bit_vector);
    assert(msb_value(buf, i, 0) == 0);
}

/// The first frame of a buffer is what follows its two length bytes, low
/// byte first, as far as the length, modulo `modulus`, or the buffer
/// goes; the other frames are those of what follows it.
pub proof fn frames_follow_their_lengths(data: Seq<u8>, modulus: int, limit: nat, j: int)
    requires
        modulus > 0,
        limit > 0,
        data.len() >= 2,
    ensures
        ({
            let named = (data[0] + 256 * data[1]) % modulus;
            let all = frames_of(data, modulus, limit);
            let n = all[0].len() as int;
            &&& all.len() >= 1
            &&& n <= named
            &&& n + 2 <= data.len()
            &&& n == named || n + 2 == data.len()
            &&& 0 <= j < n ==> all[0][j] == data[2 + j]
            &&& all.skip(1) == frames_of(data.skip(2 + n), modulus, (limit - 1) as nat)
        }),
        frames_of(data, modulus, 0).len() == 0,
        frames_of(data.take(1), modulus, limit).len() == 0,
        frames_of(Seq::empty(), modulus, limit).len() == 0,
{
    let all = frames_of(data, modulus, limit);
    let n = frame_bytes(data, modulus);
    let rest = frames_of(data.skip(2 + n), modulus, (limit - 1) as nat);
    assert(0 <= (data[0] + 256 * data[1]) % modulus) by {
        vstd::arithmetic::div_mod::lemma_mod_bound((data[0] + 256 * data[1]) as int, modulus);
    }
    assert(all == seq![data.subrange(2, 2 + n)] + rest);
    assert(all.skip(1) =~= rest);
}

/// A clamp stays where it is inside the range of a pixel and goes to the
/// nearer end of the range outside it.
pub proof fn clamps_go_to_the_nearest_pixel(v: int, w: int)
    requires
        0 <= w <= 255,
    ensures
        0 <= clipped(v) <= 255,
        0 <= v <= 255 ==> clipped(v) == v,
        (if v < clipped(v) {
            clipped(v) - v
        } else {
            v - clipped(v)
        }) <= if v < w {
            w - v
        } else {
            v - w
        },
{
}

} // verus!
