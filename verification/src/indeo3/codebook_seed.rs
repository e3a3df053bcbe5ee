//! The codebook seed area: the master copy of the codebook content, a
//! sequence of blocks of signed byte pairs.
//!
//! ```text
//! block := count_byte           ; unsigned count of byte pairs
//!          pair[count]          ; two signed bytes (a, b) each
//!          expand_byte          ; signed
//! area  := block* 0x00          ; a zero count byte terminates
//! ```
use super::text::{decimal, push_decimal};
use super::vq::{sign_extend, signed_byte};
use vstd::prelude::*;
use vstd::slice::slice_subrange;
use vstd::string::StringExecFns;

verus! {

/// Address of the seed area.
pub const SEED_AREA_VMA: u32 = 0x1004_d26a;

/// The count byte that ends the block table.
pub const BLOCK_TERMINATOR: u8 = 0;

/// The bias that recentres a signed pair value onto the unsigned range.
pub const SEED_WORD_BIAS: u16 = 0x8000;

/// Bytes of the staging image per block.
pub const BLOCK_DEST_ADVANCE: usize = 0x800;

/// Blocks of the codec's seed area.
pub const SEED_BLOCK_COUNT: usize = 24;

/// Pairs of the codec's seed area.
pub const SEED_PAIR_TOTAL: usize = 2601;

/// Bytes of the codec's seed area, with its terminator.
pub const SEED_AREA_LEN: usize = 5251;

/// The value of a hexadecimal digit.
pub open spec fn hex_digit(c: char) -> Option<int> {
    let v = c as int;
    if 0x30 <= v <= 0x39 {
        Some(v - 0x30)
    } else if 0x61 <= v <= 0x66 {
        Some(v - 0x61 + 10)
    } else if 0x41 <= v <= 0x46 {
        Some(v - 0x41 + 10)
    } else {
        None
    }
}

/// The number a sequence of hexadecimal digits spells.
pub open spec fn hex_number(s: Seq<char>) -> int
    decreases s.len(),
{
    if s.len() == 0 {
        0
    } else {
        hex_number(s.drop_last()) * 16 + match hex_digit(s.last()) {
            Some(d) => d,
            None => 0,
        }
    }
}

/// A sequence of characters is a hexadecimal number.
pub open spec fn is_hex(s: Seq<char>) -> bool {
    s.len() > 0 && forall|i: int| 0 <= i < s.len() ==> hex_digit(#[trigger] s[i]) is Some
}

/// The digits of a token: a leading plus sign is dropped.
pub open spec fn unsigned_part(token: Seq<char>) -> Seq<char> {
    if token.len() > 0 && token[0] == '+' {
        token.skip(1)
    } else {
        token
    }
}

/// The byte a token spells, if it spells one.
pub open spec fn token_byte(token: Seq<char>) -> Option<u8> {
    let digits = unsigned_part(token);
    if is_hex(digits) && hex_number(digits) <= 0xff {
        Some(hex_number(digits) as u8)
    } else {
        None
    }
}

/// A white-space character.
pub open spec fn is_space(c: char) -> bool {
    let v = c as int;
    ||| 0x09 <= v <= 0x0d
    ||| v == 0x20
    ||| v == 0x85
    ||| v == 0xa0
    ||| v == 0x1680
    ||| 0x2000 <= v <= 0x200a
    ||| v == 0x2028
    ||| v == 0x2029
    ||| v == 0x202f
    ||| v == 0x205f
    ||| v == 0x3000
}

/// The first position at or after `i` that holds no white space.
pub open spec fn space_end(s: Seq<char>, i: int) -> int
    decreases s.len() - i,
{
    if 0 <= i < s.len() && is_space(s[i]) {
        space_end(s, i + 1)
    } else {
        i
    }
}

/// The first position at or after `i` that holds white space, or the end.
pub open spec fn token_end(s: Seq<char>, i: int) -> int
    decreases s.len() - i,
{
    if 0 <= i < s.len() && !is_space(s[i]) {
        token_end(s, i + 1)
    } else {
        i
    }
}

/// The first line feed at or after `i`, or the end.
pub open spec fn line_end(s: Seq<char>, i: int) -> int
    decreases s.len() - i,
{
    if 0 <= i < s.len() && s[i] != '\n' {
        line_end(s, i + 1)
    } else {
        i
    }
}

/// A search from `i` ends at or after `i`, and a token is not empty.
pub proof fn lemma_ends(s: Seq<char>, i: int)
    requires
        0 <= i <= s.len(),
    ensures
        i <= space_end(s, i) <= s.len(),
        i <= token_end(s, i) <= s.len(),
        i <= line_end(s, i) <= s.len(),
        space_end(s, i) < s.len() ==> !is_space(s[space_end(s, i)]),
        i < s.len() && !is_space(s[i]) ==> i < token_end(s, i),
    decreases s.len() - i,
{
    if i < s.len() {
        lemma_ends(s, i + 1);
    }
}

/// The bytes the tokens of a line spell, from position `i` on. A token
/// that spells no byte is passed over.
pub open spec fn token_bytes(line: Seq<char>, i: int) -> Seq<u8>
    decreases line.len() - i,
    when 0 <= i <= line.len()
{
    proof {
        lemma_ends(line, i);
        if space_end(line, i) < line.len() {
            lemma_ends(line, space_end(line, i));
        }
    }
    let start = space_end(line, i);
    if start >= line.len() {
        Seq::empty()
    } else {
        let end = token_end(line, start);
        (match token_byte(line.subrange(start, end)) {
            Some(b) => seq![b],
            None => Seq::empty(),
        }) + token_bytes(line, end)
    }
}

/// The bytes a line spells. A line whose first visible character is `#`
/// is a comment.
pub open spec fn line_bytes(line: Seq<char>) -> Seq<u8> {
    let start = space_end(line, 0);
    if start < line.len() && line[start] == '#' {
        Seq::empty()
    } else {
        token_bytes(line, start)
    }
}

/// The bytes a dump spells, from position `i` on.
pub open spec fn dump_bytes(text: Seq<char>, i: int) -> Seq<u8>
    decreases text.len() + 1 - i,
    when 0 <= i
{
    if i >= text.len() {
        Seq::empty()
    } else {
        proof {
            lemma_ends(text, i);
        }
        let end = line_end(text, i);
        line_bytes(text.subrange(i, end)) + dump_bytes(text, end + 1)
    }
}

fn space(c: char) -> (r: bool)
    ensures
        r == is_space(c),
{
    let v: u32 = c as u32;
    (v >= 0x09 && v <= 0x0d) || v == 0x20 || v == 0x85 || v == 0xa0 || v == 0x1680 || (v >= 0x2000
        && v <= 0x200a) || v == 0x2028 || v == 0x2029 || v == 0x202f || v == 0x205f || v == 0x3000
}

fn digit_value(c: char) -> (r: Option<u32>)
    ensures
        match r {
            Some(d) => d < 16 && hex_digit(c) == Some(d as int),
            None => hex_digit(c) is None,
        },
{
    let v: u32 = c as u32;
    if v >= 0x30 && v <= 0x39 {
        Some(v - 0x30)
    } else if v >= 0x61 && v <= 0x66 {
        Some(v - 0x61 + 10)
    } else if v >= 0x41 && v <= 0x46 {
        Some(v - 0x41 + 10)
    } else {
        None
    }
}

/// More digits spell no smaller number.
proof fn lemma_prefix_is_smaller(s: Seq<char>, k: int)
    requires
        0 <= k <= s.len(),
    ensures
        0 <= hex_number(s.take(k)) <= hex_number(s),
    decreases s.len(),
{
    if k == s.len() {
        assert(s.take(k) =~= s);
        if k > 0 {
            assert(s.drop_last() =~= s.take(k - 1));
            lemma_prefix_is_smaller(s.drop_last(), k - 1);
            assert(s.drop_last().take(k - 1) =~= s.drop_last());
        }
    } else {
        lemma_prefix_is_smaller(s.drop_last(), k);
        assert(s.drop_last().take(k) =~= s.take(k));
    }
}

/// The byte a token spells.
fn parse_token(token: &[char]) -> (r: Option<u8>)
    ensures
        r == token_byte(token@),
{
    let n: usize = token.len();
    let start: usize = if n > 0 && token[0] == '+' {
        1
    } else {
        0
    };
    let ghost digits = unsigned_part(token@);
    assert(digits =~= token@.skip(start as int));
    if start == n {
        return None;
    }
    let mut value: u32 = 0;
    let mut i: usize = start;
    assert(digits.take(0) =~= Seq::empty());
    while i < n
        invariant
            start <= i <= n,
            n == token@.len(),
            digits == unsigned_part(token@),
            digits == token@.skip(start as int),
            value <= 0xff,
            value == hex_number(digits.take(i - start)),
            forall|k: int| 0 <= k < i - start ==> hex_digit(#[trigger] digits[k]) is Some,
        decreases n - i,
    {
        assert(digits[i - start] == token@[i as int]);
        match digit_value(token[i]) {
            None => {
                return None;
            },
            Some(d) => {
                value = value * 16 + d;
            },
        }
        proof {
            let t = digits.take(i - start + 1);
            assert(t.drop_last() =~= digits.take(i - start));
            assert(t.last() == token@[i as int]);
            lemma_prefix_is_smaller(digits, i - start + 1);
        }
        if value > 0xff {
            return None;
        }
        i = i + 1;
    }
    assert(digits.take(n - start) =~= digits);
    Some(value as u8)
}

/// Append the bytes a line spells.
fn parse_line(line: &[char], out: &mut Vec<u8>)
    ensures
        final(out)@ == old(out)@ + line_bytes(line@),
{
    let n: usize = line.len();
    let mut i: usize = skip_space(line, 0);
    if i < n && line[i] == '#' {
        assert(out@ =~= old(out)@ + Seq::empty());
        return;
    }
    proof {
        lemma_ends(line@, 0);
    }
    let ghost total = old(out)@ + line_bytes(line@);
    while i < n
        invariant
            i <= n,
            n == line@.len(),
            total == old(out)@ + line_bytes(line@),
            out@ + token_bytes(line@, i as int) == total,
        decreases n - i,
    {
        proof {
            lemma_ends(line@, i as int);
        }
        let start: usize = skip_space(line, i);
        if start == n {
            assert(out@ + Seq::empty() =~= out@);
            return;
        }
        proof {
            lemma_ends(line@, start as int);
        }
        let end: usize = skip_token(line, start);
        let ghost rest = token_bytes(line@, end as int);
        let ghost before = out@;
        if let Some(b) = parse_token(slice_subrange(line, start, end)) {
            out.push(b);
            assert(out@ + rest =~= before + (seq![b] + rest));
        } else {
            assert(out@ + rest =~= before + (Seq::empty() + rest));
        }
        i = end;
    }
    proof {
        lemma_ends(line@, n as int);
    }
    assert(out@ + Seq::empty() =~= out@);
}

fn skip_space(s: &[char], from: usize) -> (r: usize)
    requires
        from <= s@.len(),
    ensures
        r == space_end(s@, from as int),
        r <= s@.len(),
{
    let n: usize = s.len();
    let mut i: usize = from;
    while i < n && space(s[i])
        invariant
            from <= i <= n,
            n == s@.len(),
            space_end(s@, i as int) == space_end(s@, from as int),
        decreases n - i,
    {
        i = i + 1;
    }
    i
}

fn skip_token(s: &[char], from: usize) -> (r: usize)
    requires
        from <= s@.len(),
    ensures
        r == token_end(s@, from as int),
        r <= s@.len(),
{
    let n: usize = s.len();
    let mut i: usize = from;
    while i < n && !space(s[i])
        invariant
            from <= i <= n,
            n == s@.len(),
            token_end(s@, i as int) == token_end(s@, from as int),
        decreases n - i,
    {
        i = i + 1;
    }
    i
}

fn skip_line(s: &[char], from: usize) -> (r: usize)
    requires
        from <= s@.len(),
    ensures
        r == line_end(s@, from as int),
        r <= s@.len(),
{
    let n: usize = s.len();
    let mut i: usize = from;
    while i < n && s[i] != '\n'
        invariant
            from <= i <= n,
            n == s@.len(),
            line_end(s@, i as int) == line_end(s@, from as int),
        decreases n - i,
    {
        i = i + 1;
    }
    i
}

/// The bytes of a hexadecimal dump: white-space separated byte tokens,
/// with comment lines that begin with `#`.
pub fn parse_hex_bytes(text: &str) -> (r: Vec<u8>)
    ensures
        r@ == dump_bytes(text@, 0),
{
    let mut chars: Vec<char> = Vec::new();
    for c in it: text.chars()
        invariant
            it.seq() == text@,
            chars@ == text@.take(it.index() as int),
    {
        chars.push(c);
        assert(text@.take(it.index() + 1) =~= text@.take(it.index() as int).push(c));
    }
    assert(text@.take(text@.len() as int) =~= text@);
    let n: usize = chars.len();
    let mut out: Vec<u8> = Vec::new();
    let mut i: usize = 0;
    assert(out@ + dump_bytes(chars@, 0) =~= dump_bytes(chars@, 0));
    while i < n
        invariant
            n == chars@.len(),
            i <= n,
            out@ + dump_bytes(chars@, i as int) == dump_bytes(chars@, 0),
        decreases n - i,
    {
        proof {
            lemma_ends(chars@, i as int);
        }
        let end: usize = skip_line(chars.as_slice(), i);
        let ghost before = out@;
        let ghost line = line_bytes(chars@.subrange(i as int, end as int));
        parse_line(slice_subrange(chars.as_slice(), i, end), &mut out);
        assert(out@ + dump_bytes(chars@, end + 1) =~= before + (line + dump_bytes(
            chars@,
            end + 1,
        )));
        if end == n {
            assert(dump_bytes(chars@, end + 1) =~= Seq::empty());
            i = n;
        } else {
            i = end + 1;
        }
    }
    assert(out@ + Seq::empty() =~= out@);
    out
}

/// One signed byte pair of a block.
#[derive(Debug, Clone, Copy, PartialEq, Eq, Structural)]
pub struct SeedPair {
    /// The low byte.
    pub a: i8,
    /// The high byte.
    pub b: i8,
}

impl SeedPair {
    /// The pair as a number.
    pub open spec fn number(self) -> int {
        self.b * 256 + self.a
    }

    /// The word of the seeded tables: the pair's number, biased, in the
    /// high half.
    pub open spec fn seeded(self) -> u32 {
        ((self.number() + 0x8000) % 0x1_0000 * 0x1_0000) as u32
    }

    /// The word of the replicated tables: the bytes `b`, `b`, `a`, `a` from
    /// most to least significant, added as 32-bit words, so that a negative
    /// byte borrows from the byte above it.
    pub open spec fn replicated(self) -> u32 {
        ((self.b * 0x100_0000 + self.b * 0x1_0000 + self.a * 0x100 + self.a) % 0x1_0000_0000) as u32
    }

    /// The pair read as a signed 16-bit number, which wraps below the least
    /// one.
    pub fn value(self) -> (r: i16)
        ensures
            -0x8000 <= self.number() ==> r == self.number(),
            self.number() < -0x8000 ==> r == self.number() + 0x1_0000,
    {
        let n: i32 = self.b as i32 * 256 + self.a as i32;
        if n < -0x8000 {
            (n + 0x1_0000) as i16
        } else {
            n as i16
        }
    }

    /// The word the pair becomes in the seeded tables.
    pub fn seeded_word(self) -> (r: u32)
        ensures
            r == self.seeded(),
    {
        let n: i32 = self.b as i32 * 256 + self.a as i32 + 0x8000;
        let low: u32 = if n < 0 {
            (n + 0x1_0000) as u32
        } else {
            n as u32
        };
        low * 0x1_0000
    }

    /// The word the pair becomes in the replicated tables.
    pub fn replicated_word(self) -> (r: u32)
        ensures
            r == self.replicated(),
    {
        let a: i64 = self.a as i64;
        let b: i64 = self.b as i64;
        let n: i64 = b * 0x100_0000 + b * 0x1_0000 + a * 0x100 + a;
        let word: i64 = if n < 0 {
            n + 0x1_0000_0000
        } else {
            n
        };
        word as u32
    }
}

/// One block of the seed area.
#[derive(Debug, Clone, PartialEq, Eq)]
pub struct SeedBlock {
    /// Offset of the count byte in the area.
    pub offset: usize,
    /// Number of pairs.
    pub count: u8,
    /// The pairs, in stream order.
    pub pairs: Vec<SeedPair>,
    /// The expansion byte.
    pub expand: i8,
}

impl SeedBlock {
    /// The block holds what the bytes at `at` say.
    pub open spec fn describes(self, raw: Seq<u8>, at: int) -> bool {
        &&& self.offset == at
        &&& self.count == raw[at]
        &&& self.pairs@.len() == self.count
        &&& forall|k: int|
            0 <= k < self.count ==> #[trigger] self.pairs@[k] == (SeedPair {
                a: signed_byte(raw[at + 1 + 2 * k]) as i8,
                b: signed_byte(raw[at + 2 + 2 * k]) as i8,
            })
        &&& self.expand == signed_byte(raw[at + 1 + 2 * self.count])
    }

    /// The number of bytes of the block in the area.
    pub fn encoded_len(&self) -> (r: usize)
        ensures
            r == block_len(self.count),
    {
        2 + 2 * self.count as usize
    }

    /// The dimension of the block's expansion.
    pub fn expand_dim(&self) -> (r: usize)
        ensures
            r == if self.expand < 0 {
                -self.expand
            } else {
                self.expand as int
            },
    {
        if self.expand < 0 {
            (-(self.expand as i16)) as usize
        } else {
            self.expand as usize
        }
    }

    /// The seeded words of the block, in pair order.
    pub fn seeded_words(&self) -> (r: Vec<u32>)
        ensures
            r@ == Seq::new(self.pairs@.len(), |k: int| self.pairs@[k].seeded()),
    {
        let n: usize = self.pairs.len();
        let mut out: Vec<u32> = Vec::new();
        let mut k: usize = 0;
        while k < n
            invariant
                k <= n,
                n == self.pairs@.len(),
                out@ == Seq::new(k as nat, |j: int| self.pairs@[j].seeded()),
            decreases n - k,
        {
            out.push(self.pairs[k].seeded_word());
            k = k + 1;
        }
        out
    }
}

/// Why a seed area does not parse.
#[derive(Debug, Clone, Copy, PartialEq, Eq, Structural)]
pub enum SeedAreaError {
    /// A block runs past the buffer.
    Truncated {
        /// Offset of its count byte.
        block_offset: usize,
    },
    /// The buffer ends with no terminator.
    MissingTerminator,
}

impl SeedAreaError {
    /// The message of the error.
    pub open spec fn text(self) -> Seq<char> {
        match self {
            SeedAreaError::Truncated { block_offset } => "spec/04 §5.2.1: seed block at offset "@
                + decimal(block_offset as int) + " runs past the buffer"@,
            SeedAreaError::MissingTerminator =>
                "spec/04 §5.2.1: seed area has no zero-count terminator"@,
        }
    }

    /// The message of the error.
    pub fn message(&self) -> (r: String)
        ensures
            r@ == self.text(),
    {
        match self {
            SeedAreaError::Truncated { block_offset } => {
                let mut out = String::from_str("spec/04 §5.2.1: seed block at offset ");
                push_decimal(&mut out, *block_offset);
                out.append(" runs past the buffer");
                out
            },
            SeedAreaError::MissingTerminator => String::from_str(
                "spec/04 §5.2.1: seed area has no zero-count terminator",
            ),
        }
    }
}

/// The bytes of a block of `count` pairs.
pub open spec fn block_len(count: u8) -> int {
    2 + 2 * count
}

/// The offsets of the blocks from offset `i` on.
pub open spec fn block_offsets(raw: Seq<u8>, i: int) -> Seq<int>
    decreases raw.len() - i,
{
    if 0 <= i < raw.len() && raw[i] != BLOCK_TERMINATOR && i + block_len(raw[i]) <= raw.len() {
        seq![i] + block_offsets(raw, i + block_len(raw[i]))
    } else {
        Seq::empty()
    }
}

/// Where the blocks from offset `i` on end: at a terminator, or in an
/// error.
pub open spec fn area_end(raw: Seq<u8>, i: int) -> Result<int, SeedAreaError>
    decreases raw.len() - i,
{
    if !(0 <= i < raw.len()) {
        Err(SeedAreaError::MissingTerminator)
    } else if raw[i] == BLOCK_TERMINATOR {
        Ok(i)
    } else if i + block_len(raw[i]) > raw.len() {
        Err(SeedAreaError::Truncated { block_offset: i as usize })
    } else {
        area_end(raw, i + block_len(raw[i]))
    }
}

/// A parsed seed area.
#[derive(Debug, Clone)]
pub struct CodebookSeedArea {
    raw: Vec<u8>,
    blocks: Vec<SeedBlock>,
    terminator_offset: usize,
}

impl CodebookSeedArea {
    /// The bytes.
    pub closed spec fn bytes(self) -> Seq<u8> {
        self.raw@
    }

    /// The blocks.
    pub closed spec fn block_seq(self) -> Seq<SeedBlock> {
        self.blocks@
    }

    /// The offset of the terminator.
    pub closed spec fn end(self) -> int {
        self.terminator_offset as int
    }

    /// The area is the parse of the bytes.
    pub open spec fn parses(self, raw: Seq<u8>) -> bool {
        &&& self.bytes() == raw
        &&& area_end(raw, 0) == Ok::<int, SeedAreaError>(self.end())
        &&& self.block_seq().len() == block_offsets(raw, 0).len()
        &&& forall|k: int|
            0 <= k < self.block_seq().len() ==> (#[trigger] self.block_seq()[k]).describes(
                raw,
                block_offsets(raw, 0)[k],
            )
    }

    /// Parse the seed area a hexadecimal dump spells.
    pub fn load(text: &str) -> (r: Result<Self, SeedAreaError>)
        ensures
            match r {
                Ok(area) => area.parses(dump_bytes(text@, 0)),
                Err(e) => area_end(dump_bytes(text@, 0), 0) == Err::<int, SeedAreaError>(e),
            },
    {
        Self::from_bytes(parse_hex_bytes(text))
    }

    /// Parse a seed area.
    pub fn from_bytes(raw: Vec<u8>) -> (r: Result<Self, SeedAreaError>)
        ensures
            match r {
                Ok(area) => area.parses(raw@),
                Err(e) => area_end(raw@, 0) == Err::<int, SeedAreaError>(e),
            },
    {
        let n: usize = raw.len();
        let mut blocks: Vec<SeedBlock> = Vec::new();
        let mut i: usize = 0;
        let ghost mut done: Seq<int> = Seq::empty();
        assert(done + block_offsets(raw@, 0) =~= block_offsets(raw@, 0));
        while i < n
            invariant
                n == raw@.len(),
                i <= n,
                area_end(raw@, i as int) == area_end(raw@, 0),
                done + block_offsets(raw@, i as int) == block_offsets(raw@, 0),
                blocks@.len() == done.len(),
                forall|k: int|
                    0 <= k < done.len() ==> (#[trigger] blocks@[k]).describes(raw@, done[k]),
            decreases n - i,
        {
            let count: u8 = raw[i];
            if count == BLOCK_TERMINATOR {
                assert(done + Seq::empty() =~= done);
                return Ok(CodebookSeedArea { raw, blocks, terminator_offset: i });
            }
            let body_len: usize = 2 * count as usize;
            if n - i < body_len + 2 {
                return Err(SeedAreaError::Truncated { block_offset: i });
            }
            let block = Self::read_block(raw.as_slice(), i);
            let ghost rest = block_offsets(raw@, i + block_len(count));
            assert(done.push(i as int) + rest =~= done + (seq![i as int] + rest));
            blocks.push(block);
            proof {
                done = done.push(i as int);
            }
            i = i + body_len + 2;
        }
        Err(SeedAreaError::MissingTerminator)
    }

    /// Read the block at `at`.
    fn read_block(raw: &[u8], at: usize) -> (r: SeedBlock)
        requires
            at < raw@.len(),
            at + block_len(raw@[at as int]) <= raw@.len(),
        ensures
            r.describes(raw@, at as int),
    {
        let n: usize = raw.len();
        let count: u8 = raw[at];
        let mut pairs: Vec<SeedPair> = Vec::new();
        let mut k: usize = 0;
        while k < count as usize
            invariant
                k <= count,
                n == raw@.len(),
                at < n,
                count == raw@[at as int],
                at + block_len(count) <= n,
                pairs@.len() == k,
                forall|j: int|
                    0 <= j < k ==> #[trigger] pairs@[j] == (SeedPair {
                        a: signed_byte(raw@[at + 1 + 2 * j]) as i8,
                        b: signed_byte(raw@[at + 2 + 2 * j]) as i8,
                    }),
            decreases count - k,
        {
            let a: i8 = sign_extend(raw[at + 1 + 2 * k]);
            let b: i8 = sign_extend(raw[at + 2 + 2 * k]);
            pairs.push(SeedPair { a, b });
            k = k + 1;
        }
        let expand: i8 = sign_extend(raw[at + 1 + 2 * count as usize]);
        SeedBlock { offset: at, count, pairs, expand }
    }

    /// The bytes of the area.
    pub fn raw(&self) -> (r: &[u8])
        ensures
            r@ == self.bytes(),
    {
        self.raw.as_slice()
    }

    /// The blocks, in stream order.
    pub fn blocks(&self) -> (r: &[SeedBlock])
        ensures
            r@ == self.block_seq(),
    {
        self.blocks.as_slice()
    }

    /// The offset of the terminator.
    pub fn terminator_offset(&self) -> (r: usize)
        ensures
            r == self.end(),
    {
        self.terminator_offset
    }
}

/// The blocks of an area lie end to end: the first begins at its start,
/// each next one where the one before ends, and the terminator follows
/// the last.
pub proof fn blocks_tile_the_area(raw: Seq<u8>, i: int)
    requires
        0 <= i <= raw.len(),
        area_end(raw, i) is Ok,
    ensures
        ({
            let offsets = block_offsets(raw, i);
            let end = area_end(raw, i)->Ok_0;
            &&& i <= end < raw.len()
            &&& raw[end] == BLOCK_TERMINATOR
            &&& offsets.len() == 0 ==> end == i
            &&& offsets.len() > 0 ==> offsets[0] == i
            &&& forall|k: int|
                0 <= k < offsets.len() ==> 0 <= #[trigger] offsets[k] < raw.len() && offsets[k]
                    + block_len(raw[offsets[k]]) == if k + 1 < offsets.len() {
                    offsets[k + 1]
                } else {
                    end
                }
        }),
    decreases raw.len() - i,
{
    if raw[i] != BLOCK_TERMINATOR {
        let next = i + block_len(raw[i]);
        blocks_tile_the_area(raw, next);
        let rest = block_offsets(raw, next);
        let offsets = block_offsets(raw, i);
        let end = area_end(raw, i)->Ok_0;
        assert forall|k: int| 0 <= k < offsets.len() implies 0 <= #[trigger] offsets[k] < raw.len()
            && offsets[k] + block_len(raw[offsets[k]]) == if k + 1 < offsets.len() {
            offsets[k + 1]
        } else {
            end
        } by {
            if k > 0 {
                assert(offsets[k] == rest[k - 1]);
                if k + 1 < offsets.len() {
                    assert(offsets[k + 1] == rest[k]);
                }
            } else if offsets.len() > 1 {
                assert(offsets[1] == rest[0]);
            }
        }
    }
}

/// What follows the terminator does not matter.
pub proof fn bytes_after_the_terminator_are_ignored(raw: Seq<u8>, junk: Seq<u8>, i: int)
    requires
        0 <= i <= raw.len(),
        area_end(raw, i) is Ok,
    ensures
        area_end(raw + junk, i) == area_end(raw, i),
        block_offsets(raw + junk, i) == block_offsets(raw, i),
    decreases raw.len() - i,
{
    assert((raw + junk)[i] == raw[i]);
    if raw[i] != BLOCK_TERMINATOR {
        bytes_after_the_terminator_are_ignored(raw, junk, i + block_len(raw[i]));
    }
}

/// A digit stands for its value in either case of letter, and a number
/// grows sixteenfold with each further digit.
pub proof fn digits_spell_numbers(s: Seq<char>, c: char)
    ensures
        hex_digit(c) is Some <==> '0' <= c <= '9' || 'a' <= c <= 'f' || 'A' <= c <= 'F',
        '0' <= c <= '9' ==> hex_digit(c) == Some(c as int - '0' as int),
        'a' <= c <= 'f' ==> hex_digit(c) == Some(10 + (c as int - 'a' as int)),
        'A' <= c <= 'F' ==> hex_digit(c) == Some(10 + (c as int - 'A' as int)),
        hex_digit(c) matches Some(d) ==> hex_number(s.push(c)) == 16 * hex_number(s) + d,
        hex_number(Seq::empty()) == 0,
{
    assert(s.push(c).drop_last() =~= s);
}

/// A token of one or two hexadecimal digits is a byte, with or without a
/// plus sign before it; one with another character is none.
pub proof fn tokens_spell_bytes(high: char, low: char, other: Seq<char>, k: int)
    requires
        hex_digit(high) is Some,
        hex_digit(low) is Some,
        1 <= k < other.len(),
        hex_digit(other[k]) is None,
    ensures
        ({
            let v = 16 * hex_digit(high)->0 + hex_digit(low)->0;
            &&& token_byte(seq![high, low]) matches Some(b) && b == v
            &&& token_byte(seq!['+', high, low]) matches Some(b) && b == v
            &&& token_byte(seq![low]) matches Some(b) && b == hex_digit(low)->0
        }),
        token_byte(other) is None,
        token_byte(Seq::empty()) is None,
{
    let none = Seq::<char>::empty();
    digits_spell_numbers(none, high);
    digits_spell_numbers(none, low);
    digits_spell_numbers(none.push(high), low);
    assert(seq![high, low] =~= none.push(high).push(low));
    assert(seq![low] =~= none.push(low));
    assert(seq!['+', high, low].skip(1) =~= seq![high, low]);
    assert(unsigned_part(seq![high, low]) == seq![high, low]);
    assert(unsigned_part(seq![low]) == seq![low]);
    assert(is_hex(seq![high, low]));
    assert(is_hex(seq![low]));
    let digits = unsigned_part(other);
    if other[0] == '+' {
        assert(digits[k - 1] == other[k]);
    } else {
        assert(digits[k] == other[k]);
    }
}

proof fn lemma_line_end(s: Seq<char>, i: int, n: int)
    requires
        0 <= i <= n <= s.len(),
        forall|k: int| i <= k < n ==> #[trigger] s[k] != '\n',
        n == s.len() || s[n] == '\n',
    ensures
        line_end(s, i) == n,
    decreases n - i,
{
    if i < n {
        lemma_line_end(s, i + 1, n);
    }
}

proof fn lemma_ends_shift(p: Seq<char>, s: Seq<char>, i: int)
    requires
        0 <= i <= s.len(),
    ensures
        line_end(p + s, p.len() + i) == p.len() + line_end(s, i),
        space_end(p + s, p.len() + i) == p.len() + space_end(s, i),
        token_end(p + s, p.len() + i) == p.len() + token_end(s, i),
    decreases s.len() - i,
{
    if i < s.len() {
        assert((p + s)[p.len() + i] == s[i]);
        lemma_ends_shift(p, s, i + 1);
    }
}

proof fn lemma_dump_shift(p: Seq<char>, s: Seq<char>, i: int)
    requires
        0 <= i,
    ensures
        dump_bytes(p + s, p.len() + i) == dump_bytes(s, i),
    decreases s.len() + 1 - i,
{
    if i < s.len() {
        lemma_ends(s, i);
        lemma_ends_shift(p, s, i);
        let end = line_end(s, i);
        assert((p + s).subrange(p.len() + i, p.len() + end) =~= s.subrange(i, end));
        lemma_dump_shift(p, s, end + 1);
    }
}

proof fn lemma_tokens_shift(p: Seq<char>, s: Seq<char>, i: int)
    requires
        0 <= i <= s.len(),
    ensures
        token_bytes(p + s, p.len() + i) == token_bytes(s, i),
    decreases s.len() - i,
{
    lemma_ends(s, i);
    lemma_ends_shift(p, s, i);
    let start = space_end(s, i);
    if start < s.len() {
        lemma_ends(s, start);
        lemma_ends_shift(p, s, start);
        let end = token_end(s, start);
        assert((p + s).subrange(p.len() + start, p.len() + end) =~= s.subrange(start, end));
        lemma_tokens_shift(p, s, end);
    }
}

/// A dump spells what its lines spell, one after the other; what follows
/// a `#` at the start of a line spells nothing.
pub proof fn dumps_are_read_line_by_line(line: Seq<char>, rest: Seq<char>)
    requires
        forall|k: int| 0 <= k < line.len() ==> #[trigger] line[k] != '\n',
    ensures
        dump_bytes(line.push('\n') + rest, 0) == line_bytes(line) + dump_bytes(rest, 0),
        dump_bytes(line, 0) == line_bytes(line),
        line.len() > 0 && line[0] == '#' ==> line_bytes(line).len() == 0,
        dump_bytes(Seq::empty(), 0).len() == 0,
{
    let p = line.push('\n');
    let all = p + rest;
    lemma_line_end(all, 0, line.len() as int);
    assert(all.subrange(0, line.len() as int) =~= line);
    lemma_dump_shift(p, rest, 0);
    lemma_line_end(line, 0, line.len() as int);
    assert(line.subrange(0, line.len() as int) =~= line);
    let none = dump_bytes(line, line.len() as int + 1);
    assert(none.len() == 0);
    assert(line_bytes(line) + none =~= line_bytes(line));
    if line.len() == 0 {
        assert(line_bytes(line).len() == 0);
    }
}

proof fn lemma_token_end(s: Seq<char>, i: int, n: int)
    requires
        0 <= i <= n <= s.len(),
        forall|k: int| i <= k < n ==> !is_space(#[trigger] s[k]),
        n == s.len() || is_space(s[n]),
    ensures
        token_end(s, i) == n,
    decreases n - i,
{
    if i < n {
        lemma_token_end(s, i + 1, n);
    }
}

/// A line spells the bytes of its tokens in order: white space parts
/// them, and a token that is no byte is passed over.
pub proof fn lines_are_read_token_by_token(token: Seq<char>, gap: char, rest: Seq<char>)
    requires
        token.len() > 0,
        token[0] != '#',
        forall|k: int| 0 <= k < token.len() ==> !is_space(#[trigger] token[k]),
        is_space(gap),
    ensures
        ({
            let all = line_bytes(token.push(gap) + rest);
            let tail = token_bytes(rest, 0);
            match token_byte(token) {
                Some(b) => all.len() == tail.len() + 1 && all[0] == b && all.skip(1) == tail,
                None => all == tail,
            }
        }),
        is_space(' '),
        is_space('\t'),
        is_space('\r'),
{
    let p = token.push(gap);
    let all = p + rest;
    assert forall|k: int| 0 <= k < token.len() implies !is_space(#[trigger] all[k]) by {
        assert(all[k] == token[k]);
    }
    lemma_token_end(all, 0, token.len() as int);
    assert(all[0] == token[0]);
    assert(space_end(all, 0) == 0);
    assert(all.subrange(0, token.len() as int) =~= token);
    let n = token.len() as int;
    assert(all[n] == gap);
    assert(space_end(all, n) == space_end(all, n + 1));
    lemma_ends(all, n + 1);
    assert(token_bytes(all, n) == token_bytes(all, n + 1));
    lemma_tokens_shift(p, rest, 0);
    let tail = token_bytes(rest, 0);
    match token_byte(token) {
        Some(b) => {
            assert((seq![b] + tail).skip(1) =~= tail);
        },
        None => {
            assert(Seq::<u8>::empty() + tail =~= tail);
        },
    }
}

/// The words of a seed pair: the first holds the pair's 16-bit number,
/// with its top bit turned, in its high half; the second holds the first
/// delta in each of its two low bytes and the second delta in each of its
/// two high ones, all added up modulo 2^32.
pub proof fn pairs_make_their_words(p: SeedPair)
    ensures
        p.seeded() % 0x1_0000 == 0,
        (p.seeded() / 0x1_0000 - 0x8000 - p.a - 256 * p.b) % 0x1_0000 == 0,
        (p.replicated() - 257 * p.a - 0x101_0000 * p.b) % 0x1_0000_0000 == 0,
{
}

} // verus!
