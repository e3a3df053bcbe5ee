//! What the codes of a cell do to its pixels, said of the bytes of the
//! strip, of the code tables and of the payload.
use super::cell_decoder::CellDecodeError;
use super::plane_model::{
    applied, code_step, decoded_pixels, dyad_high, dyad_low, evened, literal_code, pixel_deltas,
    residual_row, seven_bit, strip_index, with_doubled, with_residual, with_row, BlockPlace,
    CodeState,
};
use vstd::prelude::*;

verus! {

/// The byte of a strip at `(row, col)` of the picture; row -1 is the row
/// above it.
pub open spec fn pixel(s: Seq<u8>, row: int, col: int) -> u8 {
    s[(row + 1) * 0xb0 + col]
}

/// `e` is `d` brought to an even number without leaving its sign.
pub open spec fn even_part(d: int, e: int) -> bool {
    &&& e % 2 == 0
    &&& d >= 0 ==> d - 1 <= e <= d
    &&& d <= 0 ==> d <= e <= d + 1
}

/// Four numbers, the first one lowest, as one number to the base 256.
pub open spec fn base_256(d: Seq<int>) -> int {
    d[0] + 0x100 * d[1] + 0x1_0000 * d[2] + 0x100_0000 * d[3]
}

/// The four bytes of a table at `i`.
pub open spec fn four_bytes(t: Seq<u8>, i: int) -> Seq<int> {
    seq![t[i] as int, t[i + 1] as int, t[i + 2] as int, t[i + 3] as int]
}

/// The deltas `d` are those of the one-byte code whose table bytes are
/// at `i`, over the predictor `pred`: the sum of predictor and table word
/// has its top bit clear, and the table word is the deltas' number modulo
/// 2^32.
pub open spec fn one_byte_form(t: Seq<u8>, i: int, pred: Seq<int>, d: Seq<int>) -> bool {
    &&& (base_256(four_bytes(t, i)) + base_256(pred)) % 0x1_0000_0000 < 0x8000_0000
    &&& base_256(four_bytes(t, i)) == base_256(d) % 0x1_0000_0000
}

/// The deltas `d` are those of the two-byte code whose table bytes are at
/// `i` and whose second byte's table bytes are at `k`: the sum has its
/// top bit set, the upper two bytes at `i` are the right two deltas biased
/// by 0x8000, and those at `k` the left two.
pub open spec fn two_byte_form(t: Seq<u8>, i: int, k: int, pred: Seq<int>, d: Seq<int>) -> bool {
    &&& (base_256(four_bytes(t, i)) + base_256(pred)) % 0x1_0000_0000 >= 0x8000_0000
    &&& t[i + 2] + 0x100 * t[i + 3] == (d[2] + 0x100 * d[3] + 0x8000) % 0x1_0000
    &&& t[k + 2] + 0x100 * t[k + 3] == (d[0] + 0x100 * d[1] + 0x8000) % 0x1_0000
}

/// Four deltas of a code.
pub open spec fn four_deltas(d: Seq<int>) -> bool {
    d.len() == 4 && forall|i: int| 0 <= i < 4 ==> -127 <= #[trigger] d[i] <= 127
}

/// The code at `pos` of the payload is `len` bytes long and has the
/// deltas `d`. Even row positions take the secondary table, odd ones the
/// primary.
pub open spec fn code_says(
    data: Seq<u8>,
    pos: int,
    at: BlockPlace,
    p: int,
    pred: Seq<int>,
    d: Seq<int>,
    len: int,
) -> bool {
    let t = at.code.book.bytes;
    let base = if p == 0 || p == 2 {
        at.code.book.secondary
    } else {
        at.code.book.primary
    };
    &&& 0 <= pos
    &&& pos + len <= data.len()
    &&& data[pos] < 0xF8
    &&& four_deltas(d)
    &&& if len == 1 {
        one_byte_form(t, base + 4 * data[pos], pred, d)
    } else {
        &&& len == 2
        &&& two_byte_form(t, base + 4 * data[pos], base + 4 * data[pos + 1], pred, d)
    }
}

proof fn lemma_pair(v: int, a: int, b: int)
    requires
        -127 <= a <= 127,
        -127 <= b <= 127,
        0 <= v < 0x1_0000,
        v == (a + 0x100 * b) % 0x1_0000,
    ensures
        dyad_low(v) == a,
        dyad_high(v) == b,
        v >= 0x8000 <==> a + 0x100 * b < 0,
{
    let w = a + 0x100 * b;
    assert(v == w || v == w + 0x1_0000);
    assert(v % 0x100 == if a < 0 {
        a + 0x100
    } else {
        a
    });
}

proof fn lemma_halves(word: int, v: int, u: int)
    requires
        -0x8000 < v < 0x8000,
        -0x8000 < u < 0x8000,
        word == (v + 0x1_0000 * u) % 0x1_0000_0000,
    ensures
        word % 0x1_0000 == v % 0x1_0000,
        v >= 0 ==> (word / 0x1_0000) % 0x1_0000 == u % 0x1_0000,
        v < 0 ==> (word / 0x1_0000 + 1) % 0x1_0000 == u % 0x1_0000,
{
    let k = if v + 0x1_0000 * u < 0 {
        1int
    } else {
        0
    };
    assert(word == v + 0x1_0000 * (u + 0x1_0000 * k));
}

proof fn lemma_one_byte(word: int, d: Seq<int>)
    requires
        four_deltas(d),
        word == base_256(d) % 0x1_0000_0000,
    ensures
        ({
            let lo = word % 0x1_0000;
            let borrow = if lo >= 0x8000 {
                1int
            } else {
                0
            };
            pixel_deltas(lo, (word / 0x1_0000 + borrow) % 0x1_0000) == Seq::new(
                4,
                |i: int| evened(d[i]),
            )
        }),
{
    assert(-127 <= d[0] <= 127 && -127 <= d[1] <= 127 && -127 <= d[2] <= 127 && -127 <= d[3]
        <= 127);
    let v = d[0] + 0x100 * d[1];
    let u = d[2] + 0x100 * d[3];
    let lo = word % 0x1_0000;
    let borrow = if lo >= 0x8000 {
        1int
    } else {
        0
    };
    let hi = (word / 0x1_0000 + borrow) % 0x1_0000;
    lemma_halves(word, v, u);
    lemma_pair(lo, d[0], d[1]);
    lemma_pair(hi, d[2], d[3]);
    assert(pixel_deltas(lo, hi) =~= Seq::new(4, |i: int| evened(d[i])));
}

proof fn lemma_two_byte(right: int, left: int, d: Seq<int>)
    requires
        four_deltas(d),
        right == (d[2] + 0x100 * d[3] + 0x8000) % 0x1_0000,
        left == (d[0] + 0x100 * d[1] + 0x8000) % 0x1_0000,
    ensures
        pixel_deltas((left + 0x8000) % 0x1_0000, (right + 0x8000) % 0x1_0000) == Seq::new(
            4,
            |i: int| evened(d[i]),
        ),
{
    assert(-127 <= d[0] <= 127 && -127 <= d[1] <= 127 && -127 <= d[2] <= 127 && -127 <= d[3]
        <= 127);
    let lo = (left + 0x8000) % 0x1_0000;
    let hi = (right + 0x8000) % 0x1_0000;
    lemma_pair(lo, d[0], d[1]);
    lemma_pair(hi, d[2], d[3]);
    assert(pixel_deltas(lo, hi) =~= Seq::new(4, |i: int| evened(d[i])));
}

/// A code gives the deltas that the tables say.
proof fn lemma_code_deltas(
    data: Seq<u8>,
    pos: int,
    at: BlockPlace,
    p: int,
    pred: Seq<int>,
    d: Seq<int>,
    len: int,
)
    requires
        0 <= p < 4,
        code_says(data, pos, at, p, pred, d, len),
    ensures
        literal_code(
            data,
            pos + 1,
            at.code.book.bytes,
            at.code.table(p),
            data[pos] as int,
            base_256(pred),
        ) == Some((Seq::new(4, |i: int| evened(d[i])), pos + len)),
{
    let t = at.code.book.bytes;
    let base = at.code.table(p);
    let i = base + 4 * data[pos];
    let word = base_256(four_bytes(t, i));
    if len == 1 {
        lemma_one_byte(word, d);
    } else {
        let k = base + 4 * data[pos + 1];
        let right = t[i + 2] + 0x100 * t[i + 3];
        assert(word / 0x1_0000 == right);
        lemma_two_byte(right, t[k + 2] + 0x100 * t[k + 3], d);
    }
}

/// The deltas `e` are `d` brought to even numbers.
pub open spec fn even_deltas(d: Seq<int>, e: Seq<int>) -> bool {
    e.len() == 4 && forall|i: int| 0 <= i < 4 ==> even_part(d[i], #[trigger] e[i])
}

proof fn lemma_even_deltas(d: Seq<int>, e: Seq<int>)
    requires
        even_deltas(d, e),
    ensures
        e == Seq::new(4, |i: int| evened(d[i])),
{
    assert forall|i: int| 0 <= i < 4 implies #[trigger] e[i] == evened(d[i]) by {
        assert(even_part(d[i], e[i]));
    }
    assert(e =~= Seq::new(4, |i: int| evened(d[i])));
}

/// Four pixels of a strip as numbers, `step` columns apart.
pub open spec fn four_pixels(s: Seq<u8>, row: int, col: int, step: int) -> Seq<int> {
    seq![
        pixel(s, row, col) as int,
        pixel(s, row, col + step) as int,
        pixel(s, row, col + 2 * step) as int,
        pixel(s, row, col + 3 * step) as int,
    ]
}

/// Byte `j` of a strip is one of the `n` pixels from `(row, col)` on.
pub open spec fn in_span(j: int, row: int, col: int, n: int) -> bool {
    (row + 1) * 0xb0 + col <= j < (row + 1) * 0xb0 + col + n
}

/// A code of a 4x4 block moves the four pixels of its row: pixel `i` is
/// the pixel above it (in a residual, itself) plus delta `i`, the first
/// delta being the lowest byte of the table word. The code is refused
/// where a pixel leaves the 7-bit range; otherwise no other byte of the
/// strip changes and the row below is next.
pub proof fn codes_shift_their_row(
    data: Seq<u8>,
    st: CodeState,
    at: BlockPlace,
    p: int,
    d: Seq<int>,
    e: Seq<int>,
    len: int,
)
    requires
        0 <= p < 4,
        !at.code.doubled,
        at.y >= 0,
        at.x >= 0,
        (at.y + p + 1) * 0xb0 + at.x + 4 <= st.strip.len(),
        even_deltas(d, e),
        ({
            let from = at.y + p - if at.code.own {
                0int
            } else {
                1
            };
            code_says(data, st.pos, at, p, four_pixels(st.strip, from, at.x, 1), d, len)
        }),
    ensures
        ({
            let step = code_step(data, st, at, p);
            let after = step.state.strip;
            let row = at.y + p;
            let from = if at.code.own {
                row
            } else {
                row - 1
            };
            let in_range = forall|i: int|
                0 <= i < 4 ==> (pixel(st.strip, from, at.x + i) + #[trigger] e[i]) % 0x100 < 0x80;
            if in_range {
                &&& step.error is None
                &&& step.next == p + 1
                &&& step.fill == 0
                &&& step.pass == 0
                &&& step.state.pos == st.pos + len
                &&& step.state.sticky == st.sticky
                &&& after.len() == st.strip.len()
                &&& forall|i: int|
                    0 <= i < 4 ==> pixel(after, row, at.x + i) == (pixel(st.strip, from, at.x + i)
                        + #[trigger] e[i]) % 0x100
                &&& forall|j: int|
                    0 <= j < after.len() && !in_span(j, row, at.x, 4) ==> #[trigger] after[j]
                        == st.strip[j]
            } else {
                &&& step.error == Some(CellDecodeError::RangeFault)
                &&& after == st.strip
            }
        }),
{
    reveal(code_step);
    let from = at.y + p - if at.code.own {
        0int
    } else {
        1
    };
    let pred = four_pixels(st.strip, from, at.x, 1);
    lemma_code_deltas(data, st.pos, at, p, pred, d, len);
    lemma_even_deltas(d, e);
    assert(base_256(pred) == at.predictor(st.strip, p));
    let pixels = decoded_pixels(at, st.strip, p, e);
    assert forall|i: int| 0 <= i < 4 implies #[trigger] pixels[i] == (pixel(
        st.strip,
        from,
        at.x + i,
    ) + e[i]) % 0x100 by {}
    if seven_bit(pixels) {
        assert forall|i: int| 0 <= i < 4 implies (pixel(st.strip, from, at.x + i)
            + #[trigger] e[i]) % 0x100 < 0x80 by {
            assert(pixels[i] < 0x80);
        }
        let after = with_row(st.strip, strip_index(at.y + p, at.x), pixels);
        assert(applied(at, st.strip, p, e) == Some(after));
        assert forall|i: int| 0 <= i < 4 implies pixel(after, at.y + p, at.x + i) == (pixel(
            st.strip,
            from,
            at.x + i,
        ) + #[trigger] e[i]) % 0x100 by {
            assert(after[(at.y + p + 1) * 0xb0 + at.x + i] == pixels[i]);
        }
    } else {
        let k = choose|k: int| 0 <= k < pixels.len() && #[trigger] pixels[k] >= 0x80;
        assert((pixel(st.strip, from, at.x + k) + e[k]) % 0x100 >= 0x80);
    }
}

/// A code of an 8x8 block over the row above it moves four pixels, each
/// of which stands for two columns and two rows: pixel `i` is the byte
/// above column `2 * i` plus delta `i`. It fills two columns of the lower
/// row; the upper row is the mean with the row above, and equals the
/// lower one at the top of the strip.
pub proof fn codes_double_their_row(
    data: Seq<u8>,
    st: CodeState,
    at: BlockPlace,
    p: int,
    d: Seq<int>,
    e: Seq<int>,
    len: int,
)
    requires
        0 <= p < 4,
        at.code.doubled,
        !at.code.own,
        at.y >= 0,
        at.x >= 0,
        (at.y + 2 * p + 2) * 0xb0 + at.x + 8 <= st.strip.len(),
        even_deltas(d, e),
        code_says(
            data,
            st.pos,
            at,
            p,
            four_pixels(st.strip, at.y + 2 * p - 1, at.x, 2),
            d,
            len,
        ),
    ensures
        ({
            let step = code_step(data, st, at, p);
            let after = step.state.strip;
            let row = at.y + 2 * p;
            let in_range = forall|i: int|
                0 <= i < 4 ==> (pixel(st.strip, row - 1, at.x + 2 * i) + #[trigger] e[i]) % 0x100
                    < 0x80;
            if in_range {
                &&& step.error is None
                &&& step.next == p + 1
                &&& step.fill == 0
                &&& step.pass == 0
                &&& step.state.pos == st.pos + len
                &&& step.state.sticky == st.sticky
                &&& after.len() == st.strip.len()
                &&& forall|j: int|
                    0 <= j < 8 ==> #[trigger] doubled_byte(st.strip, after, row, at.x, e, j)
                &&& forall|j: int|
                    0 <= j < after.len() && !in_span(j, row, at.x, 8) && !in_span(
                        j,
                        row + 1,
                        at.x,
                        8,
                    ) ==> #[trigger] after[j] == st.strip[j]
            } else {
                &&& step.error == Some(CellDecodeError::RangeFault)
                &&& after == st.strip
            }
        }),
{
    reveal(code_step);
    let row = at.y + 2 * p;
    let pred = four_pixels(st.strip, row - 1, at.x, 2);
    lemma_code_deltas(data, st.pos, at, p, pred, d, len);
    lemma_even_deltas(d, e);
    assert(base_256(pred) == at.predictor(st.strip, p));
    let pixels = decoded_pixels(at, st.strip, p, e);
    assert forall|i: int| 0 <= i < 4 implies #[trigger] pixels[i] == (pixel(
        st.strip,
        row - 1,
        at.x + 2 * i,
    ) + e[i]) % 0x100 by {}
    if seven_bit(pixels) {
        assert forall|i: int| 0 <= i < 4 implies (pixel(st.strip, row - 1, at.x + 2 * i)
            + #[trigger] e[i]) % 0x100 < 0x80 by {
            assert(pixels[i] < 0x80);
        }
        let after = with_doubled(st.strip, row, at.x, pixels);
        assert(applied(at, st.strip, p, e) == Some(after));
        lemma_doubled_pixels(st.strip, row, at.x, e, pixels);
    } else {
        let k = choose|k: int| 0 <= k < pixels.len() && #[trigger] pixels[k] >= 0x80;
        assert((pixel(st.strip, row - 1, at.x + 2 * k) + e[k]) % 0x100 >= 0x80);
    }
}

/// Byte `j` of the two rows that a doubled code stores: the lower row has
/// the pixel, the upper row its mean with the row above, or the pixel at
/// the top of the strip.
pub open spec fn doubled_byte(
    s: Seq<u8>,
    after: Seq<u8>,
    row: int,
    x: int,
    e: Seq<int>,
    j: int,
) -> bool {
    let q = (pixel(s, row - 1, x + j / 2 * 2) + e[j / 2]) % 0x100;
    &&& pixel(after, row + 1, x + j) == q
    &&& row == 0 ==> pixel(after, row, x + j) == q
    &&& row > 0 ==> pixel(after, row, x + j) == (pixel(s, row - 1, x + j) % 128 + q) / 2
}

proof fn lemma_doubled_pixels(s: Seq<u8>, row: int, x: int, e: Seq<int>, pixels: Seq<u8>)
    requires
        row >= 0,
        x >= 0,
        pixels.len() == 4,
        seven_bit(pixels),
        forall|i: int|
            0 <= i < 4 ==> #[trigger] pixels[i] == (pixel(s, row - 1, x + 2 * i) + e[i]) % 0x100,
        (row + 2) * 0xb0 + x + 8 <= s.len(),
    ensures
        ({
            let t = with_doubled(s, row, x, pixels);
            &&& t.len() == s.len()
            &&& forall|j: int| 0 <= j < 8 ==> #[trigger] doubled_byte(s, t, row, x, e, j)
            &&& forall|j: int|
                0 <= j < s.len() && !in_span(j, row, x, 8) && !in_span(j, row + 1, x, 8)
                    ==> #[trigger] t[j] == s[j]
        }),
{
    let t = with_doubled(s, row, x, pixels);
    assert forall|j: int| 0 <= j < 8 implies #[trigger] doubled_byte(s, t, row, x, e, j) by {
        let q = pixels[j / 2];
        assert(q < 0x80);
        assert(x + j / 2 * 2 == x + 2 * (j / 2));
        assert(t[(row + 2) * 0xb0 + x + j] == q);
    }
}

/// A code of an 8x8 residual block adds delta `i` to the four bytes that
/// its pixel `i` stands for: two columns of two rows.
pub proof fn codes_add_to_their_rows(
    data: Seq<u8>,
    st: CodeState,
    at: BlockPlace,
    p: int,
    d: Seq<int>,
    e: Seq<int>,
    len: int,
)
    requires
        0 <= p < 4,
        at.code.doubled,
        at.code.own,
        at.y >= 0,
        at.x >= 0,
        (at.y + 2 * p + 2) * 0xb0 + at.x + 8 <= st.strip.len(),
        even_deltas(d, e),
        code_says(data, st.pos, at, p, four_pixels(st.strip, at.y + 2 * p, at.x, 2), d, len),
    ensures
        ({
            let step = code_step(data, st, at, p);
            let after = step.state.strip;
            let row = at.y + 2 * p;
            let in_range = forall|j: int|
                0 <= j < 8 ==> #[trigger] moved_byte(st.strip, row, at.x, j, e) < 0x80
                    && moved_byte(st.strip, row + 1, at.x, j, e) < 0x80;
            if in_range {
                &&& step.error is None
                &&& step.next == p + 1
                &&& step.fill == 0
                &&& step.pass == 0
                &&& step.state.pos == st.pos + len
                &&& step.state.sticky == st.sticky
                &&& after.len() == st.strip.len()
                &&& forall|j: int|
                    0 <= j < 8 ==> pixel(after, row, at.x + j) == #[trigger] moved_byte(
                        st.strip,
                        row,
                        at.x,
                        j,
                        e,
                    ) && pixel(after, row + 1, at.x + j) == moved_byte(
                        st.strip,
                        row + 1,
                        at.x,
                        j,
                        e,
                    )
                &&& forall|j: int|
                    0 <= j < after.len() && !in_span(j, row, at.x, 8) && !in_span(
                        j,
                        row + 1,
                        at.x,
                        8,
                    ) ==> #[trigger] after[j] == st.strip[j]
            } else {
                &&& step.error == Some(CellDecodeError::RangeFault)
                &&& after == st.strip
            }
        }),
{
    reveal(code_step);
    let row = at.y + 2 * p;
    let s = st.strip;
    let pred = four_pixels(s, row, at.x, 2);
    lemma_code_deltas(data, st.pos, at, p, pred, d, len);
    lemma_even_deltas(d, e);
    assert(base_256(pred) == at.predictor(s, p));
    let upper = residual_row(s, row, at.x, e);
    let lower = residual_row(s, row + 1, at.x, e);
    assert forall|j: int| 0 <= j < 8 implies #[trigger] upper[j] == moved_byte(
        s,
        row,
        at.x,
        j,
        e,
    ) by {}
    assert forall|j: int| 0 <= j < 8 implies #[trigger] lower[j] == moved_byte(
        s,
        row + 1,
        at.x,
        j,
        e,
    ) by {}
    if seven_bit(upper) && seven_bit(lower) {
        assert forall|j: int| 0 <= j < 8 implies #[trigger] moved_byte(s, row, at.x, j, e) < 0x80
            && moved_byte(s, row + 1, at.x, j, e) < 0x80 by {
            assert(upper[j] < 0x80 && lower[j] < 0x80);
        }
        let after = with_residual(s, row, at.x, e);
        assert forall|j: int| 0 <= j < 8 implies pixel(after, row, at.x + j)
            == #[trigger] moved_byte(s, row, at.x, j, e) && pixel(after, row + 1, at.x + j)
            == moved_byte(s, row + 1, at.x, j, e) by {
            assert(after[(row + 1) * 0xb0 + at.x + j] == upper[j]);
            assert(after[(row + 2) * 0xb0 + at.x + j] == lower[j]);
        }
    } else if !seven_bit(upper) {
        let k = choose|k: int| 0 <= k < upper.len() && #[trigger] upper[k] >= 0x80;
        assert(moved_byte(s, row, at.x, k, e) >= 0x80);
    } else {
        let k = choose|k: int| 0 <= k < lower.len() && #[trigger] lower[k] >= 0x80;
        assert(moved_byte(s, row, at.x, k, e) < 0x80 ==> moved_byte(s, row + 1, at.x, k, e) >= 0x80);
    }
}

/// Byte `j` of a row of an 8x8 block with the delta of its pixel added.
pub open spec fn moved_byte(s: Seq<u8>, row: int, x: int, j: int, e: Seq<int>) -> int {
    (pixel(s, row, x + j) + e[j / 2]) % 0x100
}

} // verus!
