//! Numbers in messages.
use vstd::prelude::*;
use vstd::string::StringExecFns;

verus! {

/// The digit character of a value below 16.
pub open spec fn digit(d: int) -> char {
    "0123456789abcdef"@[d]
}

/// A number in the given base, without leading zeros.
pub open spec fn numeral(n: nat, base: nat) -> Seq<char>
    decreases n,
{
    if n < base || base < 2 {
        seq![digit(n as int)]
    } else {
        proof {
            assert(n / base < n) by (nonlinear_arith)
                requires
                    n >= base >= 2,
            ;
        }
        numeral(n / base, base).push(digit((n % base) as int))
    }
}

/// A number in decimal.
pub open spec fn decimal(n: int) -> Seq<char> {
    numeral(n as nat, 10)
}

/// A number in hexadecimal, with its prefix.
pub open spec fn hex(n: int) -> Seq<char> {
    "0x"@ + numeral(n as nat, 16)
}

/// The low `width` hexadecimal digits of a number.
pub open spec fn hex_digits(n: int, width: nat) -> Seq<char>
    decreases width,
{
    if width == 0 {
        Seq::empty()
    } else {
        hex_digits(n / 16, (width - 1) as nat).push(digit(n % 16))
    }
}

/// A number in hexadecimal, with its prefix, padded to `width` digits.
pub open spec fn padded_hex(n: int, width: nat) -> Seq<char> {
    "0x"@ + hex_digits(n, width)
}

/// Append one digit.
fn push_digit(out: &mut String, d: u64)
    requires
        d < 16,
    ensures
        final(out)@ == old(out)@.push(digit(d as int)),
{
    let s: &str = match d {
        0 => "0",
        1 => "1",
        2 => "2",
        3 => "3",
        4 => "4",
        5 => "5",
        6 => "6",
        7 => "7",
        8 => "8",
        9 => "9",
        10 => "a",
        11 => "b",
        12 => "c",
        13 => "d",
        14 => "e",
        _ => "f",
    };
    proof {
        reveal_strlit("0123456789abcdef");
        reveal_strlit("0");
        reveal_strlit("1");
        reveal_strlit("2");
        reveal_strlit("3");
        reveal_strlit("4");
        reveal_strlit("5");
        reveal_strlit("6");
        reveal_strlit("7");
        reveal_strlit("8");
        reveal_strlit("9");
        reveal_strlit("a");
        reveal_strlit("b");
        reveal_strlit("c");
        reveal_strlit("d");
        reveal_strlit("e");
        reveal_strlit("f");
    }
    assert(s@ =~= seq![digit(d as int)]);
    let ghost before = out@;
    out.append(s);
    assert(out@ =~= before.push(digit(d as int)));
}

/// Append a number in the given base.
fn push_numeral(out: &mut String, n: u64, base: u64)
    requires
        2 <= base <= 16,
    ensures
        final(out)@ == old(out)@ + numeral(n as nat, base as nat),
    decreases n,
{
    let ghost before = out@;
    if n < base {
        push_digit(out, n);
        assert(out@ =~= before + seq![digit(n as int)]);
    } else {
        assert(n / base < n) by (nonlinear_arith)
            requires
                2 <= base,
                n >= base,
        ;
        push_numeral(out, n / base, base);
        push_digit(out, n % base);
        assert(out@ =~= before + numeral(n as nat, base as nat));
    }
}

/// Append a number in decimal.
pub fn push_decimal(out: &mut String, n: usize)
    ensures
        final(out)@ == old(out)@ + decimal(n as int),
{
    push_numeral(out, n as u64, 10);
}

/// Append a number in hexadecimal, with its prefix.
pub fn push_hex(out: &mut String, n: usize)
    ensures
        final(out)@ == old(out)@ + hex(n as int),
{
    let ghost before = out@;
    out.append("0x");
    push_numeral(out, n as u64, 16);
    assert(out@ =~= before + hex(n as int));
}

/// Append the low `width` hexadecimal digits of a number.
fn push_hex_digits(out: &mut String, n: u64, width: usize)
    ensures
        final(out)@ == old(out)@ + hex_digits(n as int, width as nat),
    decreases width,
{
    let ghost before = out@;
    if width > 0 {
        push_hex_digits(out, n / 16, width - 1);
        push_digit(out, n % 16);
    }
    assert(out@ =~= before + hex_digits(n as int, width as nat));
}

/// Append a number in hexadecimal, with its prefix, padded to `width`
/// digits.
pub fn push_padded_hex(out: &mut String, n: usize, width: usize)
    ensures
        final(out)@ == old(out)@ + padded_hex(n as int, width as nat),
{
    let ghost before = out@;
    out.append("0x");
    push_hex_digits(out, n as u64, width);
    assert(out@ =~= before + padded_hex(n as int, width as nat));
}

} // verus!
