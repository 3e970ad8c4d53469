//! Text of the scalar values: booleans, integers, floats and strings.
//!
//! Nothing here depends on the rendering mode.

use vstd::prelude::*;

verus! {

/// `"`, which opens and closes a string.
pub const QUOTE: u8 = 0x22;

/// `-`, the sign of a negative number.
pub const MINUS: u8 = 0x2D;

/// `.`, the decimal point.
pub const POINT: u8 = 0x2E;

/// `0`, the first of the ten digits.
pub const ZERO: u8 = 0x30;

/// `\`, which starts an escape.
pub const BACKSLASH: u8 = 0x5C;

/// `True` or `False`.
pub open spec fn bool_text(v: bool) -> Seq<u8> {
    if v {
        seq![0x54u8, 0x72u8, 0x75u8, 0x65u8]
    } else {
        seq![0x46u8, 0x61u8, 0x6Cu8, 0x73u8, 0x65u8]
    }
}

/// The ASCII digit for `d`, which is below ten.
pub open spec fn digit(d: nat) -> u8 {
    (ZERO + d) as u8
}

/// Decimal digits of `n`, most significant first, without leading zeros.
pub open spec fn digits(n: nat) -> Seq<u8>
    decreases n,
{
    if n < 10 {
        seq![digit(n)]
    } else {
        digits(n / 10).push(digit(n % 10))
    }
}

/// Decimal text of an integer: a `-` in front of the digits of a negative one.
pub open spec fn int_text(v: int) -> Seq<u8> {
    if v < 0 {
        seq![MINUS] + digits((-v) as nat)
    } else {
        digits(v as nat)
    }
}

/// Appends `True` or `False`.
pub fn write_bool(out: &mut Vec<u8>, v: bool)
    ensures
        final(out)@ == old(out)@ + bool_text(v),
{
    if v {
        out.push(0x54);
        out.push(0x72);
        out.push(0x75);
        out.push(0x65);
    } else {
        out.push(0x46);
        out.push(0x61);
        out.push(0x6C);
        out.push(0x73);
        out.push(0x65);
    }
}

/// Appends the decimal digits of `n`.
pub fn write_digits(out: &mut Vec<u8>, n: u64)
    ensures
        final(out)@ == old(out)@ + digits(n as nat),
    decreases n,
{
    if n >= 10 {
        write_digits(out, n / 10);
    }
    let low: u8 = (n % 10) as u8;
    out.push(ZERO + low);
}

/// Appends the decimal text of an unsigned integer.
pub fn write_u64(out: &mut Vec<u8>, v: u64)
    ensures
        final(out)@ == old(out)@ + int_text(v as int),
{
    write_digits(out, v);
}

/// Appends the decimal text of a signed integer.
pub fn write_i64(out: &mut Vec<u8>, v: i64)
    ensures
        final(out)@ == old(out)@ + int_text(v as int),
{
    if v < 0 {
        out.push(MINUS);
        let magnitude: u64 = ((-(v + 1)) as u64) + 1;
        write_digits(out, magnitude);
    } else {
        write_digits(out, v as u64);
    }
}

/// The digit for `d`, which is below sixteen, in upper-case hexadecimal.
pub open spec fn hex_digit(d: nat) -> u8 {
    if d < 10 {
        (ZERO + d) as u8
    } else {
        (0x37 + d) as u8
    }
}

/// What one byte of a string becomes between the quotes.
///
/// Tab, line feed, carriage return, the quote and the backslash get a
/// two-character escape. Any other byte below `0x20` becomes a backslash and
/// its two hexadecimal digits. Every other byte stands for itself, so the
/// bytes of a multi-byte character pass through unchanged.
pub open spec fn escaped_byte(b: u8) -> Seq<u8> {
    if b == 0x09 {
        seq![BACKSLASH, 0x74u8]
    } else if b == 0x0A {
        seq![BACKSLASH, 0x6Eu8]
    } else if b == 0x0D {
        seq![BACKSLASH, 0x72u8]
    } else if b == QUOTE {
        seq![BACKSLASH, QUOTE]
    } else if b == BACKSLASH {
        seq![BACKSLASH, BACKSLASH]
    } else if b < 0x20 {
        seq![BACKSLASH, hex_digit((b / 16) as nat), hex_digit((b % 16) as nat)]
    } else {
        seq![b]
    }
}

/// The escapes of all bytes, in order.
pub open spec fn escaped(bytes: Seq<u8>) -> Seq<u8>
    decreases bytes.len(),
{
    if bytes.len() == 0 {
        Seq::empty()
    } else {
        escaped(bytes.drop_last()) + escaped_byte(bytes.last())
    }
}

/// A string scalar: the escaped bytes between two quotes.
pub open spec fn str_text(bytes: Seq<u8>) -> Seq<u8> {
    seq![QUOTE] + escaped(bytes) + seq![QUOTE]
}

/// A float scalar, made from the shortest text that reads back as the same
/// number. A finite number whose text has no decimal point gets `.0`; the
/// text of a number that is not finite is kept as it is.
pub open spec fn float_text(finite: bool, shortest: Seq<u8>) -> Seq<u8> {
    if finite && !shortest.contains(POINT) {
        shortest + seq![POINT, ZERO]
    } else {
        shortest
    }
}

/// Appends the upper-case hexadecimal digit of `d`.
fn write_hex_digit(out: &mut Vec<u8>, d: u8)
    requires
        d < 16,
    ensures
        final(out)@ == old(out)@.push(hex_digit(d as nat)),
{
    if d < 10 {
        out.push(ZERO + d);
    } else {
        out.push(0x37 + d);
    }
}

/// Appends what the byte `b` of a string becomes between the quotes.
pub fn write_escaped_byte(out: &mut Vec<u8>, b: u8)
    ensures
        final(out)@ == old(out)@ + escaped_byte(b),
{
    if b == 0x09 {
        out.push(BACKSLASH);
        out.push(0x74);
    } else if b == 0x0A {
        out.push(BACKSLASH);
        out.push(0x6E);
    } else if b == 0x0D {
        out.push(BACKSLASH);
        out.push(0x72);
    } else if b == QUOTE {
        out.push(BACKSLASH);
        out.push(QUOTE);
    } else if b == BACKSLASH {
        out.push(BACKSLASH);
        out.push(BACKSLASH);
    } else if b < 0x20 {
        out.push(BACKSLASH);
        write_hex_digit(out, b / 16);
        write_hex_digit(out, b % 16);
    } else {
        out.push(b);
    }
}

/// Appends `bytes` unchanged.
pub fn write_bytes(out: &mut Vec<u8>, bytes: &[u8])
    ensures
        final(out)@ == old(out)@ + bytes@,
{
    let mut i: usize = 0;
    while i < bytes.len()
        invariant
            i <= bytes.len(),
            out@ == old(out)@ + bytes@.subrange(0, i as int),
        decreases bytes.len() - i,
    {
        out.push(bytes[i]);
        i += 1;
    }
    assert(bytes@.subrange(0, i as int) == bytes@);
}

/// Appends a string scalar: a quote, each byte of `v` escaped, a quote.
pub fn write_str(out: &mut Vec<u8>, v: &str)
    ensures
        final(out)@ == old(out)@ + str_text(vstd::utf8::encode_utf8(v@)),
{
    let bytes = v.as_bytes();
    out.push(QUOTE);
    let mut i: usize = 0;
    while i < bytes.len()
        invariant
            i <= bytes.len(),
            out@ == old(out)@ + seq![QUOTE] + escaped(bytes@.subrange(0, i as int)),
        decreases bytes.len() - i,
    {
        proof {
            let next = bytes@.subrange(0, i + 1);
            assert(next.drop_last() == bytes@.subrange(0, i as int));
            assert(next.last() == bytes@[i as int]);
        }
        write_escaped_byte(out, bytes[i]);
        i += 1;
    }
    assert(bytes@.subrange(0, i as int) == bytes@);
    out.push(QUOTE);
}

/// Whether the byte `b` occurs in `bytes`.
pub fn has_byte(bytes: &[u8], b: u8) -> (found: bool)
    ensures
        found == bytes@.contains(b),
{
    let mut i: usize = 0;
    while i < bytes.len()
        invariant
            i <= bytes.len(),
            forall|j: int| 0 <= j < i ==> bytes@[j] != b,
        decreases bytes.len() - i,
    {
        if bytes[i] == b {
            return true;
        }
        i += 1;
    }
    false
}

/// Appends a float scalar. `shortest` is the shortest text that reads back as
/// the same number, and `finite` says whether the number is neither NaN nor
/// infinite.
pub fn write_float(out: &mut Vec<u8>, finite: bool, shortest: &str)
    ensures
        final(out)@ == old(out)@ + float_text(finite, vstd::utf8::encode_utf8(shortest@)),
{
    let bytes = shortest.as_bytes();
    write_bytes(out, bytes);
    if finite && !has_byte(bytes, POINT) {
        out.push(POINT);
        out.push(ZERO);
    }
}

} // verus!
