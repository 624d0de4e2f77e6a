//! Byte-level output helpers: decimal numbers, UTF-8 encoding of characters,
//! and literal text.

use vstd::prelude::*;
use vstd::string::*;
use vstd::utf8::*;

verus! {

/// ASCII digit of a value below ten.
pub open spec fn digit(n: int) -> u8 {
    (48 + n) as u8
}

/// The decimal digits of `n`, most significant first, without leading zeros.
pub open spec fn decimal(n: nat) -> Seq<u8>
    decreases n,
{
    if n < 10 {
        seq![digit(n as int)]
    } else {
        decimal(n / 10).push(digit((n % 10) as int))
    }
}

/// Append the bytes of `s` to `out`.
pub fn push_str(out: &mut Vec<u8>, s: &str)
    ensures
        final(out)@ == old(out)@ + s.spec_bytes(),
{
    out.extend_from_slice(s.as_bytes());
}

/// Append the UTF-8 encoding of `c` to `out`.
pub fn push_char(out: &mut Vec<u8>, c: char)
    ensures
        final(out)@ == old(out)@ + encode_utf8(seq![c]),
{
    let v: u32 = c as u32;
    proof {
        reveal_with_fuel(encode_utf8, 2);
        assert(seq![c].drop_first() =~= Seq::<char>::empty());
        assert(encode_utf8(seq![c]) =~= encode_scalar(v));
    }
    if v <= 0x7F {
        out.push((v & 0x7F) as u8);
    } else if v <= 0x7FF {
        out.push(0xC0 | ((v >> 6) & 0x1F) as u8);
        out.push(0x80 | (v & 0x3F) as u8);
    } else if v <= 0xFFFF {
        out.push(0xE0 | ((v >> 12) & 0x0F) as u8);
        out.push(0x80 | ((v >> 6) & 0x3F) as u8);
        out.push(0x80 | (v & 0x3F) as u8);
    } else {
        out.push(0xF0 | ((v >> 18) & 0x7) as u8);
        out.push(0x80 | ((v >> 12) & 0x3F) as u8);
        out.push(0x80 | ((v >> 6) & 0x3F) as u8);
        out.push(0x80 | (v & 0x3F) as u8);
    }
    assert(out@ =~= old(out)@ + encode_scalar(v));
}

/// Append the UTF-8 encoding of every character of `chars` to `out`.
pub fn push_chars(out: &mut Vec<u8>, chars: &Vec<char>)
    ensures
        final(out)@ == old(out)@ + encode_utf8(chars@),
{
    let mut i: usize = 0;
    assert(chars@.take(0) =~= Seq::<char>::empty());
    while i < chars.len()
        invariant
            i <= chars.len(),
            out@ == old(out)@ + encode_utf8(chars@.take(i as int)),
        decreases chars.len() - i,
    {
        push_char(out, chars[i]);
        proof {
            assert(chars@.take(i + 1) =~= chars@.take(i as int) + seq![chars@[i as int]]);
            lemma_encode_append(chars@.take(i as int), seq![chars@[i as int]]);
        }
        i += 1;
    }
    assert(chars@.take(chars@.len() as int) =~= chars@);
}

/// Encoding distributes over concatenation.
pub(crate) proof fn lemma_encode_append(a: Seq<char>, b: Seq<char>)
    ensures
        encode_utf8(a + b) == encode_utf8(a) + encode_utf8(b),
    decreases a.len(),
{
    if a.len() == 0 {
        assert(a + b =~= b);
        assert(encode_utf8(a) + encode_utf8(b) =~= encode_utf8(b));
    } else {
        lemma_encode_append(a.drop_first(), b);
        assert((a + b).drop_first() =~= a.drop_first() + b);
        assert(encode_utf8(a + b) =~= encode_utf8(a) + encode_utf8(b));
    }
}

/// Appending four texts one by one is appending their concatenation.
pub(crate) proof fn lemma_append4(start: Seq<u8>, a: Seq<u8>, b: Seq<u8>, c: Seq<u8>, d: Seq<u8>)
    ensures
        start + a + b + c + d == start + (a + b + c + d),
{
    assert(start + a + b + c + d =~= start + (a + b + c + d));
}

/// Low eight bits of a 16-bit value.
pub fn low_byte(n: u16) -> (b: u8)
    ensures
        b == n % 256,
{
    assert((n as u8) == n % 256) by (bit_vector);
    n as u8
}

/// A list of byte strings.
pub open spec fn lines_view(lines: Seq<Vec<u8>>) -> Seq<Seq<u8>> {
    lines.map_values(|l: Vec<u8>| l@)
}

/// Whether a byte is an ASCII decimal digit.
pub open spec fn is_digit(b: u8) -> bool {
    48 <= b <= 57
}

/// The value of a string of decimal digits.
pub open spec fn digits_value(digits: Seq<u8>) -> nat
    decreases digits.len(),
{
    if digits.len() == 0 {
        0
    } else {
        digits_value(digits.drop_last()) * 10 + (digits.last() - 48) as nat
    }
}

/// The digits of a number, after an optional plus sign.
pub open spec fn number_digits(text: Seq<u8>) -> Seq<u8> {
    if text.len() > 0 && text[0] == 43 {
        text.skip(1)
    } else {
        text
    }
}

/// Whether a text is a decimal number: an optional plus sign and at least one digit.
pub open spec fn is_number(text: Seq<u8>) -> bool {
    &&& number_digits(text).len() > 0
    &&& forall|i: int| 0 <= i < number_digits(text).len() ==> is_digit(#[trigger] number_digits(text)[i])
}

/// The number that a text stands for, if it is one.
pub open spec fn number_value(text: Seq<u8>) -> nat {
    digits_value(number_digits(text))
}

proof fn lemma_digits_value_grows(digits: Seq<u8>, n: int)
    requires
        0 <= n <= digits.len(),
        forall|i: int| 0 <= i < digits.len() ==> is_digit(#[trigger] digits[i]),
    ensures
        digits_value(digits.take(n)) <= digits_value(digits),
    decreases digits.len() - n,
{
    if n < digits.len() {
        lemma_digits_value_grows(digits, n + 1);
        assert(digits.take(n + 1).drop_last() =~= digits.take(n));
        assert(is_digit(digits[n]));
        assert(digits.take(n + 1).last() == digits[n]);
    } else {
        assert(digits.take(n) =~= digits);
    }
}

/// Read a decimal number of at most `max`.
pub fn parse_number(text: &[u8], max: u64) -> (res: Option<u64>)
    ensures
        res is Some <==> is_number(text@) && number_value(text@) <= max,
        res matches Some(n) ==> n == number_value(text@),
{
    let start: usize = if text.len() > 0 && text[0] == 43 {
        1
    } else {
        0
    };
    let ghost digits = number_digits(text@);
    assert(digits =~= text@.skip(start as int));
    if text.len() == start {
        return None;
    }
    let mut i: usize = start;
    let mut value: u64 = 0;
    assert(digits.take(0) =~= Seq::<u8>::empty());
    while i < text.len()
        invariant
            start <= i <= text.len(),
            digits == number_digits(text@),
            digits == text@.skip(start as int),
            forall|k: int| 0 <= k < i - start ==> is_digit(#[trigger] digits[k]),
            value == digits_value(digits.take(i - start)),
            value <= max,
        decreases text.len() - i,
    {
        let b: u8 = text[i];
        assert(digits[i - start] == b);
        if b < 48 || b > 57 {
            return None;
        }
        proof {
            assert(digits.take(i - start + 1).drop_last() =~= digits.take(i - start));
            assert(digits.take(i - start + 1).last() == b);
        }
        let next: u128 = value as u128 * 10 + (b - 48) as u128;
        if next > max as u128 {
            proof {
                if is_number(text@) {
                    lemma_digits_value_grows(digits, i - start + 1);
                }
            }
            return None;
        }
        value = next as u64;
        i += 1;
    }
    assert(digits.take(i - start) =~= digits);
    Some(value)
}

/// Read bytes as UTF-8 text, by `std::str::from_utf8`: it succeeds on valid UTF-8
/// alone and gives the text that the bytes encode.
#[verifier::external_body]
pub(crate) fn utf8_text(bytes: &[u8]) -> (res: Option<String>)
    ensures
        res is Some <==> valid_utf8(bytes@),
        res matches Some(text) ==> text@ == decode_utf8(bytes@),
{
    std::str::from_utf8(bytes).ok().map(|text| text.to_string())
}

/// Decimal digits: a number below ten is one digit, and one digit more is ten times the
/// number and the digit.
pub proof fn law_decimal(n: nat, d: nat)
    requires
        d < 10,
    ensures
        decimal(d) == seq![(0x30 + d) as u8],
        n > 0 ==> decimal(10 * n + d) == decimal(n) + seq![(0x30 + d) as u8],
{
    if n > 0 {
        assert((10 * n + d) / 10 == n && (10 * n + d) % 10 == d);
        assert(decimal(n).push(digit(d as int)) =~= decimal(n) + seq![(0x30 + d) as u8]);
    }
}

/// Reading a number: nothing is none, and one byte more makes a number of a number where
/// it is a digit, ten times the number and the digit. A plus sign may stand before it.
pub proof fn law_number(text: Seq<u8>, b: u8)
    requires
        text.len() > 0,
        text[0] != 0x2b,
    ensures
        !is_number(seq![]),
        !is_number(seq![0x2bu8]),
        is_number(seq![b]) == (0x30 <= b <= 0x39),
        0x30 <= b <= 0x39 ==> number_value(seq![b]) == b - 0x30,
        is_number(text.push(b)) == (is_number(text) && 0x30 <= b <= 0x39),
        is_number(text.push(b)) ==> number_value(text.push(b)) == 10 * number_value(text) + (b
            - 0x30),
        is_number(seq![0x2bu8] + text) == is_number(text),
        number_value(seq![0x2bu8] + text) == number_value(text),
{
    let more = text.push(b);
    assert(number_digits(text) == text);
    assert(number_digits(more) == more);
    assert(more.drop_last() =~= text);
    assert((seq![0x2bu8] + text).skip(1) =~= text);
    assert(seq![0x2bu8].skip(1) =~= seq![]);
    reveal_with_fuel(digits_value, 2);
    assert(seq![b].drop_last() =~= seq![]);
    if b != 0x2b {
        assert(number_digits(seq![b]) == seq![b]);
        assert(seq![b][0] == b);
        assert(is_number(seq![b]) ==> is_digit(number_digits(seq![b])[0]));
    }
    if is_number(more) {
        assert(is_digit(number_digits(more)[text.len() as int]));
        assert forall|i: int| 0 <= i < text.len() implies is_digit(#[trigger] number_digits(text)[i]) by {
            assert(is_digit(number_digits(more)[i]));
        }
    }
    if is_number(text) && 0x30 <= b <= 0x39 {
        assert forall|i: int| 0 <= i < more.len() implies is_digit(#[trigger] number_digits(more)[i]) by {
            if i < text.len() {
                assert(is_digit(number_digits(text)[i]));
            }
        }
    }
}

/// A list of byte strings is what its strings are, one by one and in order.
pub proof fn law_lines_view(lines: Seq<Vec<u8>>, i: int)
    requires
        0 <= i < lines.len(),
    ensures
        lines_view(lines).len() == lines.len(),
        lines_view(lines)[i] == lines[i]@,
{
}

} // verus!
