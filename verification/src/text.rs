//! Text building helpers.

use vstd::prelude::*;
use vstd::string::*;

verus! {

/// The digit for a value below sixteen.
pub open spec fn digit_char(n: int) -> char {
    if n == 0 {
        '0'
    } else if n == 1 {
        '1'
    } else if n == 2 {
        '2'
    } else if n == 3 {
        '3'
    } else if n == 4 {
        '4'
    } else if n == 5 {
        '5'
    } else if n == 6 {
        '6'
    } else if n == 7 {
        '7'
    } else if n == 8 {
        '8'
    } else if n == 9 {
        '9'
    } else if n == 10 {
        'a'
    } else if n == 11 {
        'b'
    } else if n == 12 {
        'c'
    } else if n == 13 {
        'd'
    } else if n == 14 {
        'e'
    } else {
        'f'
    }
}

/// A number in decimal, without leading zeros.
pub open spec fn decimal_text(n: nat) -> Seq<char>
    decreases n,
{
    if n < 10 {
        seq![digit_char(n as int)]
    } else {
        decimal_text(n / 10).push(digit_char((n % 10) as int))
    }
}

/// The last `width` digits of a number in hexadecimal, with leading zeros.
pub open spec fn hex_text(n: nat, width: nat) -> Seq<char>
    decreases width,
{
    if width == 0 {
        seq![]
    } else {
        hex_text(n / 16, (width - 1) as nat).push(digit_char((n % 16) as int))
    }
}

/// Append one digit.
fn push_digit(out: &mut String, n: u8)
    requires
        n < 16,
    ensures
        final(out)@ == old(out)@.push(digit_char(n as int)),
{
    proof {
        reveal_strlit("0");
        reveal_strlit("1");
        reveal_strlit("2");
        reveal_strlit("3");
        reveal_strlit("4");
        reveal_strlit("5");
        reveal_strlit("6");
        reveal_strlit("7");
        reveal_strlit("8");
        reveal_strlit("9");
        reveal_strlit("a");
        reveal_strlit("b");
        reveal_strlit("c");
        reveal_strlit("d");
        reveal_strlit("e");
        reveal_strlit("f");
    }
    match n {
        0 => out.append("0"),
        1 => out.append("1"),
        2 => out.append("2"),
        3 => out.append("3"),
        4 => out.append("4"),
        5 => out.append("5"),
        6 => out.append("6"),
        7 => out.append("7"),
        8 => out.append("8"),
        9 => out.append("9"),
        10 => out.append("a"),
        11 => out.append("b"),
        12 => out.append("c"),
        13 => out.append("d"),
        14 => out.append("e"),
        _ => out.append("f"),
    }
    assert(out@ =~= old(out)@.push(digit_char(n as int)));
}

/// Append a number in decimal.
pub fn push_decimal(out: &mut String, n: u64)
    ensures
        final(out)@ == old(out)@ + decimal_text(n as nat),
    decreases n,
{
    if n >= 10 {
        push_decimal(out, n / 10);
    }
    push_digit(out, (n % 10) as u8);
    assert(out@ =~= old(out)@ + decimal_text(n as nat));
}

/// Append the last `width` digits of a number in hexadecimal.
pub fn push_hex(out: &mut String, n: u64, width: u8)
    ensures
        final(out)@ == old(out)@ + hex_text(n as nat, width as nat),
    decreases width,
{
    if width > 0 {
        push_hex(out, n / 16, width - 1);
        push_digit(out, (n % 16) as u8);
    }
    assert(out@ =~= old(out)@ + hex_text(n as nat, width as nat));
}

/// The text `before`, `middle` and `after` in a row.
pub fn concat3(before: &str, middle: &str, after: &str) -> (res: String)
    ensures
        res@ == before@ + middle@ + after@,
{
    let mut res: String = before.to_owned();
    res.append(middle);
    res.append(after);
    res
}

/// Decimal text: a number below ten is one digit, and one digit more is ten times the
/// number and the digit.
pub proof fn law_decimal_text(n: nat, d: nat)
    requires
        d < 10,
    ensures
        decimal_text(d).len() == 1,
        decimal_text(d)[0] as u32 == 0x30 + d,
        n > 0 ==> decimal_text(10 * n + d) == decimal_text(n) + decimal_text(d),
{
    if n > 0 {
        assert((10 * n + d) / 10 == n && (10 * n + d) % 10 == d);
        assert(decimal_text(n).push(digit_char(d as int)) =~= decimal_text(n) + decimal_text(d));
    }
}

/// Hexadecimal text: one digit more, `0` to `9` or `a` to `f`, is sixteen times the number
/// and the digit.
pub proof fn law_hex_text(n: nat, width: nat, d: nat)
    requires
        d < 16,
    ensures
        hex_text(n, 0) == Seq::<char>::empty(),
        hex_text(d, 1).len() == 1,
        d < 10 ==> hex_text(d, 1)[0] as u32 == 0x30 + d,
        d >= 10 ==> hex_text(d, 1)[0] as u32 == 0x61 + d - 10,
        hex_text(16 * n + d, width + 1) == hex_text(n, width) + hex_text(d, 1),
{
    reveal_with_fuel(hex_text, 2);
    assert((16 * n + d) / 16 == n && (16 * n + d) % 16 == d);
    assert(hex_text(d, 1) =~= seq![digit_char(d as int)]);
    assert(hex_text(16 * n + d, width + 1) =~= hex_text(n, width) + hex_text(d, 1));
}

} // verus!
