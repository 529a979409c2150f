//! Numbers written out in messages.

use vstd::prelude::*;
use vstd::string::StringExecFns;

verus! {

/// The character for one digit: `0` to `9`, then lower-case letters.
pub open spec fn digit_char(digit: nat) -> char {
    if digit < 10 {
        (48 + digit) as char
    } else {
        (87 + digit) as char
    }
}

/// `value` in positional notation, most significant digit first, without leading zeros.
pub open spec fn digits(value: nat, base: nat) -> Seq<char>
    decreases value,
{
    if base < 2 || value < base {
        seq![digit_char(value)]
    } else {
        proof {
            assert(value / base < value) by (nonlinear_arith)
                requires
                    base >= 2,
                    value >= base,
            ;
        }
        digits(value / base, base).push(digit_char(value % base))
    }
}

/// `value` in decimal.
pub open spec fn decimal(value: nat) -> Seq<char> {
    digits(value, 10)
}

/// `value` in hexadecimal, with the `0x` prefix.
pub open spec fn hexadecimal(value: nat) -> Seq<char> {
    seq!['0', 'x'] + digits(value, 16)
}

fn digit_text(digit: u64) -> (text: &'static str)
    requires
        digit < 16,
    ensures
        text@ == seq![digit_char(digit as nat)],
{
    proof {
        reveal_strlit("0");
        reveal_strlit("1");
        reveal_strlit("2");
        reveal_strlit("3");
        reveal_strlit("4");
        reveal_strlit("5");
        reveal_strlit("6");
        reveal_strlit("7");
        reveal_strlit("8");
        reveal_strlit("9");
        reveal_strlit("a");
        reveal_strlit("b");
        reveal_strlit("c");
        reveal_strlit("d");
        reveal_strlit("e");
        reveal_strlit("f");
    }
    let text = match digit {
        0 => "0",
        1 => "1",
        2 => "2",
        3 => "3",
        4 => "4",
        5 => "5",
        6 => "6",
        7 => "7",
        8 => "8",
        9 => "9",
        10 => "a",
        11 => "b",
        12 => "c",
        13 => "d",
        14 => "e",
        _ => "f",
    };
    assert(text@ =~= seq![digit_char(digit as nat)]);
    text
}

fn append_digits(text: &mut String, value: u64, base: u64)
    requires
        2 <= base <= 16,
    ensures
        final(text)@ == old(text)@ + digits(value as nat, base as nat),
    decreases value,
{
    if value < base {
        text.append(digit_text(value));
    } else {
        proof {
            assert(0 <= value / base < value) by (nonlinear_arith)
                requires
                    base >= 2,
                    value >= base,
            ;
        }
        append_digits(text, value / base, base);
        text.append(digit_text(value % base));
        assert(text@ =~= old(text)@ + digits(value as nat, base as nat));
    }
}

/// Appends `value` in decimal.
pub fn append_decimal(text: &mut String, value: u64)
    ensures
        final(text)@ == old(text)@ + decimal(value as nat),
{
    append_digits(text, value, 10);
}

/// Appends `value` in hexadecimal.
pub fn append_hexadecimal(text: &mut String, value: u64)
    ensures
        final(text)@ == old(text)@ + hexadecimal(value as nat),
{
    proof {
        reveal_strlit("0x");
    }
    text.append("0x");
    append_digits(text, value, 16);
    assert(text@ =~= old(text)@ + hexadecimal(value as nat));
}

/// The value of a digit.
pub open spec fn digit_value(digit: char) -> int {
    if '0' <= digit && digit <= '9' {
        digit as int - 48
    } else {
        digit as int - 87
    }
}

/// The number that digits stand for, the most significant first.
pub open spec fn read_digits(text: Seq<char>, base: nat) -> int
    decreases text.len(),
{
    if text.len() == 0 {
        0
    } else {
        read_digits(text.drop_last(), base) * base + digit_value(text.last())
    }
}

/// A number that was written out reads back as itself. It has no leading zero, and only digits
/// of its base.
pub proof fn law_digits_read_back(value: nat, base: nat)
    requires
        2 <= base <= 16,
    ensures
        read_digits(digits(value, base), base) == value,
        digits(value, base).len() > 0,
        digits(value, base).len() > 1 ==> digits(value, base)[0] != '0',
        value > 0 ==> digits(value, base)[0] != '0',
        forall|i: int|
            0 <= i < digits(value, base).len() ==> {
                let digit = #[trigger] digits(value, base)[i];
                &&& '0' <= digit <= '9' || 'a' <= digit <= 'f'
                &&& 0 <= digit_value(digit) < base
            },
    decreases value,
{
    let text = digits(value, base);
    if value < base {
        assert(text.drop_last() =~= Seq::empty());
        assert(read_digits(text.drop_last(), base) == 0);
        assert(0 * base == 0) by (nonlinear_arith);
    } else {
        let rest = value / base;
        assert(0 < rest < value && value == rest * base + value % base && value % base < base)
            by (nonlinear_arith)
            requires
                base >= 2,
                value >= base,
                rest == value / base,
        ;
        law_digits_read_back(rest, base);
        assert(text.drop_last() =~= digits(rest, base));
        assert forall|i: int| 0 <= i < text.len() implies {
            let digit = #[trigger] text[i];
            &&& '0' <= digit <= '9' || 'a' <= digit <= 'f'
            &&& 0 <= digit_value(digit) < base
        } by {
            if i < text.len() - 1 {
                assert(text[i] == digits(rest, base)[i]);
            }
        }
        assert(text[0] == digits(rest, base)[0]);
    }
}

/// Numbers are written out in decimal, and in hexadecimal behind `0x`.
pub proof fn law_bases(value: nat)
    ensures
        read_digits(decimal(value), 10) == value,
        hexadecimal(value).len() > 2,
        hexadecimal(value)[0] == '0',
        hexadecimal(value)[1] == 'x',
        read_digits(hexadecimal(value).skip(2), 16) == value,
{
    law_digits_read_back(value, 10);
    law_digits_read_back(value, 16);
    assert(hexadecimal(value).skip(2) =~= digits(value, 16));
}

} // verus!
