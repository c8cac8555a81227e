//! Numbers as text: hexadecimal, the way addresses are printed, and decimal.

use vstd::prelude::*;
use vstd::string::*;

verus! {

/// The hexadecimal digit of a value below sixteen, in lower case.
pub open spec fn hex_digit(value: int) -> char {
    if value < 10 {
        (value + 0x30) as char
    } else {
        (value - 10 + 0x61) as char
    }
}

/// `value` in base sixteen, most significant digit first, without leading
/// zeroes; a single `0` for zero.
pub open spec fn hex_digits(value: nat) -> Seq<char>
    decreases value,
{
    if value < 16 {
        seq![hex_digit(value as int)]
    } else {
        hex_digits(value / 16).push(hex_digit((value % 16) as int))
    }
}

/// `hex_digits` with the `0x` in front that says which base it is.
pub open spec fn prefixed_hex(value: nat) -> Seq<char> {
    "0x"@ + hex_digits(value)
}

/// The number that a hexadecimal digit stands for.
pub open spec fn digit_value(digit: char) -> int {
    if '0' <= digit <= '9' {
        digit as int - '0' as int
    } else {
        digit as int - 'a' as int + 10
    }
}

/// The number that some digits stand for in a base.
pub open spec fn value_of(digits: Seq<char>, base: int) -> int
    decreases digits.len(),
{
    if digits.len() == 0 {
        0
    } else {
        value_of(digits.drop_last(), base) * base + digit_value(digits.last())
    }
}

/// What is written in base sixteen reads back as the number it was: lower-case
/// digits, the most significant first, none of them a leading zero. With its
/// prefix it is the same after `0x`.
pub proof fn hexadecimal_reads_back(value: nat)
    ensures
        value_of(hex_digits(value), 16) == value,
        hex_digits(value).len() > 0,
        hex_digits(value).len() > 1 ==> hex_digits(value)[0] != '0',
        forall|i: int|
            0 <= i < hex_digits(value).len() ==> '0' <= #[trigger] hex_digits(value)[i] <= '9' || 'a'
                <= hex_digits(value)[i] <= 'f',
        prefixed_hex(value).len() == hex_digits(value).len() + 2,
        prefixed_hex(value)[0] == '0',
        prefixed_hex(value)[1] == 'x',
        prefixed_hex(value).skip(2) == hex_digits(value),
    decreases value,
{
    reveal_strlit("0x");
    let digits = hex_digits(value);
    assert(prefixed_hex(value).skip(2) =~= digits);
    if value < 16 {
        assert(digits.drop_last() =~= Seq::<char>::empty());
        assert(value_of(Seq::<char>::empty(), 16) == 0);
    } else {
        hexadecimal_reads_back(value / 16);
        assert(digits.drop_last() =~= hex_digits(value / 16));
        let before = hex_digits(value / 16);
        if before.len() == 1 && before[0] == '0' {
            assert(before.drop_last() =~= Seq::<char>::empty());
            assert(value_of(before.drop_last(), 16) == 0);
        }
        assert forall|i: int| 0 <= i < digits.len() implies '0' <= #[trigger] digits[i] <= '9' || 'a'
            <= digits[i] <= 'f' by {
            if i < before.len() {
                assert(digits[i] == before[i]);
            }
        }
    }
}

/// The same in base ten.
pub proof fn decimal_reads_back(value: nat)
    ensures
        value_of(decimal_digits(value), 10) == value,
        decimal_digits(value).len() > 0,
        decimal_digits(value).len() > 1 ==> decimal_digits(value)[0] != '0',
        forall|i: int|
            0 <= i < decimal_digits(value).len() ==> '0' <= #[trigger] decimal_digits(value)[i]
                <= '9',
    decreases value,
{
    let digits = decimal_digits(value);
    if value < 10 {
        assert(digits.drop_last() =~= Seq::<char>::empty());
        assert(value_of(Seq::<char>::empty(), 10) == 0);
    } else {
        decimal_reads_back(value / 10);
        let before = decimal_digits(value / 10);
        assert(digits.drop_last() =~= before);
        if before.len() == 1 && before[0] == '0' {
            assert(before.drop_last() =~= Seq::<char>::empty());
            assert(value_of(before.drop_last(), 10) == 0);
        }
        assert forall|i: int| 0 <= i < digits.len() implies '0' <= #[trigger] digits[i] <= '9' by {
            if i < before.len() {
                assert(digits[i] == before[i]);
            }
        }
    }
}

fn digit(value: u64) -> (r: &'static str)
    requires
        value < 16,
    ensures
        r@ == seq![hex_digit(value as int)],
{
    proof {
        reveal_strlit("0");
        reveal_strlit("1");
        reveal_strlit("2");
        reveal_strlit("3");
        reveal_strlit("4");
        reveal_strlit("5");
        reveal_strlit("6");
        reveal_strlit("7");
        reveal_strlit("8");
        reveal_strlit("9");
        reveal_strlit("a");
        reveal_strlit("b");
        reveal_strlit("c");
        reveal_strlit("d");
        reveal_strlit("e");
        reveal_strlit("f");
    }
    match value {
        0 => "0",
        1 => "1",
        2 => "2",
        3 => "3",
        4 => "4",
        5 => "5",
        6 => "6",
        7 => "7",
        8 => "8",
        9 => "9",
        10 => "a",
        11 => "b",
        12 => "c",
        13 => "d",
        14 => "e",
        _ => "f",
    }
}

/// `value` in lower-case hexadecimal, without a prefix.
pub fn lower_hex(value: u64) -> (r: String)
    ensures
        r@ == hex_digits(value as nat),
    decreases value,
{
    if value < 16 {
        String::from_str(digit(value))
    } else {
        let mut text = lower_hex(value / 16);
        text.append(digit(value % 16));
        text
    }
}

/// `value` in lower-case hexadecimal, with the `0x` prefix.
pub fn alternate_hex(value: u64) -> (r: String)
    ensures
        r@ == prefixed_hex(value as nat),
{
    let mut text = String::from_str("0x");
    let digits = lower_hex(value);
    text.append(digits.as_str());
    text
}

/// `value` in base ten, most significant digit first, without leading
/// zeroes; a single `0` for zero.
pub open spec fn decimal_digits(value: nat) -> Seq<char>
    decreases value,
{
    if value < 10 {
        seq![hex_digit(value as int)]
    } else {
        decimal_digits(value / 10).push(hex_digit((value % 10) as int))
    }
}

/// `value` in decimal.
pub fn decimal(value: u64) -> (r: String)
    ensures
        r@ == decimal_digits(value as nat),
    decreases value,
{
    if value < 10 {
        String::from_str(digit(value))
    } else {
        let mut text = decimal(value / 10);
        text.append(digit(value % 10));
        text
    }
}

} // verus!
