//! Decimal digits and numerals as characters, and hours written with one
//! decimal place.

use vstd::prelude::*;
use vstd::string::*;

verus! {

pub open spec fn is_digit(c: char) -> bool {
    '0' <= c && c <= '9'
}

/// The number that a decimal digit stands for.
pub open spec fn digit_value(c: char) -> nat
    recommends
        is_digit(c),
{
    (c as nat - '0' as nat) as nat
}

/// The decimal digit that stands for a number below ten.
pub open spec fn digit_char(d: nat) -> char
    recommends
        d < 10,
{
    ((d + '0' as nat) as u8) as char
}

/// The numeral of a number: its decimal digits, the most significant first,
/// with no leading zero but for zero itself.
pub open spec fn decimal_text(n: nat) -> Seq<char>
    decreases n,
{
    if n < 10 {
        seq![digit_char(n)]
    } else {
        decimal_text(n / 10).push(digit_char(n % 10))
    }
}

/// A span in tenths of an hour, rounded to the nearest tenth; a span just
/// halfway between two tenths goes to the even one.
pub open spec fn tenths_of_hour(seconds: nat) -> nat {
    let whole = seconds / 360;
    let rest = seconds % 360;
    if rest > 180 || (rest == 180 && whole % 2 == 1) {
        whole + 1
    } else {
        whole
    }
}

/// A span in hours with one decimal place, such as `8.0`.
pub open spec fn hours_text(seconds: nat) -> Seq<char> {
    decimal_text(tenths_of_hour(seconds) / 10) + seq!['.', digit_char(tenths_of_hour(seconds) % 10)]
}

/// The one-character text of the digit for a number below ten.
pub(crate) fn digit_text(d: u8) -> (text: &'static str)
    requires
        d < 10,
    ensures
        text@ == seq![digit_char(d as nat)],
{
    proof {
        reveal_strlit("0");
        reveal_strlit("1");
        reveal_strlit("2");
        reveal_strlit("3");
        reveal_strlit("4");
        reveal_strlit("5");
        reveal_strlit("6");
        reveal_strlit("7");
        reveal_strlit("8");
        reveal_strlit("9");
    }
    let text = match d {
        0 => "0",
        1 => "1",
        2 => "2",
        3 => "3",
        4 => "4",
        5 => "5",
        6 => "6",
        7 => "7",
        8 => "8",
        _ => "9",
    };
    assert(text@ =~= seq![digit_char(d as nat)]);
    text
}

/// Writes the numeral of `n` at the end of `text`.
pub(crate) fn push_decimal(text: &mut String, n: u128)
    ensures
        final(text)@ == old(text)@ + decimal_text(n as nat),
    decreases n,
{
    if n >= 10 {
        push_decimal(text, n / 10);
    }
    let digit = (n % 10) as u8;
    text.append(digit_text(digit));
    assert(text@ =~= old(text)@ + decimal_text(n as nat));
}

/// Writes a span in hours with one decimal place at the end of `text`.
pub(crate) fn push_hours(text: &mut String, seconds: u128)
    ensures
        final(text)@ == old(text)@ + hours_text(seconds as nat),
{
    let whole = seconds / 360;
    let rest = seconds % 360;
    let tenths = if rest > 180 || (rest == 180 && whole % 2 == 1) {
        whole + 1
    } else {
        whole
    };
    push_decimal(text, tenths / 10);
    proof {
        reveal_strlit(".");
    }
    text.append(".");
    text.append(digit_text((tenths % 10) as u8));
    assert(text@ =~= old(text)@ + hours_text(seconds as nat));
}

} // verus!
