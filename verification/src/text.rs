//! Numbers as text.

use vstd::prelude::*;
use vstd::string::StringExecFns;

verus! {

/// The character of a decimal digit.
pub open spec fn digit_char(digit: nat) -> char {
    if digit == 0 {
        '0'
    } else if digit == 1 {
        '1'
    } else if digit == 2 {
        '2'
    } else if digit == 3 {
        '3'
    } else if digit == 4 {
        '4'
    } else if digit == 5 {
        '5'
    } else if digit == 6 {
        '6'
    } else if digit == 7 {
        '7'
    } else if digit == 8 {
        '8'
    } else {
        '9'
    }
}

/// A number in decimal notation, without leading zeros.
pub open spec fn decimal_text(value: nat) -> Seq<char>
    decreases value,
{
    if value < 10 {
        seq![digit_char(value)]
    } else {
        decimal_text(value / 10).push(digit_char(value % 10))
    }
}

/// A number below 100 as two decimal digits.
pub open spec fn two_digit_text(value: nat) -> Seq<char> {
    seq![digit_char(value / 10), digit_char(value % 10)]
}

/// A count of hundredths in decimal notation with two decimal places, with a
/// minus sign in front where it is negative.
pub open spec fn hundredths_text(value: int) -> Seq<char> {
    if value < 0 {
        seq!['-'] + decimal_text(((-value) / 100) as nat) + seq!['.'] + two_digit_text(
            ((-value) % 100) as nat,
        )
    } else {
        decimal_text((value / 100) as nat) + seq!['.'] + two_digit_text((value % 100) as nat)
    }
}

fn digit_str(digit: u64) -> (text: &'static str)
    requires
        digit < 10,
    ensures
        text@ == seq![digit_char(digit as nat)],
{
    proof {
        reveal_strlit("0");
        reveal_strlit("1");
        reveal_strlit("2");
        reveal_strlit("3");
        reveal_strlit("4");
        reveal_strlit("5");
        reveal_strlit("6");
        reveal_strlit("7");
        reveal_strlit("8");
        reveal_strlit("9");
    }
    let text = if digit == 0 {
        "0"
    } else if digit == 1 {
        "1"
    } else if digit == 2 {
        "2"
    } else if digit == 3 {
        "3"
    } else if digit == 4 {
        "4"
    } else if digit == 5 {
        "5"
    } else if digit == 6 {
        "6"
    } else if digit == 7 {
        "7"
    } else if digit == 8 {
        "8"
    } else {
        "9"
    };
    assert(text@ =~= seq![digit_char(digit as nat)]);
    text
}

/// Writes a number in decimal notation.
pub fn decimal(value: u64) -> (text: String)
    ensures
        text@ == decimal_text(value as nat),
    decreases value,
{
    if value < 10 {
        digit_str(value).to_owned()
    } else {
        let head = decimal(value / 10);
        let text = head.concat(digit_str(value % 10));
        assert(text@ =~= decimal_text((value / 10) as nat).push(digit_char((value % 10) as nat)));
        text
    }
}

/// Writes a count of hundredths with two decimal places: 1234 is written
/// as 12.34.
pub fn hundredths(value: i64) -> (text: String)
    ensures
        text@ == hundredths_text(value as int),
{
    proof {
        reveal_strlit("-");
        reveal_strlit(".");
    }
    let size: u64 = if value >= 0 {
        value as u64
    } else {
        (-(value + 1)) as u64 + 1
    };
    let sign = if value < 0 {
        "-"
    } else {
        ""
    };
    proof {
        reveal_strlit("");
    }
    let whole = decimal(size / 100);
    let rest: u64 = size % 100;
    let text = sign.to_owned().concat(whole.as_str()).concat(".").concat(
        digit_str(rest / 10),
    ).concat(digit_str(rest % 10));
    assert(text@ =~= hundredths_text(value as int));
    text
}

} // verus!
