//! One line of text for the outcome of a checked summation.

use vstd::prelude::*;

verus! {

/// The ten decimal digits, in order.
pub open spec fn digits() -> Seq<char> {
    seq!['0', '1', '2', '3', '4', '5', '6', '7', '8', '9']
}

/// The decimal numeral of `n`, most significant digit first, without
/// leading zeros.
pub open spec fn decimal(n: nat) -> Seq<char>
    decreases n,
{
    if n < 10 {
        seq![digits()[n as int]]
    } else {
        decimal(n / 10).push(digits()[(n % 10) as int])
    }
}

/// The line that reports `result`: the sum in decimal where there is one,
/// and a note of the overflow where there is none.
pub open spec fn report_text(result: Option<u32>) -> Seq<char> {
    match result {
        Some(sum) => "The sum is: "@ + decimal(sum as nat),
        None => "Sum overflowed."@,
    }
}

/// The numeral of a single decimal digit.
fn digit_str(d: u32) -> (numeral: &'static str)
    requires
        d < 10,
    ensures
        numeral@ == seq![digits()[d as int]],
{
    proof {
        reveal_strlit("0");
        reveal_strlit("1");
        reveal_strlit("2");
        reveal_strlit("3");
        reveal_strlit("4");
        reveal_strlit("5");
        reveal_strlit("6");
        reveal_strlit("7");
        reveal_strlit("8");
        reveal_strlit("9");
    }
    match d {
        0 => "0",
        1 => "1",
        2 => "2",
        3 => "3",
        4 => "4",
        5 => "5",
        6 => "6",
        7 => "7",
        8 => "8",
        _ => "9",
    }
}

/// Appends the decimal numeral of `n` to `text`.
fn push_decimal(text: &mut String, n: u32)
    ensures
        final(text)@ == old(text)@ + decimal(n as nat),
    decreases n,
{
    if n >= 10 {
        push_decimal(text, n / 10);
    }
    text.append(digit_str(n % 10));
}

/// Renders the outcome of a checked summation as the line shown to the user.
pub fn report_line(result: Option<u32>) -> (line: String)
    ensures
        line@ == report_text(result),
{
    match result {
        Some(sum) => {
            let mut line = String::from_str("The sum is: ");
            push_decimal(&mut line, sum);
            line
        },
        None => String::from_str("Sum overflowed."),
    }
}

} // verus!
