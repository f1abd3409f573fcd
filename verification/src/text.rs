//! Small pieces of text: decimal numbers and the messages built from them.
use vstd::prelude::*;
use vstd::string::*;

verus! {

/// The decimal digit of a number below ten.
pub open spec fn digit(d: nat) -> char {
    if d == 0 {
        '0'
    } else if d == 1 {
        '1'
    } else if d == 2 {
        '2'
    } else if d == 3 {
        '3'
    } else if d == 4 {
        '4'
    } else if d == 5 {
        '5'
    } else if d == 6 {
        '6'
    } else if d == 7 {
        '7'
    } else if d == 8 {
        '8'
    } else {
        '9'
    }
}

/// A number in decimal, without leading zeros.
pub open spec fn decimal(n: nat) -> Seq<char>
    decreases n,
{
    if n < 10 {
        seq![digit(n)]
    } else {
        decimal(n / 10).push(digit(n % 10))
    }
}

/// A number in decimal.
pub fn to_decimal(n: u64) -> (text: String)
    ensures
        text@ == decimal(n as nat),
    decreases n,
{
    let last: &str = match n % 10 {
        0 => "0",
        1 => "1",
        2 => "2",
        3 => "3",
        4 => "4",
        5 => "5",
        6 => "6",
        7 => "7",
        8 => "8",
        _ => "9",
    };
    proof {
        reveal_strlit("0");
        reveal_strlit("1");
        reveal_strlit("2");
        reveal_strlit("3");
        reveal_strlit("4");
        reveal_strlit("5");
        reveal_strlit("6");
        reveal_strlit("7");
        reveal_strlit("8");
        reveal_strlit("9");
    }
    assert(last@ =~= seq![digit((n % 10) as nat)]);
    if n < 10 {
        last.to_string()
    } else {
        let mut text = to_decimal(n / 10);
        text.append(last);
        assert(text@ =~= decimal((n / 10) as nat).push(digit((n % 10) as nat)));
        text
    }
}

/// A message of a text, a number and a text.
pub fn with_number(before: &str, n: u64, after: &str) -> (text: String)
    ensures
        text@ == before@ + decimal(n as nat) + after@,
{
    let mut text = before.to_string();
    let number = to_decimal(n);
    text.append(number.as_str());
    text.append(after);
    text
}

/// A message of two numbers between three texts.
pub fn with_two_numbers(before: &str, n: u64, between: &str, m: u64, after: &str) -> (text: String)
    ensures
        text@ == before@ + decimal(n as nat) + between@ + decimal(m as nat) + after@,
{
    let mut text = with_number(before, n, between);
    let number = to_decimal(m);
    text.append(number.as_str());
    text.append(after);
    text
}

/// A message of a text between two texts.
pub fn with_text(before: &str, name: &str, after: &str) -> (text: String)
    ensures
        text@ == before@ + name@ + after@,
{
    let mut text = before.to_string();
    text.append(name);
    text.append(after);
    text
}

} // verus!
