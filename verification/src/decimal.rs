//! Decimal notation: the digits of a number and the text that they spell.

use vstd::prelude::*;

verus! {

/// The decimal digits of `n`, most significant first and without leading
/// zeros; those of 0 are the single digit 0.
pub open spec fn decimal_digits(n: nat) -> Seq<nat>
    decreases n,
{
    if n < 10 {
        seq![n]
    } else {
        decimal_digits(n / 10).push(n % 10)
    }
}

/// The character that stands for the digit `d`.
pub open spec fn digit_char(d: nat) -> char {
    if d == 0 {
        '0'
    } else if d == 1 {
        '1'
    } else if d == 2 {
        '2'
    } else if d == 3 {
        '3'
    } else if d == 4 {
        '4'
    } else if d == 5 {
        '5'
    } else if d == 6 {
        '6'
    } else if d == 7 {
        '7'
    } else if d == 8 {
        '8'
    } else {
        '9'
    }
}

/// The decimal notation of `n` as text.
pub open spec fn decimal_text(n: nat) -> Seq<char> {
    decimal_digits(n).map_values(|d: nat| digit_char(d))
}

/// A sequence of digits held in bytes, as natural numbers.
pub open spec fn digit_values(digits: Seq<u8>) -> Seq<nat> {
    digits.map_values(|d: u8| d as nat)
}

/// Every decimal digit is below ten, and there is at least one.
pub proof fn lemma_decimal_digits_range(n: nat)
    ensures
        decimal_digits(n).len() >= 1,
        forall|i: int| 0 <= i < decimal_digits(n).len() ==> #[trigger] decimal_digits(n)[i] < 10,
    decreases n,
{
    if n >= 10 {
        lemma_decimal_digits_range(n / 10);
    }
}

/// The decimal digits of `n`, most significant first.
pub fn digits_of(n: u64) -> (digits: Vec<u8>)
    ensures
        digit_values(digits@) == decimal_digits(n as nat),
{
    // Division yields the digits from the least significant end.
    let mut backwards: Vec<u8> = Vec::new();
    let mut rest = n;
    while rest >= 10
        invariant
            decimal_digits(n as nat) =~= decimal_digits(rest as nat) + digit_values(
                backwards@,
            ).reverse(),
        decreases rest,
    {
        backwards.push((rest % 10) as u8);
        rest = rest / 10;
    }
    backwards.push(rest as u8);

    let length = backwards.len();
    let mut digits: Vec<u8> = Vec::new();
    let mut i: usize = 0;
    while i < length
        invariant
            i <= length == backwards@.len(),
            digits@.len() == i,
            forall|k: int| 0 <= k < i ==> digits@[k] == backwards@[length - 1 - k],
        decreases length - i,
    {
        digits.push(backwards[length - 1 - i]);
        i += 1;
    }
    digits
}

/// The text of one decimal digit.
fn digit_str(d: u8) -> (text: &'static str)
    requires
        d < 10,
    ensures
        text@ == seq![digit_char(d as nat)],
{
    proof {
        reveal_strlit("0");
        reveal_strlit("1");
        reveal_strlit("2");
        reveal_strlit("3");
        reveal_strlit("4");
        reveal_strlit("5");
        reveal_strlit("6");
        reveal_strlit("7");
        reveal_strlit("8");
        reveal_strlit("9");
    }
    match d {
        0 => "0",
        1 => "1",
        2 => "2",
        3 => "3",
        4 => "4",
        5 => "5",
        6 => "6",
        7 => "7",
        8 => "8",
        _ => "9",
    }
}

/// Writes `n` in decimal notation.
pub fn decimal_string(n: u64) -> (text: String)
    ensures
        text@ == decimal_text(n as nat),
{
    let digits = digits_of(n);
    proof {
        lemma_decimal_digits_range(n as nat);
    }
    let mut text = String::new();
    let mut i: usize = 0;
    while i < digits.len()
        invariant
            i <= digits@.len(),
            digit_values(digits@) == decimal_digits(n as nat),
            forall|k: int|
                0 <= k < decimal_digits(n as nat).len() ==> #[trigger] decimal_digits(n as nat)[k]
                    < 10,
            text@ == decimal_text(n as nat).take(i as int),
        decreases digits@.len() - i,
    {
        proof {
            assert(digit_values(digits@)[i as int] == digits@[i as int]);
        }
        text.append(digit_str(digits[i]));
        i += 1;
    }
    text
}

} // verus!
