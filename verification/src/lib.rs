//! Helpers for working through the Project Euler problems: a sieve of
//! Eratosthenes, prime factorization and a decimal palindrome test, and the
//! rules by which an empty solution file is made for a problem. Every
//! function carries a contract that Verus proves of its body; the few
//! contracts that are believed instead, those of calls into other crates,
//! say so.

pub mod bits;
pub mod decimal;
pub mod divisibility;
pub mod factorization;
pub mod markup;
pub mod prime;
pub mod scaffold;
pub mod text;
pub mod wrapping;

use crate::decimal::{
    decimal_digits, decimal_text, digit_char, digit_values, digits_of, lemma_decimal_digits_range,
};
use vstd::prelude::*;

verus! {

/// The decimal digits of `n` read the same in both directions.
pub open spec fn palindromic(n: nat) -> bool {
    decimal_digits(n) == decimal_digits(n).reverse()
}

/// A number is palindromic exactly when its decimal notation, as text, is
/// its own reversal.
pub proof fn lemma_palindromic_text(n: nat)
    ensures
        palindromic(n) <==> decimal_text(n) == decimal_text(n).reverse(),
{
    let digits = decimal_digits(n);
    let text = decimal_text(n);
    lemma_decimal_digits_range(n);
    if digits == digits.reverse() {
        assert(text =~= text.reverse());
    }
    if text == text.reverse() {
        // Digits below ten are told apart by their characters.
        assert forall|i: int| 0 <= i < digits.len() implies digits[i] == digits.reverse()[i] by {
            assert(text[i] == text.reverse()[i]);
        }
        assert(digits =~= digits.reverse());
    }
}

/// Determines whether `n` is a palindrome: whether its decimal notation reads
/// the same in both directions.
pub fn is_palindrome(n: u64) -> (result: bool)
    ensures
        result == palindromic(n as nat),
        result == (decimal_text(n as nat) == decimal_text(n as nat).reverse()),
{
    proof {
        lemma_palindromic_text(n as nat);
    }
    let digits = digits_of(n);
    let ghost forwards = decimal_digits(n as nat);
    let length = digits.len();
    let mut i: usize = 0;
    while i < length / 2
        invariant
            length == digits@.len(),
            digit_values(digits@) == forwards,
            forwards == decimal_digits(n as nat),
            forall|k: int| 0 <= k < i ==> #[trigger] forwards[k] == forwards[length - 1 - k],
        decreases length - i,
    {
        if digits[i] != digits[length - 1 - i] {
            proof {
                assert(forwards[i as int] != forwards.reverse()[i as int]);
                lemma_palindromic_text(n as nat);
            }
            return false;
        }
        i += 1;
    }
    // The halves mirror each other, so the whole does.
    assert(forall|k: int| 0 <= k < length ==> #[trigger] forwards[k] == forwards[length - 1 - k]);
    assert(forwards =~= forwards.reverse());
    true
}

} // verus!
