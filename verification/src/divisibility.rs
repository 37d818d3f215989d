//! Divisibility and primality over the natural numbers.

use vstd::arithmetic::div_mod::lemma_fundamental_div_mod;
use vstd::arithmetic::div_mod::lemma_mod_multiples_basic;
use vstd::prelude::*;

verus! {

/// `d` divides `n`: `d` is positive and leaves no remainder.
pub open spec fn divides(d: nat, n: nat) -> bool {
    d > 0 && n % d == 0
}

/// `n` is prime: at least 2 and without a divisor strictly between 1 and `n`.
pub open spec fn prime(n: nat) -> bool {
    n >= 2 && forall|d: nat| 2 <= d < n ==> !divides(d, n)
}

/// `n` is at least 2 and no `d >= 2` with `d * d <= n` divides it: the test
/// that only looks at candidates up to the square root of `n`.
pub open spec fn prime_by_trial(n: nat) -> bool {
    n >= 2 && forall|d: nat| 2 <= d && d * d <= n ==> !divides(d, n)
}

/// A product of `d` is divisible by `d`.
pub proof fn lemma_multiple_divides(d: nat, k: nat)
    requires
        d > 0,
    ensures
        divides(d, d * k),
{
    lemma_mod_multiples_basic(k as int, d as int);
    assert(k * d == d * k) by (nonlinear_arith);
}

/// A divisor `d` of `n` comes with its cofactor `n / d`.
pub proof fn lemma_divides_cofactor(d: nat, n: nat)
    requires
        divides(d, n),
    ensures
        n == d * (n / d),
        n > 0 ==> 1 <= n / d <= n,
        n > 0 ==> d <= n,
{
    lemma_fundamental_div_mod(n as int, d as int);
    let q = n / d;
    assert(n > 0 ==> 1 <= q && q <= n && d <= n) by (nonlinear_arith)
        requires
            n == d * q,
            d > 0,
    ;
}

/// Divisibility is transitive.
pub proof fn lemma_divides_transitive(a: nat, b: nat, c: nat)
    requires
        divides(a, b),
        divides(b, c),
    ensures
        divides(a, c),
{
    lemma_divides_cofactor(a, b);
    lemma_divides_cofactor(b, c);
    let k = (b / a) * (c / b);
    assert(c == a * k) by (nonlinear_arith)
        requires
            b == a * (b / a),
            c == b * (c / b),
            k == (b / a) * (c / b),
    ;
    lemma_multiple_divides(a, k);
}

/// A proper multiple is not prime: no product of two numbers that are both
/// at least 2 is.
pub proof fn lemma_multiple_is_not_prime(d: nat, k: nat)
    requires
        d >= 2,
        k >= 2,
    ensures
        !prime(d * k),
{
    lemma_multiple_divides(d, k);
    assert(d < d * k) by (nonlinear_arith)
        requires
            d >= 2,
            k >= 2,
    ;
}

/// Testing candidates up to the square root decides primality: a number is
/// prime exactly when it is at least 2 and no `d >= 2` with `d * d <= n`
/// divides it.
pub proof fn lemma_prime_iff_trial(n: nat)
    ensures
        prime(n) <==> prime_by_trial(n),
{
    if prime(n) {
        assert forall|d: nat| 2 <= d && d * d <= n implies !divides(d, n) by {
            assert(d < n) by (nonlinear_arith)
                requires
                    2 <= d,
                    d * d <= n,
            ;
        }
    }
    if prime_by_trial(n) {
        assert forall|d: nat| 2 <= d < n implies !divides(d, n) by {
            if divides(d, n) {
                // The cofactor of `d` divides `n` as well, and the smaller of
                // the two lies within the square root.
                lemma_divides_cofactor(d, n);
                let e = n / d;
                assert(2 <= e && (d * d <= n || e * e <= n)) by (nonlinear_arith)
                    requires
                        n == d * e,
                        2 <= d < n,
                ;
                lemma_multiple_divides(e, d);
            }
        }
    }
}

} // verus!
