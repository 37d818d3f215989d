//! Prime factorizations as sequences: what it means for a sequence to be the
//! factorization of a number, and the proof that a number has only one.

use crate::divisibility::{divides, lemma_divides_cofactor, lemma_multiple_divides, prime};
use vstd::arithmetic::div_mod::{lemma_fundamental_div_mod, lemma_small_mod};
use vstd::prelude::*;

verus! {

/// The product of the elements of `s`; the empty product is 1.
pub open spec fn product(s: Seq<nat>) -> nat
    decreases s.len(),
{
    if s.len() == 0 {
        1
    } else {
        product(s.drop_last()) * s.last()
    }
}

/// Every element of `s` is prime.
pub open spec fn all_prime(s: Seq<nat>) -> bool {
    forall|i: int| 0 <= i < s.len() ==> prime(#[trigger] s[i])
}

/// The elements of `s` never decrease.
pub open spec fn ascending(s: Seq<nat>) -> bool {
    forall|i: int, j: int| 0 <= i <= j < s.len() ==> s[i] <= s[j]
}

/// `s` is the prime factorization of `n`: primes in ascending order, each as
/// often as it divides `n`, whose product is `n`.
pub open spec fn is_factorization(s: Seq<nat>, n: nat) -> bool {
    all_prime(s) && ascending(s) && product(s) == n
}

/// The elements of a sequence of machine integers, as natural numbers.
pub open spec fn as_nats(s: Seq<usize>) -> Seq<nat> {
    s.map_values(|x: usize| x as nat)
}

/// Appending an element multiplies the product by it.
pub proof fn lemma_product_push(s: Seq<nat>, x: nat)
    ensures
        product(s.push(x)) == product(s) * x,
{
    assert(s.push(x).drop_last() =~= s);
}

/// A product of primes is positive, and at least 2 unless it is empty.
pub proof fn lemma_product_of_primes(s: Seq<nat>)
    requires
        all_prime(s),
    ensures
        product(s) >= 1,
        s.len() > 0 ==> product(s) >= 2,
    decreases s.len(),
{
    if s.len() > 0 {
        lemma_product_of_primes(s.drop_last());
        assert(product(s.drop_last()) * s.last() >= 2) by (nonlinear_arith)
            requires
                product(s.drop_last()) >= 1,
                s.last() >= 2,
        ;
    }
}

/// Euclid's lemma: a prime that divides a product divides one of the two
/// factors.
pub proof fn lemma_prime_divides_factor(p: nat, a: nat, b: nat)
    requires
        prime(p),
        divides(p, a * b),
    ensures
        divides(p, a) || divides(p, b),
    decreases a,
{
    if !divides(p, a) {
        // a = p * q + r with 0 < r < p, and p still divides r * b.
        let q = a / p;
        let r = a % p;
        lemma_fundamental_div_mod(a as int, p as int);
        lemma_divides_cofactor(p, a * b);
        let k = (a * b) / p;
        assert(r * b == p * (k - q * b) && k - q * b >= 0) by (nonlinear_arith)
            requires
                a == p * q + r,
                a * b == p * k,
                p > 0,
                r >= 0,
                b >= 0,
        ;
        let k_r = (k - q * b) as nat;
        lemma_multiple_divides(p, k_r);
        if r == 1 {
            assert(r * b == b) by (nonlinear_arith)
                requires
                    r == 1,
            ;
        } else {
            // p = r * t + s with 0 < s < r, since r is no divisor of the prime p,
            // and p still divides s * b.
            assert(!divides(r, p));
            let t = p / r;
            let s = p % r;
            lemma_fundamental_div_mod(p as int, r as int);
            assert(s * b == p * (b - t * k_r) && b - t * k_r >= 0) by (nonlinear_arith)
                requires
                    p == r * t + s,
                    r * b == p * k_r,
                    p > 0,
                    s >= 0,
                    b >= 0,
            ;
            lemma_multiple_divides(p, (b - t * k_r) as nat);
            lemma_prime_divides_factor(p, s, b);
            lemma_small_mod(s, p);
        }
    }
}

/// A prime that divides a product of primes is one of them.
pub proof fn lemma_prime_divides_product(p: nat, s: Seq<nat>)
    requires
        prime(p),
        all_prime(s),
        divides(p, product(s)),
    ensures
        exists|i: int| 0 <= i < s.len() && s[i] == p,
    decreases s.len(),
{
    if s.len() == 0 {
        lemma_small_mod(1, p);
    } else {
        let last = s.last();
        lemma_prime_divides_factor(p, product(s.drop_last()), last);
        if divides(p, product(s.drop_last())) {
            lemma_prime_divides_product(p, s.drop_last());
            let i = choose|i: int| 0 <= i < s.drop_last().len() && s.drop_last()[i] == p;
        } else {
            lemma_divides_cofactor(p, last);
        }
    }
}

/// The largest prime of one factorization occurs in every other one, so two
/// factorizations of a number end in the same prime.
proof fn lemma_last_factor_bounded(a: Seq<nat>, b: Seq<nat>)
    requires
        all_prime(a),
        all_prime(b),
        ascending(b),
        a.len() > 0,
        product(a) == product(b),
    ensures
        b.len() > 0,
        a.last() <= b.last(),
{
    let p = a.last();
    lemma_product_of_primes(a.drop_last());
    assert(product(a) == p * product(a.drop_last())) by (nonlinear_arith)
        requires
            product(a) == product(a.drop_last()) * p,
    ;
    lemma_multiple_divides(p, product(a.drop_last()));
    lemma_prime_divides_product(p, b);
}

/// The fundamental theorem of arithmetic, as far as uniqueness goes: two
/// prime factorizations of the same number are the same sequence.
pub proof fn lemma_factorization_unique(a: Seq<nat>, b: Seq<nat>, n: nat)
    requires
        is_factorization(a, n),
        is_factorization(b, n),
    ensures
        a == b,
    decreases a.len(),
{
    if a.len() == 0 {
        lemma_product_of_primes(b);
    } else {
        lemma_last_factor_bounded(a, b);
        lemma_last_factor_bounded(b, a);
        let p = a.last();
        let a_rest = a.drop_last();
        let b_rest = b.drop_last();
        assert(product(a_rest) == product(b_rest)) by (nonlinear_arith)
            requires
                product(a_rest) * p == product(b_rest) * p,
                p > 0,
        ;
        assert(all_prime(a_rest) && all_prime(b_rest));
        lemma_factorization_unique(a_rest, b_rest, product(a_rest));
        assert(a =~= a_rest.push(p) && b =~= b_rest.push(p));
    }
}

} // verus!
