//! A sieve of Eratosthenes over a bit vector, and prime factorization by
//! trial division with the sieve's primes.

use crate::bits::{bits, bitvec_from_elem, bitvec_get, bitvec_set};
use crate::divisibility::{
    divides, lemma_divides_cofactor, lemma_divides_transitive, lemma_multiple_divides,
    lemma_prime_iff_trial, prime, prime_by_trial,
};
use crate::factorization::{
    all_prime, as_nats, ascending, is_factorization, lemma_factorization_unique,
    lemma_product_push, product,
};
use bit_vec::BitVec;
use vstd::arithmetic::div_mod::{
    lemma_div_is_ordered, lemma_div_multiples_vanish, lemma_fundamental_div_mod,
};
use vstd::prelude::*;

verus! {

/// `k` has survived the sieve's passes for every candidate below `i`: it is at
/// least 2 and no `d` in `[2, i)` with `d * d <= k` divides it.
spec fn survives(k: nat, i: nat) -> bool {
    k >= 2 && forall|d: nat| 2 <= d < i && d * d <= k ==> !divides(d, k)
}

/// `k` is one of the multiples `i * m` with `i <= m < j`, the ones that the
/// pass for `i` has struck out after reaching `j`.
spec fn struck(k: nat, i: nat, j: nat) -> bool {
    divides(i, k) && i <= k / i < j
}

/// For a positive `m`, `m <= n / m` says that the square of `m` is at most `n`.
proof fn lemma_square_le(m: nat, n: nat)
    requires
        m > 0,
    ensures
        m <= n / m <==> m * m <= n,
{
    lemma_fundamental_div_mod(n as int, m as int);
    let q = n / m;
    let r = n % m;
    assert(m <= q <==> m * m <= n) by (nonlinear_arith)
        requires
            n == m * q + r,
            0 <= r < m,
    ;
}

/// Once the pass for `i` has struck every multiple from `i * i` on, the
/// survivors below `max` are those of the passes up to and including `i`.
proof fn lemma_pass_complete(k: nat, i: nat, max: nat)
    requires
        2 <= i,
        k < max,
    ensures
        (survives(k, i) && !struck(k, i, ((max - 1) / (i as int) + 1) as nat)) == survives(
            k,
            i + 1,
        ),
{
    let limit = (max - 1) / (i as int);
    lemma_div_is_ordered(k as int, max - 1, i as int);
    if divides(i, k) {
        lemma_divides_cofactor(i, k);
        let q = k / i;
        assert(i <= q <==> i * i <= k) by (nonlinear_arith)
            requires
                k == i * q,
                2 <= i,
        ;
    }
    if survives(k, i) && !struck(k, i, (limit + 1) as nat) {
        assert forall|d: nat| 2 <= d < i + 1 && d * d <= k implies !divides(d, k) by {}
    }
}

/// A candidate `i` that an earlier pass struck out adds nothing: whatever it
/// divides, one of its own divisors has struck already.
proof fn lemma_pass_skipped(k: nat, i: nat)
    requires
        2 <= i,
        !survives(i, i),
    ensures
        survives(k, i) == survives(k, i + 1),
{
    let d = choose|d: nat| 2 <= d < i && d * d <= i && divides(d, i);
    if survives(k, i) {
        assert forall|e: nat| 2 <= e < i + 1 && e * e <= k implies !divides(e, k) by {
            if e == i && divides(i, k) {
                lemma_divides_transitive(d, i, k);
                assert(d * d <= k) by (nonlinear_arith)
                    requires
                        d * d <= i,
                        i * i <= k,
                        2 <= i,
                ;
            }
        }
    }
}

/// Past the square root of `max`, the survivors below `max` are the primes.
proof fn lemma_survivors_are_primes(k: nat, i: nat, max: nat)
    requires
        k < max,
        max < i * i,
    ensures
        survives(k, i) == prime(k),
{
    lemma_prime_iff_trial(k);
    if survives(k, i) {
        assert forall|d: nat| 2 <= d && d * d <= k implies !divides(d, k) by {
            assert(d < i) by (nonlinear_arith)
                requires
                    d * d <= k,
                    k < max,
                    max < i * i,
            ;
        }
    }
}

/// The table that says of each number below `max` whether it is prime.
pub open spec fn prime_table(max: nat) -> Seq<bool> {
    Seq::new(max, |k: int| prime(k as nat))
}

/// A table of the primes below a fixed bound, built once and then only read.
pub struct PrimeSieve {
    bitvec: BitVec<u32>,
}

impl View for PrimeSieve {
    type V = Seq<bool>;

    /// The table itself: at each index, whether the sieve holds it for prime.
    closed spec fn view(&self) -> Seq<bool> {
        bits(self.bitvec)
    }
}

impl PrimeSieve {
    /// The exclusive upper limit of the numbers that the sieve knows about.
    pub open spec fn bound(&self) -> nat {
        self@.len()
    }

    /// A sieve is the table of the primes below its bound, which is at least
    /// 2 and a machine integer.
    #[verifier::type_invariant]
    spec fn well_formed(&self) -> bool {
        &&& 2 <= self@.len() <= usize::MAX
        &&& self@ == prime_table(self@.len())
    }

    /// Builds the sieve for the numbers below `max_prime`.
    pub fn new(max_prime: usize) -> (sieve: PrimeSieve)
        requires
            max_prime >= 2,
        ensures
            sieve@ == prime_table(max_prime as nat),
    {
        let mut bitvec = bitvec_from_elem(max_prime, true);

        bitvec_set(&mut bitvec, 0, false);
        bitvec_set(&mut bitvec, 1, false);

        let mut i: usize = 2;
        while i <= max_prime / i
            invariant
                2 <= i <= max_prime,
                bits(bitvec).len() == max_prime,
                forall|k: int|
                    0 <= k < max_prime ==> #[trigger] bits(bitvec)[k] == survives(k as nat, i as nat),
            decreases max_prime - i,
        {
            proof {
                lemma_square_le(i as nat, max_prime as nat);
                assert(i < max_prime) by (nonlinear_arith)
                    requires
                        2 <= i,
                        i * i <= max_prime,
                ;
            }
            let unstruck = match bitvec_get(&bitvec, i) {
                Some(bit) => bit,
                None => false,
            };
            if unstruck {
                let limit = (max_prime - 1) / i;
                proof {
                    lemma_fundamental_div_mod(max_prime - 1, i as int);
                    assert(i <= limit + 1) by (nonlinear_arith)
                        requires
                            max_prime - 1 == i * limit + (max_prime - 1) % (i as int),
                            (max_prime - 1) % (i as int) < i,
                            i * i <= max_prime,
                            2 <= i,
                    ;
                }
                let mut j: usize = i;
                while j <= limit
                    invariant
                        2 <= i <= j <= limit + 1,
                        limit == (max_prime - 1) / (i as int),
                        limit < max_prime,
                        bits(bitvec).len() == max_prime,
                        forall|k: int|
                            0 <= k < max_prime ==> #[trigger] bits(bitvec)[k] == (survives(
                                k as nat,
                                i as nat,
                            ) && !struck(k as nat, i as nat, j as nat)),
                    decreases limit + 1 - j,
                {
                    proof {
                        lemma_fundamental_div_mod(max_prime - 1, i as int);
                        assert(i * j <= max_prime - 1) by (nonlinear_arith)
                            requires
                                max_prime - 1 == i * limit + (max_prime - 1) % (i as int),
                                0 <= (max_prime - 1) % (i as int),
                                j <= limit,
                                0 <= i,
                        ;
                        lemma_multiple_divides(i as nat, j as nat);
                        lemma_div_multiples_vanish(j as int, i as int);
                    }
                    let multiple = i * j;
                    bitvec_set(&mut bitvec, multiple, false);
                    proof {
                        assert forall|k: int| 0 <= k < max_prime implies #[trigger] bits(bitvec)[k]
                            == (survives(k as nat, i as nat) && !struck(
                            k as nat,
                            i as nat,
                            (j + 1) as nat,
                        )) by {
                            if k != multiple && divides(i as nat, k as nat) {
                                lemma_divides_cofactor(i as nat, k as nat);
                            }
                        }
                    }
                    j += 1;
                }
                proof {
                    assert forall|k: int| 0 <= k < max_prime implies #[trigger] bits(bitvec)[k]
                        == survives(k as nat, (i + 1) as nat) by {
                        lemma_pass_complete(k as nat, i as nat, max_prime as nat);
                    }
                }
            } else {
                proof {
                    assert forall|k: int| 0 <= k < max_prime implies #[trigger] bits(bitvec)[k]
                        == survives(k as nat, (i + 1) as nat) by {
                        lemma_pass_skipped(k as nat, i as nat);
                    }
                }
            }
            i += 1;
        }
        proof {
            lemma_square_le(i as nat, max_prime as nat);
            assert forall|k: int| 0 <= k < max_prime implies #[trigger] bits(bitvec)[k] == prime(
                k as nat,
            ) by {
                lemma_survivors_are_primes(k as nat, i as nat, max_prime as nat);
            }
            assert(bits(bitvec) =~= prime_table(max_prime as nat));
        }
        PrimeSieve { bitvec }
    }

    /// Whether `n` is a prime below the sieve's bound; a number at or past the
    /// bound is reported as not prime.
    pub fn is_prime(&self, n: usize) -> (result: bool)
        ensures
            result == (n < self.bound() && self@[n as int]),
            result == (n < self.bound() && prime(n as nat)),
            result == (n < self.bound() && prime_by_trial(n as nat)),
    {
        proof {
            use_type_invariant(self);
            lemma_prime_iff_trial(n as nat);
        }
        match bitvec_get(&self.bitvec, n) {
            Some(bit) => bit,
            None => false,
        }
    }

    /// The smallest prime that is at least `from` and below the sieve's bound,
    /// or `None` when there is none.
    pub fn next_prime(&self, from: usize) -> (result: Option<usize>)
        ensures
            match result {
                Some(p) => {
                    &&& from <= p < self.bound()
                    &&& prime(p as nat)
                    &&& forall|q: nat| from <= q < p ==> !prime(q)
                },
                None => forall|q: nat| from <= q < self.bound() ==> !prime(q),
            },
    {
        proof {
            use_type_invariant(self);
        }
        let mut candidate = from;
        loop
            invariant
                from <= candidate,
                self@.len() <= usize::MAX,
                self@ == prime_table(self@.len()),
                forall|q: nat| from <= q < candidate && q < self.bound() ==> !prime(q),
            decreases self@.len() - candidate,
        {
            match bitvec_get(&self.bitvec, candidate) {
                None => {
                    return None;
                },
                Some(true) => {
                    return Some(candidate);
                },
                Some(false) => {
                    candidate += 1;
                },
            }
        }
    }
}

/// The integer square root: the largest `root` whose square is at most `n`.
fn integer_sqrt(n: usize) -> (root: usize)
    ensures
        root * root <= n < (root + 1) * (root + 1),
        root <= n / 2 + 1,
{
    let mut low: usize = 0;
    let mut high: usize = n / 2 + 2;
    assert(n < high * high) by (nonlinear_arith)
        requires
            high == n / 2 + 2,
    ;
    while high - low > 1
        invariant
            low < high <= n / 2 + 2,
            low * low <= n < high * high,
        decreases high - low,
    {
        let middle = low + (high - low) / 2;
        proof {
            lemma_square_le(middle as nat, n as nat);
        }
        if middle <= n / middle {
            low = middle;
        } else {
            high = middle;
        }
    }
    low
}

/// While no number in `[2, low)` divides `n` and `[low, high)` holds no prime,
/// no number in `[2, high)` divides `n`: a composite divisor would bring a
/// smaller one with it.
proof fn lemma_composites_do_not_divide(n: nat, low: nat, high: nat)
    requires
        forall|d: nat| 2 <= d < low ==> !divides(d, n),
        forall|q: nat| low <= q < high ==> !prime(q),
    ensures
        forall|d: nat| 2 <= d < high ==> !divides(d, n),
    decreases high,
{
    if low < high {
        let top = (high - 1) as nat;
        lemma_composites_do_not_divide(n, low, top);
        if 2 <= top && divides(top, n) {
            assert(!prime(top));
            let e = choose|e: nat| 2 <= e < top && divides(e, top);
            lemma_divides_transitive(e, top, n);
        }
    }
}

/// The smallest number that may still divide the dividend: the candidate
/// prime while there is one, the sieve's bound once they are used up.
spec fn frontier(candidate: Option<usize>, bound: nat) -> nat {
    match candidate {
        Some(p) => p as nat,
        None => bound,
    }
}

/// What `factors` returns for `n`: the prime factorization of a positive
/// number, and nothing for 0, which no product of primes can reach.
pub open spec fn is_factors_result(n: nat, result: Seq<usize>) -> bool {
    if n == 0 {
        result.len() == 0
    } else {
        is_factorization(as_nats(result), n)
    }
}

/// `factors` is a function of its argument: whatever it may return for `n`
/// is one and the same sequence, so a second call repeats the first.
pub proof fn lemma_factors_determined(n: nat, first: Seq<usize>, second: Seq<usize>)
    requires
        is_factors_result(n, first),
        is_factors_result(n, second),
    ensures
        first == second,
{
    if n > 0 {
        lemma_factorization_unique(as_nats(first), as_nats(second), n);
        assert forall|i: int| 0 <= i < first.len() implies first[i] == second[i] by {
            assert(as_nats(first)[i] == as_nats(second)[i]);
        }
    }
}

/// The prime factors of `n` in ascending order, each as often as it divides
/// `n`. Neither 0 nor 1 has any.
///
/// The candidates are the primes of a sieve that reaches just past the square
/// root of `n`. Each is divided out as often as it goes; once they are used
/// up, what is left of `n` has no divisor up to its own square root and is
/// the last prime factor.
pub fn factors(n: usize) -> (result: Vec<usize>)
    ensures
        is_factors_result(n as nat, result@),
        n >= 2 ==> product(as_nats(result@)) == n && all_prime(as_nats(result@)),
        n == 1 ==> result@.len() == 0,
        prime(n as nat) ==> result@ == seq![n],
{
    let mut factors: Vec<usize> = Vec::new();
    if n < 2 {
        return factors;
    }
    let tester = PrimeSieve::new(1 + integer_sqrt(n));
    let ghost bound = tester.bound();

    let mut dividend = n;
    let mut candidate = tester.next_prime(2);
    proof {
        assert(product(as_nats(factors@)) * dividend == n) by (nonlinear_arith)
            requires
                product(as_nats(factors@)) == 1,
                dividend == n,
        ;
        lemma_composites_do_not_divide(n as nat, 2, frontier(candidate, bound));
    }

    while dividend > 1
        invariant
            bound == tester.bound(),
            bound <= usize::MAX,
            n < bound * bound,
            1 <= dividend <= n,
            product(as_nats(factors@)) * dividend == n,
            all_prime(as_nats(factors@)),
            ascending(as_nats(factors@)),
            candidate matches Some(p) ==> 2 <= p < bound && prime(p as nat),
            dividend > 1 ==> forall|i: int|
                0 <= i < factors@.len() ==> factors@[i] <= frontier(candidate, bound),
            dividend > 1 ==> forall|d: nat|
                2 <= d < frontier(candidate, bound) ==> !divides(d, dividend as nat),
        decreases dividend, bound - frontier(candidate, bound),
    {
        let ghost found = as_nats(factors@);
        match candidate {
            Some(divisor) => {
                if dividend % divisor == 0 {
                    proof {
                        lemma_divides_cofactor(divisor as nat, dividend as nat);
                        let quotient = (dividend / divisor) as nat;
                        assert(product(found) * divisor * quotient == n && quotient < dividend)
                            by (nonlinear_arith)
                            requires
                                product(found) * dividend == n,
                                dividend == divisor * quotient,
                                divisor >= 2,
                                dividend >= 1,
                        ;
                        assert forall|d: nat|
                            2 <= d < divisor implies !divides(d, quotient) by {
                            if divides(d, quotient) {
                                assert(dividend == quotient * divisor) by (nonlinear_arith)
                                    requires
                                        dividend == divisor * quotient,
                                ;
                                lemma_multiple_divides(quotient, divisor as nat);
                                lemma_divides_transitive(d, quotient, dividend as nat);
                            }
                        }
                        lemma_product_push(found, divisor as nat);
                        assert(as_nats(factors@.push(divisor)) =~= found.push(divisor as nat));
                    }
                    factors.push(divisor);
                    dividend /= divisor;
                } else {
                    candidate = tester.next_prime(divisor + 1);
                    proof {
                        lemma_composites_do_not_divide(
                            dividend as nat,
                            (divisor + 1) as nat,
                            frontier(candidate, bound),
                        );
                    }
                }
            },
            None => {
                // No prime below the bound is left to try, and the square of
                // the bound exceeds the dividend: what remains is prime.
                proof {
                    lemma_prime_iff_trial(dividend as nat);
                    assert forall|d: nat| 2 <= d && d * d <= dividend implies !divides(
                        d,
                        dividend as nat,
                    ) by {
                        assert(d < bound) by (nonlinear_arith)
                            requires
                                d * d <= dividend,
                                dividend <= n,
                                n < bound * bound,
                        ;
                    }
                    assert(divides(dividend as nat, dividend as nat));
                    lemma_product_push(found, dividend as nat);
                    assert(as_nats(factors@.push(dividend)) =~= found.push(dividend as nat));
                }
                factors.push(dividend);
                dividend = 1;
            },
        }
    }
    proof {
        if prime(n as nat) {
            let single = seq![n as nat];
            assert(product(single) == n) by {
                reveal_with_fuel(product, 2);
            }
            lemma_factorization_unique(as_nats(factors@), single, n as nat);
        }
    }
    factors
}

} // verus!
