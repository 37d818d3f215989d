use project_euler::prime::{factors, PrimeSieve};

fn divides_none_up_to_root(n: usize) -> bool {
    n >= 2 && (2..n).take_while(|d| d * d <= n).all(|d| n % d != 0)
}

#[test]
fn prime_sieve_works() {
    let sieve = PrimeSieve::new(252);

    let primes = vec![2, 3, 5, 7, 11, 13, 127, 151, 211, 251];

    assert!(primes.iter().all(|&p| sieve.is_prime(p)))
}

#[test]
fn generate_primes() {
    let sieve = PrimeSieve::new(20);

    let primes: Vec<usize> = (0..=20).filter(|&n| sieve.is_prime(n)).collect();

    assert_eq!(primes, vec![2, 3, 5, 7, 11, 13, 17, 19]);
}

#[test]
fn zero_and_one_are_not_prime() {
    let sieve = PrimeSieve::new(10);
    assert!(!sieve.is_prime(0));
    assert!(!sieve.is_prime(1));
}

#[test]
fn known_primes_and_composites() {
    let sieve = PrimeSieve::new(252);
    assert!(sieve.is_prime(2));
    assert!(!sieve.is_prime(9));
    assert!(sieve.is_prime(251));
    assert!(!sieve.is_prime(4));
    assert!(!sieve.is_prime(249));
    assert!(!sieve.is_prime(250));
}

#[test]
fn numbers_at_or_past_the_bound_are_reported_not_prime() {
    let sieve = PrimeSieve::new(11);
    assert!(sieve.is_prime(7));
    assert!(!sieve.is_prime(11));
    assert!(!sieve.is_prime(13));
    assert!(!sieve.is_prime(usize::MAX));
}

#[test]
fn smallest_sieve_knows_no_prime() {
    let sieve = PrimeSieve::new(2);
    assert!(!sieve.is_prime(0));
    assert!(!sieve.is_prime(1));
    assert!(!sieve.is_prime(2));
    assert_eq!(sieve.next_prime(0), None);
}

#[test]
fn sieve_bound_three_holds_two() {
    let sieve = PrimeSieve::new(3);
    assert!(sieve.is_prime(2));
    assert!(!sieve.is_prime(3));
}

#[test]
fn squares_of_primes_are_struck() {
    let sieve = PrimeSieve::new(170);
    for p in [2usize, 3, 5, 7, 11, 13] {
        assert!(sieve.is_prime(p));
        assert!(!sieve.is_prime(p * p), "{}", p * p);
    }
}

#[test]
fn sieve_agrees_with_trial_division_up_to_the_root() {
    let sieve = PrimeSieve::new(5000);
    for n in 0..5000 {
        assert_eq!(sieve.is_prime(n), divides_none_up_to_root(n), "{}", n);
    }
}

#[test]
fn sieve_is_repeatable() {
    let first = PrimeSieve::new(300);
    let second = PrimeSieve::new(300);
    for n in 0..320 {
        assert_eq!(first.is_prime(n), first.is_prime(n));
        assert_eq!(first.is_prime(n), second.is_prime(n));
    }
}

#[test]
fn next_prime_walks_the_primes_in_order() {
    let sieve = PrimeSieve::new(30);
    let mut found = Vec::new();
    let mut from = 0;
    while let Some(p) = sieve.next_prime(from) {
        found.push(p);
        from = p + 1;
    }
    assert_eq!(found, vec![2, 3, 5, 7, 11, 13, 17, 19, 23, 29]);
}

#[test]
fn next_prime_returns_its_argument_when_prime() {
    let sieve = PrimeSieve::new(30);
    assert_eq!(sieve.next_prime(7), Some(7));
    assert_eq!(sieve.next_prime(8), Some(11));
    assert_eq!(sieve.next_prime(24), Some(29));
}

#[test]
fn next_prime_ends_at_the_bound() {
    let sieve = PrimeSieve::new(30);
    assert_eq!(sieve.next_prime(30), None);
    assert_eq!(sieve.next_prime(31), None);
    assert_eq!(sieve.next_prime(usize::MAX), None);
    let short = PrimeSieve::new(29);
    assert_eq!(short.next_prime(24), None);
}

#[test]
fn factors_of_one_is_empty() {
    assert_eq!(factors(1), Vec::<usize>::new());
}

#[test]
fn factors_of_zero_is_empty() {
    assert_eq!(factors(0), Vec::<usize>::new());
}

#[test]
fn factors_of_twelve() {
    assert_eq!(factors(12), vec![2, 2, 3]);
}

#[test]
fn factors_of_small_numbers() {
    assert_eq!(factors(2), vec![2]);
    assert_eq!(factors(3), vec![3]);
    assert_eq!(factors(4), vec![2, 2]);
    assert_eq!(factors(6), vec![2, 3]);
    assert_eq!(factors(8), vec![2, 2, 2]);
    assert_eq!(factors(9), vec![3, 3]);
    assert_eq!(factors(10), vec![2, 5]);
    assert_eq!(factors(360), vec![2, 2, 2, 3, 3, 5]);
    assert_eq!(factors(1001), vec![7, 11, 13]);
}

#[test]
fn factors_of_a_prime_is_the_prime() {
    for p in [2usize, 3, 5, 7, 11, 13, 127, 151, 211, 251, 7919, 1_000_003] {
        assert_eq!(factors(p), vec![p]);
    }
}

#[test]
fn factors_with_one_large_prime_factor() {
    assert_eq!(factors(2 * 1_000_003), vec![2, 1_000_003]);
    assert_eq!(factors(3 * 5 * 104_729), vec![3, 5, 104_729]);
    assert_eq!(factors(13_195), vec![5, 7, 13, 29]);
}

#[test]
fn factors_of_squares_and_powers() {
    assert_eq!(factors(49), vec![7, 7]);
    assert_eq!(factors(1024), vec![2; 10]);
    assert_eq!(factors(251 * 251), vec![251, 251]);
    assert_eq!(factors(1_000_003 * 1_000_003), vec![1_000_003, 1_000_003]);
}

#[test]
fn factors_multiply_back_and_are_prime_and_ascending() {
    let sieve = PrimeSieve::new(3001);
    for n in 2..3000usize {
        let found = factors(n);
        assert_eq!(found.iter().product::<usize>(), n);
        assert!(found.iter().all(|&p| sieve.is_prime(p)), "{}", n);
        assert!(found.windows(2).all(|pair| pair[0] <= pair[1]), "{}", n);
        assert!(!found.is_empty());
    }
}

#[test]
fn factors_is_repeatable() {
    for n in [0usize, 1, 2, 12, 97, 360, 600_851_475_143] {
        assert_eq!(factors(n), factors(n));
    }
}

#[test]
fn factors_of_a_twelve_digit_number() {
    assert_eq!(factors(600_851_475_143), vec![71, 839, 1471, 6857]);
}

#[test]
fn factors_of_numbers_around_two_to_the_thirty_second() {
    assert_eq!(factors(4_294_967_295), vec![3, 5, 17, 257, 65_537]);
    assert_eq!(factors(4_294_967_296), vec![2; 32]);
    assert_eq!(factors(4_294_967_297), vec![641, 6_700_417]);
}

#[test]
fn factors_of_a_mersenne_prime() {
    assert_eq!(factors(2_147_483_647), vec![2_147_483_647]);
}

#[test]
fn factors_next_to_a_square() {
    // 46_340 squared is the largest square below 2^31.
    assert_eq!(factors(46_340 * 46_340), vec![2, 2, 2, 2, 5, 5, 7, 7, 331, 331]);
    assert_eq!(factors(48 * 50), vec![2, 2, 2, 2, 2, 3, 5, 5]);
    assert_eq!(factors(7 * 7 - 1), vec![2, 2, 2, 2, 3]);
    assert_eq!(factors(7 * 7 + 1), vec![2, 5, 5]);
}
