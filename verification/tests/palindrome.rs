use project_euler::is_palindrome;

#[test]
fn is_palindrome_works() {
    let palindromes = [1, 22, 333, 434, 5665, 678876, 23455432, 1234554321];

    assert!(palindromes.iter().all(|&n| is_palindrome(n)));
}

#[test]
fn single_digits_and_zero_are_palindromes() {
    for n in 0..10u64 {
        assert!(is_palindrome(n), "{}", n);
    }
}

#[test]
fn non_palindromes_are_rejected() {
    for n in [10u64, 12, 123, 1000, 1231, 23455431, 1234554320, 9_000_000_000_000_000_001] {
        assert!(!is_palindrome(n), "{}", n);
    }
}

#[test]
fn trailing_zeros_have_no_leading_partner() {
    assert!(!is_palindrome(110));
    assert!(!is_palindrome(100));
    assert!(is_palindrome(101));
}

#[test]
fn largest_inputs() {
    // 18446744073709551615
    assert!(!is_palindrome(u64::MAX));
    assert!(is_palindrome(9_999_999_999_999_999_999));
    assert!(is_palindrome(12_345_678_900_987_654_321));
}

#[test]
fn is_palindrome_agrees_with_the_reversed_digit_string() {
    for n in 0..20_000u64 {
        let s = n.to_string();
        let reversed: String = s.chars().rev().collect();
        assert_eq!(is_palindrome(n), s == reversed, "{}", n);
    }
}

#[test]
fn is_palindrome_is_repeatable() {
    for n in [0u64, 7, 22, 123, 434, 23455432] {
        assert_eq!(is_palindrome(n), is_palindrome(n));
    }
}
