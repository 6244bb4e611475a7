use prime_spiral::prime::is_prime;

#[test]
fn lib_test_is_prime_edge_cases() {
    assert_eq!(is_prime(0), false);
    assert_eq!(is_prime(1), false);
}

#[test]
fn lib_test_is_prime_small_primes() {
    assert_eq!(is_prime(2), true);
    assert_eq!(is_prime(3), true);
    assert_eq!(is_prime(5), true);
    assert_eq!(is_prime(17), true);
    assert_eq!(is_prime(97), true);
}

#[test]
fn lib_test_is_prime_composites() {
    assert_eq!(is_prime(4), false);
    assert_eq!(is_prime(25), false);
    assert_eq!(is_prime(100), false);
}

#[test]
fn main_test_is_prime_edge_cases() {
    assert_eq!(is_prime(0), false);
    assert_eq!(is_prime(1), false);
}

#[test]
fn main_test_is_prime_small_primes() {
    assert_eq!(is_prime(2), true);
    assert_eq!(is_prime(3), true);
    assert_eq!(is_prime(5), true);
    assert_eq!(is_prime(17), true);
    assert_eq!(is_prime(97), true);
}

#[test]
fn main_test_is_prime_composites() {
    assert_eq!(is_prime(4), false);
    assert_eq!(is_prime(25), false);
    assert_eq!(is_prime(100), false);
}

#[test]
fn even_numbers_above_two_are_not_prime() {
    for n in [4u32, 6, 8, 1000, 4294967294] {
        assert!(!is_prime(n));
    }
}

#[test]
fn squares_of_odd_primes_are_caught_at_the_root() {
    // the smallest factor equals the integer square root
    assert!(!is_prime(9));
    assert!(!is_prime(49));
    assert!(!is_prime(121));
    assert!(!is_prime(65521 * 65521));
}

#[test]
fn primality_agrees_with_naive_division() {
    for n in 0u32..2000 {
        let naive = n >= 2 && (2..n).all(|d| n % d != 0);
        assert_eq!(is_prime(n), naive, "n = {}", n);
    }
}

#[test]
fn large_primes_and_composites() {
    assert!(is_prime(4294967291));
    assert!(!is_prime(4294967295));
    assert!(!is_prime(65537 * 65521));
    assert!(is_prime(65537));
}
