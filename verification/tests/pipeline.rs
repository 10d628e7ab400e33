use advanced_rust::pipeline::{collect_sorted, is_prime, primes_in_range, try_is_prime};

#[test]
fn small_numbers_are_classified() {
    let expected = [false, false, true, true, false, true, false, true, false, false];
    for (n, want) in expected.iter().enumerate() {
        assert_eq!(is_prime(n as u64), *want, "n = {}", n);
    }
}

#[test]
fn squares_of_primes_are_not_prime() {
    assert!(!is_prime(25));
    assert!(!is_prime(49));
    assert!(!is_prime(121));
    assert!(!is_prime(169));
    assert!(!is_prime(289));
}

#[test]
fn larger_primes_and_composites() {
    assert!(is_prime(1_000_000_007));
    assert!(is_prime(2_147_483_647));
    assert!(!is_prime(1_000_000_007 * 3));
    assert!(!is_prime(4_294_967_297));
}

#[test]
fn primes_below_three_hundred() {
    let primes = primes_in_range(1, 300);
    assert_eq!(primes.len(), 62);
    assert_eq!(&primes[..10], &[2, 3, 5, 7, 11, 13, 17, 19, 23, 29]);
    assert_eq!(*primes.last().unwrap(), 293);
    assert!(primes.windows(2).all(|w| w[0] < w[1]));
}

#[test]
fn producer_ranges_split_the_primes() {
    let a = primes_in_range(1, 100);
    let b = primes_in_range(100, 200);
    let c = primes_in_range(200, 300);
    assert_eq!(a.len(), 25);
    assert_eq!(b.len(), 21);
    assert_eq!(c.len(), 16);
    let mut all = a.clone();
    all.extend(b);
    all.extend(c);
    assert_eq!(all, primes_in_range(1, 300));
}

#[test]
fn empty_range_has_no_primes() {
    assert!(primes_in_range(10, 10).is_empty());
    assert!(primes_in_range(20, 10).is_empty());
    assert!(primes_in_range(24, 29).is_empty());
}

#[test]
fn try_is_prime_answers_below_the_limit() {
    assert_eq!(try_is_prime(97), Some(true));
    assert_eq!(try_is_prime(91), Some(false));
    assert_eq!(try_is_prime(1), Some(false));
    assert_eq!(try_is_prime(u64::MAX), Some(false));
}

#[test]
fn collector_sorts_what_arrived() {
    assert_eq!(collect_sorted(vec![7, 2, 101, 5, 3, 2]), vec![2, 2, 3, 5, 7, 101]);
    assert_eq!(collect_sorted(vec![]), Vec::<u64>::new());
    assert_eq!(collect_sorted(vec![199]), vec![199]);
}
