use advanced_rust::constants::{clamp, factorial, square, MAX_CONNECTIONS, TIMEOUT_MILLIS, TIMEOUT_SECONDS};

#[test]
fn constant_values() {
    assert_eq!(MAX_CONNECTIONS, 100);
    assert_eq!(TIMEOUT_SECONDS, 3600);
    assert_eq!(TIMEOUT_MILLIS, TIMEOUT_SECONDS * 1000);
}

#[test]
fn square_clamp_factorial() {
    assert_eq!(square(12), 144);
    assert_eq!(square(0), 0);
    assert_eq!(clamp(150, 0, 100), 100);
    assert_eq!(clamp(-5, 0, 100), 0);
    assert_eq!(clamp(42, 0, 100), 42);
    assert_eq!(factorial(10), 3628800);
    assert_eq!(factorial(0), 1);
    assert_eq!(factorial(1), 1);
    assert_eq!(factorial(20), 2432902008176640000);
}
