use advanced_rust::text::{chars_of, push_decimal, push_signed_decimal, push_str, string_of, u64_to_decimal};

#[test]
fn decimal_forms() {
    assert_eq!(u64_to_decimal(0), "0");
    assert_eq!(u64_to_decimal(7), "7");
    assert_eq!(u64_to_decimal(1000), "1000");
    assert_eq!(u64_to_decimal(u64::MAX), "18446744073709551615");
    let mut s = String::from("n=");
    push_decimal(&mut s, 42);
    assert_eq!(s, "n=42");
}

#[test]
fn signed_decimal_forms() {
    let mut s = String::new();
    push_signed_decimal(&mut s, -5);
    assert_eq!(s, "-5");
    let mut m = String::new();
    push_signed_decimal(&mut m, i64::MIN);
    assert_eq!(m, "-9223372036854775808");
    let mut z = String::new();
    push_signed_decimal(&mut z, 0);
    assert_eq!(z, "0");
}

#[test]
fn chars_round_trip() {
    let cs = chars_of("añb€");
    assert_eq!(cs, vec!['a', 'ñ', 'b', '€']);
    assert_eq!(string_of(&cs), "añb€");
    let mut s = String::from("x");
    push_str(&mut s, "yz");
    assert_eq!(s, "xyz");
}
