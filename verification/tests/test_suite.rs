use advanced_rust::test_suite::{group_total, tally, TestSuite};

fn math_results() -> Vec<(&'static str, bool)> {
    vec![
        ("addition", true),
        ("subtraction", true),
        ("division", true),
        ("multiplication overflow check", true),
        ("deliberate failure", false),
    ]
}

#[test]
fn suite_summary_lines() {
    let math = TestSuite::new("MathTests", math_results());
    assert_eq!(
        math.summary(),
        vec![
            "  Suite: MathTests".to_string(),
            "    [PASS] addition".to_string(),
            "    [PASS] subtraction".to_string(),
            "    [PASS] division".to_string(),
            "    [PASS] multiplication overflow check".to_string(),
            "    [FAIL] deliberate failure".to_string(),
            "  Result: 4/5 passed, 1 failed".to_string(),
        ]
    );
    assert!(!math.all_passed());
    assert_eq!(math.results().len(), 5);
    assert_eq!(math.results()[4], ("deliberate failure", false));
}

#[test]
fn passing_suite() {
    let strings = TestSuite::new(
        "StringTests",
        vec![("concatenation", true), ("length", true), ("uppercase", true), ("contains", true), ("empty check", true)],
    );
    assert!(strings.all_passed());
    assert_eq!(strings.summary().last().unwrap(), "  Result: 5/5 passed, 0 failed");
}

#[test]
fn empty_suite() {
    let empty = TestSuite::new("Empty", vec![]);
    assert!(empty.all_passed());
    assert_eq!(
        empty.summary(),
        vec!["  Suite: Empty".to_string(), "  Result: 0/0 passed, 0 failed".to_string()]
    );
}

#[test]
fn tally_counts() {
    assert_eq!(tally(&math_results()), (4, 5, 1));
    assert_eq!(tally(&vec![]), (0, 0, 0));
    assert_eq!(tally(&vec![("a", false), ("b", false)]), (0, 2, 2));
}

#[test]
fn group_total_line() {
    let mut all = math_results();
    all.extend_from_slice(&[("concatenation", true), ("length", true), ("uppercase", true), ("contains", true), ("empty check", true)]);
    all.extend_from_slice(&[("panic in test", false), ("index out of bounds", false), ("normal test after panics", true)]);
    let (line, ok) = group_total(&all);
    assert_eq!(line, "  === Group Total: 10/13 passed, 3 failed ===");
    assert!(!ok);
    let (line, ok) = group_total(&vec![("x", true)]);
    assert_eq!(line, "  === Group Total: 1/1 passed, 0 failed ===");
    assert!(ok);
}
