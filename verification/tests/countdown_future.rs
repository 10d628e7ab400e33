use advanced_rust::countdown_future::{block_on, CountdownFuture, JoinTwo, Pollable, Step};

#[test]
fn single_countdown_logs_each_step() {
    let mut log = Vec::new();
    let result = block_on(CountdownFuture::new("Rocket", 5), &mut log);
    assert_eq!(result, "Rocket: liftoff!");
    assert_eq!(
        log,
        vec![
            "  [Rocket] countdown: 5...".to_string(),
            "  [Rocket] countdown: 4...".to_string(),
            "  [Rocket] countdown: 3...".to_string(),
            "  [Rocket] countdown: 2...".to_string(),
            "  [Rocket] countdown: 1...".to_string(),
        ]
    );
}

#[test]
fn countdown_from_zero_is_ready_at_once() {
    let mut log = vec!["before".to_string()];
    let mut f = CountdownFuture::new("Z", 0);
    match f.poll_step(&mut log) {
        Step::Ready(v) => assert_eq!(v, "Z: liftoff!"),
        Step::Pending => panic!("should be ready"),
    }
    assert_eq!(log, vec!["before".to_string()]);
}

#[test]
fn one_poll_decrements() {
    let mut log = Vec::new();
    let mut f = CountdownFuture::new("One", 1);
    assert!(matches!(f.poll_step(&mut log), Step::Pending));
    assert_eq!(log, vec!["  [One] countdown: 1...".to_string()]);
    assert!(matches!(f.poll_step(&mut log), Step::Ready(_)));
    assert_eq!(log.len(), 1);
}

#[test]
fn join_two_interleaves_and_returns_both() {
    let mut log = Vec::new();
    let joined = JoinTwo::new(CountdownFuture::new("Alpha", 3), CountdownFuture::new("Beta", 4));
    let (a, b) = block_on(joined, &mut log);
    assert_eq!(a, "Alpha: liftoff!");
    assert_eq!(b, "Beta: liftoff!");
    assert_eq!(
        log,
        vec![
            "  [Alpha] countdown: 3...".to_string(),
            "  [Beta] countdown: 4...".to_string(),
            "  [Alpha] countdown: 2...".to_string(),
            "  [Beta] countdown: 3...".to_string(),
            "  [Alpha] countdown: 1...".to_string(),
            "  [Beta] countdown: 2...".to_string(),
            "  [Beta] countdown: 1...".to_string(),
        ]
    );
}

#[test]
fn block_on_keeps_earlier_log_lines() {
    let mut log = vec!["start".to_string()];
    let r = block_on(CountdownFuture::new("K", 1), &mut log);
    assert_eq!(r, "K: liftoff!");
    assert_eq!(log[0], "start");
    assert_eq!(log.len(), 2);
}

#[test]
fn join_two_polls_each_unfinished_side_once_per_poll() {
    let mut log = Vec::new();
    let mut j = JoinTwo::new(CountdownFuture::new("Alpha", 3), CountdownFuture::new("Beta", 4));
    for _ in 0..3 {
        assert!(matches!(j.poll_step(&mut log), Step::Pending));
    }
    assert_eq!(log.len(), 6);
    // Alpha finishes in the fourth poll and is not polled again.
    assert!(matches!(j.poll_step(&mut log), Step::Pending));
    assert_eq!(log.len(), 7);
    assert_eq!(log[6], "  [Beta] countdown: 1...");
    match j.poll_step(&mut log) {
        Step::Ready((a, b)) => {
            assert_eq!(a, "Alpha: liftoff!");
            assert_eq!(b, "Beta: liftoff!");
        }
        Step::Pending => panic!("both sides have finished"),
    }
    assert_eq!(log.len(), 7);
}
