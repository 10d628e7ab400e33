use advanced_rust::countdown_future::{block_on, Pollable, Step};
use advanced_rust::runtime::{
    Countdown, IoState, JoinAll, JoinState, Sleep, TaskCountdown, TimerQueue,
};

#[test]
fn timer_queue_orders_by_deadline() {
    let mut q: TimerQueue<&str> = TimerQueue::new();
    assert_eq!(q.next_deadline(), None);
    q.register(200, "a");
    q.register(100, "b");
    q.register(150, "c");
    q.register(100, "d");
    assert_eq!(q.next_deadline(), Some(100));
    assert_eq!(q.take_expired(99), Vec::<&str>::new());
    assert_eq!(q.take_expired(150), vec!["b", "d", "c"]);
    assert_eq!(q.next_deadline(), Some(200));
    assert_eq!(q.take_expired(1000), vec!["a"]);
    assert_eq!(q.next_deadline(), None);
}

#[test]
fn sleep_registers_once_then_completes() {
    let mut q: TimerQueue<u32> = TimerQueue::new();
    let mut s = Sleep::new(10, 50);
    assert!(!s.poll(20, &mut q, 1));
    assert!(!s.poll(30, &mut q, 2));
    assert_eq!(q.next_deadline(), Some(60));
    assert_eq!(q.take_expired(59), Vec::<u32>::new());
    assert!(s.poll(60, &mut q, 3));
    assert_eq!(q.take_expired(60), vec![1]);
}

#[test]
fn join_state_hands_over_the_value() {
    let mut st: JoinState<i32, &str> = JoinState::Unawaited;
    assert_eq!(st.poll("w1"), None);
    assert_eq!(st.complete(42), Some("w1"));
    assert_eq!(st.poll("w2"), Some(42));
    assert!(matches!(st, JoinState::Taken));

    let mut early: JoinState<i32, &str> = JoinState::Unawaited;
    assert_eq!(early.complete(7), None);
    assert_eq!(early.poll("w"), Some(7));
}

#[test]
fn io_state_wakes_the_latest_poll() {
    let mut st: IoState<String, u8> = IoState::Pending(None);
    assert_eq!(st.poll(1), None);
    assert_eq!(st.poll(2), None);
    assert_eq!(st.complete("done".to_string()), Some(2));
    assert_eq!(st.poll(3), Some("done".to_string()));
    assert!(matches!(st, IoState::Pending(None)));
}

#[test]
fn join_all_collects_in_order() {
    let futures = vec![
        TaskCountdown::new(1, 2),
        TaskCountdown::new(2, 4),
        TaskCountdown::new(3, 1),
    ];
    let mut log = Vec::new();
    let results = block_on(JoinAll::new(futures), &mut log);
    assert_eq!(
        results,
        vec!["future 1 done".to_string(), "future 2 done".to_string(), "future 3 done".to_string()]
    );
    assert!(log.is_empty());
}

#[test]
fn join_all_of_nothing_is_ready_at_once() {
    let mut j: JoinAll<TaskCountdown> = JoinAll::new(vec![]);
    let mut log = Vec::new();
    match j.poll_step(&mut log) {
        Step::Ready(v) => assert!(v.is_empty()),
        Step::Pending => panic!("expected ready"),
    }
}

#[test]
fn countdown_logs_remaining() {
    let mut log = Vec::new();
    let r = block_on(Countdown::new(3), &mut log);
    assert_eq!(r, "done after countdown!");
    assert_eq!(
        log,
        vec![
            "  CountdownFuture: 3 remaining".to_string(),
            "  CountdownFuture: 2 remaining".to_string(),
            "  CountdownFuture: 1 remaining".to_string(),
        ]
    );
}

#[test]
fn join_all_polls_every_running_slot_each_poll() {
    let mut j = JoinAll::new(vec![Countdown::new(1), Countdown::new(2)]);
    let mut log = Vec::new();
    assert!(matches!(j.poll_step(&mut log), Step::Pending));
    assert_eq!(
        log,
        vec![
            "  CountdownFuture: 1 remaining".to_string(),
            "  CountdownFuture: 2 remaining".to_string(),
        ]
    );
    assert!(matches!(j.poll_step(&mut log), Step::Pending));
    assert_eq!(log.len(), 3);
    assert_eq!(log[2], "  CountdownFuture: 1 remaining");
    match j.poll_step(&mut log) {
        Step::Ready(v) => assert_eq!(
            v,
            vec!["done after countdown!".to_string(), "done after countdown!".to_string()]
        ),
        Step::Pending => panic!("every slot has finished"),
    }
    assert_eq!(log.len(), 3);
}
