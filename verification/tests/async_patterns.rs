use advanced_rust::async_patterns::{
    run_counter, CounterActor, CounterMsg, DeadlineCollector, PeakTracker, RecvEvent,
    ShutdownWorker, TickCountdown, WorkerEvent,
};
use advanced_rust::countdown_future::block_on;

#[test]
fn counter_actor_answers_the_count() {
    let mut a = CounterActor::new();
    assert_eq!(a.handle(CounterMsg::Increment), None);
    assert_eq!(a.handle(CounterMsg::Increment), None);
    assert_eq!(a.handle(CounterMsg::Increment), None);
    assert_eq!(a.handle(CounterMsg::Get), Some(3));
    let replies = run_counter(vec![
        CounterMsg::Get,
        CounterMsg::Increment,
        CounterMsg::Get,
        CounterMsg::Increment,
        CounterMsg::Increment,
        CounterMsg::Get,
    ]);
    assert_eq!(replies, vec![0, 1, 3]);
}

#[test]
fn worker_stops_on_shutdown() {
    let mut w = ShutdownWorker::new();
    assert!(!w.step(WorkerEvent::Tick));
    assert!(!w.step(WorkerEvent::Tick));
    assert!(!w.step(WorkerEvent::ShutdownChanged(false)));
    assert!(!w.step(WorkerEvent::Tick));
    assert!(w.step(WorkerEvent::ShutdownChanged(true)));
    assert_eq!(w.ticks(), 3);
}

#[test]
fn collector_stops_at_deadline_or_close() {
    let mut c = DeadlineCollector::new();
    assert!(!c.step(RecvEvent::Message(Some("msg-0".to_string()))));
    assert!(!c.step(RecvEvent::Message(Some("msg-1".to_string()))));
    assert!(c.step(RecvEvent::Deadline));
    assert_eq!(c.into_received(), vec!["msg-0".to_string(), "msg-1".to_string()]);
    let mut d = DeadlineCollector::new();
    assert!(d.step(RecvEvent::Message(None)));
    assert!(d.into_received().is_empty());
}

#[test]
fn peak_tracker_remembers_the_most() {
    let mut t = PeakTracker::new();
    assert_eq!(t.enter(), 1);
    assert_eq!(t.enter(), 2);
    t.leave();
    assert_eq!(t.enter(), 2);
    t.leave();
    t.leave();
    assert_eq!(t.enter(), 1);
    assert_eq!(t.peak(), 2);
}

#[test]
fn tick_countdown_completes() {
    let mut log = Vec::new();
    assert_eq!(block_on(TickCountdown::new(5), &mut log), "countdown complete!");
    assert!(log.is_empty());
}
