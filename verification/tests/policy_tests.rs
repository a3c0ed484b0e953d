use mmap_io::flush::{flush_due, FlushPolicy, FlushTimer};

#[test]
fn test_flush_due_never_and_manual() {
    assert!(!flush_due(FlushPolicy::Never, 1_000_000, 1_000_000));
    assert!(!flush_due(FlushPolicy::Manual, 1_000_000, 1_000_000));
}

#[test]
fn test_flush_due_always() {
    assert!(flush_due(FlushPolicy::Always, 0, 0));
    assert!(flush_due(FlushPolicy::Always, 1, 1));
}

#[test]
fn test_flush_due_every_bytes() {
    assert!(!flush_due(FlushPolicy::EveryBytes(100), 99, 5));
    assert!(flush_due(FlushPolicy::EveryBytes(100), 100, 5));
    assert!(flush_due(FlushPolicy::EveryBytes(100), 101, 5));
}

#[test]
fn test_flush_due_every_writes() {
    assert!(!flush_due(FlushPolicy::EveryWrites(3), 1_000_000, 2));
    assert!(flush_due(FlushPolicy::EveryWrites(3), 0, 3));
}

#[test]
fn test_flush_due_every_millis_is_not_inline() {
    // Time-based flushing is the background worker's job; no inline trigger.
    assert!(!flush_due(FlushPolicy::EveryMillis(100), 1_000_000, 1_000_000));
}

#[test]
fn test_flush_policy_default_is_never() {
    assert_eq!(FlushPolicy::default(), FlushPolicy::Never);
}

#[test]
fn test_flush_timer_zero_interval_refused() {
    assert!(FlushTimer::new(0, 17).is_none());
}

#[test]
fn test_flush_timer_schedule() {
    let mut timer = FlushTimer::new(100, 0).expect("nonzero interval");
    assert!(!timer.should_flush(50));
    assert!(timer.should_flush(100));
    assert!(timer.should_flush(250));
    timer.manual_flush(100);
    assert!(!timer.should_flush(150));
    assert!(timer.should_flush(200));
}
