use track::tracker::{EndTime, MemoryTracker, StartTime, StartupStatus, TrackerErrorKind};

#[test]
fn is_running_true_after_starting_tracker() {
    let mut tracker = MemoryTracker::new();

    tracker.start();

    assert!(tracker.is_running());
}

#[test]
fn is_running_false_after_stopping_tracker() {
    let mut tracker = MemoryTracker::new();

    tracker.start();
    tracker.stop().unwrap();

    assert!(!tracker.is_running());
}

#[test]
fn time_record_created_when_tracking_stops() {
    let mut tracker = MemoryTracker::new();

    tracker.start();
    tracker.stop().unwrap();

    assert!(tracker.records().len() > 0);
}

#[test]
fn intial_start_returns_already_started_state() {
    let mut tracker = MemoryTracker::new();

    let started = tracker.start();

    assert_eq!(started, StartupStatus::Started);
}

#[test]
fn multiple_start_returns_already_running_state() {
    let mut tracker = MemoryTracker::new();

    tracker.start();
    let started = tracker.start();

    assert_eq!(started, StartupStatus::Running);
}

#[test]
fn fresh_store_start_stop_cycle() {
    let mut tracker = MemoryTracker::new();

    assert_eq!(tracker.start(), StartupStatus::Started);
    assert!(tracker.is_running());
    assert!(tracker.stop().is_ok());
    assert!(!tracker.is_running());
    assert_eq!(tracker.records().len(), 1);
}

#[test]
fn stop_on_fresh_store_is_logical_conflict() {
    let mut tracker = MemoryTracker::new();

    let err = tracker.stop().unwrap_err();

    assert_eq!(err.kind, TrackerErrorKind::NotRunning);
}

#[test]
fn start_twice_keeps_first_start_time() {
    let mut tracker = MemoryTracker::new();

    assert_eq!(tracker.start_at(100), StartupStatus::Started);
    assert_eq!(tracker.start_at(200), StartupStatus::Running);
    tracker.stop_at(300).unwrap();

    let records = tracker.records();
    assert_eq!(records.len(), 1);
    assert_eq!(records[0].start, StartTime(100));
    assert_eq!(records[0].end, EndTime(300));
}

#[test]
fn record_end_is_not_before_start() {
    let mut tracker = MemoryTracker::new();

    tracker.start();
    tracker.stop().unwrap();

    let records = tracker.records();
    assert!(records[0].end.timestamp_millis() >= records[0].start.timestamp_millis());
}
