use std::time::{Duration, Instant};

use track::reporter::{total_duration_at, ReportTimespan};
use track::tracker::{EndTime, MemoryTracker, StartTime, TimeRecord};

#[test]
fn calculate_correct_duration_when_there_are_no_records() {
    let tracker = MemoryTracker::new();

    let duration = tracker.total_duration(ReportTimespan::Last(1000));

    assert_eq!(duration, 0);
}

fn wait_at_least(ms: u64) {
    let begin = Instant::now();
    loop {
        if begin.elapsed() >= Duration::from_millis(ms) {
            break;
        }
    }
}

#[test]
fn calculate_correct_duration_when_there_are_two_records() {
    let mut tracker = MemoryTracker::new();

    tracker.start();
    wait_at_least(10);
    tracker.stop().unwrap();

    tracker.start();
    wait_at_least(10);
    tracker.stop().unwrap();

    let duration = tracker.total_duration(ReportTimespan::Last(1000));

    assert!(duration >= 20);
}

#[test]
fn windowed_aggregation_counts_sessions_in_window() {
    let records = vec![
        TimeRecord { start: StartTime(1500), end: EndTime(1540) },
        TimeRecord { start: StartTime(1600), end: EndTime(1660) },
    ];

    let total = total_duration_at(&records, 2000, ReportTimespan::Last(1000));

    assert_eq!(total, 100);
}

#[test]
fn record_starting_before_window_is_excluded() {
    let records = vec![
        TimeRecord { start: StartTime(500), end: EndTime(1540) },
        TimeRecord { start: StartTime(1600), end: EndTime(1660) },
    ];

    let total = total_duration_at(&records, 2000, ReportTimespan::Last(1000));

    assert_eq!(total, 60);
}

#[test]
fn open_session_contributes_nothing() {
    let mut tracker = MemoryTracker::new();

    tracker.start();

    let duration = tracker.total_duration(ReportTimespan::Last(1000));

    assert_eq!(duration, 0);
}
