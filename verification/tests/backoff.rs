use subway_sign::backoff::{cache_entry_is_fresh, FeedGuard};
use subway_sign::clock::{reading_from_millis, seconds_between, MonotonicClock};

#[test]
fn test_client_creation() {
    let guard = FeedGuard::new();
    assert!(guard.should_fetch("test", 0));
    assert!(guard.should_fetch("", u64::MAX));
}

#[test]
fn test_backoff_logic() {
    let mut guard = FeedGuard::new();
    assert!(guard.should_fetch("test", 1_000));

    guard.record_failure("test", 1_000);
    assert!(!guard.should_fetch("test", 1_000));

    guard.record_success("test");
    assert!(guard.should_fetch("test", 1_000));
}

#[test]
fn a_feed_rests_longer_after_each_failure() {
    let mut guard = FeedGuard::new();
    let rests = [15_000u64, 30_000, 60_000, 120_000, 240_000, 300_000, 300_000];
    let mut now = 5_000u64;
    for rest in rests {
        guard.record_failure("feed", now);
        assert!(!guard.should_fetch("feed", now));
        assert!(!guard.should_fetch("feed", now + rest - 1));
        assert!(guard.should_fetch("feed", now + rest));
        now += rest;
    }
}

#[test]
fn success_starts_the_count_anew() {
    let mut guard = FeedGuard::new();
    guard.record_failure("feed", 0);
    guard.record_failure("feed", 0);
    guard.record_failure("feed", 0);
    assert!(!guard.should_fetch("feed", 59_999));
    guard.record_success("feed");
    assert!(guard.should_fetch("feed", 0));
    guard.record_failure("feed", 100);
    assert!(!guard.should_fetch("feed", 15_099));
    assert!(guard.should_fetch("feed", 15_100));
}

#[test]
fn feeds_rest_apart() {
    let mut guard = FeedGuard::new();
    guard.record_failure("a", 0);
    guard.record_failure("a", 0);
    guard.record_failure("b", 0);
    assert!(guard.should_fetch("c", 0));
    assert!(guard.should_fetch("b", 15_000));
    assert!(!guard.should_fetch("a", 15_000));
    guard.record_success("b");
    assert!(!guard.should_fetch("a", 29_999));
    assert!(guard.should_fetch("a", 30_000));
    guard.record_success("never failed");
    assert!(guard.should_fetch("never failed", 0));
}

#[test]
fn the_end_of_a_rest_never_overflows() {
    let mut guard = FeedGuard::new();
    guard.record_failure("feed", u64::MAX - 10);
    assert!(!guard.should_fetch("feed", u64::MAX - 1));
    assert!(guard.should_fetch("feed", u64::MAX));
}

#[test]
fn an_error_is_logged_once_in_five_minutes() {
    let mut guard = FeedGuard::new();
    assert!(guard.note_error("alerts", 1_000));
    assert!(!guard.note_error("alerts", 1_000));
    assert!(!guard.note_error("alerts", 300_999));
    assert!(guard.note_error("feed_x", 2_000));
    assert!(guard.note_error("alerts", 301_000));
    assert!(!guard.note_error("alerts", 301_001));
    assert!(!guard.note_error("alerts", 600_999));
    assert!(guard.note_error("alerts", 601_000));
    assert!(!guard.note_error("alerts", 0));
}

#[test]
fn what_a_feed_gave_is_kept_for_less_than_five_minutes() {
    assert!(cache_entry_is_fresh(1_000, 1_000));
    assert!(cache_entry_is_fresh(1_000, 300_999));
    assert!(!cache_entry_is_fresh(1_000, 301_000));
    assert!(cache_entry_is_fresh(5_000, 1_000));
    assert!(!cache_entry_is_fresh(0, u64::MAX));
}

#[test]
fn a_count_of_milliseconds_stops_at_the_largest_reading() {
    assert_eq!(reading_from_millis(0), 0);
    assert_eq!(reading_from_millis(1_500), 1_500);
    assert_eq!(reading_from_millis(u64::MAX as u128), u64::MAX);
    assert_eq!(reading_from_millis(u64::MAX as u128 + 1), u64::MAX);
    assert_eq!(reading_from_millis(u128::MAX), u64::MAX);
}

#[test]
fn a_clock_never_runs_backwards() {
    let clock = MonotonicClock::new();
    let first = clock.now_ms();
    let second = clock.now_ms();
    assert!(second >= first);
    assert_eq!(seconds_between(second, first), (second - first) / 1000);
    assert_eq!(seconds_between(first, first + 5_000), 0);
    assert_eq!(seconds_between(first + 5_999, first), 5);
}
