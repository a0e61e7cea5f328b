//! The controllable clock.

use chrono::{Duration, Utc};
use imap_filter::client_ops::{Clock, RealClock};
use imap_filter::virtual_clock::VirtualClock;

fn rfc3339_secs(s: &str) -> i64 {
    chrono::DateTime::parse_from_rfc3339(s).unwrap().timestamp()
}

#[test]
fn test_virtual_clock_starts_at_now() {
    let before = Utc::now().timestamp();
    let clock = VirtualClock::new();
    let after = Utc::now().timestamp();

    let clock_time = clock.now();
    assert!(clock_time >= before);
    assert!(clock_time <= after);
}

#[test]
fn test_virtual_clock_at_specific_time() {
    let specific_time = rfc3339_secs("2024-01-15T10:00:00+00:00");

    let clock = VirtualClock::at(specific_time);
    assert_eq!(clock.now(), specific_time);
}

#[test]
fn test_virtual_clock_advance_days() {
    let start_time = rfc3339_secs("2024-01-15T10:00:00+00:00");

    let clock = VirtualClock::at(start_time);
    clock.advance_days(7);

    let expected = rfc3339_secs("2024-01-22T10:00:00+00:00");

    assert_eq!(clock.now(), expected);
}

#[test]
fn test_virtual_clock_advance_duration() {
    let start_time = rfc3339_secs("2024-01-15T10:00:00+00:00");

    let clock = VirtualClock::at(start_time);
    clock.advance(Duration::hours(12).num_seconds());

    let expected = rfc3339_secs("2024-01-15T22:00:00+00:00");

    assert_eq!(clock.now(), expected);
}

#[test]
fn test_virtual_clock_rewind() {
    let start_time = rfc3339_secs("2024-01-15T10:00:00+00:00");

    let clock = VirtualClock::at(start_time);
    clock.rewind(Duration::days(3).num_seconds());

    let expected = rfc3339_secs("2024-01-12T10:00:00+00:00");

    assert_eq!(clock.now(), expected);
}

#[test]
fn test_virtual_clock_set() {
    let clock = VirtualClock::new();
    let new_time = rfc3339_secs("2025-06-01T00:00:00+00:00");

    clock.set(new_time);
    assert_eq!(clock.now(), new_time);
}

#[test]
fn test_virtual_clock_is_clone() {
    let clock1 = VirtualClock::new();
    let clock2 = clock1.clone();

    // both clones share the same underlying instant
    clock1.advance_days(5);
    assert_eq!(clock1.now(), clock2.now());
}

#[test]
fn virtual_clock_test_real_clock_returns_current_time() {
    let before = Utc::now().timestamp();
    let clock = RealClock;
    let clock_time = clock.now();
    let after = Utc::now().timestamp();

    assert!(clock_time >= before);
    assert!(clock_time <= after);
}

#[test]
fn client_ops_test_real_clock_returns_current_time() {
    let before = Utc::now().timestamp();
    let clock = RealClock;
    let clock_time = Clock::now(&clock);
    let after = Utc::now().timestamp();

    assert!(clock_time >= before);
    assert!(clock_time <= after);
}

#[test]
fn test_clock_trait_works_with_virtual_clock() {
    fn use_clock<C: Clock>(clock: &C) -> i64 {
        clock.now()
    }

    let specific_time = rfc3339_secs("2024-01-15T10:00:00+00:00");

    let clock = VirtualClock::at(specific_time);
    assert_eq!(use_clock(&clock), specific_time);
}
