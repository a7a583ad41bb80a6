use fetch_vault::lockout::{LockoutStatus, PersistentRateLimiter};
use fetch_vault::settings::BruteForceConfig;
use fetch_vault::storage::Storage;
use fetch_vault::time::Timestamp;

fn at(secs: i64, nanos: u32) -> Timestamp {
    Timestamp::from_parts(secs, nanos).unwrap()
}

fn store(max_attempts: u32, minutes: u32) -> Storage {
    let mut s = Storage::new("v".to_string());
    s.set_brute_force_config(BruteForceConfig {
        enabled: true,
        max_attempts,
        lockout_duration_minutes: minutes,
    });
    s
}

fn open(failed_attempts: u32, max_attempts: u32, minutes: u32) -> LockoutStatus {
    LockoutStatus {
        is_locked_out: false,
        remaining_seconds: 0,
        failed_attempts,
        max_attempts,
        lockout_duration_minutes: minutes,
    }
}

#[test]
fn three_failures_lock_and_the_lockout_heals() {
    let mut s = store(3, 5);
    for k in 0..3u32 {
        let status = PersistentRateLimiter::check_and_update_lockout_at(&mut s, &at(1_000 + k as i64, 0));
        assert_eq!(status, open(k, 3, 5));
        PersistentRateLimiter::record_failed_attempt_at(&mut s, &at(1_000 + k as i64, 0));
    }
    assert_eq!(s.get_failed_login_attempts(), 3);
    assert_eq!(s.get_last_failed_attempt_timestamp(), Some(at(1_002, 0)));
    let status = PersistentRateLimiter::check_and_update_lockout_at(&mut s, &at(1_003, 0));
    assert_eq!(
        status,
        LockoutStatus {
            is_locked_out: true,
            remaining_seconds: 299,
            failed_attempts: 3,
            max_attempts: 3,
            lockout_duration_minutes: 5,
        }
    );
    assert_eq!(s.get_failed_login_attempts(), 3);
    assert_eq!(s.get_last_failed_attempt_timestamp(), Some(at(1_002, 0)));
    let status = PersistentRateLimiter::check_and_update_lockout_at(&mut s, &at(1_302, 0));
    assert_eq!(status, open(0, 3, 5));
    assert_eq!(s.get_failed_login_attempts(), 0);
    assert_eq!(s.get_last_failed_attempt_timestamp(), None);
    let status = PersistentRateLimiter::check_and_update_lockout_at(&mut s, &at(1_303, 0));
    assert_eq!(status, open(0, 3, 5));
}

#[test]
fn the_seconds_left_are_whole_seconds() {
    let mut s = store(1, 1);
    PersistentRateLimiter::record_failed_attempt_at(&mut s, &at(100, 500_000_000));
    let left = |s: &mut Storage, secs: i64, nanos: u32| {
        let status = PersistentRateLimiter::check_and_update_lockout_at(s, &at(secs, nanos));
        (status.is_locked_out, status.remaining_seconds)
    };
    assert_eq!(left(&mut s, 100, 500_000_000), (true, 60));
    assert_eq!(left(&mut s, 100, 500_000_001), (true, 59));
    assert_eq!(left(&mut s, 159, 500_000_000), (true, 1));
    assert_eq!(left(&mut s, 159, 600_000_000), (true, 0));
    assert_eq!(left(&mut s, 160, 499_999_999), (true, 0));
    assert_eq!(left(&mut s, 50, 0), (true, 110));
    assert_eq!(s.get_failed_login_attempts(), 1);
    assert_eq!(left(&mut s, 160, 500_000_000), (false, 0));
    assert_eq!(s.get_failed_login_attempts(), 0);
}

#[test]
fn a_policy_that_is_off_only_reports_the_counter() {
    let mut s = store(2, 5);
    PersistentRateLimiter::record_failed_attempt_at(&mut s, &at(100, 0));
    PersistentRateLimiter::record_failed_attempt_at(&mut s, &at(101, 0));
    PersistentRateLimiter::record_failed_attempt_at(&mut s, &at(102, 0));
    s.set_brute_force_config(BruteForceConfig {
        enabled: false,
        max_attempts: 2,
        lockout_duration_minutes: 5,
    });
    let status = PersistentRateLimiter::check_and_update_lockout_at(&mut s, &at(103, 0));
    assert_eq!(status, open(3, 2, 5));
    let status = PersistentRateLimiter::check_and_update_lockout_at(&mut s, &at(100_000, 0));
    assert_eq!(status, open(3, 2, 5));
    assert_eq!(s.get_failed_login_attempts(), 3);
    assert_eq!(s.get_last_failed_attempt_timestamp(), Some(at(102, 0)));
}

#[test]
fn a_full_counter_without_an_instant_does_not_lock() {
    let mut s = store(2, 5);
    s.set_failed_login_attempts(7);
    let status = PersistentRateLimiter::check_and_update_lockout_at(&mut s, &at(100, 0));
    assert_eq!(status, open(7, 2, 5));
    assert_eq!(s.get_failed_login_attempts(), 7);
}

#[test]
fn a_lockout_of_no_minutes_is_over_at_once() {
    let mut s = store(1, 0);
    PersistentRateLimiter::record_failed_attempt_at(&mut s, &at(100, 0));
    let status = PersistentRateLimiter::check_and_update_lockout_at(&mut s, &at(100, 0));
    assert_eq!(status, open(0, 1, 0));
    let mut s = store(1, 0);
    PersistentRateLimiter::record_failed_attempt_at(&mut s, &at(100, 0));
    let status = PersistentRateLimiter::check_and_update_lockout_at(&mut s, &at(99, 0));
    assert!(status.is_locked_out);
    assert_eq!(status.remaining_seconds, 1);
}

#[test]
fn the_counter_stops_at_its_largest_value() {
    let mut s = store(3, 5);
    s.set_failed_login_attempts(u32::MAX - 1);
    PersistentRateLimiter::record_failed_attempt_at(&mut s, &at(100, 0));
    assert_eq!(s.get_failed_login_attempts(), u32::MAX);
    PersistentRateLimiter::record_failed_attempt_at(&mut s, &at(101, 0));
    assert_eq!(s.get_failed_login_attempts(), u32::MAX);
    assert_eq!(s.get_last_failed_attempt_timestamp(), Some(at(101, 0)));
}

#[test]
fn the_longest_lockout_at_the_latest_instant_does_not_overflow() {
    let mut s = store(1, u32::MAX);
    let last = at(fetch_vault::time::MAX_SECS, 999_999_999);
    PersistentRateLimiter::record_failed_attempt_at(&mut s, &last);
    let status =
        PersistentRateLimiter::check_and_update_lockout_at(&mut s, &at(fetch_vault::time::MIN_SECS, 0));
    assert!(status.is_locked_out);
    assert_eq!(
        status.remaining_seconds,
        fetch_vault::time::MAX_SECS - fetch_vault::time::MIN_SECS + 60 * (u32::MAX as i64)
    );
}

#[test]
fn reset_clears_counter_and_instant() {
    let mut s = store(3, 5);
    PersistentRateLimiter::record_failed_attempt_at(&mut s, &at(100, 0));
    PersistentRateLimiter::reset_attempts(&mut s);
    assert_eq!(s.get_failed_login_attempts(), 0);
    assert_eq!(s.get_last_failed_attempt_timestamp(), None);
}

#[test]
fn the_clock_versions_use_the_current_instant() {
    let mut s = store(1, 5);
    let before = Timestamp::now();
    PersistentRateLimiter::record_failed_attempt(&mut s);
    let last = s.get_last_failed_attempt_timestamp().unwrap();
    assert!(!last.is_before(&before));
    let status = PersistentRateLimiter::check_and_update_lockout(&mut s);
    assert!(status.is_locked_out);
    assert!(status.remaining_seconds >= 298 && status.remaining_seconds <= 300);
}
