//! The lockout against guessing the passphrase. All of its state lives in
//! the settings of the store, so a lockout outlasts a restart.

use vstd::prelude::*;
use crate::settings::SettingsView;
use crate::storage::{Storage, StorageView};
use crate::time::Timestamp;

verus! {

/// What a check of the lockout reports.
#[derive(Clone, Copy, Debug, PartialEq, Eq, Structural)]
pub struct LockoutStatus {
    pub is_locked_out: bool,
    pub remaining_seconds: i64,
    pub failed_attempts: u32,
    pub max_attempts: u32,
    pub lockout_duration_minutes: u32,
}

/// Nanoseconds in a minute.
pub open spec fn nanos_per_minute() -> int {
    60_000_000_000
}

/// The end of the lockout that began with a failure at `last`, in
/// nanoseconds since the epoch.
pub open spec fn window_end(last: Timestamp, minutes: u32) -> int {
    last.total_nanos() + minutes * nanos_per_minute()
}

/// Whether unlocking is refused at `now`: the policy is on, the failures
/// have reached the limit, and the lockout that began with the last of them
/// has not ended.
pub open spec fn locked_out(s: SettingsView, now: Timestamp) -> bool {
    &&& s.policy().enabled
    &&& s.attempts() >= s.policy().max_attempts
    &&& s.last_failed_attempt matches Some(last) && now.total_nanos() < window_end(
        last,
        s.policy().lockout_duration_minutes,
    )
}

/// Whether a lockout has run out at `now`: the policy is on, the failures
/// have reached the limit, and the lockout that began with the last of them
/// has ended.
pub open spec fn lockout_elapsed(s: SettingsView, now: Timestamp) -> bool {
    &&& s.policy().enabled
    &&& s.attempts() >= s.policy().max_attempts
    &&& s.last_failed_attempt matches Some(last) && now.total_nanos() >= window_end(
        last,
        s.policy().lockout_duration_minutes,
    )
}

/// The whole seconds left of a lockout at `now`.
pub open spec fn seconds_left(s: SettingsView, now: Timestamp) -> int {
    (window_end(s.last_failed_attempt.unwrap(), s.policy().lockout_duration_minutes)
        - now.total_nanos()) / 1_000_000_000
}

/// The settings after a check at `now`: counter and instant cleared where a
/// lockout has run out, untouched otherwise.
pub open spec fn settings_after_check(s: SettingsView, now: Timestamp) -> SettingsView {
    if lockout_elapsed(s, now) {
        SettingsView { failed_attempts: Some(0), last_failed_attempt: None, ..s }
    } else {
        s
    }
}

/// What a check at `now` reports.
pub open spec fn status_at(s: SettingsView, now: Timestamp) -> LockoutStatus {
    LockoutStatus {
        is_locked_out: locked_out(s, now),
        remaining_seconds: if locked_out(s, now) {
            seconds_left(s, now) as i64
        } else {
            0
        },
        failed_attempts: settings_after_check(s, now).attempts(),
        max_attempts: s.policy().max_attempts,
        lockout_duration_minutes: s.policy().lockout_duration_minutes,
    }
}

/// The settings after a failed unlock at `now`: one more failure, which
/// happened at `now`. The counter stops at the largest number it can hold.
pub open spec fn settings_after_failure(s: SettingsView, now: Timestamp) -> SettingsView {
    SettingsView {
        failed_attempts: Some(
            if s.attempts() < u32::MAX {
                (s.attempts() + 1) as u32
            } else {
                u32::MAX
            },
        ),
        last_failed_attempt: Some(now),
        ..s
    }
}

/// The settings after the counter was cleared.
pub open spec fn settings_after_reset(s: SettingsView) -> SettingsView {
    SettingsView { failed_attempts: Some(0), last_failed_attempt: None, ..s }
}

/// The settings after failed unlocks at each of `times`, in turn.
pub open spec fn settings_after_failures(s: SettingsView, times: Seq<Timestamp>) -> SettingsView
    decreases times.len(),
{
    if times.len() == 0 {
        s
    } else {
        settings_after_failure(settings_after_failures(s, times.drop_last()), times.last())
    }
}

/// The lockout, with the store's settings as its only state.
pub struct PersistentRateLimiter;

impl PersistentRateLimiter {
    /// Checks the lockout at `now`. Inside a lockout nothing changes; once it
    /// has run out the counter and the instant of the last failure are
    /// cleared. With the policy switched off the counter is only reported.
    pub fn check_and_update_lockout_at(storage: &mut Storage, now: &Timestamp) -> (status:
        LockoutStatus)
        requires
            old(storage).wf(),
            now.wf(),
        ensures
            final(storage).wf(),
            status == status_at(old(storage)@.settings, *now),
            final(storage)@ == (StorageView {
                settings: settings_after_check(old(storage)@.settings, *now),
                ..old(storage)@
            }),
    {
        let config = storage.get_brute_force_config();
        let failed_attempts: u32 = storage.get_failed_login_attempts();
        if !config.enabled {
            return LockoutStatus {
                is_locked_out: false,
                remaining_seconds: 0,
                failed_attempts,
                max_attempts: config.max_attempts,
                lockout_duration_minutes: config.lockout_duration_minutes,
            };
        }
        if failed_attempts >= config.max_attempts {
            match storage.get_last_failed_attempt_timestamp() {
                Some(last) => {
                    let end_secs: i64 = last.secs + (config.lockout_duration_minutes as i64) * 60;
                    let before_end: bool = now.secs < end_secs || (now.secs == end_secs
                        && now.nanos < last.nanos);
                    proof {
                        let end = window_end(last, config.lockout_duration_minutes);
                        assert(end == end_secs * 1_000_000_000 + last.nanos);
                        assert(before_end <==> now.total_nanos() < end);
                    }
                    if before_end {
                        let whole: i64 = end_secs - now.secs;
                        let remaining: i64 = if last.nanos < now.nanos {
                            whole - 1
                        } else {
                            whole
                        };
                        proof {
                            let end = window_end(last, config.lockout_duration_minutes);
                            let left = end - now.total_nanos();
                            if last.nanos < now.nanos {
                                assert(left == (whole - 1) * 1_000_000_000 + (1_000_000_000
                                    + last.nanos - now.nanos));
                            } else {
                                assert(left == whole * 1_000_000_000 + (last.nanos - now.nanos));
                            }
                            assert(left / 1_000_000_000 == remaining);
                        }
                        return LockoutStatus {
                            is_locked_out: true,
                            remaining_seconds: remaining,
                            failed_attempts,
                            max_attempts: config.max_attempts,
                            lockout_duration_minutes: config.lockout_duration_minutes,
                        };
                    } else {
                        storage.set_failed_login_attempts(0);
                        storage.set_last_failed_attempt_timestamp(None);
                    }
                },
                None => {},
            }
        }
        LockoutStatus {
            is_locked_out: false,
            remaining_seconds: 0,
            failed_attempts: storage.get_failed_login_attempts(),
            max_attempts: config.max_attempts,
            lockout_duration_minutes: config.lockout_duration_minutes,
        }
    }

    /// Checks the lockout at the current instant.
    pub fn check_and_update_lockout(storage: &mut Storage) -> (status: LockoutStatus)
        requires
            old(storage).wf(),
        ensures
            final(storage).wf(),
            exists|now: Timestamp| #[trigger]
                checked_at(old(storage)@, final(storage)@, status, now),
    {
        let now = Timestamp::now();
        let status = PersistentRateLimiter::check_and_update_lockout_at(storage, &now);
        assert(checked_at(old(storage)@, storage@, status, now));
        status
    }

    /// Counts one more failed unlock, which happened at `now`.
    pub fn record_failed_attempt_at(storage: &mut Storage, now: &Timestamp)
        requires
            old(storage).wf(),
            now.wf(),
        ensures
            final(storage).wf(),
            final(storage)@ == (StorageView {
                settings: settings_after_failure(old(storage)@.settings, *now),
                ..old(storage)@
            }),
    {
        let current: u32 = storage.get_failed_login_attempts();
        let next: u32 = if current < u32::MAX {
            current + 1
        } else {
            u32::MAX
        };
        storage.set_failed_login_attempts(next);
        storage.set_last_failed_attempt_timestamp(Some(*now));
    }

    /// Counts one more failed unlock, which happened now.
    pub fn record_failed_attempt(storage: &mut Storage)
        requires
            old(storage).wf(),
        ensures
            final(storage).wf(),
            exists|now: Timestamp| #[trigger]
                failed_at(old(storage)@, final(storage)@, now),
    {
        let now = Timestamp::now();
        PersistentRateLimiter::record_failed_attempt_at(storage, &now);
        assert(failed_at(old(storage)@, storage@, now));
    }

    /// Clears the counter and the instant of the last failure.
    pub fn reset_attempts(storage: &mut Storage)
        requires
            old(storage).wf(),
        ensures
            final(storage).wf(),
            final(storage)@ == (StorageView {
                settings: settings_after_reset(old(storage)@.settings),
                ..old(storage)@
            }),
    {
        storage.set_failed_login_attempts(0);
        storage.set_last_failed_attempt_timestamp(None);
    }
}

/// `after` and `status` are what a check of `before` at `now` gives.
pub open spec fn checked_at(
    before: StorageView,
    after: StorageView,
    status: LockoutStatus,
    now: Timestamp,
) -> bool {
    &&& now.wf()
    &&& status == status_at(before.settings, now)
    &&& after == (StorageView { settings: settings_after_check(before.settings, now), ..before })
}

/// `after` is `before` with one more failed unlock, at `now`.
pub open spec fn failed_at(before: StorageView, after: StorageView, now: Timestamp) -> bool {
    &&& now.wf()
    &&& after == (StorageView { settings: settings_after_failure(before.settings, now), ..before })
}

/// Failed unlocks in a row are counted one by one, and the last of them
/// is the one remembered.
pub proof fn lemma_failures_are_counted(s: SettingsView, times: Seq<Timestamp>)
    requires
        s.attempts() + times.len() <= u32::MAX,
    ensures
        settings_after_failures(s, times).attempts() == s.attempts() + times.len(),
        times.len() > 0 ==> settings_after_failures(s, times).last_failed_attempt == Some(
            times.last(),
        ),
        settings_after_failures(s, times).policy() == s.policy(),
    decreases times.len(),
{
    if times.len() > 0 {
        lemma_failures_are_counted(s, times.drop_last());
    }
}

/// With the policy on and no failure counted, as many failed unlocks in a
/// row as the policy allows lock the vault: every check before the lockout
/// that began with the last of them has ended reports a lockout, with at
/// least one second left where a full second is left, and changes nothing.
pub proof fn lemma_failures_lock_out(s: SettingsView, times: Seq<Timestamp>, now: Timestamp)
    requires
        s.policy().enabled,
        s.attempts() == 0,
        times.len() == s.policy().max_attempts,
        times.len() > 0,
        now.total_nanos() < window_end(times.last(), s.policy().lockout_duration_minutes),
    ensures
        status_at(settings_after_failures(s, times), now).is_locked_out,
        status_at(settings_after_failures(s, times), now).failed_attempts == times.len(),
        seconds_left(settings_after_failures(s, times), now) >= 0,
        now.total_nanos() + 1_000_000_000 <= window_end(
            times.last(),
            s.policy().lockout_duration_minutes,
        ) ==> seconds_left(settings_after_failures(s, times), now) >= 1,
        settings_after_check(settings_after_failures(s, times), now) == settings_after_failures(
            s,
            times,
        ),
{
    lemma_failures_are_counted(s, times);
}

/// Once the lockout has run out, the next check reports no lockout and
/// leaves the counter at zero, and so does every check after it.
pub proof fn lemma_lockout_heals(s: SettingsView, now: Timestamp, later: Timestamp)
    requires
        lockout_elapsed(s, now),
    ensures
        !status_at(s, now).is_locked_out,
        status_at(s, now).remaining_seconds == 0,
        status_at(s, now).failed_attempts == 0,
        settings_after_check(s, now).attempts() == 0,
        !status_at(settings_after_check(s, now), later).is_locked_out,
{
}

} // verus!
