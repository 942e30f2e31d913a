//! Overdue alerts: when an overdue timer should alert again.

use vstd::prelude::*;

verus! {

/// Cumulative Fibonacci minute thresholds for overdue alerts, by alert index:
/// 0, 1, 2, 4, 7, 12, 20, 33, 54, 88, 143; none past the last.
pub open spec fn fib_threshold(i: int) -> Option<int> {
    if i == 0 {
        Some(0)
    } else if i == 1 {
        Some(1)
    } else if i == 2 {
        Some(2)
    } else if i == 3 {
        Some(4)
    } else if i == 4 {
        Some(7)
    } else if i == 5 {
        Some(12)
    } else if i == 6 {
        Some(20)
    } else if i == 7 {
        Some(33)
    } else if i == 8 {
        Some(54)
    } else if i == 9 {
        Some(88)
    } else if i == 10 {
        Some(143)
    } else {
        None
    }
}

/// The threshold in minutes for alert index `i`.
pub fn fib_threshold_min(i: usize) -> (r: Option<i64>)
    ensures
        match fib_threshold(i as int) {
            Some(t) => r == Some(t as i64),
            None => r is None,
        },
{
    match i {
        0 => Some(0),
        1 => Some(1),
        2 => Some(2),
        3 => Some(4),
        4 => Some(7),
        5 => Some(12),
        6 => Some(20),
        7 => Some(33),
        8 => Some(54),
        9 => Some(88),
        10 => Some(143),
        _ => None,
    }
}

/// An alert should fire: the timer is overdue by `overdue_ms` > 0 and at
/// least the threshold of alert stage `fib_index` has passed.
pub open spec fn should_alert_spec(overdue_ms: int, fib_index: int) -> bool {
    overdue_ms > 0 && match fib_threshold(fib_index) {
        Some(t) => overdue_ms >= t * 60_000,
        None => false,
    }
}

/// Whether an alert should fire for a timer overdue by `overdue_ms`
/// milliseconds at alert stage `fib_index`. Returns `true` when the timer
/// should advance to the next alert stage.
pub fn should_alert(overdue_ms: i64, fib_index: usize) -> (r: bool)
    ensures
        r == should_alert_spec(overdue_ms as int, fib_index as int),
{
    if overdue_ms <= 0 {
        return false;
    }
    match fib_threshold_min(fib_index) {
        Some(t) => overdue_ms >= t * 60_000,
        None => false,
    }
}

/// For a remaining time `rem` below zero, the overdue time clamped into
/// `i64` alerts exactly when the exact overdue time does.
pub proof fn lemma_should_alert_clamped(rem: int)
    requires
        i64::MIN <= rem < 0,
    ensures
        forall|f: int|
            should_alert_spec(
                if rem == i64::MIN {
                    i64::MAX as int
                } else {
                    -rem
                },
                f,
            ) == #[trigger] should_alert_spec(-rem, f),
{
}

/// A side effect the application asks its caller to perform.
#[derive(Debug, PartialEq, Eq)]
pub enum Alert {
    /// Play the alert sound.
    Sound,
    /// Show a desktop notification that the named timer expired.
    Toast(String),
}

} // verus!
