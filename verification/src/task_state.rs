//! Saved countdowns of task-backed timers, keyed by task id, so that a
//! reopened application resumes them where they left off. Reading and writing
//! the file is the caller's part.

use vstd::prelude::*;

use crate::timer::{Timer, TimerState};

verus! {

/// The saved countdown of one task-backed timer. Times are milliseconds.
#[derive(Debug, Clone, Copy, PartialEq)]
pub struct OverlayEntry {
    pub task_id: u32,
    pub remaining_ms: i64,
    /// Whether this was the single active, running timer when saved.
    pub running: bool,
    pub fib_alert_index: usize,
}

/// What restoring a fresh task-backed timer from its saved entry at `now`
/// does, and whether the entry says it was running. Without an entry the
/// timer is unchanged.
pub open spec fn overlay_applied(t: Timer, entry: Option<OverlayEntry>, now: u64) -> (Timer, bool) {
    match entry {
        None => (t, false),
        Some(e) => if e.running {
            (
                Timer {
                    remaining_ms: e.remaining_ms,
                    fib_alert_index: e.fib_alert_index,
                    state: if e.remaining_ms <= 0 {
                        TimerState::Expired
                    } else {
                        TimerState::Running
                    },
                    last_tick: Some(now),
                    ..t
                },
                true,
            )
        } else {
            (
                Timer {
                    remaining_ms: e.remaining_ms,
                    fib_alert_index: e.fib_alert_index,
                    state: TimerState::Paused,
                    last_tick: None,
                    ..t
                },
                false,
            )
        },
    }
}

/// Restores a freshly built task-backed timer's countdown from its saved
/// entry. Returns whether the entry says it was running.
pub fn apply_overlay(timer: &mut Timer, entry: Option<&OverlayEntry>, now: u64) -> (r: bool)
    ensures
        (*final(timer), r) == overlay_applied(
            *old(timer),
            match entry {
                Some(e) => Some(*e),
                None => None,
            },
            now,
        ),
{
    let e = match entry {
        None => {
            return false;
        },
        Some(e) => e,
    };
    timer.remaining_ms = e.remaining_ms;
    timer.fib_alert_index = e.fib_alert_index;
    if e.running {
        timer.state = if timer.remaining_ms <= 0 {
            TimerState::Expired
        } else {
            TimerState::Running
        };
        timer.last_tick = Some(now);
        true
    } else {
        timer.state = TimerState::Paused;
        timer.last_tick = None;
        false
    }
}

} // verus!
