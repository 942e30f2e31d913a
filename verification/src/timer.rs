//! One countdown timer and its state machine. Times are milliseconds; clock
//! readings (`now`) are milliseconds of a monotonic clock.

use vstd::prelude::*;

use crate::duration::{format_seconds, format_spec};

verus! {

/// The state of a timer.
#[derive(Debug, Clone, Copy, PartialEq, Eq, Structural)]
pub enum TimerState {
    Running,
    Paused,
    Expired,
}

/// A countdown timer.
#[derive(Debug)]
pub struct Timer {
    pub id: u32,
    pub name: String,
    pub original_ms: i64,
    pub remaining_ms: i64,
    pub state: TimerState,
    /// The clock reading of the last tick; `None` while paused.
    pub last_tick: Option<u64>,
    pub fib_alert_index: usize,
    /// The `ttask` task this timer stands for, if any.
    pub task_id: Option<u32>,
}

/// The mathematical value of a [`Timer`]: the name as a character sequence.
pub struct TimerModel {
    pub id: u32,
    pub name: Seq<char>,
    pub original_ms: i64,
    pub remaining_ms: i64,
    pub state: TimerState,
    pub last_tick: Option<u64>,
    pub fib_alert_index: usize,
    pub task_id: Option<u32>,
}

impl View for Timer {
    type V = TimerModel;

    open spec fn view(&self) -> TimerModel {
        TimerModel {
            id: self.id,
            name: self.name@,
            original_ms: self.original_ms,
            remaining_ms: self.remaining_ms,
            state: self.state,
            last_tick: self.last_tick,
            fib_alert_index: self.fib_alert_index,
            task_id: self.task_id,
        }
    }
}

/// The views of a sequence of timers.
pub open spec fn tviews(ts: Seq<Timer>) -> Seq<TimerModel> {
    ts.map_values(|t: Timer| t@)
}

/// What pausing does to a timer's value (see `paused`).
pub open spec fn m_paused(t: TimerModel) -> TimerModel {
    if t.state == TimerState::Paused {
        t
    } else {
        TimerModel { state: TimerState::Paused, last_tick: None, ..t }
    }
}

/// What resuming at `now` does to a timer's value (see `resumed`).
pub open spec fn m_resumed(t: TimerModel, now: u64) -> TimerModel {
    TimerModel {
        state: if t.remaining_ms <= 0 {
            TimerState::Expired
        } else {
            TimerState::Running
        },
        last_tick: Some(now),
        ..t
    }
}

/// `x` clamped into the range of `i64`.
pub open spec fn clamp(x: int) -> i64 {
    if x < i64::MIN {
        i64::MIN
    } else if x > i64::MAX {
        i64::MAX
    } else {
        x as i64
    }
}

/// `a - b` clamped into the range of `i64`.
pub fn sat_sub(a: i64, b: u64) -> (r: i64)
    ensures
        r == clamp(a - b),
{
    let x = (a as i128) - (b as i128);
    if x < i64::MIN as i128 {
        i64::MIN
    } else if x > i64::MAX as i128 {
        i64::MAX
    } else {
        x as i64
    }
}

/// Milliseconds from `since` to `now`, or 0 if `now` is earlier
/// (`Instant::duration_since` saturates).
pub open spec fn elapsed(since: u64, now: u64) -> u64 {
    if now >= since {
        (now - since) as u64
    } else {
        0
    }
}

pub fn elapsed_ms(since: u64, now: u64) -> (r: u64)
    ensures
        r == elapsed(since, now),
{
    if now >= since {
        now - since
    } else {
        0
    }
}

/// The same timer with a different state and last tick.
pub open spec fn with_state(t: Timer, state: TimerState, last_tick: Option<u64>) -> Timer {
    Timer { state, last_tick, ..t }
}

/// What pausing does: a running or expired timer becomes paused and stops
/// ticking; a paused one is unchanged.
pub open spec fn paused(t: Timer) -> Timer {
    if t.state == TimerState::Paused {
        t
    } else {
        with_state(t, TimerState::Paused, None)
    }
}

/// What resuming at `now` does: running again, or expired when nothing is
/// left, ticking from `now`.
pub open spec fn resumed(t: Timer, now: u64) -> Timer {
    with_state(
        t,
        if t.remaining_ms <= 0 {
            TimerState::Expired
        } else {
            TimerState::Running
        },
        Some(now),
    )
}

/// What resetting at `now` does: back to the full duration, running, alerts
/// from the start.
pub open spec fn reset_spec(t: Timer, now: u64) -> Timer {
    Timer {
        remaining_ms: t.original_ms,
        state: TimerState::Running,
        last_tick: Some(now),
        fib_alert_index: 0,
        ..t
    }
}

/// What a tick at `now` does, and whether the timer just crossed zero.
pub open spec fn ticked(t: Timer, now: u64) -> (Timer, bool) {
    if t.state == TimerState::Paused {
        (t, false)
    } else {
        match t.last_tick {
            None => (Timer { last_tick: Some(now), ..t }, false),
            Some(last) => {
                let rem = clamp(t.remaining_ms - elapsed(last, now));
                let crossed = t.remaining_ms > 0 && rem <= 0;
                (
                    Timer {
                        remaining_ms: rem,
                        last_tick: Some(now),
                        state: if crossed {
                            TimerState::Expired
                        } else {
                            t.state
                        },
                        ..t
                    },
                    crossed,
                )
            },
        }
    }
}

impl Timer {
    /// A new running timer of `duration_ms`, started at `now`.
    pub fn new(id: u32, name: String, duration_ms: i64, now: u64) -> (t: Self)
        ensures
            t.id == id,
            t.name == name,
            t.original_ms == duration_ms,
            t.remaining_ms == duration_ms,
            t.state == TimerState::Running,
            t.last_tick == Some(now),
            t.fib_alert_index == 0,
            t.task_id is None,
    {
        Timer {
            id,
            name,
            original_ms: duration_ms,
            remaining_ms: duration_ms,
            state: TimerState::Running,
            last_tick: Some(now),
            fib_alert_index: 0,
            task_id: None,
        }
    }

    /// Advances the timer by the time elapsed since the last tick. Returns
    /// `true` if the timer just crossed zero (its first expiry).
    pub fn tick(&mut self, now: u64) -> (crossed: bool)
        ensures
            (*final(self), crossed) == ticked(*old(self), now),
    {
        if self.state == TimerState::Paused {
            return false;
        }
        match self.last_tick {
            None => {
                self.last_tick = Some(now);
                false
            },
            Some(last) => {
                let e = elapsed_ms(last, now);
                let was_positive = self.remaining_ms > 0;
                self.remaining_ms = sat_sub(self.remaining_ms, e);
                self.last_tick = Some(now);
                let crossed_zero = was_positive && self.remaining_ms <= 0;
                if crossed_zero {
                    self.state = TimerState::Expired;
                }
                crossed_zero
            },
        }
    }

    /// Pauses a running or expired timer; a paused one stays as it is.
    pub fn pause(&mut self)
        ensures
            *final(self) == paused(*old(self)),
    {
        if self.state == TimerState::Running || self.state == TimerState::Expired {
            self.state = TimerState::Paused;
            self.last_tick = None;
        }
    }

    /// Resumes at `now`: expired when nothing is left, else running.
    pub fn resume(&mut self, now: u64)
        ensures
            *final(self) == resumed(*old(self), now),
    {
        self.state = if self.remaining_ms <= 0 {
            TimerState::Expired
        } else {
            TimerState::Running
        };
        self.last_tick = Some(now);
    }

    /// Restores the full duration and restarts at `now`.
    pub fn reset(&mut self, now: u64)
        ensures
            *final(self) == reset_spec(*old(self), now),
    {
        self.remaining_ms = self.original_ms;
        self.state = TimerState::Running;
        self.last_tick = Some(now);
        self.fib_alert_index = 0;
    }

    /// Time has run out past zero.
    pub fn is_overdue(&self) -> (r: bool)
        ensures
            r == (self.remaining_ms < 0),
    {
        self.remaining_ms < 0
    }

    /// The remaining time as `HH:MM:SS` (`-HH:MM:SS` when overdue).
    pub fn format_remaining(&self) -> (r: String)
        ensures
            r@ == format_spec(self.remaining_ms as int),
    {
        format_seconds(self.remaining_ms)
    }

    /// The icon for the state: pause for a paused timer, play otherwise.
    pub fn state_icon(&self) -> (r: &'static str)
        ensures
            self.state == TimerState::Paused ==> r@ == "\u{23f8}"@,
            self.state != TimerState::Paused ==> r@ == "\u{25b6}"@,
    {
        match self.state {
            TimerState::Paused => "\u{23f8}",
            TimerState::Running | TimerState::Expired => "\u{25b6}",
        }
    }

    /// The timer stands for a `ttask` task.
    pub fn is_task_backed(&self) -> (r: bool)
        ensures
            r == self.task_id is Some,
    {
        self.task_id.is_some()
    }
}

/// Pausing twice is pausing once.
pub proof fn law_pause_idempotent(t: Timer)
    ensures
        paused(paused(t)) == paused(t),
{
}

/// Pausing and then resuming gives back a timer with the same time left,
/// running again if any is left (expired otherwise), ticking from `now`.
pub proof fn law_pause_then_resume(t: Timer, now: u64)
    ensures
        resumed(paused(t), now).remaining_ms == t.remaining_ms,
        resumed(paused(t), now).original_ms == t.original_ms,
        resumed(paused(t), now).state == (if t.remaining_ms > 0 {
            TimerState::Running
        } else {
            TimerState::Expired
        }),
        resumed(paused(t), now).last_tick == Some(now),
{
}

/// A paused timer does not tick.
pub proof fn law_paused_timer_does_not_tick(t: Timer, now: u64)
    requires
        t.state == TimerState::Paused,
    ensures
        ticked(t, now) == (t, false),
{
}

/// Ticking never adds time, and a timer crosses zero at most once: once
/// nothing is left, no later tick reports a crossing.
pub proof fn law_tick_crosses_zero_once(t: Timer, now1: u64, now2: u64)
    ensures
        ticked(t, now1).0.remaining_ms <= t.remaining_ms,
        ticked(t, now1).1 ==> ticked(t, now1).0.remaining_ms <= 0,
        ticked(t, now1).1 ==> !ticked(ticked(t, now1).0, now2).1,
        t.remaining_ms <= 0 ==> !ticked(t, now1).1,
{
}

/// Resetting restores the full duration.
pub proof fn law_reset_restores_original(t: Timer, now: u64)
    ensures
        reset_spec(t, now).remaining_ms == t.original_ms,
        reset_spec(t, now).original_ms == t.original_ms,
        reset_spec(t, now).state == TimerState::Running,
{
}

/// A ticking timer counts down by the time passed, and ticking in two steps
/// counts down as much as ticking once: from its last tick `last`, ticking at
/// `n1` and then at `n2` leaves `remaining - (n2 - last)`, as ticking at `n2`
/// alone does, and it has crossed zero exactly when that is not positive
/// while the start was.
pub proof fn law_tick_counts_elapsed_time(t: Timer, n1: u64, n2: u64)
    requires
        t.state != TimerState::Paused,
        t.last_tick matches Some(last) && last <= n1 <= n2,
        t.remaining_ms - (n2 - t.last_tick->Some_0) >= i64::MIN,
    ensures
        ticked(t, n2).0.remaining_ms == t.remaining_ms - (n2 - t.last_tick->Some_0),
        ticked(ticked(t, n1).0, n2).0.remaining_ms == ticked(t, n2).0.remaining_ms,
        ticked(t, n2).0.last_tick == Some(n2),
        (t.remaining_ms > 0 && ticked(t, n2).0.remaining_ms <= 0) ==> ticked(t, n2).0.state
            == TimerState::Expired,
        ticked(t, n2).1 == (t.remaining_ms > 0 && ticked(t, n2).0.remaining_ms <= 0),
{
}

} // verus!
