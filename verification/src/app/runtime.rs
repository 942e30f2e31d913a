//! What the main loop decides at each turn, and what the screen shows.

use vstd::prelude::*;

use super::timers::{debt_updated, ticked_app};
use super::{active_pos, lemma_find, App, AUTO_SAVE_INTERVAL_MS};
use crate::alert::Alert;
use crate::duration::format_spec;
use crate::task_integration::TaskSource;
use crate::text::{push_str, string_of};
use crate::timer::{elapsed, elapsed_ms, Timer, TimerState};

verus! {

/// The icon of a timer's state: pause for a paused timer, play otherwise.
pub open spec fn icon_text(t: Timer) -> Seq<char> {
    if t.state == TimerState::Paused {
        "\u{23f8}"@
    } else {
        "\u{25b6}"@
    }
}

/// The terminal title: `tt` without an active timer, else the state icon,
/// the remaining time and the name.
pub open spec fn title_text(active: Option<Timer>) -> Seq<char> {
    match active {
        None => "tt"@,
        Some(t) => icon_text(t) + " "@ + format_spec(t.remaining_ms as int) + " \u{2014} "@ + t.name@,
    }
}

/// A save is due when the last one is at least the auto-save interval old.
pub open spec fn save_due(last_save: u64, now: u64) -> bool {
    elapsed(last_save, now) >= AUTO_SAVE_INTERVAL_MS
}

/// `b` is `a` after one turn of the main loop at `now`: the timers tick
/// (raising `al`), idle debt is counted, and a save is asked for when one is
/// due.
pub open spec fn stepped<S>(a: App<S>, b: App<S>, now: u64, al: Seq<Alert>) -> bool {
    exists|a1: App<S>, a2: App<S>|
        #![trigger ticked_app(a, a1, now, al), debt_updated(a1, a2, now)]
        ticked_app(a, a1, now, al) && debt_updated(a1, a2, now) && if save_due(a2.last_save, now) {
            b == App { save_requested: true, last_save: now, ..a2 }
        } else {
            b == a2
        }
}

/// Whether idle or overdue time is being counted as debt right now: no timer
/// is active, or all are paused, or an unpaused timer is overdue.
pub open spec fn debt_counting<S>(a: App<S>) -> bool {
    ||| active_pos(a.timers@, a.active_id) is None
    ||| (a.timers@.len() > 0 && forall|i: int|
        0 <= i < a.timers@.len() ==> (#[trigger] a.timers@[i]).state == TimerState::Paused)
    ||| exists|i: int|
        0 <= i < a.timers@.len() && (#[trigger] a.timers@[i]).remaining_ms < 0
            && a.timers@[i].state != TimerState::Paused
}

/// How urgent a timer's remaining time looks.
#[derive(Debug, Clone, Copy, PartialEq, Eq, Structural)]
pub enum Urgency {
    /// Past zero.
    Overdue,
    /// Less than a minute left.
    Low,
    Normal,
}

/// How urgent a timer's remaining time looks: overdue past zero, low under
/// a minute, normal otherwise.
pub fn urgency(t: &Timer) -> (r: Urgency)
    ensures
        t.remaining_ms < 0 ==> r == Urgency::Overdue,
        0 <= t.remaining_ms < 60_000 ==> r == Urgency::Low,
        t.remaining_ms >= 60_000 ==> r == Urgency::Normal,
{
    if t.is_overdue() {
        Urgency::Overdue
    } else if t.remaining_ms < 60_000 {
        Urgency::Low
    } else {
        Urgency::Normal
    }
}

impl<S: TaskSource> App<S> {
    /// One turn of the main loop at `now`: ticks the timers, counts idle
    /// debt and asks for a save every auto-save interval. Returns the alerts
    /// to play.
    pub fn step(&mut self, now: u64) -> (alerts: Vec<Alert>)
        ensures
            stepped(*old(self), *final(self), now, alerts@),
    {
        let alerts = self.tick(now);
        let ghost a1 = *self;
        self.update_time_debt(now);
        let ghost a2 = *self;
        if elapsed_ms(self.last_save, now) >= AUTO_SAVE_INTERVAL_MS {
            self.save();
            self.last_save = now;
        }
        assert(ticked_app(*old(self), a1, now, alerts@) && debt_updated(a1, a2, now));
        alerts
    }

    /// The terminal title (see `title_text`).
    pub fn title(&self) -> (r: String)
        ensures
            r@ == title_text(
                match active_pos(self.timers@, self.active_id) {
                    Some(i) => Some(self.timers@[i]),
                    None => None,
                },
            ),
    {
        match self.active_timer() {
            None => {
                proof {
                    reveal_strlit("tt");
                }
                String::from_str("tt")
            },
            Some(t) => {
                let mut v: Vec<char> = Vec::new();
                push_str(&mut v, t.state_icon());
                push_str(&mut v, " ");
                let rem = t.format_remaining();
                push_str(&mut v, rem.as_str());
                push_str(&mut v, " \u{2014} ");
                push_str(&mut v, t.name.as_str());
                string_of(v.as_slice())
            },
        }
    }

    /// Whether debt is being counted right now (see `debt_counting`).
    pub fn debt_counting(&self) -> (r: bool)
        ensures
            r == debt_counting(*self),
    {
        let no_active = self.active_index().is_none();
        let n = self.timers.len();
        let mut all_paused = n > 0;
        let mut any_overdue = false;
        for i in 0..n
            invariant
                n == self.timers@.len(),
                all_paused == (n > 0 && forall|k: int| 0 <= k < i ==> (#[trigger] self.timers@[k]).state == TimerState::Paused),
                any_overdue == exists|k: int|
                    0 <= k < i && (#[trigger] self.timers@[k]).remaining_ms < 0
                        && self.timers@[k].state != TimerState::Paused,
        {
            let t = &self.timers[i];
            if t.state != TimerState::Paused {
                all_paused = false;
            }
            if t.is_overdue() && t.state != TimerState::Paused {
                any_overdue = true;
            }
        }
        no_active || all_paused || any_overdue
    }

    /// The 1-based place of the active timer in the list, or 0 without one.
    pub fn active_place(&self) -> (r: usize)
        ensures
            match active_pos(self.timers@, self.active_id) {
                Some(i) => r == i + 1,
                None => r == 0,
            },
    {
        proof {
            if let Some(id) = self.active_id {
                lemma_find(self.timers@, id);
            }
        }
        let n = self.timers.len();
        match self.active_index() {
            Some(i) => {
                assert(i < n);
                i + 1
            },
            None => 0,
        }
    }
}

} // verus!
