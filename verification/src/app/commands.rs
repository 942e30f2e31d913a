//! Carrying out the commands of the command bar.

use vstd::prelude::*;

use super::timers::{added, completed, next_id_of, removed_active};
use super::{
    active_pos, add_excluded, copy_timer, find, find_timer, has_name, lemma_find, same_but_timers, same_env,
    same_ui, switch_timers, AddTimerError, App, Mode, UndoAction, UndoEntry, UNDO_WINDOW_MS,
};
use crate::command::Command;
use crate::task_integration::TaskSource;
use crate::timer::{elapsed, elapsed_ms, paused, reset_spec, resumed, Timer, TimerState};

verus! {

/// The message shown when a new timer's name is taken.
pub open spec fn duplicate_msg() -> Seq<char> {
    "Timer with this name already exists. Enter a different name."@
}

/// `b` is `a` with only the timers, the active id and the save request
/// changed as given.
pub open spec fn only_timers<S>(a: App<S>, b: App<S>) -> bool {
    &&& b.next_id == a.next_id
    &&& same_but_timers(a, b)
}

/// `b` is `a` after toggling the active timer between paused and running
/// at `now`; without an active timer nothing changes.
pub open spec fn toggled<S>(a: App<S>, b: App<S>, now: u64) -> bool {
    match active_pos(a.timers@, a.active_id) {
        Some(i) => {
            &&& b.timers@ == a.timers@.update(
                i,
                if a.timers@[i].state == TimerState::Paused {
                    resumed(a.timers@[i], now)
                } else {
                    paused(a.timers@[i])
                },
            )
            &&& b.active_id == a.active_id
            &&& b.save_requested
            &&& only_timers(a, b)
        },
        None => b == a,
    }
}

/// `b` is `a` after resetting the active timer at `now`.
pub open spec fn reset_done<S>(a: App<S>, b: App<S>, now: u64) -> bool {
    match active_pos(a.timers@, a.active_id) {
        Some(i) => {
            &&& b.timers@ == a.timers@.update(i, reset_spec(a.timers@[i], now))
            &&& b.active_id == a.active_id
            &&& b.save_requested
            &&& only_timers(a, b)
        },
        None => b == a,
    }
}

/// What setting a timer to `ms` at `now` does: both durations are `ms`, an
/// expired timer runs again, alerts restart, ticking from `now`.
pub open spec fn time_updated(t: Timer, ms: i64, now: u64) -> Timer {
    Timer {
        remaining_ms: ms,
        original_ms: ms,
        state: if t.state == TimerState::Expired {
            TimerState::Running
        } else {
            t.state
        },
        fib_alert_index: 0,
        last_tick: Some(now),
        ..t
    }
}

/// `b` is `a` after setting the active timer to `ms` at `now`, with an undo
/// entry holding the old durations.
pub open spec fn updated<S>(a: App<S>, b: App<S>, ms: i64, now: u64) -> bool {
    match active_pos(a.timers@, a.active_id) {
        Some(i) => {
            &&& b.timers@ == a.timers@.update(i, time_updated(a.timers@[i], ms, now))
            &&& b.undo_stack@ == a.undo_stack@.push(
                UndoEntry {
                    timestamp: now,
                    action: UndoAction::TimeChanged {
                        id: a.timers@[i].id,
                        old_remaining: a.timers@[i].remaining_ms,
                        old_original: a.timers@[i].original_ms,
                    },
                },
            )
            &&& b.active_id == a.active_id
            &&& b.next_id == a.next_id
            &&& b.save_requested
            &&& b.task_source == a.task_source
            &&& same_ui(a, b)
            &&& b.time_debt_ms == a.time_debt_ms
            &&& b.all_paused_since == a.all_paused_since
            &&& same_env(a, b)
        },
        None => b == a,
    }
}

/// An undo entry made at `t` can still be undone at `now`.
pub open spec fn recent(e: UndoEntry, now: u64) -> bool {
    elapsed(e.timestamp, now) < UNDO_WINDOW_MS
}

/// The undo entries still within the window at `now`, in order.
pub open spec fn recent_entries(u: Seq<UndoEntry>, now: u64) -> Seq<UndoEntry>
    decreases u.len(),
{
    if u.len() == 0 {
        seq![]
    } else {
        let p = recent_entries(u.drop_last(), now);
        if recent(u.last(), now) {
            p.push(u.last())
        } else {
            p
        }
    }
}

/// Where a timer of id `id` goes back in timers kept in creation order:
/// before the first timer with a larger id.
pub open spec fn insert_pos(ts: Seq<Timer>, id: u32) -> int {
    if exists|i: int| 0 <= i < ts.len() && (#[trigger] ts[i]).id > id {
        choose|i: int|
            0 <= i < ts.len() && (#[trigger] ts[i]).id > id && forall|k: int|
                0 <= k < i ==> (#[trigger] ts[k]).id <= id
    } else {
        ts.len() as int
    }
}

/// What undoing a time change does to a timer at `now`.
pub open spec fn time_restored(t: Timer, rem: i64, orig: i64, now: u64) -> Timer {
    if rem > 0 {
        Timer {
            remaining_ms: rem,
            original_ms: orig,
            fib_alert_index: 0,
            state: TimerState::Running,
            last_tick: Some(now),
            ..t
        }
    } else {
        Timer { remaining_ms: rem, original_ms: orig, fib_alert_index: 0, ..t }
    }
}

/// `b` is `a` after undoing the most recent change still within the undo
/// window at `now`: a removed timer comes back in its creation-order place
/// and becomes active; a time change is rolled back. Older entries are
/// forgotten; with none left nothing else changes.
pub open spec fn reverted<S>(a: App<S>, b: App<S>, now: u64) -> bool {
    let u = recent_entries(a.undo_stack@, now);
    if u.len() == 0 {
        b.undo_stack@ == u && b.timers == a.timers && b.active_id == a.active_id && b.next_id
            == a.next_id && b.save_requested == a.save_requested && b.task_source
            == a.task_source && same_ui(a, b) && b.time_debt_ms == a.time_debt_ms
            && b.all_paused_since == a.all_paused_since && same_env(a, b)
    } else {
        &&& b.undo_stack@ == u.drop_last()
        &&& b.next_id == a.next_id
        &&& b.save_requested
        &&& b.task_source == a.task_source
        &&& same_ui(a, b)
        &&& b.time_debt_ms == a.time_debt_ms
        &&& b.all_paused_since == a.all_paused_since
        &&& same_env(a, b)
        &&& match u.last().action {
            UndoAction::TimerRemoved(t) => {
                let ts1 = a.timers@.insert(insert_pos(a.timers@, t.id), t);
                &&& b.timers@ == switch_timers(ts1, a.active_id, t.id, now)
                &&& b.active_id == Some(t.id)
            },
            UndoAction::TimeChanged { id, old_remaining, old_original } => {
                &&& b.active_id == a.active_id
                &&& match find(a.timers@, id) {
                    Some(i) => b.timers@ == a.timers@.update(
                        i,
                        time_restored(a.timers@[i], old_remaining, old_original, now),
                    ),
                    None => b.timers == a.timers,
                }
            },
        }
    }
}

/// `b` is `a` after carrying out command `cmd` at `now`.
pub open spec fn executed<S: TaskSource>(a: App<S>, b: App<S>, cmd: Command, now: u64) -> bool {
    match cmd {
        Command::Pause => toggled(a, b, now),
        Command::Reset => reset_done(a, b, now),
        Command::Update(ms) => updated(a, b, ms, now),
        Command::Revert => reverted(a, b, now),
        Command::Remove => removed_active(a, b, now),
        Command::Complete => completed(a, b, now),
        Command::NewTimer(ms, name) => if has_name(a.timers@, name@, add_excluded(a.timers@, a.active_id)) {
            &&& b == App {
                mode: Mode::NamePrompt(ms),
                name_prompt_buffer: name,
                name_prompt_error: b.name_prompt_error,
                ..a
            }
            &&& b.name_prompt_error matches Some(e) && e@ == duplicate_msg()
        } else {
            added(a, b, ms, name, now)
        },
        Command::NamePrompt(ms) => {
            &&& b == App {
                mode: Mode::NamePrompt(ms),
                name_prompt_buffer: b.name_prompt_buffer,
                name_prompt_error: None,
                ..a
            }
            &&& b.name_prompt_buffer@ == Seq::<char>::empty()
        },
        Command::Switch => if a.timers@.len() > 1 {
            &&& b == App {
                mode: Mode::Selector,
                selector_filter: b.selector_filter,
                selector_index: 0,
                ..a
            }
            &&& b.selector_filter@ == Seq::<char>::empty()
        } else {
            b == a
        },
        Command::TimerPrompt(name) => {
            &&& b == App {
                mode: Mode::TimePrompt(name),
                time_prompt_buffer: b.time_prompt_buffer,
                name_prompt_error: None,
                ..a
            }
            &&& b.time_prompt_buffer@ == Seq::<char>::empty()
        },
        Command::Quit => b == App { should_quit: true, ..a },
        Command::Unknown(_) => b == a,
    }
}

/// Where a timer of id `id` goes back among timers kept in creation order.
pub fn find_insert_pos(ts: &Vec<Timer>, id: u32) -> (r: usize)
    ensures
        r as int == insert_pos(ts@, id),
        r <= ts@.len(),
{
    let n = ts.len();
    for i in 0..n
        invariant
            n == ts@.len(),
            forall|k: int| 0 <= k < i ==> (#[trigger] ts@[k]).id <= id,
    {
        if ts[i].id > id {
            proof {
                let j = insert_pos(ts@, id);
                assert(ts@[i as int].id > id);
                if j < i {
                } else if i < j {
                }
            }
            return i;
        }
    }
    n
}

/// Keeps the undo entries still within the window at `now`.
pub fn keep_recent(stack: Vec<UndoEntry>, now: u64) -> (r: Vec<UndoEntry>)
    ensures
        r@ == recent_entries(stack@, now),
{
    let ghost orig = stack@;
    let mut stack = stack;
    let mut kept: Vec<UndoEntry> = Vec::new();
    let mut k: usize = 0;
    let _len = stack.len();
    assert(orig.take(0) =~= seq![]);
    assert(orig.skip(0) =~= orig);
    while stack.len() > 0
        invariant
            k <= orig.len() <= usize::MAX,
            stack@ == orig.skip(k as int),
            kept@ == recent_entries(orig.take(k as int), now),
        decreases stack@.len(),
    {
        let ghost pre = orig.take(k as int);
        let ghost cur = orig.take(k + 1);
        assert(k < orig.len());
        assert(cur.drop_last() =~= pre);
        assert(cur.last() == orig[k as int]);
        let e = stack.remove(0);
        assert(stack@ =~= orig.skip(k + 1));
        if elapsed_ms(e.timestamp, now) < UNDO_WINDOW_MS {
            kept.push(e);
        }
        k = k + 1;
    }
    assert(orig.take(k as int) =~= orig);
    kept
}

impl<S: TaskSource> App<S> {
    /// Undoes the most recent change made within the undo window: brings a
    /// removed timer back in its creation-order place and switches to it, or
    /// rolls a time change back. Entries older than the window are dropped.
    pub fn try_revert(&mut self, now: u64)
        ensures
            reverted(*old(self), *final(self), now),
    {
        let mut stack: Vec<UndoEntry> = Vec::new();
        std::mem::swap(&mut stack, &mut self.undo_stack);
        self.undo_stack = keep_recent(stack, now);
        let entry = match self.undo_stack.pop() {
            None => {
                return;
            },
            Some(e) => e,
        };
        match entry.action {
            UndoAction::TimerRemoved(timer) => {
                let id = timer.id;
                let pos = find_insert_pos(&self.timers, id);
                self.timers.insert(pos, timer);
                self.switch_to(id, now);
            },
            UndoAction::TimeChanged { id, old_remaining, old_original } => {
                proof {
                    lemma_find(self.timers@, id);
                }
                if let Some(i) = find_timer(&self.timers, id) {
                    let mut t = copy_timer(&self.timers[i]);
                    t.remaining_ms = old_remaining;
                    t.original_ms = old_original;
                    t.fib_alert_index = 0;
                    if old_remaining > 0 {
                        t.state = TimerState::Running;
                        t.last_tick = Some(now);
                    }
                    self.timers.set(i, t);
                }
            },
        }
        self.save();
    }

    /// Carries out a command at `now`.
    pub fn execute_command(&mut self, cmd: Command, now: u64)
        ensures
            executed(*old(self), *final(self), cmd, now),
    {
        match cmd {
            Command::Pause => self.toggle_pause(now),
            Command::Reset => self.reset_active(now),
            Command::Update(ms) => self.update_active(ms, now),
            Command::Revert => self.try_revert(now),
            Command::Remove => self.remove_active(now),
            Command::Complete => self.complete_active(now),
            Command::NewTimer(ms, name) => {
                if let Err(AddTimerError::DuplicateName(name)) = self.add_timer(ms, name, now) {
                    self.mode = Mode::NamePrompt(ms);
                    self.name_prompt_buffer = name;
                    self.name_prompt_error = Some(
                        String::from_str("Timer with this name already exists. Enter a different name."),
                    );
                }
            },
            Command::NamePrompt(ms) => {
                self.mode = Mode::NamePrompt(ms);
                self.name_prompt_buffer = String::new();
                self.name_prompt_error = None;
            },
            Command::Switch => {
                if self.timers.len() > 1 {
                    self.open_selector();
                }
            },
            Command::TimerPrompt(name) => {
                self.mode = Mode::TimePrompt(name);
                self.time_prompt_buffer = String::new();
                self.name_prompt_error = None;
            },
            Command::Quit => {
                self.should_quit = true;
            },
            Command::Unknown(_) => {},
        }
    }

    /// Pauses the active timer, or resumes it when paused.
    pub fn toggle_pause(&mut self, now: u64)
        ensures
            toggled(*old(self), *final(self), now),
    {
        proof {
            if let Some(id) = self.active_id {
                lemma_find(self.timers@, id);
            }
        }
        if let Some(i) = self.active_index() {
            if self.timers[i].state == TimerState::Paused {
                self.timers[i].resume(now);
            } else {
                self.timers[i].pause();
            }
            self.save();
        }
    }

    /// Restarts the active timer from its full duration.
    pub fn reset_active(&mut self, now: u64)
        ensures
            reset_done(*old(self), *final(self), now),
    {
        proof {
            if let Some(id) = self.active_id {
                lemma_find(self.timers@, id);
            }
        }
        if let Some(i) = self.active_index() {
            self.timers[i].reset(now);
            self.save();
        }
    }

    /// Sets the active timer to `ms`, keeping the old durations for undo.
    pub fn update_active(&mut self, ms: i64, now: u64)
        ensures
            updated(*old(self), *final(self), ms, now),
    {
        proof {
            if let Some(id) = self.active_id {
                lemma_find(self.timers@, id);
            }
        }
        let i = match self.active_index() {
            Some(i) => i,
            None => {
                return;
            },
        };
        let id = self.timers[i].id;
        let old_remaining = self.timers[i].remaining_ms;
        let old_original = self.timers[i].original_ms;
        self.undo_stack.push(
            UndoEntry {
                timestamp: now,
                action: UndoAction::TimeChanged { id, old_remaining, old_original },
            },
        );
        let mut t = copy_timer(&self.timers[i]);
        t.remaining_ms = ms;
        t.original_ms = ms;
        if t.state == TimerState::Expired {
            t.state = TimerState::Running;
        }
        t.fib_alert_index = 0;
        t.last_tick = Some(now);
        self.timers.set(i, t);
        self.save();
    }
}

} // verus!
