//! Adding, switching, removing and ticking timers.

use vstd::prelude::*;

use super::{
    copy_timer, same_env, same_ui, UndoAction, UndoEntry, active_pos, add_excluded, before_add, drop_id, find, find_timer, fresh, has_name, lemma_find,
    next_of, remove_id, removable, same_but_timers, switch_timers, AddTimerError, App, Mode,
};
use crate::alert::{should_alert, should_alert_spec, Alert};
use crate::duration::{format_seconds, format_spec};
use crate::task_integration::{listing_of, rows_view, TaskRow, TaskRowModel, TaskSource, TaskWrite};
use crate::timer::{clamp, elapsed, elapsed_ms, paused, resumed, ticked, Timer, TimerState};

verus! {

/// Pauses the timer at `i`.
pub fn pause_at(ts: &mut Vec<Timer>, i: usize)
    requires
        i < old(ts)@.len(),
    ensures
        final(ts)@ == old(ts)@.update(i as int, paused(old(ts)@[i as int])),
{
    ts[i].pause();
}

/// Resumes the timer at `i` at `now`.
pub fn resume_at(ts: &mut Vec<Timer>, i: usize, now: u64)
    requires
        i < old(ts)@.len(),
    ensures
        final(ts)@ == old(ts)@.update(i as int, resumed(old(ts)@[i as int], now)),
{
    ts[i].resume(now);
}

/// The id counter advanced by one, wrapping past `u32::MAX`.
pub fn next_id_of(x: u32) -> (r: u32)
    ensures
        r == next_of(x),
{
    if x == u32::MAX {
        0
    } else {
        x + 1
    }
}

/// `b` is `a` after adding a timer `name` of `ms` at `now`: a removable
/// active timer dropped, else the active one paused; the new timer running
/// and active under the next id.
pub open spec fn added<S>(a: App<S>, b: App<S>, ms: i64, name: String, now: u64) -> bool {
    &&& b.timers@ == before_add(a.timers@, a.active_id).push(fresh(a.next_id, name, ms, now))
    &&& b.active_id == Some(a.next_id)
    &&& b.next_id == next_of(a.next_id)
    &&& b.save_requested
    &&& same_but_timers(a, b)
}

/// The write that `op` asks of the source for task `task_id`.
pub open spec fn write_of(op: TaskWriteBack, task_id: u32) -> TaskWrite {
    match op {
        TaskWriteBack::Complete => TaskWrite::Complete(task_id),
        TaskWriteBack::Delete => TaskWrite::Delete(task_id),
    }
}

/// The source's account of the writes of the kind `op` asks for that took
/// effect.
pub open spec fn done_of<S: TaskSource>(s: S, op: TaskWriteBack) -> Seq<u32> {
    match op {
        TaskWriteBack::Complete => s.completions(),
        TaskWriteBack::Delete => s.deletions(),
    }
}

/// The source's account of the writes of the other kind that took effect.
pub open spec fn other_done_of<S: TaskSource>(s: S, op: TaskWriteBack) -> Seq<u32> {
    match op {
        TaskWriteBack::Complete => s.deletions(),
        TaskWriteBack::Delete => s.completions(),
    }
}

/// After a failed write-back, task `task_id` counts as gone when a listing
/// was had and does not hold it.
pub open spec fn gone_from(task_id: u32, listing: Option<Seq<TaskRowModel>>) -> bool {
    listing matches Some(rows) && !listed(task_id, rows)
}

/// Source `s0` became `s1` by writing back `op` for task `task_id` once, and
/// the answer `r` (remove the local timer) holds when the write took effect;
/// when it did not, `r` says whether the task is gone from the listing read
/// afterwards.
pub open spec fn wrote_back<S: TaskSource>(s0: S, s1: S, task_id: u32, op: TaskWriteBack, r: bool) -> bool {
    &&& s1.writes() == s0.writes().push(write_of(op, task_id))
    &&& other_done_of(s1, op) == other_done_of(s0, op)
    &&& done_of(s1, op) == done_of(s0, op).push(task_id) || done_of(s1, op) == done_of(s0, op)
    &&& done_of(s1, op) == done_of(s0, op).push(task_id) ==> r
    &&& done_of(s1, op) == done_of(s0, op) ==> r == gone_from(task_id, s1.listing())
}

/// Both states have a task source, and, when it keeps account, the first
/// became the second by writing back `op` for task `task_id`, answering `r`.
pub open spec fn source_wrote_back<S: TaskSource>(a: App<S>, b: App<S>, task_id: u32, op: TaskWriteBack, r: bool) -> bool {
    &&& a.task_source is Some
    &&& b.task_source is Some
    &&& a.task_source->Some_0.keeps_account() ==> {
        &&& b.task_source->Some_0.keeps_account()
        &&& wrote_back(a.task_source->Some_0, b.task_source->Some_0, task_id, op, r)
    }
}

/// `b` keeps the timers, the active id, the undo stack, the save request and
/// the input of `a`.
pub open spec fn timers_kept<S>(a: App<S>, b: App<S>) -> bool {
    &&& b.timers == a.timers
    &&& b.active_id == a.active_id
    &&& b.undo_stack == a.undo_stack
    &&& b.save_requested == a.save_requested
    &&& same_ui(a, b)
}

/// `b` is `a` after removing its active timer at `now` (see `remove_active`).
/// For a task-backed timer with a task source, the task is soft-deleted
/// first, and the timer goes exactly when the write-back says so.
pub open spec fn removed_active<S: TaskSource>(a: App<S>, b: App<S>, now: u64) -> bool {
    &&& b.next_id == a.next_id
    &&& b.time_debt_ms == a.time_debt_ms
    &&& b.all_paused_since == a.all_paused_since
    &&& same_env(a, b)
    &&& match active_pos(a.timers@, a.active_id) {
        Some(i) => match a.timers@[i].task_id {
            None => removed(a, b, true, now) && b.task_source == a.task_source,
            Some(tid) => if a.task_source is Some {
                exists|r: bool|
                    #[trigger] source_wrote_back(a, b, tid, TaskWriteBack::Delete, r) && if r {
                        removed(a, b, false, now)
                    } else {
                        timers_kept(a, b)
                    }
            } else {
                removed(a, b, false, now) && b.task_source == a.task_source
            },
        },
        None => removed(a, b, true, now) && b.task_source == a.task_source,
    }
}

/// `b` is `a` after completing its active timer at `now` (see
/// `complete_active`): the timer goes and its positive time left is paid back
/// from the debt. For a task-backed timer with a task source, the task is
/// completed first, and the timer goes exactly when the write-back says so.
pub open spec fn completed<S: TaskSource>(a: App<S>, b: App<S>, now: u64) -> bool {
    &&& b.next_id == a.next_id
    &&& b.all_paused_since == a.all_paused_since
    &&& same_env(a, b)
    &&& {
        let refund: int = match active_pos(a.timers@, a.active_id) {
            Some(i) => if a.timers@[i].remaining_ms > 0 {
                a.timers@[i].remaining_ms as int
            } else {
                0
            },
            None => 0,
        };
        let done = removed(a, b, false, now) && b.time_debt_ms == clamp(a.time_debt_ms - refund);
        let kept = timers_kept(a, b) && b.time_debt_ms == a.time_debt_ms;
        match active_pos(a.timers@, a.active_id) {
            Some(i) => match a.timers@[i].task_id {
                Some(tid) => if a.task_source is Some {
                    exists|r: bool|
                        #[trigger] source_wrote_back(a, b, tid, TaskWriteBack::Complete, r) && if r {
                            done
                        } else {
                            kept
                        }
                } else {
                    done && b.task_source == a.task_source
                },
                None => done && b.task_source == a.task_source,
            },
            None => done && b.task_source == a.task_source,
        }
    }
}

impl<S: TaskSource> App<S> {
    /// Asks the caller to persist the state.
    pub fn save(&mut self)
        ensures
            final(self).save_requested,
            same_but_timers(*old(self), *final(self)),
            final(self).timers == old(self).timers,
            final(self).active_id == old(self).active_id,
            final(self).next_id == old(self).next_id,
    {
        self.save_requested = true;
    }

    /// Whether a timer other than `excluded` is named `name`.
    pub fn has_timer_with_name(&self, name: &str, excluded_id: Option<u32>) -> (r: bool)
        ensures
            r == has_name(self.timers@, name@, excluded_id),
    {
        let n = self.timers.len();
        for i in 0..n
            invariant
                n == self.timers@.len(),
                forall|k: int|
                    0 <= k < i ==> !((#[trigger] self.timers@[k]).name@ == name@ && Some(
                        self.timers@[k].id,
                    ) != excluded_id),
        {
            let t = &self.timers[i];
            if crate::text::chars_eq(crate::text::chars_of(t.name.as_str()).as_slice(), crate::text::chars_of(name).as_slice()) && Some(t.id) != excluded_id {
                return true;
            }
        }
        false
    }

    /// Makes timer `id` the active one at `now`: the previous active timer is
    /// dropped if it is an ad-hoc timer that has run out (and not `id`
    /// itself), otherwise paused; then `id` resumes.
    pub fn switch_to(&mut self, id: u32, now: u64)
        ensures
            final(self).timers@ == switch_timers(old(self).timers@, old(self).active_id, id, now),
            final(self).active_id == Some(id),
            final(self).next_id == old(self).next_id,
            final(self).save_requested,
            same_but_timers(*old(self), *final(self)),
    {
        if let Some(current_id) = self.active_id {
            proof {
                lemma_find(self.timers@, current_id);
            }
            match find_timer(&self.timers, current_id) {
                Some(ci) => {
                    let t = &self.timers[ci];
                    let should_remove = (t.state == TimerState::Expired || t.is_overdue())
                        && !t.is_task_backed();
                    if should_remove && current_id != id {
                        remove_id(&mut self.timers, current_id);
                    } else {
                        pause_at(&mut self.timers, ci);
                    }
                },
                None => {},
            }
        }
        let ghost ts1 = self.timers@;
        proof {
            lemma_find(ts1, id);
        }
        if let Some(j) = find_timer(&self.timers, id) {
            resume_at(&mut self.timers, j, now);
        }
        self.active_id = Some(id);
        self.save();
    }

    /// Adds a running timer and makes it active. The previous active timer is
    /// dropped if it is an ad-hoc timer that has run out, else paused. Fails,
    /// changing nothing, when another timer already has the name.
    pub fn add_timer(&mut self, duration_ms: i64, name: String, now: u64) -> (r: Result<(), AddTimerError>)
        ensures
            has_name(old(self).timers@, name@, add_excluded(old(self).timers@, old(self).active_id))
                ==> (r matches Err(AddTimerError::DuplicateName(n)) && n == name && *final(self) == *old(self)),
            !has_name(old(self).timers@, name@, add_excluded(old(self).timers@, old(self).active_id))
                ==> r is Ok && added(*old(self), *final(self), duration_ms, name, now),
    {
        let active_id = self.active_id;
        proof {
            if let Some(id) = active_id {
                lemma_find(self.timers@, id);
            }
        }
        let ai = self.active_index();
        let should_remove_active = match ai {
            Some(i) => {
                let t = &self.timers[i];
                (t.state == TimerState::Expired || t.is_overdue()) && !t.is_task_backed()
            },
            None => false,
        };
        let excluded_id = if should_remove_active {
            active_id
        } else {
            None
        };
        if self.has_timer_with_name(name.as_str(), excluded_id) {
            return Err(AddTimerError::DuplicateName(name));
        }
        match ai {
            Some(i) => {
                if should_remove_active {
                    remove_id(&mut self.timers, active_id.unwrap());
                    self.active_id = None;
                } else {
                    pause_at(&mut self.timers, i);
                }
            },
            None => {},
        }
        let timer = Timer::new(self.next_id, name, duration_ms, now);
        let id = timer.id;
        self.timers.push(timer);
        self.active_id = Some(id);
        self.next_id = next_id_of(self.next_id);
        self.save();
        Ok(())
    }

    /// Opens the timer picker with an empty filter.
    pub fn open_selector(&mut self)
        ensures
            final(self).mode == Mode::Selector,
            final(self).selector_filter@ == Seq::<char>::empty(),
            final(self).selector_index == 0,
            final(self).timers == old(self).timers,
            final(self).active_id == old(self).active_id,
            final(self).next_id == old(self).next_id,
            final(self).save_requested == old(self).save_requested,
            final(self).input_buffer == old(self).input_buffer,
            final(self).time_prompt_buffer == old(self).time_prompt_buffer,
            final(self).name_prompt_buffer == old(self).name_prompt_buffer,
            final(self).name_prompt_error == old(self).name_prompt_error,
            final(self).time_prompt_error == old(self).time_prompt_error,
            final(self).should_quit == old(self).should_quit,
            final(self).task_source == old(self).task_source,
            final(self).undo_stack == old(self).undo_stack,
            final(self).time_debt_ms == old(self).time_debt_ms,
            final(self).all_paused_since == old(self).all_paused_since,
            crate::app::same_env(*old(self), *final(self)),
    {
        self.mode = Mode::Selector;
        self.selector_filter = String::new();
        self.selector_index = 0;
    }
}


/// Every timer left by `drop_id` has another id, and none other is lost.
pub proof fn lemma_drop_id(ts: Seq<Timer>, id: u32)
    ensures
        forall|k: int| 0 <= k < drop_id(ts, id).len() ==> #[trigger] drop_id(ts, id)[k].id != id,
        drop_id(ts, id).len() <= ts.len(),
        (forall|k: int| 0 <= k < ts.len() ==> #[trigger] ts[k].id != id) ==> drop_id(ts, id) == ts,
    decreases ts.len(),
{
    if ts.len() > 0 {
        lemma_drop_id(ts.drop_last(), id);
        if forall|k: int| 0 <= k < ts.len() ==> #[trigger] ts[k].id != id {
            assert forall|k: int| 0 <= k < ts.drop_last().len() implies #[trigger] ts.drop_last()[k].id != id by {
                assert(ts.drop_last()[k] == ts[k]);
            }
            assert(ts.drop_last().push(ts.last()) =~= ts);
        }
    } else {
        assert(drop_id(ts, id) =~= ts);
    }
}

/// The undo stack after removing the active timer `id` at `now`.
pub open spec fn undo_after_remove(ts: Seq<Timer>, undo: Seq<UndoEntry>, id: u32, with_undo: bool, now: u64) -> Seq<UndoEntry> {
    match find(ts, id) {
        Some(i) => if with_undo {
            undo.push(UndoEntry { timestamp: now, action: UndoAction::TimerRemoved(ts[i]) })
        } else {
            undo
        },
        None => undo,
    }
}

/// Removing the active timer at `now`: it is dropped (with an undo entry when
/// asked); then with no timer left none is active, with one left it becomes
/// active, and with more the picker opens.
pub open spec fn removed<S>(a: App<S>, b: App<S>, with_undo: bool, now: u64) -> bool {
    match a.active_id {
        None => {
            &&& b.timers == a.timers
            &&& b.active_id == a.active_id
            &&& b.undo_stack == a.undo_stack
            &&& b.save_requested == a.save_requested
            &&& same_ui(a, b)
        },
        Some(id) => {
            let ts1 = drop_id(a.timers@, id);
            &&& b.undo_stack@ == undo_after_remove(a.timers@, a.undo_stack@, id, with_undo, now)
            &&& ts1.len() == 0 ==> {
                &&& b.timers@ == ts1
                &&& b.active_id is None
                &&& b.save_requested
                &&& same_ui(a, b)
            }
            &&& ts1.len() == 1 ==> {
                &&& b.timers@ == ts1.update(0, resumed(ts1[0], now))
                &&& b.active_id == Some(ts1[0].id)
                &&& b.save_requested
                &&& same_ui(a, b)
            }
            &&& ts1.len() > 1 ==> {
                &&& b.timers@ == ts1
                &&& b.active_id is None
                &&& b.save_requested == a.save_requested
                &&& b.mode == Mode::Selector
                &&& b.selector_filter@ == Seq::<char>::empty()
                &&& b.selector_index == 0
                &&& b.input_buffer == a.input_buffer
                &&& b.time_prompt_buffer == a.time_prompt_buffer
                &&& b.name_prompt_buffer == a.name_prompt_buffer
                &&& b.name_prompt_error == a.name_prompt_error
                &&& b.time_prompt_error == a.time_prompt_error
                &&& b.should_quit == a.should_quit
            }
        },
    }
}

/// Whether a task-backed timer may go after a failed write-back: only when
/// the tool could be read again and the task is no longer listed.
pub open spec fn gone_after_failure(task_id: u32, rows: Option<Seq<TaskRowModel>>) -> bool {
    match rows {
        Some(r) => !listed(task_id, r),
        None => false,
    }
}

/// Task `task_id` is among the rows.
pub open spec fn listed(task_id: u32, r: Seq<TaskRowModel>) -> bool {
    exists|i: int| 0 <= i < r.len() && (#[trigger] r[i]).id == task_id
}

/// Whether task `task_id` is among the rows.
pub fn is_listed(task_id: u32, v: &Vec<TaskRow>) -> (r: bool)
    ensures
        r == listed(task_id, rows_view(v@)),
{
    let n = v.len();
    let ghost rv = rows_view(v@);
    assert(rv.len() == n);
    for i in 0..n
        invariant
            n == v@.len(),
            rv == rows_view(v@),
            rv.len() == n,
            forall|k: int| 0 <= k < i ==> (#[trigger] rv[k]).id != task_id,
    {
        if v[i].id == task_id {
            assert(rv[i as int].id == task_id);
            return true;
        }
    }
    false
}

/// Decides, after a write-back to the tool failed, whether the local timer
/// may be removed: the task is already gone from a fresh listing. When the
/// tool cannot be read the timer is kept, so the two never diverge.
pub fn gone_after_failed_write(task_id: u32, rows: Option<Vec<TaskRow>>) -> (r: bool)
    ensures
        rows is None ==> !r,
        rows matches Some(v) ==> r == !listed(task_id, rows_view(v@)),
{
    match rows {
        None => false,
        Some(v) => !is_listed(task_id, &v),
    }
}

/// The lifecycle change written back to the `ttask` tool.
pub enum TaskWriteBack {
    Complete,
    Delete,
}

/// One tick of one timer at `now`: crossing zero raises a sound and a toast
/// and starts the alert stages; an overdue, unpaused timer raises a sound at
/// each next alert stage.
pub open spec fn tick_timer(t: Timer, now: u64) -> (Timer, Seq<Alert>) {
    let (t1, crossed) = ticked(t, now);
    if crossed {
        (Timer { fib_alert_index: 1, ..t1 }, seq![Alert::Sound, Alert::Toast(t.name)])
    } else if t1.remaining_ms < 0 && t1.state != TimerState::Paused && should_alert_spec(
        -(t1.remaining_ms as int),
        t1.fib_alert_index as int,
    ) {
        (Timer { fib_alert_index: (t1.fib_alert_index + 1) as usize, ..t1 }, seq![Alert::Sound])
    } else {
        (t1, seq![])
    }
}

/// The debt a tick adds for a timer that had `was` remaining and now is `t`:
/// the growth of its overdue time while it is not paused.
pub open spec fn debt_added(was: i64, t: Timer) -> int {
    if t.remaining_ms < 0 && t.state != TimerState::Paused {
        let previous: int = if was < 0 {
            -(was as int)
        } else {
            0
        };
        let current: int = -(t.remaining_ms as int);
        if current > previous {
            current - previous
        } else {
            0
        }
    } else {
        0
    }
}

/// Ticking the timers in order at `now`, starting from debt `debt`: the new
/// timers, the new debt and the alerts raised.
pub open spec fn tick_all(ts: Seq<Timer>, now: u64, debt: i64) -> (Seq<Timer>, i64, Seq<Alert>)
    decreases ts.len(),
{
    if ts.len() == 0 {
        (seq![], debt, seq![])
    } else {
        let (p, d, al) = tick_all(ts.drop_last(), now, debt);
        let (t2, a2) = tick_timer(ts.last(), now);
        (p.push(t2), clamp(d + debt_added(ts.last().remaining_ms, t2)), al + a2)
    }
}

/// The idle debt at `now`: while no timer is active, or all timers are
/// paused, the time since `since` is debt.
pub open spec fn tracks_idle<S>(a: App<S>) -> bool {
    active_pos(a.timers@, a.active_id) is None || (a.timers@.len() > 0 && forall|i: int|
        0 <= i < a.timers@.len() ==> (#[trigger] a.timers@[i]).state == TimerState::Paused)
}

/// `b` is `a` after ticking every timer at `now`, which raised alerts `al`.
pub open spec fn ticked_app<S>(a: App<S>, b: App<S>, now: u64, al: Seq<Alert>) -> bool {
    &&& ({
        let (ts, d, al2) = tick_all(a.timers@, now, a.time_debt_ms);
        &&& b.timers@ == ts
        &&& b.time_debt_ms == d
        &&& al == al2
    })
    &&& b.active_id == a.active_id
    &&& b.next_id == a.next_id
    &&& b.save_requested == a.save_requested
    &&& b.undo_stack == a.undo_stack
    &&& b.all_paused_since == a.all_paused_since
    &&& b.task_source == a.task_source
    &&& same_ui(a, b)
    &&& same_env(a, b)
}

/// `b` is `a` after counting idle time as debt up to `now`.
pub open spec fn debt_updated<S>(a: App<S>, b: App<S>, now: u64) -> bool {
    &&& tracks_idle(a) ==> match a.all_paused_since {
        Some(since) => b.time_debt_ms == clamp(a.time_debt_ms + elapsed(since, now))
            && b.all_paused_since == Some(now),
        None => b.time_debt_ms == a.time_debt_ms && b.all_paused_since == Some(now),
    }
    &&& !tracks_idle(a) ==> match a.all_paused_since {
        Some(since) => b.time_debt_ms == clamp(a.time_debt_ms + elapsed(since, now))
            && b.all_paused_since is None,
        None => b.time_debt_ms == a.time_debt_ms && b.all_paused_since is None,
    }
    &&& b.timers == a.timers
    &&& b.active_id == a.active_id
    &&& b.next_id == a.next_id
    &&& b.save_requested == a.save_requested
    &&& b.undo_stack == a.undo_stack
    &&& b.task_source == a.task_source
    &&& same_ui(a, b)
    &&& same_env(a, b)
}

impl<S: TaskSource> App<S> {
    /// Drops the active timer at `now` (recording an undo entry when
    /// `with_undo`), then activates the single remaining timer or opens the
    /// picker when several remain.
    pub fn remove_active_impl(&mut self, with_undo: bool, now: u64)
        ensures
            removed(*old(self), *final(self), with_undo, now),
            final(self).next_id == old(self).next_id,
            final(self).time_debt_ms == old(self).time_debt_ms,
            final(self).all_paused_since == old(self).all_paused_since,
            final(self).task_source == old(self).task_source,
            same_env(*old(self), *final(self)),
    {
        proof {
            if let Some(id) = self.active_id {
                lemma_find(self.timers@, id);
            }
        }
        let id = match self.active_id {
            Some(id) => id,
            None => {
                return;
            },
        };
        proof {
            lemma_find(self.timers@, id);
        }
        if with_undo {
            if let Some(i) = find_timer(&self.timers, id) {
                let t = copy_timer(&self.timers[i]);
                self.undo_stack.push(UndoEntry { timestamp: now, action: UndoAction::TimerRemoved(t) });
            }
        }
        let ghost undo1 = self.undo_stack;
        remove_id(&mut self.timers, id);
        proof {
            lemma_drop_id(old(self).timers@, id);
        }
        let ghost ts1 = self.timers@;
        if self.timers.len() == 0 {
            self.active_id = None;
        } else if self.timers.len() == 1 {
            let first = self.timers[0].id;
            proof {
                lemma_find(ts1, id);
                lemma_find(ts1, first);
                assert(find(ts1, first) == Some(0int));
            }
            self.switch_to(first, now);
            assert(self.timers@ == ts1.update(0, resumed(ts1[0], now)));
        } else {
            self.active_id = None;
            self.open_selector();
            return;
        }
        self.save();
    }

    /// Writes a completion or deletion of task `task_id` back to the tool.
    /// Returns whether the local timer should be removed: the write succeeded,
    /// or the task is already gone; without a task link, always.
    pub fn write_back(&mut self, task_id: u32, op: TaskWriteBack) -> (r: bool)
        ensures
            old(self).task_source is None ==> r && final(self).task_source == old(self).task_source,
            old(self).task_source is Some ==> source_wrote_back(*old(self), *final(self), task_id, op, r),
            final(self).timers == old(self).timers,
            final(self).active_id == old(self).active_id,
            final(self).next_id == old(self).next_id,
            final(self).save_requested == old(self).save_requested,
            final(self).undo_stack == old(self).undo_stack,
            final(self).time_debt_ms == old(self).time_debt_ms,
            final(self).all_paused_since == old(self).all_paused_since,
            same_ui(*old(self), *final(self)),
            same_env(*old(self), *final(self)),
    {
        let mut taken: Option<S> = None;
        std::mem::swap(&mut taken, &mut self.task_source);
        let mut source = match taken {
            None => {
                return true;
            },
            Some(s) => s,
        };
        let ghost s0 = source;
        let result = match op {
            TaskWriteBack::Complete => source.complete(task_id),
            TaskWriteBack::Delete => source.delete(task_id),
        };
        let r = match result {
            Ok(()) => true,
            Err(_) => {
                let rows = source.list_active();
                let ghost l = listing_of(rows);
                let g = gone_after_failed_write(task_id, rows);
                assert(g == gone_from(task_id, l));
                g
            },
        };
        proof {
            if s0.keeps_account() {
                assert(source.writes() == s0.writes().push(write_of(op, task_id)));
                assert(other_done_of(source, op) == other_done_of(s0, op));
                assert(done_of(source, op) == done_of(s0, op).push(task_id) || done_of(source, op) == done_of(s0, op));
                assert(done_of(source, op) == done_of(s0, op).push(task_id) ==> r);
                assert(done_of(source, op) == done_of(s0, op) ==> r == gone_from(task_id, source.listing()));
                assert(wrote_back(s0, source, task_id, op, r));
            }
        }
        self.task_source = Some(source);
        r
    }

    /// Removes the active timer. For a task-backed timer the task is
    /// soft-deleted in the tool first, and the timer stays when that fails
    /// while the task is still active; no undo entry is kept for it. An
    /// ad-hoc timer is removed with an undo entry.
    pub fn remove_active(&mut self, now: u64)
        ensures
            final(self).next_id == old(self).next_id,
            final(self).time_debt_ms == old(self).time_debt_ms,
            final(self).all_paused_since == old(self).all_paused_since,
            same_env(*old(self), *final(self)),
            removed_active(*old(self), *final(self), now),
    {
        proof {
            if let Some(id) = self.active_id {
                lemma_find(self.timers@, id);
            }
        }
        if let Some(i) = self.active_index() {
            if let Some(task_id) = self.timers[i].task_id {
                let ghost a = *self;
                let r = self.write_back(task_id, TaskWriteBack::Delete);
                if r {
                    self.remove_active_impl(false, now);
                    assert(removed(a, *self, false, now));
                } else {
                    assert(timers_kept(a, *self));
                }
                proof {
                    if a.task_source is Some {
                        assert(source_wrote_back(a, *self, task_id, TaskWriteBack::Delete, r));
                    }
                }
                return;
            }
        }
        self.remove_active_impl(true, now);
    }

    /// Completes the active timer: for a task-backed timer the task is
    /// completed in the tool first (the timer stays when that fails while the
    /// task is still active). Time left on the clock is paid back from the
    /// debt; then the timer is removed without an undo entry.
    pub fn complete_active(&mut self, now: u64)
        ensures
            final(self).next_id == old(self).next_id,
            final(self).all_paused_since == old(self).all_paused_since,
            same_env(*old(self), *final(self)),
            completed(*old(self), *final(self), now),
    {
        proof {
            if let Some(id) = self.active_id {
                lemma_find(self.timers@, id);
            }
        }
        let ghost a = *self;
        let ghost mut wrote: Option<(u32, bool)> = None;
        if let Some(i) = self.active_index() {
            if let Some(task_id) = self.timers[i].task_id {
                let r = self.write_back(task_id, TaskWriteBack::Complete);
                proof {
                    wrote = Some((task_id, r));
                }
                if !r {
                    proof {
                        assert(timers_kept(a, *self));
                        if a.task_source is Some {
                            assert(source_wrote_back(a, *self, task_id, TaskWriteBack::Complete, r));
                        }
                    }
                    return;
                }
            }
        }
        proof {
            if let Some(id) = self.active_id {
                lemma_find(self.timers@, id);
            }
        }
        if let Some(i) = self.active_index() {
            let remaining = self.timers[i].remaining_ms;
            if remaining > 0 {
                self.time_debt_ms = crate::timer::sat_sub(self.time_debt_ms, remaining as u64);
            }
        }
        self.remove_active_impl(false, now);
        proof {
            assert(removed(a, *self, false, now));
            if let Some((task_id, r)) = wrote {
                if a.task_source is Some {
                    assert(source_wrote_back(a, *self, task_id, TaskWriteBack::Complete, r));
                }
            }
        }
    }

    /// Ticks every timer at `now`, raising alerts and adding the growth of
    /// overdue time to the debt. Returns the alerts to play, in order.
    pub fn tick(&mut self, now: u64) -> (alerts: Vec<Alert>)
        ensures
            ticked_app(*old(self), *final(self), now, alerts@),
    {
        let mut alerts: Vec<Alert> = Vec::new();
        let n = self.timers.len();
        let ghost orig = self.timers@;
        let ghost debt0 = self.time_debt_ms;
        for i in 0..n
            invariant
                n == orig.len(),
                self.timers@.len() == n,
                ({
                    let (ts, d, al) = tick_all(orig.take(i as int), now, debt0);
                    &&& self.timers@.take(i as int) == ts
                    &&& self.time_debt_ms == d
                    &&& alerts@ == al
                }),
                self.timers@.skip(i as int) == orig.skip(i as int),
                self.active_id == old(self).active_id,
                self.next_id == old(self).next_id,
                self.save_requested == old(self).save_requested,
                self.undo_stack == old(self).undo_stack,
                self.all_paused_since == old(self).all_paused_since,
                self.task_source == old(self).task_source,
                same_ui(*old(self), *self),
                same_env(*old(self), *self),
        {
            let ghost pre = orig.take(i as int);
            let ghost cur = orig.take(i + 1);
            assert(cur.drop_last() =~= pre);
            assert(cur.last() == orig[i as int]);
            assert(self.timers@[i as int] == orig[i as int]) by {
                assert(self.timers@.skip(i as int)[0] == orig.skip(i as int)[0]);
            }
            let ghost before = self.timers@;
            let ghost al0 = alerts@;
            tick_one(&mut self.timers[i], now, &mut self.time_debt_ms, &mut alerts);
            proof {
                let (t2, a2) = tick_timer(orig[i as int], now);
                assert(self.timers@ == before.update(i as int, t2));
                assert(self.timers@.take(i + 1) =~= before.take(i as int).push(t2));
                assert(self.timers@.skip(i + 1) =~= orig.skip(i + 1)) by {
                    assert forall|k: int| 0 <= k < self.timers@.skip(i + 1).len() implies
                        #[trigger] self.timers@.skip(i + 1)[k] == orig.skip(i + 1)[k] by {
                        assert(before.skip(i as int)[k + 1] == orig.skip(i as int)[k + 1]);
                    }
                }
            }
        }
        assert(orig.take(n as int) =~= orig);
        assert(self.timers@.take(n as int) =~= self.timers@);
        alerts
    }

    /// Counts idle time as debt up to `now`: while no timer is active or all
    /// timers are paused, the time since the last update is added; when that
    /// stops, the time up to `now` is added once more.
    pub fn update_time_debt(&mut self, now: u64)
        ensures
            debt_updated(*old(self), *final(self), now),
    {
        let no_active_timer = self.active_index().is_none();
        let n = self.timers.len();
        let mut all_paused = n > 0;
        for i in 0..n
            invariant
                n == self.timers@.len(),
                all_paused == (n > 0 && forall|k: int| 0 <= k < i ==> (#[trigger] self.timers@[k]).state == TimerState::Paused),
        {
            if self.timers[i].state != TimerState::Paused {
                all_paused = false;
            }
        }
        let should_track_idle_debt = no_active_timer || all_paused;
        if should_track_idle_debt {
            if let Some(since) = self.all_paused_since {
                self.time_debt_ms = add_ms(self.time_debt_ms, elapsed_ms(since, now));
                self.all_paused_since = Some(now);
            } else {
                self.all_paused_since = Some(now);
            }
        } else if let Some(since) = self.all_paused_since {
            self.time_debt_ms = add_ms(self.time_debt_ms, elapsed_ms(since, now));
            self.all_paused_since = None;
        }
    }

    /// The debt including the idle time counting since the last update, as
    /// `HH:MM:SS`.
    pub fn format_time_debt(&self, now: u64) -> (r: String)
        ensures
            r@ == format_spec(
                clamp(
                    self.time_debt_ms + match self.all_paused_since {
                        Some(since) => elapsed(since, now) as int,
                        None => 0,
                    },
                ) as int,
            ),
    {
        let extra: u64 = match self.all_paused_since {
            Some(since) => elapsed_ms(since, now),
            None => 0,
        };
        format_seconds(add_ms(self.time_debt_ms, extra))
    }
}

/// One timer's tick at `now`: the timer advances, the alerts it raises are
/// appended, and its new overdue time is added to `debt`.
pub fn tick_one(t: &mut Timer, now: u64, debt: &mut i64, alerts: &mut Vec<Alert>)
    ensures
        ({
            let (t2, a2) = tick_timer(*old(t), now);
            &&& *final(t) == t2
            &&& final(alerts)@ == old(alerts)@ + a2
            &&& *final(debt) == clamp(*old(debt) + debt_added(old(t).remaining_ms, t2))
        }),
{
    let was = t.remaining_ms;
    let crossed_zero = t.tick(now);
    if crossed_zero {
        alerts.push(Alert::Sound);
        alerts.push(Alert::Toast(t.name.clone()));
        t.fib_alert_index = 1;
    } else if t.remaining_ms < 0 && t.state != TimerState::Paused {
        let overdue: i64 = if t.remaining_ms == i64::MIN {
            i64::MAX
        } else {
            -t.remaining_ms
        };
        proof {
            crate::alert::lemma_should_alert_clamped(t.remaining_ms as int);
        }
        if should_alert(overdue, t.fib_alert_index) {
            alerts.push(Alert::Sound);
            t.fib_alert_index = t.fib_alert_index + 1;
        }
    }
    if t.remaining_ms < 0 && t.state != TimerState::Paused {
        let previous: i128 = if was < 0 {
            -(was as i128)
        } else {
            0
        };
        let current: i128 = -(t.remaining_ms as i128);
        if current > previous {
            let sum: i128 = *debt as i128 + (current - previous);
            *debt = if sum > i64::MAX as i128 {
                i64::MAX
            } else {
                sum as i64
            };
        }
    }
    assert(final(alerts)@ =~= old(alerts)@ + tick_timer(*old(t), now).1);
}

/// `a + b` clamped into the range of `i64`.
pub fn add_ms(a: i64, b: u64) -> (r: i64)
    ensures
        r == clamp(a + b),
{
    let x = (a as i128) + (b as i128);
    if x > i64::MAX as i128 {
        i64::MAX
    } else {
        x as i64
    }
}

} // verus!
