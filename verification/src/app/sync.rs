//! Reconciling the timers with the `ttask` tool's active task list.

use vstd::prelude::*;

use super::names::{unique_name, unique_name_among};
use super::timers::{is_listed, listed, next_id_of};
use super::{
    drop_id, find, find_timer, first_index, ids_of, lemma_find, lemma_first_index,
    lemma_first_index_unique, next_of, removable, same_but_timers, switch_timers, App, Mode,
};
use crate::task_integration::{listing_of, rows_view, TaskRow, TaskRowModel, TaskSource};
use crate::task_state::{apply_overlay, overlay_applied, OverlayEntry};
use crate::timer::{
    clamp, m_paused, m_resumed, paused, resumed, tviews, Timer, TimerModel, TimerState,
};

verus! {

/// The ids of timer values, in order.
pub open spec fn m_ids(ms: Seq<TimerModel>) -> Seq<u32> {
    ms.map_values(|m: TimerModel| m.id)
}

/// The index of the first timer value with id `id`.
pub open spec fn m_find(ms: Seq<TimerModel>, id: u32) -> Option<int> {
    first_index(m_ids(ms), id)
}

/// The timer values without those of id `id`, in order.
pub open spec fn m_drop_id(ms: Seq<TimerModel>, id: u32) -> Seq<TimerModel>
    decreases ms.len(),
{
    if ms.len() == 0 {
        seq![]
    } else {
        let p = m_drop_id(ms.drop_last(), id);
        if ms.last().id == id {
            p
        } else {
            p.push(ms.last())
        }
    }
}

/// See `removable`.
pub open spec fn m_removable(t: TimerModel) -> bool {
    (t.state == TimerState::Expired || t.remaining_ms < 0) && t.task_id is None
}

/// See `switch_timers`.
pub open spec fn m_switch(ms: Seq<TimerModel>, active: Option<u32>, id: u32, now: u64) -> Seq<TimerModel> {
    let ms1 = match active {
        Some(cur) => match m_find(ms, cur) {
            Some(ci) => if m_removable(ms[ci]) && cur != id {
                m_drop_id(ms, cur)
            } else {
                ms.update(ci, m_paused(ms[ci]))
            },
            None => ms,
        },
        None => ms,
    };
    match m_find(ms1, id) {
        Some(j) => ms1.update(j, m_resumed(ms1[j], now)),
        None => ms1,
    }
}

/// The index of the active timer value.
pub open spec fn m_active_pos(ms: Seq<TimerModel>, active: Option<u32>) -> Option<int> {
    match active {
        Some(id) => m_find(ms, id),
        None => None,
    }
}

proof fn lemma_ids_view(ts: Seq<Timer>)
    ensures
        ids_of(ts) == m_ids(tviews(ts)),
{
    assert(ids_of(ts) =~= m_ids(tviews(ts)));
}

proof fn lemma_drop_view(ts: Seq<Timer>, id: u32)
    ensures
        tviews(drop_id(ts, id)) == m_drop_id(tviews(ts), id),
    decreases ts.len(),
{
    if ts.len() > 0 {
        lemma_drop_view(ts.drop_last(), id);
        assert(tviews(ts.drop_last()) =~= tviews(ts).drop_last());
        if ts.last().id != id {
            assert(tviews(drop_id(ts, id)) =~= tviews(drop_id(ts.drop_last(), id)).push(ts.last()@));
        }
    } else {
        assert(tviews(drop_id(ts, id)) =~= m_drop_id(tviews(ts), id));
    }
}

/// Switching acts on timer values as it acts on timers.
pub proof fn lemma_switch_view(ts: Seq<Timer>, active: Option<u32>, id: u32, now: u64)
    ensures
        tviews(switch_timers(ts, active, id, now)) == m_switch(tviews(ts), active, id, now),
{
    lemma_ids_view(ts);
    let ms = tviews(ts);
    let ts1 = match active {
        Some(cur) => match find(ts, cur) {
            Some(ci) => if removable(ts[ci]) && cur != id {
                drop_id(ts, cur)
            } else {
                ts.update(ci, paused(ts[ci]))
            },
            None => ts,
        },
        None => ts,
    };
    if let Some(cur) = active {
        lemma_find(ts, cur);
        if let Some(ci) = find(ts, cur) {
            if removable(ts[ci]) && cur != id {
                lemma_drop_view(ts, cur);
            } else {
                assert(tviews(ts.update(ci, paused(ts[ci]))) =~= ms.update(ci, m_paused(ms[ci])));
            }
        }
    }
    let ms1 = tviews(ts1);
    lemma_ids_view(ts1);
    lemma_find(ts1, id);
    if let Some(j) = find(ts1, id) {
        assert(tviews(ts1.update(j, resumed(ts1[j], now))) =~= ms1.update(j, m_resumed(ms1[j], now)));
    }
}

/// A timer value is kept by a reconciliation with `rows`: it is ad hoc, or
/// its task is among the rows.
pub open spec fn kept(m: TimerModel, rows: Seq<TaskRowModel>) -> bool {
    match m.task_id {
        Some(tid) => listed(tid, rows),
        None => true,
    }
}

/// The timer values kept by a reconciliation, in order.
pub open spec fn m_prune(ms: Seq<TimerModel>, rows: Seq<TaskRowModel>) -> Seq<TimerModel>
    decreases ms.len(),
{
    if ms.len() == 0 {
        seq![]
    } else {
        let p = m_prune(ms.drop_last(), rows);
        if kept(ms.last(), rows) {
            p.push(ms.last())
        } else {
            p
        }
    }
}

/// The active timer is task-backed and its task is gone.
pub open spec fn active_dropped(ms: Seq<TimerModel>, active: Option<u32>, rows: Seq<TaskRowModel>) -> bool {
    match m_active_pos(ms, active) {
        Some(i) => !kept(ms[i], rows),
        None => false,
    }
}

/// The index of the first timer of task `tid`.
pub open spec fn first_task(ms: Seq<TimerModel>, tid: u32) -> Option<int> {
    if exists|i: int| 0 <= i < ms.len() && (#[trigger] ms[i]).task_id == Some(tid) {
        Some(
            choose|i: int|
                0 <= i < ms.len() && (#[trigger] ms[i]).task_id == Some(tid) && forall|k: int|
                    0 <= k < i ==> (#[trigger] ms[k]).task_id != Some(tid),
        )
    } else {
        None
    }
}

/// Renames the timer of each row's task, in row order, to the row's unique
/// name (see `unique_name`); also whether any name changed.
pub open spec fn rename_all(ms: Seq<TimerModel>, rows: Seq<TaskRowModel>) -> (Seq<TimerModel>, bool)
    decreases rows.len(),
{
    if rows.len() == 0 {
        (ms, false)
    } else {
        let (m1, c1) = rename_all(ms, rows.drop_last());
        let row = rows.last();
        let desired = unique_name(m1, row.text, row.id);
        match first_task(m1, row.id) {
            Some(i) => (m1.update(i, TimerModel { name: desired, ..m1[i] }), c1 || m1[i].name != desired),
            None => (m1, c1),
        }
    }
}

/// Some timer stands for task `tid`.
pub open spec fn has_task(ms: Seq<TimerModel>, tid: u32) -> bool {
    exists|i: int| 0 <= i < ms.len() && (#[trigger] ms[i]).task_id == Some(tid)
}

/// A task's estimate in milliseconds (negative estimates count as zero).
pub open spec fn est_ms(est: i64) -> i64 {
    clamp(if est < 0 {
        0
    } else {
        est as int * 1000
    })
}

/// The timer value of a new task-backed timer.
pub open spec fn new_task_timer(id: u32, name: Seq<char>, row: TaskRowModel, now: u64) -> TimerModel {
    TimerModel {
        id,
        name,
        original_ms: est_ms(row.est_secs),
        remaining_ms: est_ms(row.est_secs),
        state: TimerState::Running,
        last_tick: Some(now),
        fib_alert_index: 0,
        task_id: Some(row.id),
    }
}

/// See `overlay_applied`.
pub open spec fn m_overlay_applied(t: TimerModel, entry: Option<OverlayEntry>, now: u64) -> (TimerModel, bool) {
    match entry {
        None => (t, false),
        Some(e) => if e.running {
            (
                TimerModel {
                    remaining_ms: e.remaining_ms,
                    fib_alert_index: e.fib_alert_index,
                    state: if e.remaining_ms <= 0 {
                        TimerState::Expired
                    } else {
                        TimerState::Running
                    },
                    last_tick: Some(now),
                    ..t
                },
                true,
            )
        } else {
            (
                TimerModel {
                    remaining_ms: e.remaining_ms,
                    fib_alert_index: e.fib_alert_index,
                    state: TimerState::Paused,
                    last_tick: None,
                    ..t
                },
                false,
            )
        },
    }
}

/// The saved entry of task `tid`, if any.
pub open spec fn overlay_of(overlay: Map<u32, OverlayEntry>, tid: u32) -> Option<OverlayEntry> {
    if overlay.contains_key(tid) {
        Some(overlay[tid])
    } else {
        None
    }
}

/// Adds, in row order, a timer for each row whose task had no timer in
/// `base`: named uniquely, of the task's estimate, restored from its saved
/// entry, and paused unless (on the startup sync) it is the first that was
/// running. Gives the timers, the id counter, the timer to revive and whether
/// any timer was added.
pub open spec fn add_all(
    base: Seq<TimerModel>,
    ms: Seq<TimerModel>,
    rows: Seq<TaskRowModel>,
    overlay: Map<u32, OverlayEntry>,
    initial: bool,
    now: u64,
    next: u32,
) -> (Seq<TimerModel>, u32, Option<u32>, bool)
    decreases rows.len(),
{
    if rows.len() == 0 {
        (ms, next, None, false)
    } else {
        let (m1, n1, r1, c1) = add_all(base, ms, rows.drop_last(), overlay, initial, now, next);
        let row = rows.last();
        if has_task(base, row.id) {
            (m1, n1, r1, c1)
        } else {
            let t0 = new_task_timer(n1, unique_name(m1, row.text, row.id), row, now);
            let (t1, was_running) = m_overlay_applied(t0, overlay_of(overlay, row.id), now);
            if initial && was_running && r1 is None {
                (m1.push(t1), next_of(n1), Some(n1), true)
            } else {
                (m1.push(m_paused(t1)), next_of(n1), r1, true)
            }
        }
    }
}

/// State `b` is state `a` reconciled with the listing `rows` (`None`: the
/// tool could not be read, and nothing changes) at `now`. Outside the picker,
/// timers of tasks no longer listed are dropped (and an active one so
/// dropped leaves no timer active); the listed tasks' timers are renamed;
/// timers are added for listed tasks without one; on the startup sync the
/// first restored running timer becomes active; ad-hoc timers stay as they
/// are.
pub open spec fn synced<S>(a: App<S>, b: App<S>, rows: Option<Seq<TaskRowModel>>, initial: bool, now: u64) -> bool {
    match rows {
        None => b == a,
        Some(rows) => {
            let selector = a.mode == Mode::Selector;
            let ms0 = tviews(a.timers@);
            let ms_a = if selector {
                ms0
            } else {
                m_prune(ms0, rows)
            };
            let active_a = if !selector && active_dropped(ms0, a.active_id, rows) {
                None
            } else {
                a.active_id
            };
            let changed_a = ms_a.len() != ms0.len();
            let (ms_b, changed_b) = rename_all(ms_a, rows);
            let (ms_c, next_c, restored, changed_c) = add_all(
                ms_b,
                ms_b,
                rows,
                a.task_overlay@,
                initial,
                now,
                a.next_id,
            );
            &&& b.next_id == next_c
            &&& same_but_timers(a, b)
            &&& match restored {
                Some(id) => {
                    &&& tviews(b.timers@) == m_switch(ms_c, active_a, id, now)
                    &&& b.active_id == Some(id)
                    &&& b.save_requested
                },
                None => {
                    &&& tviews(b.timers@) == ms_c
                    &&& b.active_id == active_a
                    &&& b.save_requested == (a.save_requested || changed_a || changed_b
                        || changed_c)
                },
            }
        },
    }
}

proof fn lemma_first_task_exists(ms: Seq<TimerModel>, tid: u32, w: int)
    requires
        0 <= w < ms.len(),
        ms[w].task_id == Some(tid),
    ensures
        exists|i: int|
            0 <= i < ms.len() && (#[trigger] ms[i]).task_id == Some(tid) && forall|k: int|
                0 <= k < i ==> (#[trigger] ms[k]).task_id != Some(tid),
    decreases w,
{
    if exists|k: int| 0 <= k < w && (#[trigger] ms[k]).task_id == Some(tid) {
        let k = choose|k: int| 0 <= k < w && (#[trigger] ms[k]).task_id == Some(tid);
        lemma_first_task_exists(ms, tid, k);
    } else {
        assert(forall|k: int| 0 <= k < w ==> (#[trigger] ms[k]).task_id != Some(tid));
    }
}

/// What `first_task` gives: the first index of the task, or none.
pub proof fn lemma_first_task(ms: Seq<TimerModel>, tid: u32)
    ensures
        match first_task(ms, tid) {
            Some(i) => 0 <= i < ms.len() && ms[i].task_id == Some(tid) && forall|k: int|
                0 <= k < i ==> (#[trigger] ms[k]).task_id != Some(tid),
            None => forall|k: int| 0 <= k < ms.len() ==> (#[trigger] ms[k]).task_id != Some(tid),
        },
{
    if exists|i: int| 0 <= i < ms.len() && (#[trigger] ms[i]).task_id == Some(tid) {
        let w = choose|i: int| 0 <= i < ms.len() && (#[trigger] ms[i]).task_id == Some(tid);
        lemma_first_task_exists(ms, tid, w);
    }
}

/// The index of the first timer of task `tid`.
pub fn find_task(ts: &Vec<Timer>, tid: u32) -> (r: Option<usize>)
    ensures
        match r {
            Some(i) => first_task(tviews(ts@), tid) == Some(i as int),
            None => first_task(tviews(ts@), tid) is None,
        },
{
    let ghost ms = tviews(ts@);
    proof {
        lemma_first_task(ms, tid);
    }
    let n = ts.len();
    for i in 0..n
        invariant
            n == ts@.len(),
            ms == tviews(ts@),
            forall|k: int| 0 <= k < i ==> (#[trigger] ms[k]).task_id != Some(tid),
    {
        if ts[i].task_id == Some(tid) {
            proof {
                let j = first_task(ms, tid)->Some_0;
                assert(ms[i as int].task_id == Some(tid));
                if j < i {
                } else if i < j {
                }
            }
            return Some(i);
        }
    }
    None
}

/// Whether one of the first `upto` timers stands for task `tid`.
pub fn has_task_upto(ts: &Vec<Timer>, tid: u32, upto: usize) -> (r: bool)
    requires
        upto <= ts@.len(),
    ensures
        r == has_task(tviews(ts@).take(upto as int), tid),
{
    let ghost ms = tviews(ts@).take(upto as int);
    for i in 0..upto
        invariant
            upto <= ts@.len(),
            ms == tviews(ts@).take(upto as int),
            forall|k: int| 0 <= k < i ==> (#[trigger] ms[k]).task_id != Some(tid),
    {
        if ts[i].task_id == Some(tid) {
            assert(ms[i as int].task_id == Some(tid));
            return true;
        }
    }
    false
}

/// Whether a timer is kept by a reconciliation with `rows`.
pub fn is_kept(t: &Timer, rows: &Vec<TaskRow>) -> (r: bool)
    ensures
        r == kept(t@, rows_view(rows@)),
{
    match t.task_id {
        Some(tid) => is_listed(tid, rows),
        None => true,
    }
}

/// Drops the timers of tasks that are not listed, keeping the order.
pub fn prune_timers(ts: &mut Vec<Timer>, rows: &Vec<TaskRow>)
    ensures
        tviews(final(ts)@) == m_prune(tviews(old(ts)@), rows_view(rows@)),
{
    let ghost orig = tviews(ts@);
    let ghost rv = rows_view(rows@);
    let _len = ts.len();
    let mut i: usize = 0;
    let mut k: usize = 0;
    while i < ts.len()
        invariant
            k <= orig.len() <= usize::MAX,
            rv == rows_view(rows@),
            tviews(ts@) == m_prune(orig.take(k as int), rv) + orig.skip(k as int),
            i == m_prune(orig.take(k as int), rv).len(),
        decreases ts@.len() - i,
    {
        let ghost pre = orig.take(k as int);
        let ghost cur = orig.take(k + 1);
        assert(k < orig.len()) by {
            if k >= orig.len() {
                assert(orig.skip(k as int) =~= seq![]);
                assert(tviews(ts@).len() == ts@.len());
            }
        }
        assert(cur.drop_last() =~= pre);
        assert(tviews(ts@)[i as int] == orig[k as int]);
        assert(cur.last() == orig[k as int]);
        if !is_kept(&ts[i], rows) {
            let ghost before = ts@;
            ts.remove(i);
            assert(tviews(ts@) =~= m_prune(cur, rv) + orig.skip(k + 1)) by {
                assert(tviews(ts@) =~= tviews(before).subrange(0, i as int) + tviews(before).subrange(i + 1, before.len() as int));
            }
        } else {
            assert(tviews(ts@) =~= m_prune(cur, rv) + orig.skip(k + 1));
            i = i + 1;
        }
        k = k + 1;
    }
    assert(tviews(ts@).len() == ts@.len());
    assert(orig.skip(k as int).len() == 0);
    assert(orig.take(k as int) =~= orig);
    assert(tviews(ts@) =~= m_prune(orig, rv));
}

/// A task's estimate in milliseconds.
pub fn est_to_ms(est: i64) -> (r: i64)
    ensures
        r == est_ms(est),
{
    if est < 0 {
        0
    } else {
        let x: i128 = est as i128 * 1000;
        if x > i64::MAX as i128 {
            i64::MAX
        } else {
            x as i64
        }
    }
}

proof fn lemma_add_all_prefix(
    base: Seq<TimerModel>,
    ms: Seq<TimerModel>,
    rows: Seq<TaskRowModel>,
    overlay: Map<u32, OverlayEntry>,
    initial: bool,
    now: u64,
    next: u32,
)
    ensures
        add_all(base, ms, rows, overlay, initial, now, next).0.len() >= ms.len(),
        add_all(base, ms, rows, overlay, initial, now, next).0.take(ms.len() as int) == ms,
        add_all(base, ms, rows, overlay, initial, now, next).3 ==> add_all(base, ms, rows, overlay, initial, now, next).0.len() > ms.len(),
    decreases rows.len(),
{
    if rows.len() > 0 {
        lemma_add_all_prefix(base, ms, rows.drop_last(), overlay, initial, now, next);
        let m1 = add_all(base, ms, rows.drop_last(), overlay, initial, now, next).0;
        assert forall|t: TimerModel| #[trigger] m1.push(t).take(ms.len() as int) == ms by {
            assert(m1.push(t).take(ms.len() as int) =~= m1.take(ms.len() as int));
        }
    } else {
        assert(ms.take(ms.len() as int) =~= ms);
    }
}

impl<S: TaskSource> App<S> {
    /// Phase one of a reconciliation: drops the timers of tasks that are not
    /// listed, and leaves no timer active when the active one was dropped.
    /// Returns whether a timer was dropped.
    fn prune_phase(&mut self, rows: &Vec<TaskRow>) -> (changed: bool)
        ensures
            tviews(final(self).timers@) == m_prune(tviews(old(self).timers@), rows_view(rows@)),
            final(self).active_id == if active_dropped(tviews(old(self).timers@), old(self).active_id, rows_view(rows@)) {
                None
            } else {
                old(self).active_id
            },
            changed == (m_prune(tviews(old(self).timers@), rows_view(rows@)).len() != tviews(old(self).timers@).len()),
            final(self).next_id == old(self).next_id,
            final(self).save_requested == old(self).save_requested,
            same_but_timers(*old(self), *final(self)),
    {
        proof {
            lemma_ids_view(self.timers@);
            if let Some(id) = self.active_id {
                lemma_find(self.timers@, id);
            }
        }
        let active_removed = match self.active_index() {
            Some(i) => !is_kept(&self.timers[i], rows),
            None => false,
        };
        let before = self.timers.len();
        prune_timers(&mut self.timers, rows);
        if active_removed {
            self.active_id = None;
        }
        assert(tviews(self.timers@).len() == self.timers@.len());
        assert(tviews(old(self).timers@).len() == before);
        self.timers.len() != before
    }

    /// Phase two: renames the listed tasks' timers in row order. Returns
    /// whether a name changed.
    #[verifier::rlimit(60)]
    #[verifier::spinoff_prover]
    fn rename_phase(&mut self, rows: &Vec<TaskRow>) -> (changed: bool)
        ensures
            (tviews(final(self).timers@), changed) == rename_all(tviews(old(self).timers@), rows_view(rows@)),
            final(self).active_id == old(self).active_id,
            final(self).next_id == old(self).next_id,
            final(self).save_requested == old(self).save_requested,
            same_but_timers(*old(self), *final(self)),
    {
        let ghost rv = rows_view(rows@);
        let ghost ms_a = tviews(self.timers@);
        let mut changed = false;
        let nrows = rows.len();
        assert(rv.take(0) =~= seq![]);
        for k in 0..nrows
            invariant
                nrows == rows@.len(),
                rv == rows_view(rows@),
                rv.len() == nrows,
                ms_a == tviews(old(self).timers@),
                (tviews(self.timers@), changed) == rename_all(ms_a, rv.take(k as int)),
                self.active_id == old(self).active_id,
                self.next_id == old(self).next_id,
                self.save_requested == old(self).save_requested,
                same_but_timers(*old(self), *self),
        {
            let ghost pre = rv.take(k as int);
            let ghost cur = rv.take(k + 1);
            assert(cur.drop_last() =~= pre);
            assert(cur.last() == rv[k as int]);
            let row = &rows[k];
            let desired = unique_name_among(&self.timers, row.text.as_str(), row.id);
            proof {
                lemma_first_task(tviews(self.timers@), row.id);
            }
            if let Some(i) = find_task(&self.timers, row.id) {
                let same = crate::text::chars_eq(
                    crate::text::chars_of(self.timers[i].name.as_str()).as_slice(),
                    crate::text::chars_of(desired.as_str()).as_slice(),
                );
                if !same {
                    let ghost before = self.timers@;
                    self.timers[i].name = desired;
                    changed = true;
                    assert(tviews(self.timers@) =~= tviews(before).update(
                        i as int,
                        TimerModel {
                            name: unique_name(tviews(before), row.text@, row.id),
                            ..tviews(before)[i as int]
                        },
                    ));
                } else {
                    let ghost mb = tviews(self.timers@);
                    assert(mb.update(
                        i as int,
                        TimerModel { name: unique_name(mb, row.text@, row.id), ..mb[i as int] },
                    ) =~= mb);
                }
            }
        }
        assert(rv.take(nrows as int) =~= rv);
        changed
    }

    /// Phase three: adds a timer for each listed task without one (see
    /// `add_all`). Returns the timer to revive and whether any was added.
    fn add_phase(&mut self, rows: &Vec<TaskRow>, initial: bool, now: u64) -> (r: (Option<u32>, bool))
        ensures
            ({
                let ms_b = tviews(old(self).timers@);
                let (mc, nc, rc, cc) = add_all(ms_b, ms_b, rows_view(rows@), old(self).task_overlay@, initial, now, old(self).next_id);
                &&& tviews(final(self).timers@) == mc
                &&& final(self).next_id == nc
                &&& r.0 == rc
                &&& r.1 == cc
            }),
            final(self).active_id == old(self).active_id,
            final(self).save_requested == old(self).save_requested,
            same_but_timers(*old(self), *final(self)),
    {
        let ghost rv = rows_view(rows@);
        let ghost ms_b = tviews(self.timers@);
        let n_b = self.timers.len();
        let nrows = rows.len();
        let mut restored: Option<u32> = None;
        let mut changed_c = false;
        let ghost next0 = self.next_id;
        assert(ms_b.len() == n_b);
        assert(rv.take(0) =~= seq![]);
        assert(ms_b.take(n_b as int) =~= ms_b);
        for k in 0..nrows
            invariant
                nrows == rows@.len(),
                rv == rows_view(rows@),
                rv.len() == nrows,
                n_b == ms_b.len(),
                ms_b == tviews(old(self).timers@),
                next0 == old(self).next_id,
                ({
                    let (mc, nc, rc, cc) = add_all(ms_b, ms_b, rv.take(k as int), old(self).task_overlay@, initial, now, next0);
                    &&& tviews(self.timers@) == mc
                    &&& self.next_id == nc
                    &&& restored == rc
                    &&& changed_c == cc
                }),
                self.active_id == old(self).active_id,
                self.save_requested == old(self).save_requested,
                same_but_timers(*old(self), *self),
        {
            let ghost pre = rv.take(k as int);
            let ghost cur = rv.take(k + 1);
            assert(cur.drop_last() =~= pre);
            assert(cur.last() == rv[k as int]);
            proof {
                lemma_add_all_prefix(ms_b, ms_b, pre, old(self).task_overlay@, initial, now, next0);
                assert(tviews(self.timers@).take(n_b as int) == ms_b);
            }
            let row = &rows[k];
            if !has_task_upto(&self.timers, row.id, n_b) {
                let original = est_to_ms(row.est_secs);
                let name = unique_name_among(&self.timers, row.text.as_str(), row.id);
                let mut timer = Timer::new(self.next_id, name, original, now);
                timer.task_id = Some(row.id);
                let entry = {
                    broadcast use vstd::std_specs::hash::group_hash_axioms;
                    self.task_overlay.get(&row.id)
                };
                assert(entry matches Some(e) ==> Some(*e) == overlay_of(old(self).task_overlay@, row.id));
                assert(entry is None ==> overlay_of(old(self).task_overlay@, row.id) is None);
                let was_running = apply_overlay(&mut timer, entry, now);
                if initial && was_running && restored.is_none() {
                    restored = Some(timer.id);
                } else {
                    timer.pause();
                }
                let ghost before = tviews(self.timers@);
                self.timers.push(timer);
                assert(tviews(self.timers@) =~= before.push(timer@));
                self.next_id = next_id_of(self.next_id);
                changed_c = true;
            }
        }
        assert(rv.take(nrows as int) =~= rv);
        (restored, changed_c)
    }

    /// Reconciles the timers with the tool's listing `rows` at `now` (see
    /// `synced`). `initial` is true only for the startup sync — the one
    /// allowed to make a restored running timer the active one.
    #[verifier::rlimit(100)]
    pub fn sync_with_rows(&mut self, rows: Option<Vec<TaskRow>>, initial: bool, now: u64)
        ensures
            synced(
                *old(self),
                *final(self),
                match rows {
                    Some(r) => Some(rows_view(r@)),
                    None => None,
                },
                initial,
                now,
            ),
    {
        let rows = match rows {
            None => {
                return;
            },
            Some(r) => r,
        };
        let selector = match self.mode {
            Mode::Selector => true,
            _ => false,
        };
        let changed_a = if !selector {
            self.prune_phase(&rows)
        } else {
            false
        };
        let ghost a1 = *self;
        let changed_b = self.rename_phase(&rows);
        let ghost a2 = *self;
        let (restored, changed_c) = self.add_phase(&rows, initial, now);
        let ghost a3 = *self;
        assert(same_but_timers(*old(self), a3));
        if let Some(id) = restored {
            proof {
                lemma_switch_view(self.timers@, self.active_id, id, now);
            }
            self.switch_to(id, now);
        } else if changed_a || changed_b || changed_c {
            self.save();
        }
    }

    /// Reconciles the timers against the `ttask` tool's active task list (see
    /// `sync_with_rows`). Nothing happens when integration is off or the tool
    /// cannot be read, so "can't read" is never mistaken for "no tasks".
    pub fn sync_with_tasks(&mut self, initial: bool, now: u64)
        ensures
            !old(self).integrate ==> *final(self) == *old(self),
            old(self).task_source is None ==> *final(self) == *old(self),
            exists|l: Option<Seq<TaskRowModel>>| synced(*old(self), *final(self), l, initial, now),
            old(self).integrate && old(self).task_source is Some && old(self).task_source->Some_0.keeps_account()
                ==> synced(*old(self), *final(self), old(self).task_source->Some_0.listing(), initial, now),
    {
        if !self.integrate {
            assert(synced(*old(self), *self, None, initial, now));
            return;
        }
        let rows = match &self.task_source {
            Some(s) => s.list_active(),
            None => None,
        };
        let ghost l = listing_of(rows);
        self.sync_with_rows(rows, initial, now);
        assert(synced(*old(self), *self, l, initial, now));
    }
}

} // verus!
