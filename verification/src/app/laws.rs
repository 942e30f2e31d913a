//! What holds across operations of the application: undoing, and
//! reconciling with the task tool.

use vstd::prelude::*;

use super::commands::{insert_pos, recent, recent_entries, reverted, time_restored, time_updated, updated};
use super::timers::{
    added, completed, gone_from, removed, removed_active, tick_all, ticked_app, timers_kept, undo_after_remove,
};
use crate::alert::Alert;
use super::{
    active_pos, add_excluded, before_add, drop_id, find, fresh, has_name, ids_of, lemma_find, lemma_first_index_unique, removable,
    switch_timers, App, UndoAction, UndoEntry, UNDO_WINDOW_MS,
};
use super::names::{m_collides, task_base, unique_name};
use super::sync::{
    active_dropped, add_all, first_task, has_task, kept, lemma_first_task, m_active_pos, m_find,
    m_drop_id, m_ids, m_overlay_applied, m_prune, m_removable, m_switch,
    new_task_timer, overlay_of, rename_all, synced,
};
use super::timers::listed;
use super::Mode;
use crate::task_integration::{TaskRowModel, TaskSource};
use crate::task_state::OverlayEntry;
use crate::timer::{clamp, elapsed, m_paused, m_resumed, paused, resumed, tviews, Timer, TimerModel, TimerState};

verus! {

/// An entry pushed last and still recent is the last recent entry.
proof fn lemma_recent_push(u: Seq<UndoEntry>, e: UndoEntry, now: u64)
    requires
        recent(e, now),
    ensures
        recent_entries(u.push(e), now) == recent_entries(u, now).push(e),
{
    assert(u.push(e).drop_last() =~= u);
}

/// Changing a timer without changing its id leaves where ids are found.
proof fn lemma_find_update(ts: Seq<Timer>, i: int, x: Timer, id: u32)
    requires
        0 <= i < ts.len(),
        x.id == ts[i].id,
    ensures
        find(ts.update(i, x), id) == find(ts, id),
{
    assert(ids_of(ts.update(i, x)) =~= ids_of(ts));
}

/// Undoing a time change restores the timer's durations: after the active
/// timer is set to a new duration at `n1`, a revert within the undo window
/// gives it back its remaining and full time.
pub proof fn law_revert_undoes_update<S>(a: App<S>, b: App<S>, c: App<S>, ms: i64, n1: u64, n2: u64)
    requires
        active_pos(a.timers@, a.active_id) is Some,
        updated(a, b, ms, n1),
        reverted(b, c, n2),
        n1 <= n2,
        n2 - n1 < UNDO_WINDOW_MS,
    ensures
        c.timers@.len() == a.timers@.len(),
        c.active_id == a.active_id,
        c.timers@[active_pos(a.timers@, a.active_id)->Some_0].id
            == a.timers@[active_pos(a.timers@, a.active_id)->Some_0].id,
        c.timers@[active_pos(a.timers@, a.active_id)->Some_0].remaining_ms
            == a.timers@[active_pos(a.timers@, a.active_id)->Some_0].remaining_ms,
        c.timers@[active_pos(a.timers@, a.active_id)->Some_0].original_ms
            == a.timers@[active_pos(a.timers@, a.active_id)->Some_0].original_ms,
        c.undo_stack@ == recent_entries(a.undo_stack@, n2),
{
    let i = active_pos(a.timers@, a.active_id)->Some_0;
    let t = a.timers@[i];
    let e = UndoEntry {
        timestamp: n1,
        action: UndoAction::TimeChanged {
            id: t.id,
            old_remaining: t.remaining_ms,
            old_original: t.original_ms,
        },
    };
    assert(elapsed(n1, n2) == n2 - n1);
    lemma_recent_push(a.undo_stack@, e, n2);
    assert(b.undo_stack@ == a.undo_stack@.push(e));
    let u = recent_entries(b.undo_stack@, n2);
    assert(u.last() == e);
    assert(u.drop_last() =~= recent_entries(a.undo_stack@, n2));
    lemma_find(a.timers@, a.active_id->Some_0);
    lemma_find_update(a.timers@, i, time_updated(t, ms, n1), t.id);
    assert(find(b.timers@, t.id) == Some(i));
}

/// Every timer of id `id` is `t`.
pub open spec fn only_as(ts: Seq<Timer>, id: u32, t: Timer) -> bool {
    forall|k: int| 0 <= k < ts.len() && (#[trigger] ts[k]).id == id ==> ts[k] == t
}

/// Some timer has id `id`.
pub open spec fn has_id(ts: Seq<Timer>, id: u32) -> bool {
    exists|k: int| 0 <= k < ts.len() && (#[trigger] ts[k]).id == id
}

proof fn lemma_drop_only_as(ts: Seq<Timer>, cur: u32, id: u32, t: Timer)
    requires
        only_as(ts, id, t),
    ensures
        only_as(drop_id(ts, cur), id, t),
    decreases ts.len(),
{
    if ts.len() > 0 {
        assert(only_as(ts.drop_last(), id, t)) by {
            assert forall|k: int| 0 <= k < ts.drop_last().len() && (#[trigger] ts.drop_last()[k]).id == id implies ts.drop_last()[k] == t by {
                assert(ts.drop_last()[k] == ts[k]);
            }
        }
        lemma_drop_only_as(ts.drop_last(), cur, id, t);
        let p = drop_id(ts.drop_last(), cur);
        if ts.last().id != cur {
            assert forall|k: int| 0 <= k < p.push(ts.last()).len() && (#[trigger] p.push(ts.last())[k]).id == id implies p.push(ts.last())[k] == t by {
                if k < p.len() {
                    assert(p.push(ts.last())[k] == p[k]);
                } else {
                    assert(ts[ts.len() - 1] == ts.last());
                }
            }
        }
    }
}

proof fn lemma_drop_has_id(ts: Seq<Timer>, cur: u32, id: u32)
    requires
        has_id(ts, id),
        cur != id,
    ensures
        has_id(drop_id(ts, cur), id),
    decreases ts.len(),
{
    let p = drop_id(ts.drop_last(), cur);
    if ts.last().id == id {
        assert(drop_id(ts, cur) == p.push(ts.last()));
        assert(p.push(ts.last())[p.len() as int].id == id);
    } else {
        let k = choose|k: int| 0 <= k < ts.len() && (#[trigger] ts[k]).id == id;
        assert(k < ts.len() - 1);
        assert(ts.drop_last()[k].id == id);
        lemma_drop_has_id(ts.drop_last(), cur, id);
        let j = choose|j: int| 0 <= j < p.len() && (#[trigger] p[j]).id == id;
        if ts.last().id != cur {
            assert(p.push(ts.last())[j] == p[j]);
        }
    }
}

/// Where ids are unique enough to find: the timer found for `id` is `t`.
proof fn lemma_find_only_as(ts: Seq<Timer>, id: u32, t: Timer)
    requires
        only_as(ts, id, t),
        has_id(ts, id),
    ensures
        find(ts, id) is Some,
        0 <= find(ts, id)->Some_0 < ts.len(),
        ts[find(ts, id)->Some_0] == t,
{
    lemma_find(ts, id);
    if find(ts, id) is None {
        let k = choose|k: int| 0 <= k < ts.len() && (#[trigger] ts[k]).id == id;
        assert(ts[k].id != id);
    }
}

proof fn lemma_after_remove<S: TaskSource>(a: App<S>, b: App<S>, n1: u64)
    requires
        active_pos(a.timers@, a.active_id) is Some,
        a.timers@[active_pos(a.timers@, a.active_id)->Some_0].task_id is None,
        removed_active(a, b, n1),
    ensures
        b.undo_stack@ == a.undo_stack@.push(
            UndoEntry {
                timestamp: n1,
                action: UndoAction::TimerRemoved(a.timers@[active_pos(a.timers@, a.active_id)->Some_0]),
            },
        ),
        forall|k: int| 0 <= k < b.timers@.len() ==> #[trigger] b.timers@[k].id != a.active_id->Some_0,
        b.active_id != a.active_id,
        a.timers@[active_pos(a.timers@, a.active_id)->Some_0].id == a.active_id->Some_0,
{
    let id = a.active_id->Some_0;
    lemma_find(a.timers@, id);
    assert(removed(a, b, true, n1));
    let d = drop_id(a.timers@, id);
    super::timers::lemma_drop_id(a.timers@, id);
    if d.len() == 1 {
        assert forall|k: int| 0 <= k < b.timers@.len() implies #[trigger] b.timers@[k].id != id by {
            assert(b.timers@[k].id == d[k].id);
        }
        assert(d[0].id != id);
    }
}

proof fn lemma_pause_other(ts1: Seq<Timer>, ci: int, id: u32, t: Timer)
    requires
        only_as(ts1, id, t),
        has_id(ts1, id),
        0 <= ci < ts1.len(),
        ts1[ci].id != id,
    ensures
        only_as(ts1.update(ci, paused(ts1[ci])), id, t),
        has_id(ts1.update(ci, paused(ts1[ci])), id),
{
    let q = ts1.update(ci, paused(ts1[ci]));
    let w = choose|k: int| 0 <= k < ts1.len() && (#[trigger] ts1[k]).id == id;
    assert(w != ci);
    assert(q[w] == ts1[w]);
    assert forall|k: int| 0 <= k < q.len() && (#[trigger] q[k]).id == id implies q[k] == t by {
        if k != ci {
            assert(q[k] == ts1[k]);
        }
    }
}

proof fn lemma_insert_pos_exists(ts: Seq<Timer>, id: u32, w: int)
    requires
        0 <= w < ts.len(),
        ts[w].id > id,
    ensures
        exists|i: int|
            0 <= i < ts.len() && (#[trigger] ts[i]).id > id && forall|k: int|
                0 <= k < i ==> (#[trigger] ts[k]).id <= id,
    decreases w,
{
    if exists|k: int| 0 <= k < w && (#[trigger] ts[k]).id > id {
        let k = choose|k: int| 0 <= k < w && (#[trigger] ts[k]).id > id;
        lemma_insert_pos_exists(ts, id, k);
    } else {
        assert(forall|k: int| 0 <= k < w ==> (#[trigger] ts[k]).id <= id);
    }
}

proof fn lemma_insert_pos_bound(ts: Seq<Timer>, id: u32)
    ensures
        0 <= insert_pos(ts, id) <= ts.len(),
{
    if exists|i: int| 0 <= i < ts.len() && (#[trigger] ts[i]).id > id {
        let w = choose|i: int| 0 <= i < ts.len() && (#[trigger] ts[i]).id > id;
        lemma_insert_pos_exists(ts, id, w);
    }
}

proof fn lemma_switch_back(ts1: Seq<Timer>, active: Option<u32>, id: u32, t: Timer, now: u64)
    requires
        only_as(ts1, id, t),
        has_id(ts1, id),
        active != Some(id),
    ensures
        exists|j: int|
            0 <= j < switch_timers(ts1, active, id, now).len() && #[trigger] switch_timers(
                ts1,
                active,
                id,
                now,
            )[j] == resumed(t, now),
{
    let ts2 = match active {
        Some(cur) => match find(ts1, cur) {
            Some(ci) => if removable(ts1[ci]) && cur != id {
                drop_id(ts1, cur)
            } else {
                ts1.update(ci, paused(ts1[ci]))
            },
            None => ts1,
        },
        None => ts1,
    };
    if let Some(cur) = active {
        lemma_find(ts1, cur);
        if let Some(ci) = find(ts1, cur) {
            if removable(ts1[ci]) && cur != id {
                lemma_drop_only_as(ts1, cur, id, t);
                lemma_drop_has_id(ts1, cur, id);
            } else {
                lemma_pause_other(ts1, ci, id, t);
            }
        }
    }
    assert(only_as(ts2, id, t));
    assert(has_id(ts2, id));
    lemma_find_only_as(ts2, id, t);
    let j = find(ts2, id)->Some_0;
    assert(switch_timers(ts1, active, id, now) == ts2.update(j, resumed(ts2[j], now)));
    assert(switch_timers(ts1, active, id, now)[j] == resumed(t, now));
}

proof fn lemma_insert_only(bt: Seq<Timer>, t: Timer)
    requires
        forall|k: int| 0 <= k < bt.len() ==> #[trigger] bt[k].id != t.id,
    ensures
        only_as(bt.insert(insert_pos(bt, t.id), t), t.id, t),
        has_id(bt.insert(insert_pos(bt, t.id), t), t.id),
{
    let p = insert_pos(bt, t.id);
    lemma_insert_pos_bound(bt, t.id);
    let ts1 = bt.insert(p, t);
    assert(ts1[p] == t);
    assert forall|k: int| 0 <= k < ts1.len() && (#[trigger] ts1[k]).id == t.id implies ts1[k] == t by {
        if k < p {
            assert(ts1[k] == bt[k]);
        } else if k > p {
            assert(ts1[k] == bt[k - 1]);
        }
    }
}

/// Undoing a removal brings the timer back: after the active ad-hoc timer is
/// removed at `n1`, a revert within the undo window makes it the active
/// timer again, as it was, resumed at `n2`.
pub proof fn law_revert_undoes_remove<S: TaskSource>(a: App<S>, b: App<S>, c: App<S>, n1: u64, n2: u64)
    requires
        active_pos(a.timers@, a.active_id) is Some,
        a.timers@[active_pos(a.timers@, a.active_id)->Some_0].task_id is None,
        removed_active(a, b, n1),
        reverted(b, c, n2),
        n1 <= n2,
        n2 - n1 < UNDO_WINDOW_MS,
    ensures
        c.active_id == Some(a.active_id->Some_0),
        exists|j: int|
            0 <= j < c.timers@.len() && #[trigger] c.timers@[j] == resumed(
                a.timers@[active_pos(a.timers@, a.active_id)->Some_0],
                n2,
            ),
{
    let id = a.active_id->Some_0;
    let i = active_pos(a.timers@, a.active_id)->Some_0;
    let t = a.timers@[i];
    lemma_after_remove(a, b, n1);
    let e = UndoEntry { timestamp: n1, action: UndoAction::TimerRemoved(t) };
    assert(elapsed(n1, n2) == n2 - n1);
    lemma_recent_push(a.undo_stack@, e, n2);
    let u = recent_entries(b.undo_stack@, n2);
    assert(u.last() == e);
    lemma_insert_only(b.timers@, t);
    let ts1 = b.timers@.insert(insert_pos(b.timers@, t.id), t);
    assert(c.timers@ == switch_timers(ts1, b.active_id, id, n2));
    lemma_switch_back(ts1, b.active_id, id, t, n2);
}

/// The ad-hoc timer values, in order.
pub open spec fn adhoc_views(ms: Seq<TimerModel>) -> Seq<TimerModel>
    decreases ms.len(),
{
    if ms.len() == 0 {
        seq![]
    } else {
        let p = adhoc_views(ms.drop_last());
        if ms.last().task_id is None {
            p.push(ms.last())
        } else {
            p
        }
    }
}

proof fn lemma_prune_adhoc(ms: Seq<TimerModel>, rows: Seq<TaskRowModel>)
    ensures
        adhoc_views(m_prune(ms, rows)) == adhoc_views(ms),
    decreases ms.len(),
{
    if ms.len() > 0 {
        lemma_prune_adhoc(ms.drop_last(), rows);
        let p = m_prune(ms.drop_last(), rows);
        if kept(ms.last(), rows) {
            assert(p.push(ms.last()).drop_last() =~= p);
        }
    }
}

proof fn lemma_update_task_adhoc(ms: Seq<TimerModel>, i: int, x: TimerModel)
    requires
        0 <= i < ms.len(),
        ms[i].task_id is Some,
        x.task_id is Some,
    ensures
        adhoc_views(ms.update(i, x)) == adhoc_views(ms),
    decreases ms.len(),
{
    let u = ms.update(i, x);
    if i == ms.len() - 1 {
        assert(u.drop_last() =~= ms.drop_last());
    } else {
        assert(u.drop_last() =~= ms.drop_last().update(i, x));
        lemma_update_task_adhoc(ms.drop_last(), i, x);
        assert(u.last() == ms.last());
    }
}

proof fn lemma_update_same_task(ms: Seq<TimerModel>, i: int, x: TimerModel)
    requires
        0 <= i < ms.len(),
        x.task_id == ms[i].task_id,
    ensures
        ms.update(i, x).len() == ms.len(),
        forall|k: int| 0 <= k < ms.len() ==> (#[trigger] ms.update(i, x)[k]).task_id == ms[k].task_id,
{
}

proof fn lemma_rename_step(ms: Seq<TimerModel>, rows: Seq<TaskRowModel>)
    requires
        rows.len() > 0,
    ensures
        ({
            let m1 = rename_all(ms, rows.drop_last()).0;
            let row = rows.last();
            match first_task(m1, row.id) {
                Some(i) => 0 <= i < m1.len() && m1[i].task_id == Some(row.id) && exists|x: TimerModel|
                    x == (TimerModel { name: x.name, ..m1[i] }) && #[trigger] rename_all(ms, rows).0
                        == m1.update(i, x),
                None => rename_all(ms, rows).0 == m1,
            }
        }),
{
    let m1 = rename_all(ms, rows.drop_last()).0;
    let row = rows.last();
    lemma_first_task(m1, row.id);
    if let Some(i) = first_task(m1, row.id) {
        let x = TimerModel { name: unique_name(m1, row.text, row.id), ..m1[i] };
        assert(rename_all(ms, rows).0 == m1.update(i, x));
    }
}

proof fn lemma_rename_adhoc(ms: Seq<TimerModel>, rows: Seq<TaskRowModel>)
    ensures
        adhoc_views(rename_all(ms, rows).0) == adhoc_views(ms),
        rename_all(ms, rows).0.len() == ms.len(),
        forall|k: int| 0 <= k < ms.len() ==> (#[trigger] rename_all(ms, rows).0[k]).task_id == ms[k].task_id,
        forall|k: int| 0 <= k < ms.len() ==> (#[trigger] rename_all(ms, rows).0[k]).state == ms[k].state
            && rename_all(ms, rows).0[k].id == ms[k].id,
    decreases rows.len(),
{
    if rows.len() > 0 {
        lemma_rename_adhoc(ms, rows.drop_last());
        let m1 = rename_all(ms, rows.drop_last()).0;
        lemma_rename_step(ms, rows);
        if let Some(i) = first_task(m1, rows.last().id) {
            let x = choose|x: TimerModel| x == (TimerModel { name: x.name, ..m1[i] }) && #[trigger] rename_all(ms, rows).0 == m1.update(i, x);
            lemma_update_task_adhoc(m1, i, x);
            lemma_update_same_task(m1, i, x);
            assert forall|k: int| 0 <= k < ms.len() implies (#[trigger] rename_all(ms, rows).0[k]).state == ms[k].state
                && rename_all(ms, rows).0[k].id == ms[k].id by {
                assert(m1[k].state == ms[k].state && m1[k].id == ms[k].id);
            }
        }
    }
}

/// Renaming changes names only.
proof fn lemma_rename_only_names(ms: Seq<TimerModel>, rows: Seq<TaskRowModel>)
    ensures
        rename_all(ms, rows).0.len() == ms.len(),
        forall|k: int| 0 <= k < ms.len() ==> #[trigger] rename_all(ms, rows).0[k] == (TimerModel {
            name: rename_all(ms, rows).0[k].name,
            ..ms[k]
        }),
    decreases rows.len(),
{
    if rows.len() > 0 {
        lemma_rename_only_names(ms, rows.drop_last());
        let m1 = rename_all(ms, rows.drop_last()).0;
        lemma_rename_step(ms, rows);
        if let Some(i) = first_task(m1, rows.last().id) {
            let x = choose|x: TimerModel| x == (TimerModel { name: x.name, ..m1[i] }) && #[trigger] rename_all(ms, rows).0 == m1.update(i, x);
            let m2 = rename_all(ms, rows).0;
            assert forall|k: int| 0 <= k < ms.len() implies #[trigger] rename_all(ms, rows).0[k] == (TimerModel {
                name: rename_all(ms, rows).0[k].name,
                ..ms[k]
            }) by {
                assert(m1[k] == (TimerModel { name: m1[k].name, ..ms[k] }));
                if k == i {
                    assert(m2[k] == x);
                } else {
                    assert(m2[k] == m1[k]);
                }
            }
        }
    }
}

/// When every listed task already has a timer, adding timers for the rows
/// changes nothing: no timer, no id, nothing to revive.
proof fn lemma_add_all_none(
    base: Seq<TimerModel>,
    ms: Seq<TimerModel>,
    rows: Seq<TaskRowModel>,
    overlay: Map<u32, OverlayEntry>,
    initial: bool,
    now: u64,
    next: u32,
)
    requires
        forall|j: int| 0 <= j < rows.len() ==> has_task(base, (#[trigger] rows[j]).id),
    ensures
        add_all(base, ms, rows, overlay, initial, now, next) == (ms, next, None::<u32>, false),
    decreases rows.len(),
{
    if rows.len() > 0 {
        assert forall|j: int| 0 <= j < rows.drop_last().len() implies has_task(base, (#[trigger] rows.drop_last()[j]).id) by {
            assert(rows.drop_last()[j] == rows[j]);
        }
        lemma_add_all_none(base, ms, rows.drop_last(), overlay, initial, now, next);
        assert(rows[rows.len() - 1] == rows.last());
    }
}

/// What adding timers for the rows does: the timers kept in front, new
/// timers only for listed tasks without one, each row's task then having
/// a timer, and a timer to revive only on the startup sync.
proof fn lemma_add_all_shape(
    base: Seq<TimerModel>,
    ms: Seq<TimerModel>,
    rows: Seq<TaskRowModel>,
    overlay: Map<u32, OverlayEntry>,
    initial: bool,
    now: u64,
    next: u32,
)
    ensures
        ({
            let (r, n, rev, ch) = add_all(base, ms, rows, overlay, initial, now, next);
            &&& r.len() >= ms.len()
            &&& r.subrange(0, ms.len() as int) == ms
            &&& forall|k: int| ms.len() <= k < r.len() ==> (#[trigger] r[k]).task_id is Some && listed(r[k].task_id->Some_0, rows)
            &&& forall|j: int| 0 <= j < rows.len() ==> has_task(base, (#[trigger] rows[j]).id) || has_task(r, rows[j].id)
            &&& (forall|j: int| 0 <= j < rows.len() ==> has_task(base, (#[trigger] rows[j]).id)) ==> r == ms
            &&& !initial ==> rev is None
            &&& !initial ==> forall|k: int| ms.len() <= k < r.len() ==> (#[trigger] r[k]).state == TimerState::Paused
            &&& adhoc_views(r) == adhoc_views(ms)
        }),
    decreases rows.len(),
{
    let (r, n, rev, ch) = add_all(base, ms, rows, overlay, initial, now, next);
    if rows.len() == 0 {
        assert(ms.subrange(0, ms.len() as int) =~= ms);
    } else {
        lemma_add_all_shape(base, ms, rows.drop_last(), overlay, initial, now, next);
        let (m1, n1, r1, c1) = add_all(base, ms, rows.drop_last(), overlay, initial, now, next);
        let row = rows.last();
        assert(rows[rows.len() - 1] == row);
        assert forall|j: int| 0 <= j < rows.drop_last().len() implies rows.drop_last()[j] == #[trigger] rows[j] by {}
        if has_task(base, row.id) {
            assert(r == m1);
            assert forall|k: int| ms.len() <= k < r.len() implies (#[trigger] r[k]).task_id is Some && listed(r[k].task_id->Some_0, rows) by {
                let tid = r[k].task_id->Some_0;
                assert(listed(tid, rows.drop_last()));
                let w = choose|w: int| 0 <= w < rows.drop_last().len() && (#[trigger] rows.drop_last()[w]).id == tid;
                assert(rows[w].id == tid);
            }
            assert forall|j: int| 0 <= j < rows.len() implies has_task(base, (#[trigger] rows[j]).id) || has_task(r, rows[j].id) by {
                if j < rows.len() - 1 {
                    assert(rows.drop_last()[j] == rows[j]);
                }
            }
            if forall|j: int| 0 <= j < rows.len() ==> has_task(base, (#[trigger] rows[j]).id) {
                assert forall|j: int| 0 <= j < rows.drop_last().len() implies has_task(base, (#[trigger] rows.drop_last()[j]).id) by {
                    assert(rows.drop_last()[j] == rows[j]);
                }
            }
        } else {
            let t0 = new_task_timer(n1, unique_name(m1, row.text, row.id), row, now);
            let (t1, was_running) = m_overlay_applied(t0, overlay_of(overlay, row.id), now);
            let x = if initial && was_running && r1 is None {
                t1
            } else {
                m_paused(t1)
            };
            assert(r == m1.push(x));
            assert(x.task_id == Some(row.id));
            if !initial {
                assert forall|k: int| ms.len() <= k < r.len() implies (#[trigger] r[k]).state == TimerState::Paused by {
                    if k < m1.len() {
                        assert(r[k] == m1[k]);
                    }
                }
            }
            assert(r.subrange(0, ms.len() as int) =~= m1.subrange(0, ms.len() as int));
            assert(r.drop_last() =~= m1);
            assert forall|k: int| ms.len() <= k < r.len() implies (#[trigger] r[k]).task_id is Some && listed(r[k].task_id->Some_0, rows) by {
                if k < m1.len() {
                    assert(r[k] == m1[k]);
                    let tid = m1[k].task_id->Some_0;
                    assert(listed(tid, rows.drop_last()));
                    let w = choose|w: int| 0 <= w < rows.drop_last().len() && (#[trigger] rows.drop_last()[w]).id == tid;
                    assert(rows[w].id == tid);
                } else {
                    assert(r[k] == x);
                    assert(rows[rows.len() - 1].id == row.id);
                }
            }
            assert forall|j: int| 0 <= j < rows.len() implies has_task(base, (#[trigger] rows[j]).id) || has_task(r, rows[j].id) by {
                if j < rows.len() - 1 {
                    assert(rows.drop_last()[j] == rows[j]);
                    if has_task(m1, rows[j].id) {
                        let w = choose|w: int| 0 <= w < m1.len() && (#[trigger] m1[w]).task_id == Some(rows[j].id);
                        assert(r[w] == m1[w]);
                    }
                } else {
                    assert(r[m1.len() as int] == x);
                }
            }
        }
    }
}

/// A reconciliation outside the startup leaves the ad-hoc timers as they
/// are, in order, and never makes a timer active: the active id stays, or
/// is cleared when its task is gone.
pub proof fn law_sync_keeps_adhoc_timers<S>(a: App<S>, b: App<S>, rows: Seq<TaskRowModel>, now: u64)
    requires
        synced(a, b, Some(rows), false, now),
    ensures
        adhoc_views(tviews(b.timers@)) == adhoc_views(tviews(a.timers@)),
        b.active_id == a.active_id || b.active_id is None,
{
    let ms0 = tviews(a.timers@);
    let ms_a = if a.mode == Mode::Selector {
        ms0
    } else {
        m_prune(ms0, rows)
    };
    lemma_prune_adhoc(ms0, rows);
    lemma_rename_adhoc(ms_a, rows);
    let ms_b = rename_all(ms_a, rows).0;
    lemma_add_all_shape(ms_b, ms_b, rows, a.task_overlay@, false, now, a.next_id);
}

proof fn lemma_prune_all_kept(ms: Seq<TimerModel>, rows: Seq<TaskRowModel>)
    ensures
        forall|k: int| 0 <= k < m_prune(ms, rows).len() ==> kept(#[trigger] m_prune(ms, rows)[k], rows),
        (forall|k: int| 0 <= k < ms.len() ==> kept(#[trigger] ms[k], rows)) ==> m_prune(ms, rows) == ms,
    decreases ms.len(),
{
    if ms.len() == 0 {
        assert(m_prune(ms, rows) =~= ms);
    } else {
        lemma_prune_all_kept(ms.drop_last(), rows);
        let p = m_prune(ms.drop_last(), rows);
        if kept(ms.last(), rows) {
            assert forall|k: int| 0 <= k < p.push(ms.last()).len() implies kept(#[trigger] p.push(ms.last())[k], rows) by {
                if k < p.len() {
                    assert(p.push(ms.last())[k] == p[k]);
                }
            }
        }
        if forall|k: int| 0 <= k < ms.len() ==> kept(#[trigger] ms[k], rows) {
            assert forall|k: int| 0 <= k < ms.drop_last().len() implies kept(#[trigger] ms.drop_last()[k], rows) by {
                assert(ms.drop_last()[k] == ms[k]);
            }
            assert(kept(ms[ms.len() - 1], rows));
            assert(ms.drop_last().push(ms.last()) =~= ms);
        }
    }
}

proof fn lemma_has_task_same_tasks(ms: Seq<TimerModel>, ms2: Seq<TimerModel>, tid: u32)
    requires
        has_task(ms, tid),
        ms2.len() == ms.len(),
        forall|k: int| 0 <= k < ms.len() ==> (#[trigger] ms2[k]).task_id == ms[k].task_id,
    ensures
        has_task(ms2, tid),
{
    let w = choose|w: int| 0 <= w < ms.len() && (#[trigger] ms[w]).task_id == Some(tid);
    assert(ms2[w].task_id == Some(tid));
}

/// Reconciling twice with the same listing adds and drops nothing the second
/// time: after one reconciliation every listed task has a timer (and, outside
/// the picker, every timer is of a listed task or ad hoc), and a second one
/// keeps the number of timers.
pub proof fn law_sync_twice_adds_nothing<S>(
    a: App<S>,
    b: App<S>,
    c: App<S>,
    rows: Seq<TaskRowModel>,
    n1: u64,
    n2: u64,
)
    requires
        synced(a, b, Some(rows), false, n1),
        synced(b, c, Some(rows), false, n2),
    ensures
        forall|j: int| 0 <= j < rows.len() ==> has_task(tviews(b.timers@), (#[trigger] rows[j]).id),
        c.timers@.len() == b.timers@.len(),
        b.mode != Mode::Selector ==> forall|k: int| 0 <= k < b.timers@.len() ==> kept(#[trigger] tviews(b.timers@)[k], rows),
{
    // The first reconciliation.
    let ms0 = tviews(a.timers@);
    let sel = a.mode == Mode::Selector;
    let ms_a = if sel {
        ms0
    } else {
        m_prune(ms0, rows)
    };
    lemma_prune_all_kept(ms0, rows);
    lemma_rename_adhoc(ms_a, rows);
    let ms_b = rename_all(ms_a, rows).0;
    lemma_add_all_shape(ms_b, ms_b, rows, a.task_overlay@, false, n1, a.next_id);
    let ms_c = add_all(ms_b, ms_b, rows, a.task_overlay@, false, n1, a.next_id).0;
    assert(tviews(b.timers@) == ms_c);
    assert forall|j: int| 0 <= j < rows.len() implies has_task(ms_c, (#[trigger] rows[j]).id) by {
        if has_task(ms_b, rows[j].id) {
            let w = choose|w: int| 0 <= w < ms_b.len() && (#[trigger] ms_b[w]).task_id == Some(rows[j].id);
            assert(ms_c.subrange(0, ms_b.len() as int)[w] == ms_c[w]);
        }
    }
    // The second one prunes nothing, renames in place and adds nothing.
    let ms_a2 = if sel {
        ms_c
    } else {
        m_prune(ms_c, rows)
    };
    if !sel {
        assert forall|k: int| 0 <= k < ms_c.len() implies kept(#[trigger] ms_c[k], rows) by {
            if k < ms_b.len() {
                assert(ms_c.subrange(0, ms_b.len() as int)[k] == ms_c[k]);
                assert(ms_b[k].task_id == ms_a[k].task_id);
                assert(kept(ms_a[k], rows));
            }
        }
        lemma_prune_all_kept(ms_c, rows);
    }
    assert(ms_a2 == ms_c);
    lemma_rename_adhoc(ms_c, rows);
    let ms_b2 = rename_all(ms_c, rows).0;
    assert forall|j: int| 0 <= j < rows.len() implies has_task(ms_b2, (#[trigger] rows[j]).id) by {
        lemma_has_task_same_tasks(ms_c, ms_b2, rows[j].id);
    }
    lemma_add_all_shape(ms_b2, ms_b2, rows, b.task_overlay@, false, n2, b.next_id);
    assert(tviews(c.timers@) == ms_b2);
}

/// A reconciliation of timers that already stand for every listed task,
/// and (outside the picker) only for listed tasks, changes names only.
#[verifier::rlimit(40)]
proof fn lemma_resync_only_names<S>(b: App<S>, c: App<S>, rows: Seq<TaskRowModel>, now: u64)
    requires
        synced(b, c, Some(rows), false, now),
        forall|j: int| 0 <= j < rows.len() ==> has_task(tviews(b.timers@), (#[trigger] rows[j]).id),
        b.mode != Mode::Selector ==> forall|k: int| 0 <= k < b.timers@.len() ==> kept(#[trigger] tviews(b.timers@)[k], rows),
    ensures
        c.timers@.len() == b.timers@.len(),
        forall|k: int| 0 <= k < c.timers@.len() ==> #[trigger] c.timers@[k]@ == (TimerModel {
            name: c.timers@[k]@.name,
            ..b.timers@[k]@
        }),
        c.active_id == b.active_id,
        c.next_id == b.next_id,
{
    let ms_c = tviews(b.timers@);
    let sel = b.mode == Mode::Selector;
    if !sel {
        lemma_prune_all_kept(ms_c, rows);
        if let Some(id) = b.active_id {
            lemma_m_find(ms_c, id);
            if let Some(i) = m_find(ms_c, id) {
                assert(kept(tviews(b.timers@)[i], rows));
            }
        }
        assert(!active_dropped(ms_c, b.active_id, rows));
    }
    lemma_rename_adhoc(ms_c, rows);
    lemma_rename_only_names(ms_c, rows);
    let ms_b2 = rename_all(ms_c, rows).0;
    assert forall|j: int| 0 <= j < rows.len() implies has_task(ms_b2, (#[trigger] rows[j]).id) by {
        lemma_has_task_same_tasks(ms_c, ms_b2, rows[j].id);
    }
    lemma_add_all_none(ms_b2, ms_b2, rows, b.task_overlay@, false, now, b.next_id);
    assert(tviews(c.timers@) == ms_b2);
    assert forall|k: int| 0 <= k < c.timers@.len() implies #[trigger] c.timers@[k]@ == (TimerModel {
        name: c.timers@[k]@.name,
        ..b.timers@[k]@
    }) by {
        assert(c.timers@[k]@ == ms_b2[k]);
        assert(b.timers@[k]@ == ms_c[k]);
    }
}

/// Reconciling twice with the same listing changes nothing but names the
/// second time: every timer stays in place with its id, task, state and
/// time, and the active id and the id counter stay.
pub proof fn law_sync_twice_changes_only_names<S>(
    a: App<S>,
    b: App<S>,
    c: App<S>,
    rows: Seq<TaskRowModel>,
    n1: u64,
    n2: u64,
)
    requires
        synced(a, b, Some(rows), false, n1),
        synced(b, c, Some(rows), false, n2),
    ensures
        c.timers@.len() == b.timers@.len(),
        forall|k: int| 0 <= k < c.timers@.len() ==> #[trigger] c.timers@[k]@ == (TimerModel {
            name: c.timers@[k]@.name,
            ..b.timers@[k]@
        }),
        c.active_id == b.active_id,
        c.next_id == b.next_id,
{
    law_sync_twice_adds_nothing(a, b, c, rows, n1, n2);
    lemma_resync_only_names(b, c, rows, n2);
}

/// Every listed task's timers already carry the task's own name (its text,
/// or `task #<id>`), and no other timer carries that name.
pub open spec fn names_settled(ms: Seq<TimerModel>, rows: Seq<TaskRowModel>) -> bool {
    forall|j: int| 0 <= j < rows.len() ==> {
        let r = #[trigger] rows[j];
        &&& !m_collides(ms, task_base(r.text, r.id), r.id)
        &&& forall|k: int| 0 <= k < ms.len() && (#[trigger] ms[k]).task_id == Some(r.id) ==> ms[k].name
            == task_base(r.text, r.id)
    }
}

/// With names settled, renaming changes nothing.
proof fn lemma_rename_settled(ms: Seq<TimerModel>, rows: Seq<TaskRowModel>)
    requires
        names_settled(ms, rows),
    ensures
        rename_all(ms, rows).0 == ms,
    decreases rows.len(),
{
    if rows.len() > 0 {
        let q = rows.drop_last();
        assert forall|j: int| 0 <= j < q.len() implies {
            let r = #[trigger] q[j];
            &&& !m_collides(ms, task_base(r.text, r.id), r.id)
            &&& forall|k: int| 0 <= k < ms.len() && (#[trigger] ms[k]).task_id == Some(r.id) ==> ms[k].name
                == task_base(r.text, r.id)
        } by {
            assert(q[j] == rows[j]);
        }
        lemma_rename_settled(ms, q);
        let row = rows.last();
        assert(rows[rows.len() - 1] == row);
        assert(unique_name(ms, row.text, row.id) == task_base(row.text, row.id));
        lemma_first_task(ms, row.id);
        if let Some(i) = first_task(ms, row.id) {
            assert(ms[i].name == task_base(row.text, row.id));
            assert(ms.update(i, TimerModel { name: task_base(row.text, row.id), ..ms[i] }) =~= ms);
        }
    }
}

/// Reconciling twice with the same listing is reconciling once, when the
/// first reconciliation left every listed task's timer with the task's own
/// name and no other timer with that name: the timers (ids, names, tasks,
/// states, times, order), the active id and the id counter all stay.
pub proof fn law_sync_twice_is_idempotent<S>(
    a: App<S>,
    b: App<S>,
    c: App<S>,
    rows: Seq<TaskRowModel>,
    n1: u64,
    n2: u64,
)
    requires
        synced(a, b, Some(rows), false, n1),
        synced(b, c, Some(rows), false, n2),
        names_settled(tviews(b.timers@), rows),
    ensures
        c.timers@.len() == b.timers@.len(),
        forall|k: int| 0 <= k < c.timers@.len() ==> #[trigger] c.timers@[k]@ == b.timers@[k]@,
        c.active_id == b.active_id,
        c.next_id == b.next_id,
{
    law_sync_twice_changes_only_names(a, b, c, rows, n1, n2);
    law_sync_twice_adds_nothing(a, b, c, rows, n1, n2);
    lemma_resync_same(b, c, rows, n2);
    assert forall|k: int| 0 <= k < c.timers@.len() implies #[trigger] c.timers@[k]@ == b.timers@[k]@ by {
        assert(tviews(c.timers@)[k] == c.timers@[k]@);
        assert(tviews(b.timers@)[k] == b.timers@[k]@);
    }
}

/// One call down from the law above: the second reconciliation gives back
/// the same timer values.
proof fn lemma_resync_same<S>(b: App<S>, c: App<S>, rows: Seq<TaskRowModel>, now: u64)
    requires
        synced(b, c, Some(rows), false, now),
        forall|j: int| 0 <= j < rows.len() ==> has_task(tviews(b.timers@), (#[trigger] rows[j]).id),
        b.mode != Mode::Selector ==> forall|k: int| 0 <= k < b.timers@.len() ==> kept(#[trigger] tviews(b.timers@)[k], rows),
        names_settled(tviews(b.timers@), rows),
    ensures
        tviews(c.timers@) == tviews(b.timers@),
{
    let ms_c = tviews(b.timers@);
    if b.mode != Mode::Selector {
        lemma_prune_all_kept(ms_c, rows);
    }
    lemma_rename_settled(ms_c, rows);
    lemma_add_all_none(ms_c, ms_c, rows, b.task_overlay@, false, now, b.next_id);
}

/// No two timers share an id.
pub open spec fn ids_unique(ts: Seq<Timer>) -> bool {
    forall|i: int, j: int| 0 <= i < j < ts.len() ==> #[trigger] ts[i].id != #[trigger] ts[j].id
}

/// Only the active timer may be unpaused: every running or expired timer is
/// the active one.
pub open spec fn only_active_runs(ts: Seq<Timer>, active: Option<u32>) -> bool {
    forall|k: int| 0 <= k < ts.len() && (#[trigger] ts[k]).state != TimerState::Paused ==> active == Some(ts[k].id)
}

/// Every timer is paused.
pub open spec fn all_paused(ts: Seq<Timer>) -> bool {
    forall|k: int| 0 <= k < ts.len() ==> (#[trigger] ts[k]).state == TimerState::Paused
}

proof fn lemma_drop_members(ts: Seq<Timer>, id: u32)
    ensures
        forall|k: int| 0 <= k < drop_id(ts, id).len() ==> exists|m: int| 0 <= m < ts.len() && #[trigger] ts[m] == #[trigger] drop_id(ts, id)[k],
    decreases ts.len(),
{
    if ts.len() > 0 {
        lemma_drop_members(ts.drop_last(), id);
        let p = drop_id(ts.drop_last(), id);
        assert forall|k: int| 0 <= k < drop_id(ts, id).len() implies exists|m: int| 0 <= m < ts.len() && #[trigger] ts[m] == #[trigger] drop_id(ts, id)[k] by {
            if k < p.len() {
                assert(drop_id(ts, id)[k] == p[k]);
                let m = choose|m: int| 0 <= m < ts.drop_last().len() && #[trigger] ts.drop_last()[m] == p[k];
                assert(ts[m] == ts.drop_last()[m]);
            } else {
                assert(drop_id(ts, id)[k] == ts.last());
                assert(ts[ts.len() - 1] == ts.last());
            }
        }
    }
}

proof fn lemma_drop_unique(ts: Seq<Timer>, id: u32)
    requires
        ids_unique(ts),
    ensures
        ids_unique(drop_id(ts, id)),
    decreases ts.len(),
{
    if ts.len() > 0 {
        let q = ts.drop_last();
        assert(ids_unique(q)) by {
            assert forall|i: int, j: int| 0 <= i < j < q.len() implies #[trigger] q[i].id != #[trigger] q[j].id by {
                assert(q[i] == ts[i] && q[j] == ts[j]);
            }
        }
        lemma_drop_unique(q, id);
        lemma_drop_members(q, id);
        let p = drop_id(q, id);
        if ts.last().id != id {
            let r = p.push(ts.last());
            assert forall|i: int, j: int| 0 <= i < j < r.len() implies #[trigger] r[i].id != #[trigger] r[j].id by {
                if j == r.len() - 1 {
                    assert(r[i] == p[i]);
                    let m = choose|m: int| 0 <= m < q.len() && #[trigger] q[m] == #[trigger] p[i];
                    assert(ts[m] == q[m]);
                    assert(ts[ts.len() - 1] == ts.last());
                } else {
                    assert(r[i] == p[i] && r[j] == p[j]);
                }
            }
        }
    }
}

/// With only the active timer unpaused and ids unique, what is left of the
/// timers once the active one is paused, or dropped, is all paused.
proof fn lemma_leave_active(ts: Seq<Timer>, active: Option<u32>, drop: bool)
    requires
        ids_unique(ts),
        only_active_runs(ts, active),
    ensures
        ({
            let ts1 = match active {
                Some(cur) => match find(ts, cur) {
                    Some(ci) => if drop {
                        drop_id(ts, cur)
                    } else {
                        ts.update(ci, paused(ts[ci]))
                    },
                    None => ts,
                },
                None => ts,
            };
            all_paused(ts1) && ids_unique(ts1)
        }),
{
    if let Some(cur) = active {
        lemma_find(ts, cur);
        match find(ts, cur) {
            Some(ci) => {
                if drop {
                    lemma_drop_members(ts, cur);
                    lemma_drop_unique(ts, cur);
                    super::timers::lemma_drop_id(ts, cur);
                    let d = drop_id(ts, cur);
                    assert forall|k: int| 0 <= k < d.len() implies (#[trigger] d[k]).state == TimerState::Paused by {
                        let m = choose|m: int| 0 <= m < ts.len() && #[trigger] ts[m] == #[trigger] d[k];
                        assert(d[k].id != cur);
                    }
                } else {
                    let u = ts.update(ci, paused(ts[ci]));
                    assert forall|k: int| 0 <= k < u.len() implies (#[trigger] u[k]).state == TimerState::Paused by {
                        if k != ci {
                            assert(u[k] == ts[k]);
                            if ts[k].state != TimerState::Paused {
                                assert(ts[k].id == cur);
                                if k < ci {
                                } else {
                                    assert(ts[ci].id != ts[k].id);
                                }
                            }
                        }
                    }
                    assert forall|i: int, j: int| 0 <= i < j < u.len() implies #[trigger] u[i].id != #[trigger] u[j].id by {
                        assert(u[i].id == ts[i].id && u[j].id == ts[j].id);
                    }
                }
            },
            None => {
                assert forall|k: int| 0 <= k < ts.len() implies (#[trigger] ts[k]).state == TimerState::Paused by {
                    if ts[k].state != TimerState::Paused {
                        assert(ts[k].id == cur);
                    }
                }
            },
        }
    }
}

proof fn lemma_drop_keeps(ts: Seq<Timer>, cur: u32, k: int)
    requires
        0 <= k < ts.len(),
        ts[k].id != cur,
    ensures
        exists|m: int| 0 <= m < drop_id(ts, cur).len() && #[trigger] drop_id(ts, cur)[m] == ts[k],
    decreases ts.len(),
{
    let q = ts.drop_last();
    let p = drop_id(q, cur);
    if k < ts.len() - 1 {
        assert(q[k] == ts[k]);
        lemma_drop_keeps(q, cur, k);
        let m = choose|m: int| 0 <= m < p.len() && #[trigger] p[m] == q[k];
        if ts.last().id == cur {
            assert(drop_id(ts, cur) == p);
        } else {
            assert(drop_id(ts, cur) == p.push(ts.last()));
            assert(drop_id(ts, cur)[m] == p[m]);
        }
    } else {
        assert(ts[k] == ts.last());
        assert(drop_id(ts, cur) == p.push(ts.last()));
        assert(drop_id(ts, cur)[p.len() as int] == ts.last());
    }
}

/// Switching to a timer that exists makes it tick again from `now` with the
/// time it had left: with ids unique, after switching to `ts[t]`'s id the
/// timer of that id is unpaused, ticks from `now`, and keeps its time.
pub proof fn law_switch_runs_target(ts: Seq<Timer>, active: Option<u32>, t: int, now: u64)
    requires
        ids_unique(ts),
        0 <= t < ts.len(),
    ensures
        exists|m: int|
            0 <= m < switch_timers(ts, active, ts[t].id, now).len() && (#[trigger] switch_timers(
                ts,
                active,
                ts[t].id,
                now,
            )[m]).id == ts[t].id && switch_timers(ts, active, ts[t].id, now)[m].state != TimerState::Paused
                && switch_timers(ts, active, ts[t].id, now)[m].last_tick == Some(now)
                && switch_timers(ts, active, ts[t].id, now)[m].remaining_ms == ts[t].remaining_ms,
{
    let id = ts[t].id;
    let ts1 = match active {
        Some(cur) => match find(ts, cur) {
            Some(ci) => if removable(ts[ci]) && cur != id {
                drop_id(ts, cur)
            } else {
                ts.update(ci, paused(ts[ci]))
            },
            None => ts,
        },
        None => ts,
    };
    // The target is still in `ts1`, with its time, and it is the only timer of its id.
    let mut w: int = t;
    if let Some(cur) = active {
        lemma_find(ts, cur);
        if let Some(ci) = find(ts, cur) {
            if removable(ts[ci]) && cur != id {
                lemma_drop_keeps(ts, cur, t);
                w = choose|m: int| 0 <= m < drop_id(ts, cur).len() && #[trigger] drop_id(ts, cur)[m] == ts[t];
                lemma_drop_members(ts, cur);
                assert forall|k: int| 0 <= k < ts1.len() && (#[trigger] ts1[k]).id == id implies ts1[k].remaining_ms
                    == ts[t].remaining_ms by {
                    let m = choose|m: int| 0 <= m < ts.len() && #[trigger] ts[m] == #[trigger] drop_id(ts, cur)[k];
                    if m != t {
                        if m < t {
                            assert(ts[m].id != ts[t].id);
                        } else {
                            assert(ts[t].id != ts[m].id);
                        }
                    }
                }
            } else {
                assert forall|k: int| 0 <= k < ts1.len() && (#[trigger] ts1[k]).id == id implies ts1[k].remaining_ms
                    == ts[t].remaining_ms by {
                    if k != t {
                        if k < t {
                            assert(ts[k].id != ts[t].id);
                        } else {
                            assert(ts[t].id != ts[k].id);
                        }
                    }
                }
            }
        } else {
            assert forall|k: int| 0 <= k < ts1.len() && (#[trigger] ts1[k]).id == id implies ts1[k].remaining_ms
                == ts[t].remaining_ms by {
                if k != t {
                    if k < t {
                        assert(ts[k].id != ts[t].id);
                    } else {
                        assert(ts[t].id != ts[k].id);
                    }
                }
            }
        }
    } else {
        assert forall|k: int| 0 <= k < ts1.len() && (#[trigger] ts1[k]).id == id implies ts1[k].remaining_ms
            == ts[t].remaining_ms by {
            if k != t {
                if k < t {
                    assert(ts[k].id != ts[t].id);
                } else {
                    assert(ts[t].id != ts[k].id);
                }
            }
        }
    }
    assert(0 <= w < ts1.len() && ts1[w].id == id);
    lemma_find(ts1, id);
    let j = find(ts1, id)->Some_0;
    let r = ts1.update(j, resumed(ts1[j], now));
    assert(switch_timers(ts, active, id, now) == r);
    assert(r[j].id == id && r[j].state != TimerState::Paused && r[j].last_tick == Some(now));
    assert(r[j].remaining_ms == ts1[j].remaining_ms);
}

/// Switching keeps one timer running at most: with ids unique and only the
/// active timer unpaused, after switching to `id` only timer `id` is
/// unpaused, and ids stay unique.
pub proof fn law_switch_keeps_one_running(ts: Seq<Timer>, active: Option<u32>, id: u32, now: u64)
    requires
        ids_unique(ts),
        only_active_runs(ts, active),
    ensures
        only_active_runs(switch_timers(ts, active, id, now), Some(id)),
        ids_unique(switch_timers(ts, active, id, now)),
{
    let drop = match active {
        Some(cur) => match find(ts, cur) {
            Some(ci) => removable(ts[ci]) && cur != id,
            None => false,
        },
        None => false,
    };
    lemma_leave_active(ts, active, drop);
    let ts1 = match active {
        Some(cur) => match find(ts, cur) {
            Some(ci) => if drop {
                drop_id(ts, cur)
            } else {
                ts.update(ci, paused(ts[ci]))
            },
            None => ts,
        },
        None => ts,
    };
    lemma_find(ts1, id);
    if let Some(j) = find(ts1, id) {
        let r = ts1.update(j, resumed(ts1[j], now));
        assert(switch_timers(ts, active, id, now) == r);
        assert forall|k: int| 0 <= k < r.len() && (#[trigger] r[k]).state != TimerState::Paused implies Some(id) == Some(r[k].id) by {
            if k != j {
                assert(r[k] == ts1[k]);
            }
        }
        assert forall|i: int, k: int| 0 <= i < k < r.len() implies #[trigger] r[i].id != #[trigger] r[k].id by {
            assert(r[i].id == ts1[i].id && r[k].id == ts1[k].id);
        }
    } else {
        assert(switch_timers(ts, active, id, now) == ts1);
    }
}

/// No two timers share a name.
pub open spec fn names_distinct(ts: Seq<Timer>) -> bool {
    forall|i: int, j: int| 0 <= i < j < ts.len() ==> (#[trigger] ts[i]).name@ != (#[trigger] ts[j]).name@
}

/// Dropping the timers of one id keeps names distinct, and keeps out a name
/// that only those timers could carry.
proof fn lemma_drop_names(ts: Seq<Timer>, id: u32, name: Seq<char>)
    requires
        names_distinct(ts),
        forall|k: int| 0 <= k < ts.len() && (#[trigger] ts[k]).id != id ==> ts[k].name@ != name,
    ensures
        names_distinct(drop_id(ts, id)),
        forall|k: int| 0 <= k < drop_id(ts, id).len() ==> (#[trigger] drop_id(ts, id)[k]).name@ != name,
    decreases ts.len(),
{
    if ts.len() > 0 {
        let q = ts.drop_last();
        assert forall|i: int, j: int| 0 <= i < j < q.len() implies (#[trigger] q[i]).name@ != (#[trigger] q[j]).name@ by {
            assert(q[i] == ts[i] && q[j] == ts[j]);
        }
        assert forall|k: int| 0 <= k < q.len() && (#[trigger] q[k]).id != id implies q[k].name@ != name by {
            assert(q[k] == ts[k]);
        }
        lemma_drop_names(q, id, name);
        lemma_drop_members(q, id);
        let p = drop_id(q, id);
        let last = ts.last();
        assert(ts[ts.len() - 1] == last);
        if last.id != id {
            let r = p.push(last);
            assert(drop_id(ts, id) == r);
            assert forall|i: int, j: int| 0 <= i < j < r.len() implies (#[trigger] r[i]).name@ != (#[trigger] r[j]).name@ by {
                if j == r.len() - 1 {
                    assert(r[i] == p[i]);
                    let m = choose|m: int| 0 <= m < q.len() && #[trigger] q[m] == #[trigger] p[i];
                    assert(ts[m] == q[m]);
                    assert(r[j] == last);
                } else {
                    assert(r[i] == p[i] && r[j] == p[j]);
                }
            }
            assert forall|k: int| 0 <= k < r.len() implies (#[trigger] r[k]).name@ != name by {
                if k < p.len() {
                    assert(r[k] == p[k]);
                } else {
                    assert(r[k] == last);
                }
            }
        }
    }
}

/// Adding a timer keeps names distinct: the new name is refused when a timer
/// that stays already has it.
pub proof fn law_add_keeps_names_distinct<S>(a: App<S>, b: App<S>, ms: i64, name: String, now: u64)
    requires
        names_distinct(a.timers@),
        !has_name(a.timers@, name@, add_excluded(a.timers@, a.active_id)),
        added(a, b, ms, name, now),
    ensures
        names_distinct(b.timers@),
{
    let ts = a.timers@;
    let before = before_add(ts, a.active_id);
    let t = fresh(a.next_id, name, ms, now);
    assert(b.timers@ == before.push(t));
    match active_pos(ts, a.active_id) {
        Some(i) => {
            lemma_find(ts, a.active_id->Some_0);
            if removable(ts[i]) {
                let id = a.active_id->Some_0;
                assert forall|k: int| 0 <= k < ts.len() && (#[trigger] ts[k]).id != id implies ts[k].name@ != name@ by {
                    if ts[k].name@ == name@ {
                        assert(Some(ts[k].id) != add_excluded(ts, a.active_id));
                    }
                }
                lemma_drop_names(ts, id, name@);
            } else {
                assert forall|k: int| 0 <= k < ts.len() implies (#[trigger] before[k]).name@ == ts[k].name@ by {
                    if k == i {
                        assert(before[k] == paused(ts[i]));
                    }
                }
                assert forall|k: int| 0 <= k < ts.len() implies (#[trigger] ts[k]).name@ != name@ by {
                    if ts[k].name@ == name@ {
                        assert(Some(ts[k].id) != add_excluded(ts, a.active_id));
                    }
                }
                assert forall|i2: int, j: int| 0 <= i2 < j < before.len() implies (#[trigger] before[i2]).name@ != (#[trigger] before[j]).name@ by {
                    assert(before[i2].name@ == ts[i2].name@ && before[j].name@ == ts[j].name@);
                    assert(ts[i2].name@ != ts[j].name@);
                }
                assert forall|k: int| 0 <= k < before.len() implies (#[trigger] before[k]).name@ != name@ by {
                    assert(before[k].name@ == ts[k].name@);
                    assert(ts[k].name@ != name@);
                }
            }
        },
        None => {
            assert forall|k: int| 0 <= k < ts.len() implies (#[trigger] ts[k]).name@ != name@ by {
                if ts[k].name@ == name@ {
                    assert(Some(ts[k].id) != add_excluded(ts, a.active_id));
                }
            }
        },
    }
    let r = before.push(t);
    assert forall|i2: int, j: int| 0 <= i2 < j < r.len() implies (#[trigger] r[i2]).name@ != (#[trigger] r[j]).name@ by {
        if j == r.len() - 1 {
            assert(r[i2] == before[i2]);
            assert(r[j] == t);
        } else {
            assert(r[i2] == before[i2] && r[j] == before[j]);
        }
    }
}

/// Adding a timer keeps one timer running at most: with ids unique, only
/// the active timer unpaused and the id counter unused, the new timer is
/// the only unpaused one and ids stay unique.
pub proof fn law_add_keeps_one_running<S>(a: App<S>, b: App<S>, ms: i64, name: String, now: u64)
    requires
        ids_unique(a.timers@),
        only_active_runs(a.timers@, a.active_id),
        forall|k: int| 0 <= k < a.timers@.len() ==> (#[trigger] a.timers@[k]).id != a.next_id,
        added(a, b, ms, name, now),
    ensures
        only_active_runs(b.timers@, b.active_id),
        ids_unique(b.timers@),
{
    let ts = a.timers@;
    let drop = match active_pos(ts, a.active_id) {
        Some(i) => removable(ts[i]),
        None => false,
    };
    lemma_leave_active(ts, a.active_id, drop);
    let ts1 = before_add(ts, a.active_id);
    assert(all_paused(ts1) && ids_unique(ts1));
    assert forall|k: int| 0 <= k < ts1.len() implies (#[trigger] ts1[k]).id != a.next_id by {
        if drop {
            lemma_drop_members(ts, a.active_id->Some_0);
            let m = choose|m: int| 0 <= m < ts.len() && #[trigger] ts[m] == #[trigger] ts1[k];
        } else if let Some(i) = active_pos(ts, a.active_id) {
            assert(ts1[k].id == ts[k].id);
        }
    }
    let t = fresh(a.next_id, name, ms, now);
    let r = ts1.push(t);
    assert(b.timers@ == r);
    assert forall|k: int| 0 <= k < r.len() && (#[trigger] r[k]).state != TimerState::Paused implies b.active_id == Some(r[k].id) by {
        if k < ts1.len() {
            assert(r[k] == ts1[k]);
        }
    }
    assert forall|i: int, j: int| 0 <= i < j < r.len() implies #[trigger] r[i].id != #[trigger] r[j].id by {
        assert(r[i] == ts1[i]);
        if j < ts1.len() {
            assert(r[j] == ts1[j]);
        }
    }
}

/// Where the `k`-th kept timer came from.
proof fn prune_source(ms: Seq<TimerModel>, rows: Seq<TaskRowModel>, k: int) -> (m: int)
    requires
        0 <= k < m_prune(ms, rows).len(),
    ensures
        0 <= m < ms.len(),
        ms[m] == m_prune(ms, rows)[k],
        kept(ms[m], rows),
    decreases ms.len(),
{
    let q = ms.drop_last();
    let p = m_prune(q, rows);
    if k < p.len() {
        assert(m_prune(ms, rows)[k] == p[k]);
        let m = prune_source(q, rows, k);
        assert(ms[m] == q[m]);
        m
    } else {
        assert(kept(ms.last(), rows));
        assert(m_prune(ms, rows) == p.push(ms.last()));
        assert(m_prune(ms, rows)[k] == ms.last());
        ms.len() - 1
    }
}

/// A reconciliation outside the startup keeps one timer running at most:
/// with ids unique and only the active timer unpaused, afterwards only the
/// active timer is unpaused. New task timers come in paused.
pub proof fn law_sync_keeps_one_running<S>(a: App<S>, b: App<S>, rows: Seq<TaskRowModel>, now: u64)
    requires
        synced(a, b, Some(rows), false, now),
        ids_unique(a.timers@),
        only_active_runs(a.timers@, a.active_id),
    ensures
        only_active_runs(b.timers@, b.active_id),
{
    let ms0 = tviews(a.timers@);
    let sel = a.mode == Mode::Selector;
    let ms_a = if sel {
        ms0
    } else {
        m_prune(ms0, rows)
    };
    let active_a = if !sel && active_dropped(ms0, a.active_id, rows) {
        None
    } else {
        a.active_id
    };
    // After pruning only the active timer may be unpaused; none when it went.
    assert forall|k: int| 0 <= k < ms_a.len() && (#[trigger] ms_a[k]).state != TimerState::Paused implies active_a == Some(ms_a[k].id) by {
        if sel {
            assert(ms0[k] == a.timers@[k]@);
        } else {
            let m = prune_source(ms0, rows, k);
            assert(ms0[m] == a.timers@[m]@);
            assert(a.active_id == Some(ms0[m].id));
            if active_dropped(ms0, a.active_id, rows) {
                let id = a.active_id->Some_0;
                let ai = m_active_pos(ms0, a.active_id)->Some_0;
                lemma_find(a.timers@, id);
                assert(m_ids(ms0) =~= ids_of(a.timers@));
                assert(m_find(ms0, id) == find(a.timers@, id));
                assert(ms0[ai].id == id);
                assert(ms0[ai] == a.timers@[ai]@);
                if ai < m {
                    assert(a.timers@[ai].id != a.timers@[m].id);
                } else if m < ai {
                    assert(a.timers@[m].id != a.timers@[ai].id);
                }
            }
        }
    }
    lemma_rename_adhoc(ms_a, rows);
    let ms_b = rename_all(ms_a, rows).0;
    lemma_add_all_shape(ms_b, ms_b, rows, a.task_overlay@, false, now, a.next_id);
    let ms_c = add_all(ms_b, ms_b, rows, a.task_overlay@, false, now, a.next_id).0;
    assert(tviews(b.timers@) == ms_c);
    assert(b.active_id == active_a);
    assert forall|k: int| 0 <= k < b.timers@.len() && (#[trigger] b.timers@[k]).state != TimerState::Paused implies b.active_id == Some(b.timers@[k].id) by {
        assert(ms_c[k] == b.timers@[k]@);
        if k < ms_b.len() {
            assert(ms_c.subrange(0, ms_b.len() as int)[k] == ms_c[k]);
            assert(ms_b[k].state == ms_a[k].state && ms_b[k].id == ms_a[k].id);
        }
    }
}

proof fn lemma_tick_all_shape(ts: Seq<Timer>, now: u64, debt: i64)
    ensures
        tick_all(ts, now, debt).0.len() == ts.len(),
        forall|k: int| 0 <= k < ts.len() ==> (#[trigger] tick_all(ts, now, debt).0[k]).id == ts[k].id
            && (tick_all(ts, now, debt).0[k].state == TimerState::Paused <==> ts[k].state == TimerState::Paused),
    decreases ts.len(),
{
    if ts.len() > 0 {
        lemma_tick_all_shape(ts.drop_last(), now, debt);
        let r = tick_all(ts, now, debt).0;
        let p = tick_all(ts.drop_last(), now, debt).0;
        assert forall|k: int| 0 <= k < ts.len() implies (#[trigger] r[k]).id == ts[k].id
            && (r[k].state == TimerState::Paused <==> ts[k].state == TimerState::Paused) by {
            if k < ts.len() - 1 {
                assert(r[k] == p[k]);
                assert(ts.drop_last()[k] == ts[k]);
            } else {
                assert(ts[k] == ts.last());
            }
        }
    }
}

/// Ticking keeps one timer running at most: ticks never unpause a timer
/// nor change an id.
pub proof fn law_tick_keeps_one_running<S>(a: App<S>, b: App<S>, now: u64, al: Seq<Alert>)
    requires
        only_active_runs(a.timers@, a.active_id),
        ticked_app(a, b, now, al),
    ensures
        only_active_runs(b.timers@, b.active_id),
{
    lemma_tick_all_shape(a.timers@, now, a.time_debt_ms);
}

/// No two timer values share an id.
pub open spec fn m_ids_unique(ms: Seq<TimerModel>) -> bool {
    forall|i: int, j: int| 0 <= i < j < ms.len() ==> #[trigger] ms[i].id != #[trigger] ms[j].id
}

/// Every unpaused timer value is the active one or has id `other`.
pub open spec fn m_runs_only(ms: Seq<TimerModel>, active: Option<u32>, other: Option<u32>) -> bool {
    forall|k: int|
        0 <= k < ms.len() && (#[trigger] ms[k]).state != TimerState::Paused ==> active == Some(ms[k].id)
            || other == Some(ms[k].id)
}

proof fn lemma_m_find(ms: Seq<TimerModel>, id: u32)
    ensures
        match m_find(ms, id) {
            Some(i) => 0 <= i < ms.len() && ms[i].id == id,
            None => forall|k: int| 0 <= k < ms.len() ==> #[trigger] ms[k].id != id,
        },
{
    let ids = m_ids(ms);
    super::lemma_first_index(ids, id);
    match m_find(ms, id) {
        Some(i) => {
            assert(ids[i] == ms[i].id);
        },
        None => {
            assert forall|k: int| 0 <= k < ms.len() implies #[trigger] ms[k].id != id by {
                assert(ids[k] == ms[k].id);
            }
        },
    }
}

proof fn lemma_m_drop_members(ms: Seq<TimerModel>, id: u32)
    ensures
        forall|k: int| 0 <= k < m_drop_id(ms, id).len() ==> exists|m: int|
            0 <= m < ms.len() && #[trigger] ms[m] == #[trigger] m_drop_id(ms, id)[k] && ms[m].id != id,
    decreases ms.len(),
{
    if ms.len() > 0 {
        let q = ms.drop_last();
        lemma_m_drop_members(q, id);
        let p = m_drop_id(q, id);
        assert forall|k: int| 0 <= k < m_drop_id(ms, id).len() implies exists|m: int|
            0 <= m < ms.len() && #[trigger] ms[m] == #[trigger] m_drop_id(ms, id)[k] && ms[m].id != id by {
            if k < p.len() {
                assert(m_drop_id(ms, id)[k] == p[k]);
                let m = choose|m: int| 0 <= m < q.len() && #[trigger] q[m] == #[trigger] p[k] && q[m].id != id;
                assert(ms[m] == q[m]);
            } else {
                assert(m_drop_id(ms, id)[k] == ms.last());
                assert(ms[ms.len() - 1] == ms.last());
            }
        }
    }
}

proof fn lemma_m_drop_unique(ms: Seq<TimerModel>, id: u32)
    requires
        m_ids_unique(ms),
    ensures
        m_ids_unique(m_drop_id(ms, id)),
    decreases ms.len(),
{
    if ms.len() > 0 {
        let q = ms.drop_last();
        assert(m_ids_unique(q)) by {
            assert forall|i: int, j: int| 0 <= i < j < q.len() implies #[trigger] q[i].id != #[trigger] q[j].id by {
                assert(q[i] == ms[i] && q[j] == ms[j]);
            }
        }
        lemma_m_drop_unique(q, id);
        lemma_m_drop_members(q, id);
        let p = m_drop_id(q, id);
        if ms.last().id != id {
            let r = p.push(ms.last());
            assert forall|i: int, j: int| 0 <= i < j < r.len() implies #[trigger] r[i].id != #[trigger] r[j].id by {
                if j == r.len() - 1 {
                    assert(r[i] == p[i]);
                    let m = choose|m: int| 0 <= m < q.len() && #[trigger] q[m] == #[trigger] p[i] && q[m].id != id;
                    assert(ms[m] == q[m]);
                    assert(ms[ms.len() - 1] == ms.last());
                } else {
                    assert(r[i] == p[i] && r[j] == p[j]);
                }
            }
        }
    }
}

/// Switching to `id` when every unpaused timer value is the active one or
/// `id` itself leaves only `id` unpaused, ids unique.
proof fn lemma_m_switch_runs_only(ms: Seq<TimerModel>, active: Option<u32>, id: u32, now: u64)
    requires
        m_ids_unique(ms),
        m_runs_only(ms, active, Some(id)),
    ensures
        m_runs_only(m_switch(ms, active, id, now), Some(id), None),
{
    let ms1 = match active {
        Some(cur) => match m_find(ms, cur) {
            Some(ci) => if m_removable(ms[ci]) && cur != id {
                m_drop_id(ms, cur)
            } else {
                ms.update(ci, m_paused(ms[ci]))
            },
            None => ms,
        },
        None => ms,
    };
    if let Some(cur) = active {
        lemma_m_find(ms, cur);
        match m_find(ms, cur) {
            Some(ci) => {
                if m_removable(ms[ci]) && cur != id {
                    lemma_m_drop_members(ms, cur);
                    lemma_m_drop_unique(ms, cur);
                    assert forall|k: int| 0 <= k < ms1.len() && (#[trigger] ms1[k]).state != TimerState::Paused implies Some(id) == Some(ms1[k].id) by {
                        let m = choose|m: int| 0 <= m < ms.len() && #[trigger] ms[m] == #[trigger] ms1[k] && ms[m].id != cur;
                    }
                } else {
                    assert forall|k: int| 0 <= k < ms1.len() && (#[trigger] ms1[k]).state != TimerState::Paused implies Some(id) == Some(ms1[k].id) by {
                        if k != ci {
                            assert(ms1[k] == ms[k]);
                            if ms[k].id == cur {
                                if k < ci {
                                    assert(ms[k].id != ms[ci].id);
                                } else {
                                    assert(ms[ci].id != ms[k].id);
                                }
                            }
                        }
                    }
                    assert forall|i: int, j: int| 0 <= i < j < ms1.len() implies #[trigger] ms1[i].id != #[trigger] ms1[j].id by {
                        assert(ms1[i].id == ms[i].id && ms1[j].id == ms[j].id);
                    }
                }
            },
            None => {},
        }
    }
    assert(m_runs_only(ms1, Some(id), None));
    lemma_m_find(ms1, id);
    if let Some(j) = m_find(ms1, id) {
        let r = ms1.update(j, m_resumed(ms1[j], now));
        assert(m_switch(ms, active, id, now) == r);
        assert forall|k: int| 0 <= k < r.len() && (#[trigger] r[k]).state != TimerState::Paused implies Some(id) == Some(r[k].id) || None::<u32> == Some(r[k].id) by {
            if k != j {
                assert(r[k] == ms1[k]);
            }
        }
    } else {
        assert(m_switch(ms, active, id, now) == ms1);
    }
}

/// The ids that adding timers for the rows hands out: consecutive from
/// `next`, the id counter past them, and only the timer to revive unpaused.
proof fn lemma_add_all_ids(
    base: Seq<TimerModel>,
    ms: Seq<TimerModel>,
    rows: Seq<TaskRowModel>,
    overlay: Map<u32, OverlayEntry>,
    initial: bool,
    now: u64,
    next: u32,
)
    requires
        next + rows.len() <= u32::MAX,
    ensures
        ({
            let (r, n, rev, ch) = add_all(base, ms, rows, overlay, initial, now, next);
            &&& r.len() >= ms.len()
            &&& r.len() - ms.len() <= rows.len()
            &&& n == next + (r.len() - ms.len())
            &&& forall|k: int| 0 <= k < ms.len() ==> #[trigger] r[k] == ms[k]
            &&& forall|k: int| ms.len() <= k < r.len() ==> (#[trigger] r[k]).id == next + (k - ms.len())
            &&& forall|k: int|
                ms.len() <= k < r.len() && (#[trigger] r[k]).state != TimerState::Paused ==> rev == Some(r[k].id)
            &&& rev matches Some(x) ==> next <= x < n
        }),
    decreases rows.len(),
{
    if rows.len() > 0 {
        lemma_add_all_ids(base, ms, rows.drop_last(), overlay, initial, now, next);
        let (m1, n1, r1, c1) = add_all(base, ms, rows.drop_last(), overlay, initial, now, next);
        let row = rows.last();
        if !has_task(base, row.id) {
            let t0 = new_task_timer(n1, unique_name(m1, row.text, row.id), row, now);
            let (t1, was_running) = m_overlay_applied(t0, overlay_of(overlay, row.id), now);
            let x = if initial && was_running && r1 is None {
                t1
            } else {
                m_paused(t1)
            };
            let r = add_all(base, ms, rows, overlay, initial, now, next).0;
            assert(r == m1.push(x));
            assert(x.id == n1);
            assert forall|k: int| 0 <= k < r.len() - 1 implies #[trigger] r[k] == m1[k] by {}
        }
    }
}

/// The startup reconciliation also keeps one timer running at most: with ids
/// unique, below the id counter, only the active timer unpaused and room for
/// the new ids, afterwards only the active timer is unpaused (the one revived
/// from its saved countdown, when there is one).
pub proof fn law_startup_sync_keeps_one_running<S>(a: App<S>, b: App<S>, rows: Seq<TaskRowModel>, now: u64)
    requires
        synced(a, b, Some(rows), true, now),
        ids_unique(a.timers@),
        only_active_runs(a.timers@, a.active_id),
        forall|k: int| 0 <= k < a.timers@.len() ==> (#[trigger] a.timers@[k]).id < a.next_id,
        a.next_id + rows.len() <= u32::MAX,
    ensures
        only_active_runs(b.timers@, b.active_id),
{
    let ms0 = tviews(a.timers@);
    let sel = a.mode == Mode::Selector;
    let ms_a = if sel {
        ms0
    } else {
        m_prune(ms0, rows)
    };
    let active_a = if !sel && active_dropped(ms0, a.active_id, rows) {
        None
    } else {
        a.active_id
    };
    // What is kept has unique ids below the counter, and only the active one
    // unpaused.
    assert forall|k: int| 0 <= k < ms_a.len() implies (#[trigger] ms_a[k]).id < a.next_id
        && (ms_a[k].state != TimerState::Paused ==> active_a == Some(ms_a[k].id)) by {
        if sel {
            assert(ms0[k] == a.timers@[k]@);
        } else {
            let m = prune_source(ms0, rows, k);
            assert(ms0[m] == a.timers@[m]@);
            if ms_a[k].state != TimerState::Paused && active_dropped(ms0, a.active_id, rows) {
                let id = a.active_id->Some_0;
                let ai = m_active_pos(ms0, a.active_id)->Some_0;
                lemma_find(a.timers@, id);
                assert(m_ids(ms0) =~= ids_of(a.timers@));
                assert(m_find(ms0, id) == find(a.timers@, id));
                assert(ms0[ai] == a.timers@[ai]@);
                if ai < m {
                    assert(a.timers@[ai].id != a.timers@[m].id);
                } else if m < ai {
                    assert(a.timers@[m].id != a.timers@[ai].id);
                }
            }
        }
    }
    assert(m_ids_unique(ms_a)) by {
        if sel {
            assert forall|i: int, j: int| 0 <= i < j < ms_a.len() implies #[trigger] ms_a[i].id != #[trigger] ms_a[j].id by {
                assert(ms0[i] == a.timers@[i]@ && ms0[j] == a.timers@[j]@);
            }
        } else {
            assert(m_ids_unique(ms0)) by {
                assert forall|i: int, j: int| 0 <= i < j < ms0.len() implies #[trigger] ms0[i].id != #[trigger] ms0[j].id by {
                    assert(ms0[i] == a.timers@[i]@ && ms0[j] == a.timers@[j]@);
                }
            }
            lemma_prune_unique(ms0, rows);
        }
    }
    lemma_rename_adhoc(ms_a, rows);
    let ms_b = rename_all(ms_a, rows).0;
    lemma_add_all_ids(ms_b, ms_b, rows, a.task_overlay@, true, now, a.next_id);
    let (ms_c, next_c, restored, changed_c) = add_all(ms_b, ms_b, rows, a.task_overlay@, true, now, a.next_id);
    assert(m_ids_unique(ms_c)) by {
        assert forall|i: int, j: int| 0 <= i < j < ms_c.len() implies #[trigger] ms_c[i].id != #[trigger] ms_c[j].id by {
            if j < ms_b.len() {
                assert(ms_c[i] == ms_b[i] && ms_c[j] == ms_b[j]);
                assert(ms_b[i].id == ms_a[i].id && ms_b[j].id == ms_a[j].id);
            } else if i < ms_b.len() {
                assert(ms_c[i] == ms_b[i]);
                assert(ms_b[i].id == ms_a[i].id);
            }
        }
    }
    match restored {
        Some(rid) => {
            assert(m_runs_only(ms_c, active_a, Some(rid))) by {
                assert forall|k: int| 0 <= k < ms_c.len() && (#[trigger] ms_c[k]).state != TimerState::Paused implies active_a == Some(ms_c[k].id) || Some(rid) == Some(ms_c[k].id) by {
                    if k < ms_b.len() {
                        assert(ms_c[k] == ms_b[k]);
                        assert(ms_b[k].state == ms_a[k].state && ms_b[k].id == ms_a[k].id);
                    }
                }
            }
            lemma_m_switch_runs_only(ms_c, active_a, rid, now);
            assert(tviews(b.timers@) == m_switch(ms_c, active_a, rid, now));
            assert forall|k: int| 0 <= k < b.timers@.len() && (#[trigger] b.timers@[k]).state != TimerState::Paused implies b.active_id == Some(b.timers@[k].id) by {
                assert(tviews(b.timers@)[k] == b.timers@[k]@);
            }
        },
        None => {
            assert(tviews(b.timers@) == ms_c);
            assert forall|k: int| 0 <= k < b.timers@.len() && (#[trigger] b.timers@[k]).state != TimerState::Paused implies b.active_id == Some(b.timers@[k].id) by {
                assert(ms_c[k] == b.timers@[k]@);
                if k < ms_b.len() {
                    assert(ms_c[k] == ms_b[k]);
                    assert(ms_b[k].state == ms_a[k].state && ms_b[k].id == ms_a[k].id);
                }
            }
        },
    }
}

proof fn lemma_prune_unique(ms: Seq<TimerModel>, rows: Seq<TaskRowModel>)
    requires
        m_ids_unique(ms),
    ensures
        m_ids_unique(m_prune(ms, rows)),
    decreases ms.len(),
{
    if ms.len() > 0 {
        let q = ms.drop_last();
        assert(m_ids_unique(q)) by {
            assert forall|i: int, j: int| 0 <= i < j < q.len() implies #[trigger] q[i].id != #[trigger] q[j].id by {
                assert(q[i] == ms[i] && q[j] == ms[j]);
            }
        }
        lemma_prune_unique(q, rows);
        let p = m_prune(q, rows);
        if kept(ms.last(), rows) {
            let r = p.push(ms.last());
            assert forall|i: int, j: int| 0 <= i < j < r.len() implies #[trigger] r[i].id != #[trigger] r[j].id by {
                if j == r.len() - 1 {
                    assert(r[i] == p[i]);
                    let m = prune_source(q, rows, i);
                    assert(ms[m] == q[m]);
                    assert(ms[ms.len() - 1] == ms.last());
                } else {
                    assert(r[i] == p[i] && r[j] == p[j]);
                }
            }
        }
    }
}

/// The timers are in creation order: ids ascending.
pub open spec fn in_creation_order(ts: Seq<Timer>) -> bool {
    forall|i: int, j: int| 0 <= i < j < ts.len() ==> #[trigger] ts[i].id <= #[trigger] ts[j].id
}

/// The timer values are in creation order: ids ascending.
pub open spec fn m_in_creation_order(ms: Seq<TimerModel>) -> bool {
    forall|i: int, j: int| 0 <= i < j < ms.len() ==> #[trigger] ms[i].id <= #[trigger] ms[j].id
}

proof fn lemma_drop_order(ts: Seq<Timer>, id: u32)
    requires
        in_creation_order(ts),
    ensures
        in_creation_order(drop_id(ts, id)),
    decreases ts.len(),
{
    if ts.len() > 0 {
        let q = ts.drop_last();
        assert(in_creation_order(q)) by {
            assert forall|i: int, j: int| 0 <= i < j < q.len() implies #[trigger] q[i].id <= #[trigger] q[j].id by {
                assert(q[i] == ts[i] && q[j] == ts[j]);
            }
        }
        lemma_drop_order(q, id);
        lemma_drop_members(q, id);
        let p = drop_id(q, id);
        if ts.last().id != id {
            let r = p.push(ts.last());
            assert forall|i: int, j: int| 0 <= i < j < r.len() implies #[trigger] r[i].id <= #[trigger] r[j].id by {
                if j == r.len() - 1 {
                    assert(r[i] == p[i]);
                    let m = choose|m: int| 0 <= m < q.len() && #[trigger] q[m] == #[trigger] p[i];
                    assert(ts[m] == q[m]);
                    assert(ts[ts.len() - 1] == ts.last());
                } else {
                    assert(r[i] == p[i] && r[j] == p[j]);
                }
            }
        }
    }
}

proof fn lemma_update_same_id_order(ts: Seq<Timer>, i: int, x: Timer)
    requires
        in_creation_order(ts),
        0 <= i < ts.len(),
        x.id == ts[i].id,
    ensures
        in_creation_order(ts.update(i, x)),
{
    let u = ts.update(i, x);
    assert forall|a: int, b: int| 0 <= a < b < u.len() implies #[trigger] u[a].id <= #[trigger] u[b].id by {
        assert(u[a].id == ts[a].id && u[b].id == ts[b].id);
    }
}

proof fn lemma_switch_order(ts: Seq<Timer>, active: Option<u32>, id: u32, now: u64)
    requires
        in_creation_order(ts),
    ensures
        in_creation_order(switch_timers(ts, active, id, now)),
{
    let ts1 = match active {
        Some(cur) => match find(ts, cur) {
            Some(ci) => if removable(ts[ci]) && cur != id {
                drop_id(ts, cur)
            } else {
                ts.update(ci, paused(ts[ci]))
            },
            None => ts,
        },
        None => ts,
    };
    if let Some(cur) = active {
        lemma_find(ts, cur);
        if let Some(ci) = find(ts, cur) {
            if removable(ts[ci]) && cur != id {
                lemma_drop_order(ts, cur);
            } else {
                lemma_update_same_id_order(ts, ci, paused(ts[ci]));
            }
        }
    }
    lemma_find(ts1, id);
    if let Some(j) = find(ts1, id) {
        lemma_update_same_id_order(ts1, j, resumed(ts1[j], now));
    }
}

#[verifier::rlimit(40)]
proof fn lemma_insert_pos_props(ts: Seq<Timer>, id: u32)
    ensures
        0 <= insert_pos(ts, id) <= ts.len(),
        forall|k: int| 0 <= k < insert_pos(ts, id) ==> (#[trigger] ts[k]).id <= id,
        insert_pos(ts, id) < ts.len() ==> ts[insert_pos(ts, id)].id > id,
{
    if exists|i: int| 0 <= i < ts.len() && (#[trigger] ts[i]).id > id {
        let w = choose|i: int| 0 <= i < ts.len() && (#[trigger] ts[i]).id > id;
        lemma_insert_pos_exists(ts, id, w);
        let p = choose|i: int|
            0 <= i < ts.len() && (#[trigger] ts[i]).id > id && forall|k: int|
                0 <= k < i ==> (#[trigger] ts[k]).id <= id;
        assert(insert_pos(ts, id) == p);
    } else {
        assert(insert_pos(ts, id) == ts.len());
        assert forall|k: int| 0 <= k < ts.len() implies (#[trigger] ts[k]).id <= id by {
            if ts[k].id > id {
                assert(exists|i: int| 0 <= i < ts.len() && (#[trigger] ts[i]).id > id);
            }
        }
    }
}

proof fn lemma_insert_at_order(ts: Seq<Timer>, t: Timer, p: int)
    requires
        in_creation_order(ts),
        0 <= p <= ts.len(),
        forall|k: int| 0 <= k < p ==> (#[trigger] ts[k]).id <= t.id,
        p < ts.len() ==> ts[p].id > t.id,
    ensures
        in_creation_order(ts.insert(p, t)),
{
    let r = ts.insert(p, t);
    assert forall|a: int, b: int| 0 <= a < b < r.len() implies #[trigger] r[a].id <= #[trigger] r[b].id by {
        if b < p {
            assert(r[a] == ts[a] && r[b] == ts[b]);
        } else if b == p {
            assert(r[a] == ts[a]);
        } else if a < p {
            assert(r[a] == ts[a] && r[b] == ts[b - 1]);
            assert(ts[a].id <= ts[b - 1].id);
        } else if a == p {
            assert(r[b] == ts[b - 1]);
            if p < b - 1 {
                assert(ts[p].id <= ts[b - 1].id);
            }
        } else {
            assert(r[a] == ts[a - 1] && r[b] == ts[b - 1]);
        }
    }
}

proof fn lemma_insert_order(ts: Seq<Timer>, t: Timer)
    requires
        in_creation_order(ts),
    ensures
        in_creation_order(ts.insert(insert_pos(ts, t.id), t)),
{
    lemma_insert_pos_props(ts, t.id);
    lemma_insert_at_order(ts, t, insert_pos(ts, t.id));
}

/// Undoing keeps the timers in creation order: a removed timer goes back in
/// its place, and nothing else moves.
pub proof fn law_revert_keeps_creation_order<S>(b: App<S>, c: App<S>, now: u64)
    requires
        in_creation_order(b.timers@),
        reverted(b, c, now),
    ensures
        in_creation_order(c.timers@),
{
    let u = recent_entries(b.undo_stack@, now);
    if u.len() > 0 {
        match u.last().action {
            UndoAction::TimerRemoved(t) => {
                lemma_insert_order(b.timers@, t);
                let ts1 = b.timers@.insert(insert_pos(b.timers@, t.id), t);
                lemma_switch_order(ts1, b.active_id, t.id, now);
            },
            UndoAction::TimeChanged { id, old_remaining, old_original } => {
                lemma_find(b.timers@, id);
                if let Some(i) = find(b.timers@, id) {
                    lemma_update_same_id_order(
                        b.timers@,
                        i,
                        time_restored(b.timers@[i], old_remaining, old_original, now),
                    );
                }
            },
        }
    }
}

/// Adding keeps the timers in creation order when the id counter is past
/// every id: the new timer goes last.
pub proof fn law_add_keeps_creation_order<S>(a: App<S>, b: App<S>, ms: i64, name: String, now: u64)
    requires
        in_creation_order(a.timers@),
        forall|k: int| 0 <= k < a.timers@.len() ==> (#[trigger] a.timers@[k]).id < a.next_id,
        added(a, b, ms, name, now),
    ensures
        in_creation_order(b.timers@),
{
    let ts = a.timers@;
    let ts1 = before_add(ts, a.active_id);
    match active_pos(ts, a.active_id) {
        Some(i) => {
            lemma_find(ts, a.active_id->Some_0);
            if removable(ts[i]) {
                lemma_drop_order(ts, a.active_id->Some_0);
                lemma_drop_members(ts, a.active_id->Some_0);
            } else {
                lemma_update_same_id_order(ts, i, paused(ts[i]));
            }
        },
        None => {},
    }
    assert forall|k: int| 0 <= k < ts1.len() implies (#[trigger] ts1[k]).id < a.next_id by {
        if let Some(i) = active_pos(ts, a.active_id) {
            if removable(ts[i]) {
                let m = choose|m: int| 0 <= m < ts.len() && #[trigger] ts[m] == #[trigger] ts1[k];
            } else {
                assert(ts1[k].id == ts[k].id);
            }
        }
    }
    let r = ts1.push(fresh(a.next_id, name, ms, now));
    assert(b.timers@ == r);
    assert forall|i: int, j: int| 0 <= i < j < r.len() implies #[trigger] r[i].id <= #[trigger] r[j].id by {
        assert(r[i] == ts1[i]);
        if j < ts1.len() {
            assert(r[j] == ts1[j]);
        }
    }
}

/// Removing the active timer keeps the timers in creation order.
pub proof fn law_remove_keeps_creation_order<S>(a: App<S>, b: App<S>, with_undo: bool, now: u64)
    requires
        in_creation_order(a.timers@),
        removed(a, b, with_undo, now),
    ensures
        in_creation_order(b.timers@),
{
    if let Some(id) = a.active_id {
        lemma_drop_order(a.timers@, id);
        let d = drop_id(a.timers@, id);
        if d.len() == 1 {
            lemma_update_same_id_order(d, 0, resumed(d[0], now));
        }
    }
}

proof fn lemma_m_drop_order(ms: Seq<TimerModel>, id: u32)
    requires
        m_in_creation_order(ms),
    ensures
        m_in_creation_order(m_drop_id(ms, id)),
    decreases ms.len(),
{
    if ms.len() > 0 {
        let q = ms.drop_last();
        assert(m_in_creation_order(q)) by {
            assert forall|i: int, j: int| 0 <= i < j < q.len() implies #[trigger] q[i].id <= #[trigger] q[j].id by {
                assert(q[i] == ms[i] && q[j] == ms[j]);
            }
        }
        lemma_m_drop_order(q, id);
        lemma_m_drop_members(q, id);
        let p = m_drop_id(q, id);
        if ms.last().id != id {
            let r = p.push(ms.last());
            assert forall|i: int, j: int| 0 <= i < j < r.len() implies #[trigger] r[i].id <= #[trigger] r[j].id by {
                if j == r.len() - 1 {
                    assert(r[i] == p[i]);
                    let m = choose|m: int| 0 <= m < q.len() && #[trigger] q[m] == #[trigger] p[i] && q[m].id != id;
                    assert(ms[m] == q[m]);
                    assert(ms[ms.len() - 1] == ms.last());
                } else {
                    assert(r[i] == p[i] && r[j] == p[j]);
                }
            }
        }
    }
}

proof fn lemma_prune_order(ms: Seq<TimerModel>, rows: Seq<TaskRowModel>)
    requires
        m_in_creation_order(ms),
    ensures
        m_in_creation_order(m_prune(ms, rows)),
    decreases ms.len(),
{
    if ms.len() > 0 {
        let q = ms.drop_last();
        assert(m_in_creation_order(q)) by {
            assert forall|i: int, j: int| 0 <= i < j < q.len() implies #[trigger] q[i].id <= #[trigger] q[j].id by {
                assert(q[i] == ms[i] && q[j] == ms[j]);
            }
        }
        lemma_prune_order(q, rows);
        let p = m_prune(q, rows);
        if kept(ms.last(), rows) {
            let r = p.push(ms.last());
            assert forall|i: int, j: int| 0 <= i < j < r.len() implies #[trigger] r[i].id <= #[trigger] r[j].id by {
                if j == r.len() - 1 {
                    assert(r[i] == p[i]);
                    let m = prune_source(q, rows, i);
                    assert(ms[m] == q[m]);
                    assert(ms[ms.len() - 1] == ms.last());
                } else {
                    assert(r[i] == p[i] && r[j] == p[j]);
                }
            }
        }
    }
}

proof fn lemma_m_update_same_id_order(ms: Seq<TimerModel>, i: int, x: TimerModel)
    requires
        m_in_creation_order(ms),
        0 <= i < ms.len(),
        x.id == ms[i].id,
    ensures
        m_in_creation_order(ms.update(i, x)),
{
    let u = ms.update(i, x);
    assert forall|a: int, b: int| 0 <= a < b < u.len() implies #[trigger] u[a].id <= #[trigger] u[b].id by {
        assert(u[a].id == ms[a].id && u[b].id == ms[b].id);
    }
}

proof fn lemma_m_switch_order(ms: Seq<TimerModel>, active: Option<u32>, id: u32, now: u64)
    requires
        m_in_creation_order(ms),
    ensures
        m_in_creation_order(m_switch(ms, active, id, now)),
{
    let ms1 = match active {
        Some(cur) => match m_find(ms, cur) {
            Some(ci) => if m_removable(ms[ci]) && cur != id {
                m_drop_id(ms, cur)
            } else {
                ms.update(ci, m_paused(ms[ci]))
            },
            None => ms,
        },
        None => ms,
    };
    if let Some(cur) = active {
        lemma_m_find(ms, cur);
        if let Some(ci) = m_find(ms, cur) {
            if m_removable(ms[ci]) && cur != id {
                lemma_m_drop_order(ms, cur);
            } else {
                lemma_m_update_same_id_order(ms, ci, m_paused(ms[ci]));
            }
        }
    }
    lemma_m_find(ms1, id);
    if let Some(j) = m_find(ms1, id) {
        lemma_m_update_same_id_order(ms1, j, m_resumed(ms1[j], now));
    }
}

/// Reconciling keeps the timers in creation order when every id is below
/// the id counter and there is room for the new ids: new task timers go
/// last, in row order.
/// The end of a reconciliation in creation order, from timer values in
/// creation order below the id counter.
proof fn lemma_rename_add_order(
    ms_a: Seq<TimerModel>,
    rows: Seq<TaskRowModel>,
    overlay: Map<u32, OverlayEntry>,
    initial: bool,
    now: u64,
    next: u32,
    active: Option<u32>,
)
    requires
        m_in_creation_order(ms_a),
        forall|k: int| 0 <= k < ms_a.len() ==> (#[trigger] ms_a[k]).id < next,
        next + rows.len() <= u32::MAX,
    ensures
        ({
            let ms_b = rename_all(ms_a, rows).0;
            let (ms_c, n, restored, ch) = add_all(ms_b, ms_b, rows, overlay, initial, now, next);
            m_in_creation_order(
                match restored {
                    Some(id) => m_switch(ms_c, active, id, now),
                    None => ms_c,
                },
            )
        }),
{
    lemma_rename_adhoc(ms_a, rows);
    let ms_b = rename_all(ms_a, rows).0;
    lemma_add_all_ids(ms_b, ms_b, rows, overlay, initial, now, next);
    let (ms_c, n, restored, ch) = add_all(ms_b, ms_b, rows, overlay, initial, now, next);
    assert(m_in_creation_order(ms_c)) by {
        assert forall|i: int, j: int| 0 <= i < j < ms_c.len() implies #[trigger] ms_c[i].id <= #[trigger] ms_c[j].id by {
            if j < ms_b.len() {
                assert(ms_c[i] == ms_b[i] && ms_c[j] == ms_b[j]);
                assert(ms_b[i].id == ms_a[i].id && ms_b[j].id == ms_a[j].id);
            } else if i < ms_b.len() {
                assert(ms_c[i] == ms_b[i]);
                assert(ms_b[i].id == ms_a[i].id);
            }
        }
    }
    if let Some(id) = restored {
        lemma_m_switch_order(ms_c, active, id, now);
    }
}

/// Reconciling keeps the timers in creation order when every id is below
/// the id counter and there is room for the new ids: new task timers go
/// last, in row order.
pub proof fn law_sync_keeps_creation_order<S>(
    a: App<S>,
    b: App<S>,
    rows: Seq<TaskRowModel>,
    initial: bool,
    now: u64,
)
    requires
        synced(a, b, Some(rows), initial, now),
        in_creation_order(a.timers@),
        forall|k: int| 0 <= k < a.timers@.len() ==> (#[trigger] a.timers@[k]).id < a.next_id,
        a.next_id + rows.len() <= u32::MAX,
    ensures
        in_creation_order(b.timers@),
{
    let ms0 = tviews(a.timers@);
    let sel = a.mode == Mode::Selector;
    let ms_a = if sel {
        ms0
    } else {
        m_prune(ms0, rows)
    };
    let active_a = if !sel && active_dropped(ms0, a.active_id, rows) {
        None
    } else {
        a.active_id
    };
    assert(m_in_creation_order(ms0)) by {
        assert forall|i: int, j: int| 0 <= i < j < ms0.len() implies #[trigger] ms0[i].id <= #[trigger] ms0[j].id by {
            assert(ms0[i] == a.timers@[i]@ && ms0[j] == a.timers@[j]@);
        }
    }
    if !sel {
        lemma_prune_order(ms0, rows);
    }
    assert forall|k: int| 0 <= k < ms_a.len() implies (#[trigger] ms_a[k]).id < a.next_id by {
        if sel {
            assert(ms0[k] == a.timers@[k]@);
        } else {
            let m = prune_source(ms0, rows, k);
            assert(ms0[m] == a.timers@[m]@);
        }
    }
    lemma_rename_add_order(ms_a, rows, a.task_overlay@, initial, now, a.next_id, active_a);
    let bv = tviews(b.timers@);
    assert(m_in_creation_order(bv));
    assert(bv.len() == b.timers@.len());
    assert forall|i: int, j: int| 0 <= i < j < b.timers@.len() implies #[trigger] b.timers@[i].id <= #[trigger] b.timers@[j].id by {
        assert(bv[i] == b.timers@[i]@ && bv[j] == b.timers@[j]@);
        assert(bv[i].id <= bv[j].id);
    }
}

/// Removing the active timer keeps one timer running at most: with ids
/// unique and only the active timer unpaused, afterwards only the active
/// timer (the one left, when a single one is) is unpaused.
pub proof fn law_remove_keeps_one_running<S>(a: App<S>, b: App<S>, with_undo: bool, now: u64)
    requires
        ids_unique(a.timers@),
        only_active_runs(a.timers@, a.active_id),
        removed(a, b, with_undo, now),
    ensures
        only_active_runs(b.timers@, b.active_id),
{
    if let Some(id) = a.active_id {
        let ts = a.timers@;
        let d = drop_id(ts, id);
        lemma_drop_members(ts, id);
        super::timers::lemma_drop_id(ts, id);
        assert(all_paused(d)) by {
            assert forall|k: int| 0 <= k < d.len() implies (#[trigger] d[k]).state == TimerState::Paused by {
                let m = choose|m: int| 0 <= m < ts.len() && #[trigger] ts[m] == #[trigger] d[k];
                assert(d[k].id != id);
            }
        }
        if d.len() == 1 {
            let r = d.update(0, resumed(d[0], now));
            assert(b.timers@ == r);
            assert forall|k: int| 0 <= k < r.len() && (#[trigger] r[k]).state != TimerState::Paused implies b.active_id == Some(r[k].id) by {
                assert(k == 0);
            }
        }
    }
}

/// Completing a task-backed timer writes the completion back to the tool
/// first: a source that keeps account is asked to complete exactly that task, and nothing
/// else. When the completion takes effect the timer goes (its time left
/// paid back from the debt); when it fails the timer stays exactly while the
/// listing read afterwards still holds the task (or could not be had).
pub proof fn law_complete_follows_write_back<S: TaskSource>(a: App<S>, b: App<S>, now: u64)
    requires
        active_pos(a.timers@, a.active_id) is Some,
        a.timers@[active_pos(a.timers@, a.active_id)->Some_0].task_id is Some,
        a.task_source is Some,
        a.task_source->Some_0.keeps_account(),
        completed(a, b, now),
    ensures
        ({
            let i = active_pos(a.timers@, a.active_id)->Some_0;
            let tid = a.timers@[i].task_id->Some_0;
            let s0 = a.task_source->Some_0;
            let s1 = b.task_source->Some_0;
            let refund: int = if a.timers@[i].remaining_ms > 0 { a.timers@[i].remaining_ms as int } else { 0 };
            let done = removed(a, b, false, now) && b.time_debt_ms == clamp(a.time_debt_ms - refund);
            let kept = timers_kept(a, b) && b.time_debt_ms == a.time_debt_ms;
            &&& b.task_source is Some
            &&& s1.writes() == s0.writes().push(crate::task_integration::TaskWrite::Complete(tid))
            &&& s1.deletions() == s0.deletions()
            &&& s1.completions() == s0.completions().push(tid) ==> done
            &&& s1.completions() == s0.completions() ==> if gone_from(tid, s1.listing()) {
                done
            } else {
                kept
            }
            &&& s1.completions() == s0.completions() || s1.completions() == s0.completions().push(tid)
        }),
{
}

/// Removing a task-backed timer soft-deletes the task in the tool first: a
/// source that keeps account is asked to delete exactly that task, and nothing else. When the
/// deletion takes effect the timer goes; when it fails the timer stays
/// exactly while the listing read afterwards still holds the task (or could
/// not be had).
pub proof fn law_remove_follows_write_back<S: TaskSource>(a: App<S>, b: App<S>, now: u64)
    requires
        active_pos(a.timers@, a.active_id) is Some,
        a.timers@[active_pos(a.timers@, a.active_id)->Some_0].task_id is Some,
        a.task_source is Some,
        a.task_source->Some_0.keeps_account(),
        removed_active(a, b, now),
    ensures
        ({
            let tid = a.timers@[active_pos(a.timers@, a.active_id)->Some_0].task_id->Some_0;
            let s0 = a.task_source->Some_0;
            let s1 = b.task_source->Some_0;
            &&& b.task_source is Some
            &&& s1.writes() == s0.writes().push(crate::task_integration::TaskWrite::Delete(tid))
            &&& s1.completions() == s0.completions()
            &&& s1.deletions() == s0.deletions().push(tid) ==> removed(a, b, false, now)
            &&& s1.deletions() == s0.deletions() ==> if gone_from(tid, s1.listing()) {
                removed(a, b, false, now)
            } else {
                timers_kept(a, b)
            }
            &&& s1.deletions() == s0.deletions() || s1.deletions() == s0.deletions().push(tid)
        }),
{
}

} // verus!
