//! What single operations do to the timer they act on, stated in terms of
//! the timers themselves: updating, pausing and resuming, counting idle
//! debt, restoring from the store, and picking a timer in the picker.

use vstd::prelude::*;

use super::commands::{toggled, updated};
use super::timers::added;
use super::events::{handled, pressed, Event, KeyCode};
use super::timers::debt_updated;
use super::{active_pos, drop_id, filtered, find, lemma_find, removable, App, Mode};
use crate::store::{record_of, restored, StoredTimer};
use crate::task_integration::TaskSource;
use crate::text::{contains_chars, lowercase};
use crate::timer::{clamp, elapsed, Timer, TimerState};

verus! {

/// Updating the active timer to `ms` sets both its remaining and its full
/// duration to `ms`, keeps its id and name, and leaves it able to run: a
/// paused timer stays paused, any other (running, or expired because it ran
/// out) is running. No other timer changes.
pub proof fn law_update_sets_duration_and_revives<S>(a: App<S>, b: App<S>, ms: i64, now: u64)
    requires
        updated(a, b, ms, now),
        active_pos(a.timers@, a.active_id) is Some,
    ensures
        ({
            let i = active_pos(a.timers@, a.active_id)->Some_0;
            let t0 = a.timers@[i];
            let t1 = b.timers@[i];
            &&& b.timers@.len() == a.timers@.len()
            &&& t1.id == t0.id && t1.name == t0.name && t1.task_id == t0.task_id
            &&& t1.remaining_ms == ms && t1.original_ms == ms
            &&& t1.state != TimerState::Expired
            &&& t0.state == TimerState::Paused ==> t1.state == TimerState::Paused
            &&& t0.state != TimerState::Paused ==> t1.state == TimerState::Running
            &&& forall|k: int| 0 <= k < a.timers@.len() && k != i ==> b.timers@[k] == a.timers@[k]
        }),
{
    lemma_find(a.timers@, a.active_id->Some_0);
}

/// Toggling the active timer pauses it unless it is paused: a running or an
/// expired (overdue) timer becomes paused and stops ticking; a paused one
/// starts ticking again. Its times, id and name stay; no other timer changes.
pub proof fn law_toggle_pauses_unless_paused<S>(a: App<S>, b: App<S>, now: u64)
    requires
        toggled(a, b, now),
        active_pos(a.timers@, a.active_id) is Some,
    ensures
        ({
            let i = active_pos(a.timers@, a.active_id)->Some_0;
            let t0 = a.timers@[i];
            let t1 = b.timers@[i];
            &&& b.timers@.len() == a.timers@.len()
            &&& t1.id == t0.id && t1.name == t0.name
            &&& t1.remaining_ms == t0.remaining_ms && t1.original_ms == t0.original_ms
            &&& t0.state != TimerState::Paused ==> t1.state == TimerState::Paused && t1.last_tick is None
            &&& t0.state == TimerState::Paused ==> t1.state != TimerState::Paused && t1.last_tick == Some(now)
            &&& forall|k: int| 0 <= k < a.timers@.len() && k != i ==> b.timers@[k] == a.timers@[k]
        }),
{
    lemma_find(a.timers@, a.active_id->Some_0);
}

/// Toggling twice brings a running timer with time left back to running:
/// pause, then resume.
pub proof fn law_toggle_twice_runs_again<S>(a: App<S>, b: App<S>, c: App<S>, now: u64)
    requires
        toggled(a, b, now),
        toggled(b, c, now),
        active_pos(a.timers@, a.active_id) is Some,
        a.timers@[active_pos(a.timers@, a.active_id)->Some_0].state == TimerState::Running,
        a.timers@[active_pos(a.timers@, a.active_id)->Some_0].remaining_ms > 0,
    ensures
        c.timers@[active_pos(a.timers@, a.active_id)->Some_0].state == TimerState::Running,
{
    let i = active_pos(a.timers@, a.active_id)->Some_0;
    lemma_find(a.timers@, a.active_id->Some_0);
    assert(b.timers@[i].id == a.timers@[i].id);
    assert(active_pos(b.timers@, b.active_id) == Some(i)) by {
        lemma_find(b.timers@, b.active_id->Some_0);
        if let Some(j) = active_pos(b.timers@, b.active_id) {
            if j < i {
                assert(b.timers@[j] == a.timers@[j]);
            } else if j > i {
                assert(b.timers@[i].id == a.active_id->Some_0);
            }
        } else {
            assert(b.timers@[i].id == a.active_id->Some_0);
        }
    }
}

/// Adding a timer puts a new running timer of `ms` named `name` at the end,
/// under the next id, and makes it active. The timer that was active is
/// paused where it stands, keeping its time, or, when it is an ad-hoc timer
/// that has run out, gone; no other timer changes.
pub proof fn law_add_appends_running_timer<S>(a: App<S>, b: App<S>, ms: i64, name: String, now: u64)
    requires
        added(a, b, ms, name, now),
    ensures
        b.timers@.len() >= 1,
        ({
            let t = b.timers@.last();
            &&& t.id == a.next_id && t.name == name && t.task_id is None
            &&& t.remaining_ms == ms && t.original_ms == ms
            &&& t.state == TimerState::Running && t.last_tick == Some(now)
        }),
        b.active_id == Some(a.next_id),
        active_pos(a.timers@, a.active_id) is None ==> b.timers@ == a.timers@.push(b.timers@.last()),
        active_pos(a.timers@, a.active_id) is Some ==> ({
            let i = active_pos(a.timers@, a.active_id)->Some_0;
            &&& !removable(a.timers@[i]) ==> {
                &&& b.timers@.len() == a.timers@.len() + 1
                &&& b.timers@[i].state == TimerState::Paused
                &&& b.timers@[i].id == a.timers@[i].id && b.timers@[i].remaining_ms == a.timers@[i].remaining_ms
                &&& forall|k: int| 0 <= k < a.timers@.len() && k != i ==> b.timers@[k] == a.timers@[k]
            }
            &&& removable(a.timers@[i]) ==> forall|k: int|
                0 <= k < b.timers@.len() - 1 ==> (#[trigger] b.timers@[k]).id != a.timers@[i].id
        }),
{
    if let Some(id) = a.active_id {
        lemma_find(a.timers@, id);
        if let Some(i) = active_pos(a.timers@, a.active_id) {
            if removable(a.timers@[i]) {
                super::timers::lemma_drop_id(a.timers@, id);
                let d = drop_id(a.timers@, id);
                assert forall|k: int| 0 <= k < b.timers@.len() - 1 implies (#[trigger] b.timers@[k]).id != a.timers@[i].id by {
                    assert(b.timers@[k] == d[k]);
                }
            }
        }
    }
}

/// Whether idle time counts as debt: no timer is the active one, or there
/// are timers and every one of them is paused.
pub open spec fn idle(ts: Seq<Timer>, active: Option<u32>) -> bool {
    ||| forall|k: int| 0 <= k < ts.len() ==> Some(#[trigger] ts[k].id) != active
    ||| (ts.len() > 0 && forall|k: int| 0 <= k < ts.len() ==> (#[trigger] ts[k]).state == TimerState::Paused)
}

/// Counting idle debt at `now` adds the time since idle counting started (if
/// it had), and idle counting goes on from `now` exactly while no timer is
/// active or every timer is paused; otherwise it stops.
pub proof fn law_idle_debt_counts_paused_time<S>(a: App<S>, b: App<S>, now: u64)
    requires
        debt_updated(a, b, now),
    ensures
        a.all_paused_since matches Some(since) ==> b.time_debt_ms == clamp(a.time_debt_ms + elapsed(since, now)),
        a.all_paused_since is None ==> b.time_debt_ms == a.time_debt_ms,
        idle(a.timers@, a.active_id) ==> b.all_paused_since == Some(now),
        !idle(a.timers@, a.active_id) ==> b.all_paused_since is None,
        b.timers == a.timers,
{
    if let Some(id) = a.active_id {
        lemma_find(a.timers@, id);
        if let Some(i) = active_pos(a.timers@, a.active_id) {
            assert(Some(a.timers@[i].id) == a.active_id);
        }
    }
}

/// With every timer paused, debt grows by the whole idle time across two
/// updates: counting at `n1` and then at `n2` adds the time from when idle
/// counting started to `n2` (short of the `i64` limit).
pub proof fn law_idle_debt_adds_up<S>(a: App<S>, b: App<S>, c: App<S>, since: u64, n1: u64, n2: u64)
    requires
        debt_updated(a, b, n1),
        debt_updated(b, c, n2),
        a.timers@.len() > 0,
        forall|k: int| 0 <= k < a.timers@.len() ==> (#[trigger] a.timers@[k]).state == TimerState::Paused,
        a.all_paused_since == Some(since),
        since <= n1 <= n2,
        0 <= a.time_debt_ms,
        a.time_debt_ms + (n2 - since) <= i64::MAX,
    ensures
        c.time_debt_ms == a.time_debt_ms + (n2 - since),
        c.all_paused_since == Some(n2),
{
    law_idle_debt_counts_paused_time(a, b, n1);
    assert(idle(a.timers@, a.active_id));
    assert(b.timers@ == a.timers@);
    assert(idle(b.timers@, b.active_id));
    law_idle_debt_counts_paused_time(b, c, n2);
}

/// Restoring gives back one timer per record, in order, each with the
/// record's id, name, remaining and full durations and alert stage, ad hoc;
/// all are paused but the stored active one, which (its first record) is
/// ticking again from `now`.
pub proof fn law_restore_keeps_records(rs: Seq<StoredTimer>, active: Option<u32>, now: u64)
    ensures
        restored(rs, active, now).len() == rs.len(),
        forall|k: int| 0 <= k < rs.len() ==> record_of(#[trigger] restored(rs, active, now)[k]) == rs[k],
        forall|k: int| 0 <= k < rs.len() ==> (#[trigger] restored(rs, active, now)[k]).task_id is None,
        forall|k: int|
            0 <= k < rs.len() && Some((#[trigger] restored(rs, active, now)[k]).id) != active
                ==> restored(rs, active, now)[k].state == TimerState::Paused,
        forall|k: int|
            0 <= k < rs.len() && active == Some(#[trigger] rs[k].id) ==> exists|m: int|
                0 <= m <= k && #[trigger] restored(rs, active, now)[m].id == rs[k].id
                    && restored(rs, active, now)[m].state != TimerState::Paused
                    && restored(rs, active, now)[m].last_tick == Some(now),
{
    let ts = rs.map_values(|s: StoredTimer| crate::store::loaded(s));
    if let Some(id) = active {
        lemma_find(ts, id);
    }
    assert forall|k: int| 0 <= k < rs.len() implies record_of(#[trigger] restored(rs, active, now)[k]) == rs[k] by {
        assert(ts[k] == crate::store::loaded(rs[k]));
    }
    assert forall|k: int| 0 <= k < rs.len() && active == Some(#[trigger] rs[k].id) implies exists|m: int|
        0 <= m <= k && #[trigger] restored(rs, active, now)[m].id == rs[k].id
            && restored(rs, active, now)[m].state != TimerState::Paused
            && restored(rs, active, now)[m].last_tick == Some(now) by {
        assert(ts[k].id == rs[k].id);
        let m = find(ts, rs[k].id)->Some_0;
        assert(restored(rs, active, now)[m].id == rs[k].id);
    }
    assert forall|k: int| 0 <= k < rs.len() && Some((#[trigger] restored(rs, active, now)[k]).id) != active
        implies restored(rs, active, now)[k].state == TimerState::Paused by {
        assert(ts[k] == crate::store::loaded(rs[k]));
    }
}

/// A timer passes the picker's filter: the filter, lowercased, is empty or
/// occurs in the lowercased name.
pub open spec fn passes(t: Timer, filter: Seq<char>) -> bool {
    lowercase(filter).len() == 0 || contains_chars(lowercase(t.name@), lowercase(filter))
}

/// How many of the timers pass the filter.
pub open spec fn count_passing(ts: Seq<Timer>, filter: Seq<char>) -> nat
    decreases ts.len(),
{
    if ts.len() == 0 {
        0
    } else {
        count_passing(ts.drop_last(), filter) + if passes(ts.last(), filter) { 1nat } else { 0nat }
    }
}

proof fn lemma_filtered_pick(ts: Seq<Timer>, filter: Seq<char>, n: int) -> (j: int)
    requires
        0 <= n < filtered(ts, filter).len(),
    ensures
        filtered(ts, filter).len() == count_passing(ts, filter),
        0 <= j < ts.len(),
        filtered(ts, filter)[n] == ts[j],
        passes(ts[j], filter),
        count_passing(ts.take(j), filter) == n,
    decreases ts.len(),
{
    let q = ts.drop_last();
    lemma_filtered_len(ts, filter);
    lemma_filtered_len(q, filter);
    if n < filtered(q, filter).len() {
        let j = lemma_filtered_pick(q, filter, n);
        assert(ts.take(j) =~= q.take(j));
        assert(ts[j] == q[j]);
        j
    } else {
        let j = ts.len() - 1;
        assert(ts.take(j) =~= q);
        assert(ts[j] == ts.last());
        j
    }
}

proof fn lemma_filtered_len(ts: Seq<Timer>, filter: Seq<char>)
    ensures
        filtered(ts, filter).len() == count_passing(ts, filter),
    decreases ts.len(),
{
    if ts.len() > 0 {
        lemma_filtered_len(ts.drop_last(), filter);
    }
}

/// Enter in the picker switches to the highlighted entry of the filtered
/// list: the timer that becomes active is one whose name passes the filter,
/// and exactly `selector_index` timers before it in the list pass too. With
/// the index past the filtered list, nothing changes.
pub proof fn law_picker_enter_takes_highlighted<S: TaskSource>(a: App<S>, b: App<S>, ev: Event, now: u64)
    requires
        a.mode == Mode::Selector,
        pressed(ev) matches Some(key) && key.code == KeyCode::Enter,
        handled(a, b, ev, now),
    ensures
        a.selector_index < count_passing(a.timers@, a.selector_filter@) ==> exists|j: int|
            0 <= j < a.timers@.len() && b.active_id == Some(#[trigger] a.timers@[j].id) && passes(
                a.timers@[j],
                a.selector_filter@,
            ) && count_passing(a.timers@.take(j), a.selector_filter@) == a.selector_index,
        a.selector_index >= count_passing(a.timers@, a.selector_filter@) ==> b == a,
        a.selector_index < count_passing(a.timers@, a.selector_filter@) ==> b.mode == Mode::Normal,
{
    lemma_filtered_len(a.timers@, a.selector_filter@);
    if a.selector_index < count_passing(a.timers@, a.selector_filter@) {
        let j = lemma_filtered_pick(a.timers@, a.selector_filter@, a.selector_index as int);
        assert(b.active_id == Some(a.timers@[j].id));
    }
}

} // verus!
