//! What the daily store keeps of the ad-hoc timers between runs, and how the
//! timers come back from it. Task-backed timers are kept elsewhere (see
//! `task_state`). Reading and writing the file is the caller's part.

use vstd::prelude::*;

use crate::app::find;
use crate::text::{chars_eq_str, chars_of};
use crate::timer::{resumed, Timer, TimerState};

verus! {

/// The record of one ad-hoc timer in the daily store.
#[derive(Debug)]
pub struct StoredTimer {
    pub id: u32,
    pub name: String,
    pub original_ms: i64,
    pub remaining_ms: i64,
    pub fib_alert_index: usize,
}

/// The record kept of a timer.
pub open spec fn record_of(t: Timer) -> StoredTimer {
    StoredTimer {
        id: t.id,
        name: t.name,
        original_ms: t.original_ms,
        remaining_ms: t.remaining_ms,
        fib_alert_index: t.fib_alert_index,
    }
}

/// The records of the ad-hoc timers among `ts`, in order.
pub open spec fn records(ts: Seq<Timer>) -> Seq<StoredTimer>
    decreases ts.len(),
{
    if ts.len() == 0 {
        seq![]
    } else {
        let p = records(ts.drop_last());
        if ts.last().task_id is None {
            p.push(record_of(ts.last()))
        } else {
            p
        }
    }
}

/// The active id as the daily store keeps it: only when it names an ad-hoc
/// timer.
pub open spec fn stored_active(ts: Seq<Timer>, active: Option<u32>) -> Option<u32> {
    match active {
        Some(id) => if exists|i: int| 0 <= i < ts.len() && (#[trigger] ts[i]).id == id && ts[i].task_id is None {
            Some(id)
        } else {
            None
        },
        None => None,
    }
}

/// A timer as it comes back from its record: paused, not ticking, ad-hoc.
pub open spec fn loaded(s: StoredTimer) -> Timer {
    Timer {
        id: s.id,
        name: s.name,
        original_ms: s.original_ms,
        remaining_ms: s.remaining_ms,
        state: TimerState::Paused,
        last_tick: None,
        fib_alert_index: s.fib_alert_index,
        task_id: None,
    }
}

/// The timers that come back from the records, the first one of the stored
/// active id resumed at `now`.
pub open spec fn restored(rs: Seq<StoredTimer>, active: Option<u32>, now: u64) -> Seq<Timer> {
    let ts = rs.map_values(|s: StoredTimer| loaded(s));
    match active {
        Some(id) => match find(ts, id) {
            Some(i) => ts.update(i, resumed(ts[i], now)),
            None => ts,
        },
        None => ts,
    }
}

/// The records of the ad-hoc timers, in order.
pub fn stored_timers(ts: &Vec<Timer>) -> (r: Vec<StoredTimer>)
    ensures
        r@ == records(ts@),
{
    let mut r: Vec<StoredTimer> = Vec::new();
    let n = ts.len();
    for i in 0..n
        invariant
            n == ts@.len(),
            r@ == records(ts@.take(i as int)),
    {
        assert(ts@.take(i + 1).drop_last() =~= ts@.take(i as int));
        let t = &ts[i];
        if t.task_id.is_none() {
            r.push(
                StoredTimer {
                    id: t.id,
                    name: t.name.clone(),
                    original_ms: t.original_ms,
                    remaining_ms: t.remaining_ms,
                    fib_alert_index: t.fib_alert_index,
                },
            );
        }
    }
    assert(ts@.take(n as int) =~= ts@);
    r
}

/// The active id to store: `active` when it names an ad-hoc timer.
pub fn stored_active_id(ts: &Vec<Timer>, active: Option<u32>) -> (r: Option<u32>)
    ensures
        r == stored_active(ts@, active),
{
    let id = match active {
        Some(id) => id,
        None => {
            return None;
        },
    };
    let n = ts.len();
    for i in 0..n
        invariant
            n == ts@.len(),
            active == Some(id),
            forall|k: int| 0 <= k < i ==> !((#[trigger] ts@[k]).id == id && ts@[k].task_id is None),
    {
        if ts[i].id == id && ts[i].task_id.is_none() {
            assert(ts@[i as int].id == id && ts@[i as int].task_id is None);
            return Some(id);
        }
    }
    None
}

/// Rebuilds the timers from their records: all paused, then the first timer
/// of the stored active id resumed at `now`.
pub fn restore(rs: Vec<StoredTimer>, active: Option<u32>, now: u64) -> (r: Vec<Timer>)
    ensures
        r@ == restored(rs@, active, now),
{
    let ghost orig = rs@;
    let mut rs = rs;
    let mut out: Vec<Timer> = Vec::new();
    let mut k: usize = 0;
    let _len = rs.len();
    assert(orig.skip(0) =~= orig);
    while rs.len() > 0
        invariant
            k <= orig.len() <= usize::MAX,
            rs@ == orig.skip(k as int),
            out@ == orig.take(k as int).map_values(|s: StoredTimer| loaded(s)),
        decreases rs@.len(),
    {
        assert(k < orig.len());
        let s = rs.remove(0);
        assert(s == orig[k as int]);
        assert(rs@ =~= orig.skip(k + 1));
        out.push(
            Timer {
                id: s.id,
                name: s.name,
                original_ms: s.original_ms,
                remaining_ms: s.remaining_ms,
                state: TimerState::Paused,
                last_tick: None,
                fib_alert_index: s.fib_alert_index,
                task_id: None,
            },
        );
        k = k + 1;
        assert(out@ =~= orig.take(k as int).map_values(|s: StoredTimer| loaded(s)));
    }
    assert(orig.take(k as int) =~= orig);
    if let Some(id) = active {
        proof {
            crate::app::lemma_find(out@, id);
        }
        if let Some(i) = crate::app::find_timer(&out, id) {
            crate::app::timers::resume_at(&mut out, i, now);
        }
    }
    out
}

/// Whether a saved day's state is today's: the stored date is today's date,
/// character for character. A state saved on another day is discarded.
pub fn is_current(stored: &str, today: &str) -> (r: bool)
    ensures
        r == (stored@ == today@),
{
    let sv = chars_of(stored);
    chars_eq_str(sv.as_slice(), today)
}

} // verus!
