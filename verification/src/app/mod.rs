//! The application state: the timers, which one is active, the input modes,
//! the undo stack, the time debt and the link to the `ttask` tool. Every
//! operation is a verified function of the state, the clock reading `now`
//! (milliseconds of a monotonic clock) and its input; the caller performs the
//! saving, drawing and alerting it asks for.

use std::collections::HashMap;

use vstd::prelude::*;

use crate::command::Command;
use crate::task_integration::{TaskRowModel, TaskSource};
use crate::task_state::OverlayEntry;
use crate::text::{chars_of, contains_chars, has_sub, lowercase, to_lowercase};
use crate::timer::{paused, resumed, Timer, TimerState};
use commands::executed;
use sync::synced;
use timers::next_id_of;

pub mod commands;
pub mod effects;
pub mod events;
pub mod laws;
pub mod names;
pub mod runtime;
pub mod sync;
pub mod timers;

verus! {

/// The input mode.
#[derive(Debug)]
pub enum Mode {
    Normal,
    Selector,
    /// Asking a duration for a timer of this name.
    TimePrompt(String),
    /// Asking a name for a timer of this many milliseconds.
    NamePrompt(i64),
}

/// What an undo entry restores.
#[derive(Debug)]
pub enum UndoAction {
    TimerRemoved(Timer),
    TimeChanged { id: u32, old_remaining: i64, old_original: i64 },
}

/// An undoable change and the clock reading when it was made.
#[derive(Debug)]
pub struct UndoEntry {
    pub timestamp: u64,
    pub action: UndoAction,
}

/// Why a timer could not be added.
#[derive(Debug, PartialEq, Eq)]
pub enum AddTimerError {
    DuplicateName(String),
}

/// The application state. `S` is where task lists are read and written.
pub struct App<S> {
    pub timers: Vec<Timer>,
    pub active_id: Option<u32>,
    pub is_test_mode: bool,
    pub mode: Mode,
    pub input_buffer: String,
    pub selector_filter: String,
    pub selector_index: usize,
    pub time_prompt_buffer: String,
    pub name_prompt_buffer: String,
    pub name_prompt_error: Option<String>,
    pub time_prompt_error: Option<String>,
    pub should_quit: bool,
    /// Accumulated time debt in milliseconds.
    pub time_debt_ms: i64,
    pub time_debt_label: String,
    pub next_id: u32,
    pub undo_stack: Vec<UndoEntry>,
    /// Since when idle time has been counted as debt, if it is.
    pub all_paused_since: Option<u64>,
    pub last_save: u64,
    /// Whether `ttask` integration is enabled (a snapshot of the settings).
    pub integrate: bool,
    /// The bridge to the `ttask` tool; `None` when integration is off.
    pub task_source: Option<S>,
    /// Saved task-timer countdowns, keyed by task id, restored when a
    /// task-backed timer first appears.
    pub task_overlay: HashMap<u32, OverlayEntry>,
    pub last_sync: u64,
    /// The state changed in a way that should be written to disk.
    pub save_requested: bool,
}

/// How long a change can be undone.
pub const UNDO_WINDOW_MS: u64 = 20_000;

/// How often the state is saved while running.
pub const AUTO_SAVE_INTERVAL_MS: u64 = 5_000;

/// How long to wait for an input event between ticks.
pub const EVENT_POLL_INTERVAL_MS: u64 = 100;

/// How often to reconcile timers against the `ttask` tool's task list.
pub const TASK_SYNC_INTERVAL_MS: u64 = 3_000;

/// The index of the first occurrence of `id`.
pub open spec fn first_index(ids: Seq<u32>, id: u32) -> Option<int> {
    if exists|i: int| 0 <= i < ids.len() && #[trigger] ids[i] == id {
        Some(
            choose|i: int|
                0 <= i < ids.len() && #[trigger] ids[i] == id && forall|k: int|
                    0 <= k < i ==> #[trigger] ids[k] != id,
        )
    } else {
        None
    }
}

/// The ids of the timers, in order.
pub open spec fn ids_of(ts: Seq<Timer>) -> Seq<u32> {
    ts.map_values(|t: Timer| t.id)
}

/// The index of the first timer with id `id`.
pub open spec fn find(ts: Seq<Timer>, id: u32) -> Option<int> {
    first_index(ids_of(ts), id)
}

/// What `first_index` gives: the first index of the id, or none when absent.
pub proof fn lemma_first_index(ids: Seq<u32>, id: u32)
    ensures
        match first_index(ids, id) {
            Some(i) => 0 <= i < ids.len() && ids[i] == id && forall|k: int|
                0 <= k < i ==> #[trigger] ids[k] != id,
            None => forall|k: int| 0 <= k < ids.len() ==> #[trigger] ids[k] != id,
        },
{
    if exists|i: int| 0 <= i < ids.len() && #[trigger] ids[i] == id {
        let w = choose|i: int| 0 <= i < ids.len() && #[trigger] ids[i] == id;
        lemma_first_exists(ids, id, w);
    }
}

proof fn lemma_first_exists(ids: Seq<u32>, id: u32, w: int)
    requires
        0 <= w < ids.len(),
        ids[w] == id,
    ensures
        exists|i: int|
            0 <= i < ids.len() && #[trigger] ids[i] == id && forall|k: int|
                0 <= k < i ==> #[trigger] ids[k] != id,
    decreases w,
{
    if exists|k: int| 0 <= k < w && #[trigger] ids[k] == id {
        let k = choose|k: int| 0 <= k < w && #[trigger] ids[k] == id;
        lemma_first_exists(ids, id, k);
    } else {
        assert(forall|k: int| 0 <= k < w ==> #[trigger] ids[k] != id);
    }
}

/// What `find` gives: the first index of the id, or none when it is absent.
pub proof fn lemma_find(ts: Seq<Timer>, id: u32)
    ensures
        match find(ts, id) {
            Some(i) => 0 <= i < ts.len() && ts[i].id == id && forall|k: int|
                0 <= k < i ==> #[trigger] ts[k].id != id,
            None => forall|k: int| 0 <= k < ts.len() ==> #[trigger] ts[k].id != id,
        },
{
    let ids = ids_of(ts);
    lemma_first_index(ids, id);
    match first_index(ids, id) {
        Some(i) => {
            assert(ids[i] == ts[i].id);
            assert forall|k: int| 0 <= k < i implies #[trigger] ts[k].id != id by {
                assert(ids[k] == ts[k].id);
            }
        },
        None => {
            assert forall|k: int| 0 <= k < ts.len() implies #[trigger] ts[k].id != id by {
                assert(ids[k] == ts[k].id);
            }
        },
    }
}

/// The first index is the one: an index of `id` with no earlier one is it.
pub proof fn lemma_first_index_unique(ids: Seq<u32>, id: u32, i: int)
    requires
        0 <= i < ids.len(),
        ids[i] == id,
        forall|k: int| 0 <= k < i ==> #[trigger] ids[k] != id,
    ensures
        first_index(ids, id) == Some(i),
{
    lemma_first_index(ids, id);
    let j = first_index(ids, id)->Some_0;
    if j < i {
        assert(ids[j] != id);
    } else if i < j {
        assert(ids[i] != id);
    }
}

/// The timers without those of id `id`, in order.
pub open spec fn drop_id(ts: Seq<Timer>, id: u32) -> Seq<Timer>
    decreases ts.len(),
{
    if ts.len() == 0 {
        seq![]
    } else {
        let p = drop_id(ts.drop_last(), id);
        if ts.last().id == id {
            p
        } else {
            p.push(ts.last())
        }
    }
}

/// The index of the active timer.
pub open spec fn active_pos(ts: Seq<Timer>, active: Option<u32>) -> Option<int> {
    match active {
        Some(id) => find(ts, id),
        None => None,
    }
}

/// An ad-hoc timer that has run out is dropped rather than paused when
/// another one takes over; task-backed timers stay.
pub open spec fn removable(t: Timer) -> bool {
    (t.state == TimerState::Expired || t.remaining_ms < 0) && t.task_id is None
}

/// The timers after switching from `active` to `id` at `now`: the old active
/// timer is dropped if removable (and not `id` itself), else paused; then `id`
/// resumes.
pub open spec fn switch_timers(ts: Seq<Timer>, active: Option<u32>, id: u32, now: u64) -> Seq<Timer> {
    let ts1 = match active {
        Some(cur) => match find(ts, cur) {
            Some(ci) => if removable(ts[ci]) && cur != id {
                drop_id(ts, cur)
            } else {
                ts.update(ci, paused(ts[ci]))
            },
            None => ts,
        },
        None => ts,
    };
    match find(ts1, id) {
        Some(j) => ts1.update(j, resumed(ts1[j], now)),
        None => ts1,
    }
}

/// A timer named `name` other than timer `excluded`.
pub open spec fn has_name(ts: Seq<Timer>, name: Seq<char>, excluded: Option<u32>) -> bool {
    exists|i: int| 0 <= i < ts.len() && (#[trigger] ts[i]).name@ == name && Some(ts[i].id) != excluded
}

/// `x + 1`, wrapping to 0 past `u32::MAX` (the id counter).
pub open spec fn next_of(x: u32) -> u32 {
    if x == u32::MAX {
        0
    } else {
        (x + 1) as u32
    }
}

/// A new running timer.
pub open spec fn fresh(id: u32, name: String, ms: i64, now: u64) -> Timer {
    Timer {
        id,
        name,
        original_ms: ms,
        remaining_ms: ms,
        state: TimerState::Running,
        last_tick: Some(now),
        fib_alert_index: 0,
        task_id: None,
    }
}

/// The timers before a new one is added: a removable active timer dropped,
/// else the active timer paused.
pub open spec fn before_add(ts: Seq<Timer>, active: Option<u32>) -> Seq<Timer> {
    match active_pos(ts, active) {
        Some(i) => if removable(ts[i]) {
            drop_id(ts, active->Some_0)
        } else {
            ts.update(i, paused(ts[i]))
        },
        None => ts,
    }
}

/// The timer whose name `add_timer` must not repeat is any but a removable
/// active one.
pub open spec fn add_excluded(ts: Seq<Timer>, active: Option<u32>) -> Option<u32> {
    match active_pos(ts, active) {
        Some(i) => if removable(ts[i]) {
            active
        } else {
            None
        },
        None => None,
    }
}

/// Two states agree on everything but the timers, the active id, the id
/// counter and the save request.
pub open spec fn same_but_timers<S>(a: App<S>, b: App<S>) -> bool {
    &&& a.task_source == b.task_source
    &&& same_ui(a, b)
    &&& a.undo_stack == b.undo_stack
    &&& a.time_debt_ms == b.time_debt_ms
    &&& a.all_paused_since == b.all_paused_since
    &&& same_env(a, b)
}

/// Two states agree on the input modes and buffers.
pub open spec fn same_ui<S>(a: App<S>, b: App<S>) -> bool {
    &&& a.mode == b.mode
    &&& a.input_buffer == b.input_buffer
    &&& a.selector_filter == b.selector_filter
    &&& a.selector_index == b.selector_index
    &&& a.time_prompt_buffer == b.time_prompt_buffer
    &&& a.name_prompt_buffer == b.name_prompt_buffer
    &&& a.name_prompt_error == b.name_prompt_error
    &&& a.time_prompt_error == b.time_prompt_error
    &&& a.should_quit == b.should_quit
}

/// Two states agree on the settings and the bookkeeping.
pub open spec fn same_env<S>(a: App<S>, b: App<S>) -> bool {
    &&& a.is_test_mode == b.is_test_mode
    &&& a.time_debt_label == b.time_debt_label
    &&& a.last_save == b.last_save
    &&& a.integrate == b.integrate
    &&& a.task_overlay == b.task_overlay
    &&& a.last_sync == b.last_sync
}

/// The index of the first timer with id `id`.
pub fn find_timer(ts: &Vec<Timer>, id: u32) -> (r: Option<usize>)
    ensures
        match r {
            Some(i) => find(ts@, id) == Some(i as int),
            None => find(ts@, id) is None,
        },
{
    proof {
        lemma_find(ts@, id);
    }
    let n = ts.len();
    for i in 0..n
        invariant
            n == ts@.len(),
            forall|k: int| 0 <= k < i ==> #[trigger] ts@[k].id != id,
    {
        if ts[i].id == id {
            proof {
                assert forall|k: int| 0 <= k < i implies #[trigger] ids_of(ts@)[k] != id by {
                    assert(ts@[k].id != id);
                }
                lemma_first_index_unique(ids_of(ts@), id, i as int);
            }
            return Some(i);
        }
    }
    None
}

/// Drops every timer of id `id`, keeping the order of the others.
pub fn remove_id(ts: &mut Vec<Timer>, id: u32)
    ensures
        final(ts)@ == drop_id(old(ts)@, id),
{
    let ghost orig = ts@;
    let _len = ts.len();
    let mut i: usize = 0;
    let mut k: usize = 0;
    while i < ts.len()
        invariant
            k <= orig.len() <= usize::MAX,
            ts@ == drop_id(orig.take(k as int), id) + orig.skip(k as int),
            i == drop_id(orig.take(k as int), id).len(),
        decreases ts@.len() - i,
    {
        let ghost pre = orig.take(k as int);
        let ghost cur = orig.take(k + 1);
        assert(cur.drop_last() =~= pre);
        assert(k < orig.len()) by {
            if k >= orig.len() {
                assert(orig.skip(k as int) =~= seq![]);
            }
        }
        assert(ts@[i as int] == orig[k as int]);
        assert(cur.last() == orig[k as int]);
        if ts[i].id == id {
            ts.remove(i);
            assert(ts@ =~= drop_id(cur, id) + orig.skip(k + 1));
        } else {
            assert(ts@ =~= drop_id(cur, id) + orig.skip(k + 1));
            i = i + 1;
        }
        k = k + 1;
    }
    assert(orig.skip(k as int).len() == 0);
    assert(k == orig.len());
    assert(orig.take(k as int) =~= orig);
    assert(ts@ =~= drop_id(orig, id));
}

/// A copy of a timer.
pub fn copy_timer(t: &Timer) -> (r: Timer)
    ensures
        r == *t,
{
    Timer {
        id: t.id,
        name: t.name.clone(),
        original_ms: t.original_ms,
        remaining_ms: t.remaining_ms,
        state: t.state,
        last_tick: t.last_tick,
        fib_alert_index: t.fib_alert_index,
        task_id: t.task_id,
    }
}

impl<S: TaskSource> App<S> {
    /// The active timer, if there is one.
    pub fn active_timer(&self) -> (r: Option<&Timer>)
        ensures
            match active_pos(self.timers@, self.active_id) {
                Some(i) => r matches Some(t) && *t == self.timers@[i],
                None => r is None,
            },
    {
        proof {
            if let Some(id) = self.active_id {
                lemma_find(self.timers@, id);
            }
        }
        let r = self.active_index();
        match r {
            Some(i) => {
                Some(&self.timers[i])
            },
            None => None,
        }
    }

    /// The index of the active timer, if there is one.
    pub fn active_index(&self) -> (r: Option<usize>)
        ensures
            match r {
                Some(i) => active_pos(self.timers@, self.active_id) == Some(i as int),
                None => active_pos(self.timers@, self.active_id) is None,
            },
    {
        proof {
            if let Some(id) = self.active_id {
                lemma_find(self.timers@, id);
            }
        }
        match self.active_id {
            Some(id) => {
                let r = find_timer(&self.timers, id);
                assert(active_pos(self.timers@, self.active_id) == find(self.timers@, id));
                r
            },
            None => None,
        }
    }
}

/// The largest id among the timers, or 0 when there are none.
pub open spec fn max_id(ts: Seq<Timer>) -> u32
    decreases ts.len(),
{
    if ts.len() == 0 {
        0
    } else {
        let m = max_id(ts.drop_last());
        if ts.last().id > m {
            ts.last().id
        } else {
            m
        }
    }
}

/// At startup idle time counts as debt when no timer is active or every
/// timer is paused.
pub open spec fn idle_at_start(ts: Seq<Timer>, active: Option<u32>) -> bool {
    active_pos(ts, active) is None || (ts.len() > 0 && forall|i: int|
        0 <= i < ts.len() ==> (#[trigger] ts[i]).state == TimerState::Paused)
}

/// `a` is the state built at `now` from what was loaded, before the first
/// reconciliation with the task tool: the loaded timers, active id, debt and
/// settings, empty input, the id counter past the largest id.
pub open spec fn started<S>(
    a: App<S>,
    timers: Seq<Timer>,
    active_id: Option<u32>,
    time_debt_ms: i64,
    is_test_mode: bool,
    integrate: bool,
    task_source: Option<S>,
    task_overlay: Map<u32, OverlayEntry>,
    label: Seq<char>,
    now: u64,
) -> bool {
    &&& a.timers@ == timers
    &&& a.active_id == active_id
    &&& a.is_test_mode == is_test_mode
    &&& a.mode == Mode::Normal
    &&& a.input_buffer@.len() == 0
    &&& a.selector_filter@.len() == 0
    &&& a.selector_index == 0
    &&& a.time_prompt_buffer@.len() == 0
    &&& a.name_prompt_buffer@.len() == 0
    &&& a.name_prompt_error is None
    &&& a.time_prompt_error is None
    &&& !a.should_quit
    &&& a.time_debt_ms == time_debt_ms
    &&& a.time_debt_label@ == label
    &&& a.next_id == next_of(max_id(timers))
    &&& a.undo_stack@.len() == 0
    &&& a.all_paused_since == if idle_at_start(timers, active_id) {
        Some(now)
    } else {
        None
    }
    &&& a.last_save == now
    &&& a.integrate == integrate
    &&& a.task_source == task_source
    &&& a.task_overlay@ == task_overlay
    &&& a.last_sync == now
    &&& !a.save_requested
}

/// The timers whose lowercased name contains the lowercased `filter`.
pub open spec fn filtered(ts: Seq<Timer>, filter: Seq<char>) -> Seq<Timer>
    decreases ts.len(),
{
    if ts.len() == 0 {
        seq![]
    } else {
        let p = filtered(ts.drop_last(), filter);
        let f = lowercase(filter);
        if f.len() == 0 || contains_chars(lowercase(ts.last().name@), f) {
            p.push(ts.last())
        } else {
            p
        }
    }
}

/// When the lowercased filter is empty, every timer passes it.
proof fn lemma_filtered_all(ts: Seq<Timer>, filter: Seq<char>)
    requires
        lowercase(filter).len() == 0,
    ensures
        filtered(ts, filter) == ts,
    decreases ts.len(),
{
    if ts.len() > 0 {
        lemma_filtered_all(ts.drop_last(), filter);
        assert(ts.drop_last().push(ts.last()) =~= ts);
    }
}

/// What is kept of a task-backed timer's countdown.
pub open spec fn overlay_entry(t: Timer) -> OverlayEntry {
    OverlayEntry {
        task_id: t.task_id->Some_0,
        remaining_ms: t.remaining_ms,
        running: t.state != TimerState::Paused,
        fib_alert_index: t.fib_alert_index,
    }
}

/// The countdowns of the task-backed timers, in order.
pub open spec fn overlay_list(ts: Seq<Timer>) -> Seq<OverlayEntry>
    decreases ts.len(),
{
    if ts.len() == 0 {
        seq![]
    } else {
        let p = overlay_list(ts.drop_last());
        if ts.last().task_id is Some {
            p.push(overlay_entry(ts.last()))
        } else {
            p
        }
    }
}

/// The labels shown beside the time debt.
pub open spec fn debt_label_text(i: int) -> Seq<char> {
    if i == 0 {
        "Time laundering"@
    } else if i == 1 {
        "Side quests"@
    } else if i == 2 {
        "Void feeding"@
    } else if i == 3 {
        "Time decay"@
    } else if i == 4 {
        "Clock bleed"@
    } else if i == 5 {
        "Future debt"@
    } else if i == 6 {
        "Existence lag"@
    } else if i == 7 {
        "Progress rot"@
    } else if i == 8 {
        "Brainrot"@
    } else {
        "Entropy meter"@
    }
}

/// How many labels there are.
pub const DEBT_LABEL_COUNT: u64 = 10;

/// The time-debt label picked by the number `n` (any number, such as a hash
/// of the start time: it is taken modulo the number of labels).
pub fn debt_label(n: u64) -> (r: &'static str)
    ensures
        r@ == debt_label_text((n % DEBT_LABEL_COUNT) as int),
{
    let i = n % DEBT_LABEL_COUNT;
    if i == 0 {
        "Time laundering"
    } else if i == 1 {
        "Side quests"
    } else if i == 2 {
        "Void feeding"
    } else if i == 3 {
        "Time decay"
    } else if i == 4 {
        "Clock bleed"
    } else if i == 5 {
        "Future debt"
    } else if i == 6 {
        "Existence lag"
    } else if i == 7 {
        "Progress rot"
    } else if i == 8 {
        "Brainrot"
    } else {
        "Entropy meter"
    }
}

/// The largest id among the timers, or 0 when there are none.
pub fn largest_id(ts: &Vec<Timer>) -> (r: u32)
    ensures
        r == max_id(ts@),
{
    let mut m: u32 = 0;
    let n = ts.len();
    for i in 0..n
        invariant
            n == ts@.len(),
            m == max_id(ts@.take(i as int)),
    {
        assert(ts@.take(i + 1).drop_last() =~= ts@.take(i as int));
        if ts[i].id > m {
            m = ts[i].id;
        }
    }
    assert(ts@.take(n as int) =~= ts@);
    m
}

impl<S: TaskSource> App<S> {
    /// The state at `now` from what was loaded (the timers, the active id,
    /// the debt, the settings, the task tool bridge and the saved task
    /// countdowns), reconciled once with the task tool: existing tasks show
    /// up as timers, a countdown that was running is restored.
    pub fn new(
        timers: Vec<Timer>,
        active_id: Option<u32>,
        time_debt_ms: i64,
        is_test_mode: bool,
        integrate: bool,
        task_source: Option<S>,
        task_overlay: HashMap<u32, OverlayEntry>,
        time_debt_label: String,
        now: u64,
    ) -> (r: Self)
        ensures
            exists|a0: App<S>, l: Option<Seq<TaskRowModel>>|
                started(
                    a0,
                    timers@,
                    active_id,
                    time_debt_ms,
                    is_test_mode,
                    integrate,
                    task_source,
                    task_overlay@,
                    time_debt_label@,
                    now,
                ) && synced(a0, r, l, true, now),
            integrate && task_source is Some && task_source->Some_0.keeps_account() ==> exists|a0: App<S>|
                started(
                    a0,
                    timers@,
                    active_id,
                    time_debt_ms,
                    is_test_mode,
                    integrate,
                    task_source,
                    task_overlay@,
                    time_debt_label@,
                    now,
                ) && synced(a0, r, task_source->Some_0.listing(), true, now),
            !integrate || task_source is None ==> started(
                r,
                timers@,
                active_id,
                time_debt_ms,
                is_test_mode,
                integrate,
                task_source,
                task_overlay@,
                time_debt_label@,
                now,
            ),
    {
        let ghost ts = timers@;
        let ghost src = task_source;
        let ghost ov = task_overlay@;
        let ghost label = time_debt_label@;
        let next_id = next_id_of(largest_id(&timers));
        proof {
            if let Some(id) = active_id {
                lemma_find(timers@, id);
            }
        }
        let has_active = match active_id {
            Some(id) => find_timer(&timers, id).is_some(),
            None => false,
        };
        let mut all_paused = timers.len() > 0;
        let n = timers.len();
        for i in 0..n
            invariant
                n == timers@.len(),
                all_paused == (n > 0 && forall|k: int| 0 <= k < i ==> (#[trigger] timers@[k]).state == TimerState::Paused),
        {
            if timers[i].state != TimerState::Paused {
                all_paused = false;
            }
        }
        let track_idle = !has_active || all_paused;
        let mut app = App {
            timers,
            active_id,
            is_test_mode,
            mode: Mode::Normal,
            input_buffer: String::new(),
            selector_filter: String::new(),
            selector_index: 0,
            time_prompt_buffer: String::new(),
            name_prompt_buffer: String::new(),
            name_prompt_error: None,
            time_prompt_error: None,
            should_quit: false,
            time_debt_ms,
            time_debt_label,
            next_id,
            undo_stack: Vec::new(),
            all_paused_since: if track_idle {
                Some(now)
            } else {
                None
            },
            last_save: now,
            integrate,
            task_source,
            task_overlay,
            last_sync: now,
            save_requested: false,
        };
        let ghost a0 = app;
        assert(started(a0, ts, active_id, time_debt_ms, is_test_mode, integrate, src, ov, label, now));
        app.sync_with_tasks(true, now);
        app
    }

    /// The state for a bare `tt`: if no timer is active but some exist, the
    /// topmost one starts.
    pub fn resume(self, now: u64) -> (r: Self)
        ensures
            started_topmost(self, r, now),
    {
        let mut app = self;
        app.auto_start_topmost(now);
        app
    }

    /// If no timer is active but at least one exists, starts the topmost one
    /// (the first in the list, as the picker orders them).
    pub fn auto_start_topmost(&mut self, now: u64)
        ensures
            started_topmost(*old(self), *final(self), now),
    {
        if self.active_timer().is_some() {
            return;
        }
        if self.timers.len() > 0 {
            let id = self.timers[0].id;
            self.switch_to(id, now);
        }
    }

    /// The state for `tt <duration> <name>`: the timer is added, or, when
    /// the name is taken, the name prompt opens with the name and an error.
    pub fn with_timer(self, duration_ms: i64, name: String, now: u64) -> (r: Self)
        ensures
            executed(self, r, Command::NewTimer(duration_ms, name), now),
    {
        let mut app = self;
        app.execute_command(Command::NewTimer(duration_ms, name), now);
        app
    }

    /// The state for `tt <duration>`: the name prompt for that duration.
    pub fn with_duration_prompt(self, duration_ms: i64) -> (r: Self)
        ensures
            r == (App { mode: Mode::NamePrompt(duration_ms), ..self }),
    {
        let mut app = self;
        app.mode = Mode::NamePrompt(duration_ms);
        app
    }

    /// The state for `tt <name>`: the duration prompt for that name.
    pub fn with_name_prompt(self, name: String) -> (r: Self)
        ensures
            r == (App { mode: Mode::TimePrompt(name), ..self }),
    {
        let mut app = self;
        app.mode = Mode::TimePrompt(name);
        app
    }

    /// The timers matching the picker's filter, in list order: those whose
    /// lowercased name contains the lowercased filter (all, when it is empty).
    pub fn filtered_timers(&self) -> (r: Vec<&Timer>)
        ensures
            r@.len() == filtered(self.timers@, self.selector_filter@).len(),
            forall|i: int| 0 <= i < r@.len() ==> *(#[trigger] r@[i]) == filtered(self.timers@, self.selector_filter@)[i],
            self.selector_filter@.len() == 0 ==> r@.len() == self.timers@.len() && forall|i: int|
                0 <= i < r@.len() ==> *(#[trigger] r@[i]) == self.timers@[i],
    {
        let filter = to_lowercase(self.selector_filter.as_str());
        proof {
            if self.selector_filter@.len() == 0 {
                lemma_filtered_all(self.timers@, self.selector_filter@);
            }
        }
        let fv = chars_of(filter.as_str());
        let mut r: Vec<&Timer> = Vec::new();
        let n = self.timers.len();
        for i in 0..n
            invariant
                n == self.timers@.len(),
                fv@ == lowercase(self.selector_filter@),
                r@.len() == filtered(self.timers@.take(i as int), self.selector_filter@).len(),
                forall|k: int| 0 <= k < r@.len() ==> *(#[trigger] r@[k]) == filtered(self.timers@.take(i as int), self.selector_filter@)[k],
        {
            let ghost pre = self.timers@.take(i as int);
            assert(self.timers@.take(i + 1).drop_last() =~= pre);
            let t = &self.timers[i];
            let keep = if fv.len() == 0 {
                true
            } else {
                let lname = to_lowercase(t.name.as_str());
                let nv = chars_of(lname.as_str());
                has_sub(nv.as_slice(), fv.as_slice())
            };
            if keep {
                r.push(t);
            }
        }
        assert(self.timers@.take(n as int) =~= self.timers@);
        r
    }

    /// The countdowns of the task-backed timers, to be saved, in list order.
    pub fn overlay_entries(&self) -> (r: Vec<OverlayEntry>)
        ensures
            r@ == overlay_list(self.timers@),
    {
        let mut r: Vec<OverlayEntry> = Vec::new();
        let n = self.timers.len();
        for i in 0..n
            invariant
                n == self.timers@.len(),
                r@ == overlay_list(self.timers@.take(i as int)),
        {
            assert(self.timers@.take(i + 1).drop_last() =~= self.timers@.take(i as int));
            let t = &self.timers[i];
            if let Some(tid) = t.task_id {
                r.push(
                    OverlayEntry {
                        task_id: tid,
                        remaining_ms: t.remaining_ms,
                        running: t.state != TimerState::Paused,
                        fib_alert_index: t.fib_alert_index,
                    },
                );
            }
        }
        assert(self.timers@.take(n as int) =~= self.timers@);
        r
    }
}

/// `b` is `a` after starting the topmost timer at `now` when none is active.
pub open spec fn started_topmost<S>(a: App<S>, b: App<S>, now: u64) -> bool {
    if active_pos(a.timers@, a.active_id) is Some || a.timers@.len() == 0 {
        b == a
    } else {
        &&& b.timers@ == switch_timers(a.timers@, a.active_id, a.timers@[0].id, now)
        &&& b.active_id == Some(a.timers@[0].id)
        &&& b.next_id == a.next_id
        &&& b.save_requested
        &&& same_but_timers(a, b)
    }
}

} // verus!
