use std::collections::HashMap;

use tt::alert::Alert;
use tt::app::events::{Event, KeyCode, KeyEvent, KeyKind};
use tt::app::runtime::{urgency, Urgency};
use tt::app::{debt_label, largest_id, App, Mode, UndoAction, UNDO_WINDOW_MS};
use tt::store::{is_current, restore, stored_active_id, stored_timers, StoredTimer};
use tt::task_integration::{FakeTaskSource, TaskRow};
use tt::task_state::{apply_overlay, OverlayEntry};
use tt::timer::{Timer, TimerState};

const T0: u64 = 1_000_000;

fn press(code: KeyCode) -> Event {
    Event::Key(KeyEvent { code, ctrl: false, kind: KeyKind::Press })
}

fn enter(app: &mut App<FakeTaskSource>, input: &str, now: u64) {
    app.input_buffer = input.to_string();
    app.handle_event(&press(KeyCode::Enter), now);
}

fn blank() -> App<FakeTaskSource> {
    App::new(vec![], None, 0, false, false, None, HashMap::new(), "Debt".to_string(), T0)
}

fn task_row(id: u32, est_secs: i64, text: &str) -> TaskRow {
    TaskRow { id, est_secs, text: text.to_string() }
}

#[test]
fn new_state_starts_empty_and_counts_idle_time() {
    let app = blank();
    assert!(app.timers.is_empty());
    assert_eq!(app.next_id, 1);
    assert_eq!(app.all_paused_since, Some(T0));
    assert!(matches!(app.mode, Mode::Normal));
    assert!(!app.save_requested);
    assert_eq!(app.time_debt_label, "Debt");
}

#[test]
fn new_state_continues_ids_and_tracks_an_active_running_timer() {
    let timers = vec![
        Timer::new(4, "a".into(), 60_000, T0),
        Timer::new(9, "b".into(), 60_000, T0),
    ];
    let app: App<FakeTaskSource> =
        App::new(timers, Some(9), 5_000, true, false, None, HashMap::new(), "L".into(), T0);
    assert_eq!(app.next_id, 10);
    assert_eq!(app.all_paused_since, None);
    assert_eq!(app.time_debt_ms, 5_000);
    assert!(app.is_test_mode);
}

#[test]
fn new_state_syncs_once_with_the_task_tool() {
    let fake = FakeTaskSource::with_rows(vec![task_row(5, 60, "task")]);
    let app = App::new(vec![], None, 0, false, true, Some(fake), HashMap::new(), "L".into(), T0);
    assert_eq!(app.timers.len(), 1);
    assert_eq!(app.timers[0].task_id, Some(5));
    assert_eq!(app.timers[0].id, 1);
    assert_eq!(app.next_id, 2);
    assert!(app.save_requested);
}

#[test]
fn largest_id_of_timers() {
    assert_eq!(largest_id(&vec![]), 0);
    let ts = vec![
        Timer::new(3, "a".into(), 0, T0),
        Timer::new(7, "b".into(), 0, T0),
        Timer::new(5, "c".into(), 0, T0),
    ];
    assert_eq!(largest_id(&ts), 7);
}

#[test]
fn prompts_from_the_command_line() {
    let app = blank().with_duration_prompt(300_000);
    assert!(matches!(app.mode, Mode::NamePrompt(300_000)));
    let app = blank().with_name_prompt("standup".into());
    assert!(matches!(app.mode, Mode::TimePrompt(ref n) if n == "standup"));
    let app = blank().with_timer(60_000, "x".into(), T0);
    assert_eq!(app.active_timer().unwrap().name, "x");
}

#[test]
fn resume_starts_the_topmost_timer() {
    let mut t = Timer::new(1, "a".into(), 60_000, T0);
    t.pause();
    let app: App<FakeTaskSource> =
        App::new(vec![t], None, 0, false, false, None, HashMap::new(), "L".into(), T0);
    let app = app.resume(T0 + 10);
    assert_eq!(app.active_id, Some(1));
    assert_eq!(app.timers[0].state, TimerState::Running);
    assert_eq!(app.timers[0].last_tick, Some(T0 + 10));
}

#[test]
fn revert_after_the_window_does_nothing() {
    let mut app = blank();
    app.add_timer(60_000, "a".into(), T0).unwrap();
    enter(&mut app, "rm", T0);
    assert!(app.timers.is_empty());
    enter(&mut app, "revert", T0 + UNDO_WINDOW_MS);
    assert!(app.timers.is_empty());
    assert!(app.undo_stack.is_empty());
}

#[test]
fn revert_undoes_the_latest_change_first() {
    let mut app = blank();
    app.add_timer(300_000, "a".into(), T0).unwrap();
    enter(&mut app, "update 1m", T0 + 1);
    enter(&mut app, "update 2m", T0 + 2);
    assert_eq!(app.undo_stack.len(), 2);
    enter(&mut app, "revert", T0 + 3);
    assert_eq!(app.active_timer().unwrap().remaining_ms, 60_000);
    enter(&mut app, "revert", T0 + 4);
    assert_eq!(app.active_timer().unwrap().remaining_ms, 300_000);
    assert_eq!(app.active_timer().unwrap().original_ms, 300_000);
    assert!(app.undo_stack.is_empty());
}

#[test]
fn remove_records_the_timer_for_undo() {
    let mut app = blank();
    app.add_timer(60_000, "a".into(), T0).unwrap();
    enter(&mut app, "rm", T0 + 7);
    assert_eq!(app.undo_stack.len(), 1);
    assert_eq!(app.undo_stack[0].timestamp, T0 + 7);
    assert!(matches!(app.undo_stack[0].action, UndoAction::TimerRemoved(ref t) if t.name == "a"));
}

#[test]
fn revert_brings_back_a_removed_timer_running() {
    let mut app = blank();
    app.add_timer(60_000, "a".into(), T0).unwrap();
    app.add_timer(60_000, "b".into(), T0).unwrap();
    enter(&mut app, "rm", T0 + 1);
    assert_eq!(app.active_id, Some(1));
    enter(&mut app, "revert", T0 + 2);
    assert_eq!(app.active_id, Some(2));
    let b = app.timers.iter().find(|t| t.id == 2).unwrap();
    assert_eq!(b.state, TimerState::Running);
    assert_eq!(b.last_tick, Some(T0 + 2));
    let a = app.timers.iter().find(|t| t.id == 1).unwrap();
    assert_eq!(a.state, TimerState::Paused);
}

#[test]
fn only_the_active_timer_runs_after_adding_and_switching() {
    let mut app = blank();
    app.add_timer(60_000, "a".into(), T0).unwrap();
    app.add_timer(60_000, "b".into(), T0).unwrap();
    app.add_timer(60_000, "c".into(), T0).unwrap();
    app.switch_to(1, T0);
    app.tick(T0 + 500);
    for t in &app.timers {
        assert_eq!(t.state != TimerState::Paused, Some(t.id) == app.active_id, "{}", t.name);
    }
}

#[test]
fn selector_moves_and_switches() {
    let mut app = blank();
    app.add_timer(60_000, "alpha".into(), T0).unwrap();
    app.add_timer(60_000, "beta".into(), T0).unwrap();
    app.add_timer(60_000, "gamma".into(), T0).unwrap();
    enter(&mut app, "tt", T0);
    assert!(matches!(app.mode, Mode::Selector));
    app.handle_event(&press(KeyCode::Up), T0);
    assert_eq!(app.selector_index, 0);
    app.handle_event(&press(KeyCode::Down), T0);
    app.handle_event(&press(KeyCode::Down), T0);
    app.handle_event(&press(KeyCode::Down), T0);
    assert_eq!(app.selector_index, 2);
    app.handle_event(&press(KeyCode::Up), T0);
    assert_eq!(app.selector_index, 1);
    app.handle_event(&press(KeyCode::Enter), T0 + 5);
    assert!(matches!(app.mode, Mode::Normal));
    assert_eq!(app.active_timer().unwrap().name, "beta");
}

#[test]
fn selector_filter_ignores_case_and_enter_on_nothing_stays() {
    let mut app = blank();
    app.add_timer(60_000, "Alpha".into(), T0).unwrap();
    app.add_timer(60_000, "beta".into(), T0).unwrap();
    app.mode = Mode::Selector;
    for c in "ALP".chars() {
        app.handle_event(&press(KeyCode::Char(c)), T0);
    }
    let f = app.filtered_timers();
    assert_eq!(f.len(), 1);
    assert_eq!(f[0].name, "Alpha");
    app.selector_filter = "zzz".into();
    app.handle_event(&press(KeyCode::Enter), T0);
    assert!(matches!(app.mode, Mode::Selector));
}

#[test]
fn time_prompt_error_message_and_retry() {
    let mut app = blank();
    app.mode = Mode::TimePrompt("meeting".into());
    app.time_prompt_buffer = "5d".into();
    app.handle_event(&press(KeyCode::Enter), T0);
    assert_eq!(app.time_prompt_error.as_deref(), Some("Invalid: unknown suffix: 'd'"));
    assert_eq!(app.time_prompt_buffer, "");
    for c in "90s".chars() {
        app.handle_event(&press(KeyCode::Char(c)), T0);
    }
    app.handle_event(&press(KeyCode::Enter), T0);
    assert!(matches!(app.mode, Mode::Normal));
    assert_eq!(app.active_timer().unwrap().original_ms, 90_000);
    assert!(app.time_prompt_error.is_none());
}

#[test]
fn name_prompt_trims_the_name_and_typing_clears_the_error() {
    let mut app = blank();
    app.add_timer(60_000, "x".into(), T0).unwrap();
    app.mode = Mode::NamePrompt(120_000);
    app.name_prompt_buffer = "  x ".into();
    app.handle_event(&press(KeyCode::Enter), T0);
    assert_eq!(app.name_prompt_buffer, "x");
    assert_eq!(
        app.name_prompt_error.as_deref(),
        Some("Timer with this name already exists. Enter a different name.")
    );
    app.handle_event(&press(KeyCode::Char('y')), T0);
    assert!(app.name_prompt_error.is_none());
    app.handle_event(&press(KeyCode::Enter), T0);
    assert!(matches!(app.mode, Mode::Normal));
    assert_eq!(app.active_timer().unwrap().name, "xy");
    assert_eq!(app.active_timer().unwrap().original_ms, 120_000);
}

#[test]
fn non_key_events_change_nothing() {
    let mut app = blank();
    app.input_buffer = "abc".into();
    app.handle_event(&Event::Other, T0);
    app.handle_event(
        &Event::Key(KeyEvent { code: KeyCode::Char('x'), ctrl: false, kind: KeyKind::Repeat }),
        T0,
    );
    assert_eq!(app.input_buffer, "abc");
}

#[test]
fn step_ticks_alerts_and_asks_for_saves() {
    let mut app = blank();
    app.add_timer(1_000, "tea".into(), T0).unwrap();
    app.save_requested = false;
    let alerts = app.step(T0 + 1_000);
    assert_eq!(alerts, vec![Alert::Sound, Alert::Toast("tea".to_string())]);
    assert_eq!(app.active_timer().unwrap().state, TimerState::Expired);
    assert!(!app.save_requested);
    let alerts = app.step(T0 + 5_000);
    assert!(app.save_requested);
    assert_eq!(app.last_save, T0 + 5_000);
    assert!(alerts.is_empty());
    // Overdue by a minute: the next alert stage.
    let alerts = app.step(T0 + 61_000);
    assert_eq!(alerts, vec![Alert::Sound]);
    assert_eq!(app.active_timer().unwrap().fib_alert_index, 2);
    // The idle second before the first step, and the minute overdue.
    assert_eq!(app.time_debt_ms, 61_000);
}

#[test]
fn idle_time_is_counted_while_everything_is_paused() {
    let mut app = blank();
    app.update_time_debt(T0 + 3_000);
    assert_eq!(app.time_debt_ms, 3_000);
    assert_eq!(app.format_time_debt(T0 + 5_000), "00:00:05");
    app.add_timer(60_000, "a".into(), T0 + 5_000).unwrap();
    app.update_time_debt(T0 + 6_000);
    assert_eq!(app.time_debt_ms, 6_000);
    assert_eq!(app.all_paused_since, None);
    app.update_time_debt(T0 + 9_000);
    assert_eq!(app.time_debt_ms, 6_000);
}

#[test]
fn title_shows_the_active_timer() {
    let mut app = blank();
    assert_eq!(app.title(), "tt");
    app.add_timer(60_000, "tea".into(), T0).unwrap();
    assert_eq!(app.title(), "\u{25b6} 00:01:00 \u{2014} tea");
    enter(&mut app, "p", T0);
    assert_eq!(app.title(), "\u{23f8} 00:01:00 \u{2014} tea");
}

#[test]
fn debt_counting_and_place() {
    let mut app = blank();
    assert!(app.debt_counting());
    assert_eq!(app.active_place(), 0);
    app.add_timer(60_000, "a".into(), T0).unwrap();
    app.add_timer(60_000, "b".into(), T0).unwrap();
    assert!(!app.debt_counting());
    assert_eq!(app.active_place(), 2);
    app.timers[0].remaining_ms = -1;
    app.timers[0].state = TimerState::Expired;
    assert!(app.debt_counting());
}

#[test]
fn urgency_by_remaining_time() {
    let mut t = Timer::new(1, "a".into(), 60_000, T0);
    assert_eq!(urgency(&t), Urgency::Normal);
    t.remaining_ms = 59_999;
    assert_eq!(urgency(&t), Urgency::Low);
    t.remaining_ms = 0;
    assert_eq!(urgency(&t), Urgency::Low);
    t.remaining_ms = -1;
    assert_eq!(urgency(&t), Urgency::Overdue);
}

#[test]
fn debt_labels_cycle() {
    assert_eq!(debt_label(0), "Time laundering");
    assert_eq!(debt_label(3), "Time decay");
    assert_eq!(debt_label(9), "Entropy meter");
    assert_eq!(debt_label(13), "Time decay");
    assert_eq!(debt_label(u64::MAX), "Future debt");
}

#[test]
fn store_records_round_trip_ad_hoc_timers() {
    let mut app = blank();
    app.add_timer(60_000, "a".into(), T0).unwrap();
    app.add_timer(90_000, "b".into(), T0).unwrap();
    app.timers[0].remaining_ms = 30_000;
    let mut task = Timer::new(50, "task".into(), 10_000, T0);
    task.task_id = Some(8);
    app.timers.push(task);

    let records = stored_timers(&app.timers);
    assert_eq!(records.len(), 2);
    assert_eq!(records[0].remaining_ms, 30_000);
    assert_eq!(stored_active_id(&app.timers, app.active_id), Some(2));
    assert_eq!(stored_active_id(&app.timers, Some(50)), None);
    assert_eq!(stored_active_id(&app.timers, None), None);

    let back = restore(records, Some(2), T0 + 9);
    assert_eq!(back.len(), 2);
    assert_eq!(back[0].state, TimerState::Paused);
    assert_eq!(back[0].last_tick, None);
    assert_eq!(back[0].remaining_ms, 30_000);
    assert_eq!(back[1].state, TimerState::Running);
    assert_eq!(back[1].last_tick, Some(T0 + 9));
    assert!(back.iter().all(|t| t.task_id.is_none()));
}

#[test]
fn restore_resumes_an_overdue_active_timer_as_expired() {
    let records = vec![StoredTimer {
        id: 3,
        name: "late".into(),
        original_ms: 1_000,
        remaining_ms: -5_000,
        fib_alert_index: 2,
    }];
    let back = restore(records, Some(3), T0);
    assert_eq!(back[0].state, TimerState::Expired);
    assert_eq!(back[0].fib_alert_index, 2);
}

#[test]
fn overlay_entries_keep_task_countdowns() {
    let mut app = blank();
    app.add_timer(60_000, "adhoc".into(), T0).unwrap();
    let mut task = Timer::new(7, "task".into(), 10_000, T0);
    task.task_id = Some(3);
    task.remaining_ms = 4_000;
    task.pause();
    app.timers.push(task);
    assert_eq!(
        app.overlay_entries(),
        vec![OverlayEntry { task_id: 3, remaining_ms: 4_000, running: false, fib_alert_index: 0 }]
    );
}

#[test]
fn apply_overlay_restores_countdowns() {
    let mut t = Timer::new(1, "t".into(), 60_000, T0);
    assert!(!apply_overlay(&mut t, None, T0));
    assert_eq!(t.remaining_ms, 60_000);
    let e = OverlayEntry { task_id: 1, remaining_ms: 0, running: true, fib_alert_index: 3 };
    assert!(apply_overlay(&mut t, Some(&e), T0 + 1));
    assert_eq!(t.state, TimerState::Expired);
    assert_eq!(t.fib_alert_index, 3);
    let e = OverlayEntry { task_id: 1, remaining_ms: 500, running: false, fib_alert_index: 0 };
    assert!(!apply_overlay(&mut t, Some(&e), T0 + 2));
    assert_eq!(t.state, TimerState::Paused);
    assert_eq!(t.last_tick, None);
    assert_eq!(t.remaining_ms, 500);
}

#[test]
fn sync_renames_when_the_task_text_changes() {
    let fake = FakeTaskSource::with_rows(vec![task_row(1, 60, "old")]);
    let mut app = App::new(vec![], None, 0, false, true, Some(fake), HashMap::new(), "L".into(), T0);
    let id = app.timers[0].id;
    app.task_source.as_mut().unwrap().set_rows(vec![task_row(1, 60, "new")]);
    app.sync_with_tasks(false, T0);
    assert_eq!(app.timers[0].id, id);
    assert_eq!(app.timers[0].name, "new");
}

#[test]
fn duplicate_and_blank_task_texts_get_suffixes() {
    let fake = FakeTaskSource::with_rows(vec![
        task_row(1, 60, "dup"),
        task_row(2, 60, "dup"),
        task_row(3, 60, "   "),
    ]);
    let app = App::new(vec![], None, 0, false, true, Some(fake), HashMap::new(), "L".into(), T0);
    let names: Vec<&str> = app.timers.iter().map(|t| t.name.as_str()).collect();
    assert_eq!(names, vec!["dup", "dup #2", "task #3"]);
}

#[test]
fn sync_while_the_picker_is_open_keeps_gone_tasks() {
    let fake = FakeTaskSource::with_rows(vec![task_row(1, 60, "a")]);
    let mut app = App::new(vec![], None, 0, false, true, Some(fake), HashMap::new(), "L".into(), T0);
    app.mode = Mode::Selector;
    app.task_source.as_mut().unwrap().set_rows(vec![]);
    app.sync_with_tasks(false, T0);
    assert_eq!(app.timers.len(), 1);
    app.mode = Mode::Normal;
    app.sync_with_tasks(false, T0);
    assert!(app.timers.is_empty());
}

#[test]
fn removing_the_active_task_timer_when_its_task_goes_clears_active() {
    let fake = FakeTaskSource::with_rows(vec![task_row(1, 60, "a"), task_row(2, 60, "b")]);
    let mut app = App::new(vec![], None, 0, false, true, Some(fake), HashMap::new(), "L".into(), T0);
    let id = app.timers[0].id;
    app.switch_to(id, T0);
    app.task_source.as_mut().unwrap().set_rows(vec![task_row(2, 60, "b")]);
    app.sync_with_tasks(false, T0);
    assert_eq!(app.active_id, None);
    assert_eq!(app.timers.len(), 1);
}

#[test]
fn reverting_a_time_change_restarts_that_timer_even_when_not_active() {
    let mut app = blank();
    app.add_timer(300_000, "a".into(), T0).unwrap();
    enter(&mut app, "update 1m", T0 + 1);
    app.add_timer(60_000, "b".into(), T0 + 2).unwrap();
    enter(&mut app, "revert", T0 + 3);
    let a = app.timers.iter().find(|t| t.name == "a").unwrap();
    assert_eq!(a.remaining_ms, 300_000);
    assert_eq!(a.state, TimerState::Running);
    assert_eq!(app.active_timer().unwrap().name, "b");
}

#[test]
fn reconciling_keeps_creation_order_and_new_tasks_go_last() {
    let fake = FakeTaskSource::with_rows(vec![task_row(9, 60, "t9"), task_row(4, 60, "t4")]);
    let mut app = App::new(vec![], None, 0, false, true, Some(fake), HashMap::new(), "L".into(), T0);
    app.add_timer(60_000, "adhoc".into(), T0).unwrap();
    app.task_source.as_mut().unwrap().set_rows(vec![task_row(4, 60, "t4"), task_row(1, 60, "t1")]);
    app.sync_with_tasks(false, T0);
    let ids: Vec<u32> = app.timers.iter().map(|t| t.id).collect();
    assert_eq!(ids, vec![2, 3, 4]);
    let names: Vec<&str> = app.timers.iter().map(|t| t.name.as_str()).collect();
    assert_eq!(names, vec!["t4", "adhoc", "t1"]);
}

#[test]
fn store_is_current_only_for_the_same_day() {
    assert!(is_current("2024-05-01", "2024-05-01"));
    assert!(!is_current("2024-04-30", "2024-05-01"));
    assert!(!is_current("", "2024-05-01"));
}
