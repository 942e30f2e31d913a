use tt::timer::{Timer, TimerState};

/// Seconds as the library's milliseconds.
fn ms(secs: f64) -> i64 {
    (secs * 1000.0).round() as i64
}

fn secs(ms: i64) -> f64 {
    ms as f64 / 1000.0
}

/// A clock reading to start from, in milliseconds.
const T0: u64 = 1_000_000;

#[test]
fn new_timer_is_running() {
    let t = Timer::new(1, "test".into(), ms(60.0), T0);
    assert_eq!(t.state, TimerState::Running);
    assert_eq!(secs(t.remaining_ms), 60.0);
    assert_eq!(secs(t.original_ms), 60.0);
    assert!(t.last_tick.is_some());
}

#[test]
fn pause_and_resume() {
    let mut t = Timer::new(1, "test".into(), ms(60.0), T0);
    t.pause();
    assert_eq!(t.state, TimerState::Paused);
    assert!(t.last_tick.is_none());
    t.resume(T0 + 5);
    assert_eq!(t.state, TimerState::Running);
    assert!(t.last_tick.is_some());
}

#[test]
fn pause_while_paused_is_noop() {
    let mut t = Timer::new(1, "test".into(), ms(60.0), T0);
    t.pause();
    t.pause();
    assert_eq!(t.state, TimerState::Paused);
}

#[test]
fn tick_does_not_advance_when_paused() {
    let mut t = Timer::new(1, "test".into(), ms(60.0), T0);
    t.pause();
    assert!(!t.tick(T0 + 20));
    assert_eq!(secs(t.remaining_ms), 60.0);
}

#[test]
fn tick_decrements() {
    let mut t = Timer::new(1, "test".into(), ms(60.0), T0);
    t.tick(T0 + 50);
    assert!(secs(t.remaining_ms) < 60.0);
}

#[test]
fn tick_crosses_zero() {
    let mut t = Timer::new(1, "test".into(), ms(0.01), T0);
    assert!(t.tick(T0 + 20));
    assert_eq!(t.state, TimerState::Expired);
    assert!(t.remaining_ms < 0);
}

#[test]
fn expired_timer_keeps_ticking_negative() {
    let mut t = Timer::new(1, "test".into(), ms(0.01), T0);
    t.tick(T0 + 20);
    assert_eq!(t.state, TimerState::Expired);
    let before = t.remaining_ms;
    assert!(!t.tick(T0 + 40));
    assert!(t.remaining_ms < before);
}

#[test]
fn reset_restores() {
    let mut t = Timer::new(1, "test".into(), ms(60.0), T0);
    t.remaining_ms = ms(10.0);
    t.state = TimerState::Expired;
    t.reset(T0 + 1);
    assert_eq!(secs(t.remaining_ms), 60.0);
    assert_eq!(t.state, TimerState::Running);
    assert_eq!(t.fib_alert_index, 0);
}

#[test]
fn timer_format_negative() {
    let mut t = Timer::new(1, "test".into(), 0, T0);
    t.remaining_ms = ms(-90.0);
    assert_eq!(t.format_remaining(), "-00:01:30");
}

#[test]
fn is_overdue() {
    let mut t = Timer::new(1, "test".into(), ms(60.0), T0);
    assert!(!t.is_overdue());
    t.remaining_ms = ms(-1.0);
    assert!(t.is_overdue());
}

#[test]
fn state_icons() {
    let mut t = Timer::new(1, "test".into(), ms(60.0), T0);
    assert_eq!(t.state_icon(), "▶");
    t.pause();
    assert_eq!(t.state_icon(), "⏸");
    t.state = TimerState::Expired;
    assert_eq!(t.state_icon(), "▶");
}

#[test]
fn resume_overdue_timer_resumes_as_expired() {
    let mut t = Timer::new(1, "test".into(), ms(60.0), T0);
    t.remaining_ms = ms(-10.0);
    t.state = TimerState::Paused;
    t.resume(T0);
    assert_eq!(t.state, TimerState::Expired);
}

#[test]
fn resume_positive_timer_resumes_as_running() {
    let mut t = Timer::new(1, "test".into(), ms(60.0), T0);
    t.remaining_ms = ms(30.0);
    t.state = TimerState::Paused;
    t.resume(T0);
    assert_eq!(t.state, TimerState::Running);
}

// --- exact behaviour of the clock readings ------------------------------------

#[test]
fn tick_subtracts_exactly_the_elapsed_time() {
    let mut t = Timer::new(1, "test".into(), 60_000, T0);
    assert!(!t.tick(T0 + 1_500));
    assert_eq!(t.remaining_ms, 58_500);
    assert_eq!(t.last_tick, Some(T0 + 1_500));
    // A clock reading before the last tick counts as no time passing.
    assert!(!t.tick(T0));
    assert_eq!(t.remaining_ms, 58_500);
}

#[test]
fn tick_crosses_zero_only_once() {
    let mut t = Timer::new(1, "test".into(), 1_000, T0);
    assert!(t.tick(T0 + 1_000));
    assert_eq!(t.remaining_ms, 0);
    assert_eq!(t.state, TimerState::Expired);
    assert!(!t.tick(T0 + 2_000));
    assert_eq!(t.remaining_ms, -1_000);
}

#[test]
fn tick_without_last_tick_only_starts_the_clock() {
    let mut t = Timer::new(1, "test".into(), 1_000, T0);
    t.last_tick = None;
    assert!(!t.tick(T0 + 500));
    assert_eq!(t.remaining_ms, 1_000);
    assert_eq!(t.last_tick, Some(T0 + 500));
}

#[test]
fn pause_then_resume_keeps_the_time() {
    let mut t = Timer::new(1, "test".into(), 5_000, T0);
    t.tick(T0 + 2_000);
    t.pause();
    t.resume(T0 + 10_000);
    assert_eq!(t.remaining_ms, 3_000);
    assert_eq!(t.state, TimerState::Running);
    assert_eq!(t.last_tick, Some(T0 + 10_000));
}

#[test]
fn task_backing_is_reported() {
    let mut t = Timer::new(1, "test".into(), 1_000, T0);
    assert!(!t.is_task_backed());
    t.task_id = Some(7);
    assert!(t.is_task_backed());
}
