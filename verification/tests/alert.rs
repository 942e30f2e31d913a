use tt::alert::should_alert;

/// Seconds as the library's milliseconds.
fn ms(secs: f64) -> i64 {
    (secs * 1000.0).round() as i64
}

#[test]
fn no_alert_when_not_overdue() {
    assert!(!should_alert(ms(0.0), 0));
    assert!(!should_alert(ms(-1.0), 0));
}

#[test]
fn first_alert_at_zero_threshold() {
    assert!(should_alert(ms(0.1), 0));
}

#[test]
fn alert_at_one_minute() {
    assert!(!should_alert(ms(30.0), 1));
    assert!(should_alert(ms(60.0), 1));
}

#[test]
fn alert_at_two_minutes() {
    assert!(!should_alert(ms(90.0), 2));
    assert!(should_alert(ms(120.0), 2));
}

#[test]
fn fibonacci_sequence_thresholds() {
    assert!(should_alert(ms(4.0 * 60.0), 3));
    assert!(should_alert(ms(7.0 * 60.0), 4));
    assert!(should_alert(ms(12.0 * 60.0), 5));
    assert!(should_alert(ms(54.0 * 60.0), 8));
}

#[test]
fn no_alert_beyond_thresholds() {
    assert!(!should_alert(ms(999.0 * 60.0), 11));
    assert!(!should_alert(ms(999.0 * 60.0), 100));
}

#[test]
fn alert_boundary_exact() {
    assert!(should_alert(ms(20.0 * 60.0), 6));
    assert!(!should_alert(ms(19.9 * 60.0), 6));
}

#[test]
fn every_threshold_is_exact_to_the_millisecond() {
    let minutes = [0, 1, 2, 4, 7, 12, 20, 33, 54, 88, 143];
    for (i, m) in minutes.iter().enumerate() {
        let at = m * 60_000;
        if at > 0 {
            assert!(!should_alert(at - 1, i), "index {i}");
        }
        assert!(should_alert(at.max(1), i), "index {i}");
    }
    assert!(!should_alert(i64::MAX, 11));
}
