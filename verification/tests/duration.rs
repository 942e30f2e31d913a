use tt::duration::{format_seconds, parse_duration, ParseError};

/// Seconds as the library's milliseconds.
fn ms(secs: f64) -> i64 {
    (secs * 1000.0).round() as i64
}

/// The library's milliseconds as seconds.
fn secs(ms: i64) -> f64 {
    ms as f64 / 1000.0
}

fn parsed_secs(input: &str) -> f64 {
    secs(parse_duration(input).unwrap())
}

#[test]
fn plain_number_is_minutes() {
    assert_eq!(parsed_secs("5"), 300.0);
}

#[test]
fn plain_zero() {
    assert_eq!(parsed_secs("0"), 0.0);
}

#[test]
fn decimal_minutes() {
    assert_eq!(parsed_secs("12.5m"), 750.0);
}

#[test]
fn decimal_hours() {
    let secs = parsed_secs("1.1h");
    assert!((secs - 3960.0).abs() < 0.01);
}

#[test]
fn seconds_suffix() {
    assert_eq!(parsed_secs("30s"), 30.0);
}

#[test]
fn seconds_suffix_variants() {
    assert_eq!(parsed_secs("10sec"), 10.0);
    assert_eq!(parsed_secs("10secs"), 10.0);
    assert_eq!(parsed_secs("10second"), 10.0);
    assert_eq!(parsed_secs("10seconds"), 10.0);
}

#[test]
fn minutes_suffix_variants() {
    assert_eq!(parsed_secs("2min"), 120.0);
    assert_eq!(parsed_secs("2mins"), 120.0);
    assert_eq!(parsed_secs("2minute"), 120.0);
    assert_eq!(parsed_secs("2minutes"), 120.0);
}

#[test]
fn hours_variants() {
    assert!((parsed_secs("4.4hours") - 15840.0).abs() < 0.01);
    assert!((parsed_secs("3hrs") - 10800.0).abs() < 0.01);
    assert_eq!(parsed_secs("1hr"), 3600.0);
    assert_eq!(parsed_secs("1hour"), 3600.0);
}

#[test]
fn whitespace_trimmed() {
    assert_eq!(parsed_secs("  5m  "), 300.0);
}

#[test]
fn case_insensitive() {
    assert_eq!(parsed_secs("5M"), 300.0);
    assert_eq!(parsed_secs("1H"), 3600.0);
    assert_eq!(parsed_secs("30S"), 30.0);
}

#[test]
fn very_small_decimal() {
    let secs = parsed_secs("0.1m");
    assert!((secs - 6.0).abs() < 0.01);
}

#[test]
fn invalid_input() {
    assert!(parse_duration("").is_err());
    assert!(parse_duration("abc").is_err());
    assert!(parse_duration("5x").is_err());
}

#[test]
fn invalid_suffix() {
    assert!(parse_duration("5foo").is_err());
    assert!(parse_duration("5d").is_err());
}

#[test]
fn just_dot_is_invalid() {
    assert!(parse_duration(".").is_err());
}

#[test]
fn spaces_only_is_invalid() {
    assert!(parse_duration("   ").is_err());
}

#[test]
fn format_positive() {
    assert_eq!(format_seconds(ms(90.0)), "00:01:30");
    assert_eq!(format_seconds(ms(3661.0)), "01:01:01");
}

#[test]
fn duration_format_negative() {
    assert_eq!(format_seconds(ms(-90.0)), "-00:01:30");
}

#[test]
fn format_zero() {
    assert_eq!(format_seconds(ms(0.0)), "00:00:00");
}

#[test]
fn format_large_value() {
    assert_eq!(format_seconds(ms(86400.0)), "24:00:00");
}

#[test]
fn format_fractional_rounds() {
    assert_eq!(format_seconds(ms(0.6)), "00:00:01");
    assert_eq!(format_seconds(ms(0.4)), "00:00:00");
}

// --- exact values and error messages ------------------------------------------

#[test]
fn parse_gives_exact_milliseconds() {
    assert_eq!(parse_duration("5"), Ok(300_000));
    assert_eq!(parse_duration("1.1h"), Ok(3_960_000));
    assert_eq!(parse_duration("0.0015s"), Ok(1));
    assert_eq!(parse_duration(".5m"), Ok(30_000));
    assert_eq!(parse_duration("5."), Ok(300_000));
    assert_eq!(parse_duration("2 min"), Ok(120_000));
}

#[test]
fn parse_error_messages() {
    assert_eq!(parse_duration(""), Err(ParseError("empty input".to_string())));
    assert_eq!(parse_duration("   "), Err(ParseError("empty input".to_string())));
    assert_eq!(parse_duration("abc"), Err(ParseError("invalid number: ''".to_string())));
    assert_eq!(parse_duration("1.2.3m"), Err(ParseError("invalid number: '1.2.3'".to_string())));
    assert_eq!(parse_duration("."), Err(ParseError("invalid number: '.'".to_string())));
    assert_eq!(parse_duration("5d"), Err(ParseError("unknown suffix: 'd'".to_string())));
    assert_eq!(parse_duration("5FOO"), Err(ParseError("unknown suffix: 'foo'".to_string())));
}

#[test]
fn parse_rejects_durations_too_large() {
    assert_eq!(
        parse_duration("9999999999999999h"),
        Err(ParseError("duration too large: '9999999999999999'".to_string()))
    );
    assert!(parse_duration("1234567890123456789012345678901").is_err());
}

#[test]
fn minute_suffix_matches_bare_number() {
    for n in ["0", "5", "12.5", ".25", "7."] {
        assert_eq!(parse_duration(n), parse_duration(&format!("{n}m")));
    }
}

#[test]
fn padding_does_not_change_the_parse() {
    for s in ["5", "1.5h", "30s", "bogus"] {
        assert_eq!(parse_duration(s), parse_duration(&format!(" \t{s}\n ")));
    }
}

#[test]
fn format_rounds_half_away_from_zero() {
    assert_eq!(format_seconds(500), "00:00:01");
    assert_eq!(format_seconds(499), "00:00:00");
    assert_eq!(format_seconds(-500), "-00:00:01");
    assert_eq!(format_seconds(-400), "-00:00:00");
    assert_eq!(format_seconds(360_000_000), "100:00:00");
}

#[test]
fn negative_format_mirrors_positive() {
    for v in [1, 999, 90_000, 3_661_000, 86_400_000] {
        assert_eq!(format_seconds(-v), format!("-{}", format_seconds(v)));
    }
}

#[test]
fn long_numbers_parse_by_value() {
    let zeros = "0".repeat(30);
    assert_eq!(parse_duration(&format!("{zeros}5m")), Ok(300_000));
    assert_eq!(parse_duration(&format!("{zeros}5")), Ok(300_000));
    assert_eq!(parse_duration(&format!("1.5{zeros}h")), Ok(5_400_000));
    assert_eq!(parse_duration(&format!("0.{zeros}1s")), Ok(0));
    assert_eq!(parse_duration("9223372036854775.807s"), Ok(i64::MAX));
    assert_eq!(
        parse_duration("9223372036854775.808s"),
        Err(ParseError("duration too large: '9223372036854775.808'".to_string()))
    );
}

#[test]
fn every_unicode_whitespace_is_trimmed() {
    for c in (0u32..=0x10FFFF).filter_map(char::from_u32).filter(|c| c.is_whitespace()) {
        assert_eq!(parse_duration(&format!("{c}5{c}")), Ok(300_000), "{:?}", c);
    }
    assert!(parse_duration("\u{200b}5").is_err());
}
