use tt::task_integration::{
    parse_est, parse_md_list, parse_md_list_checked, FakeTaskSource, TaskRow, TaskSource,
};

#[test]
fn parse_est_units() {
    assert_eq!(parse_est("30m"), Some(1800));
    assert_eq!(parse_est("1h"), Some(3600));
    assert_eq!(parse_est("2d"), Some(172_800));
    assert_eq!(parse_est("90s"), Some(90));
    assert_eq!(parse_est("0m"), Some(0));
    assert_eq!(parse_est("  45m "), Some(2700));
    assert_eq!(parse_est(""), None);
    assert_eq!(parse_est("abc"), None);
}

#[test]
fn parse_md_list_basic_table() {
    let out = "# Tasks (2 tasks)\n\n\
        | ID | Cat | Status | Ord | Description | Est |\n\
        |---:|:---:|:-------|---:|:------------|----:|\n\
        | 1 | A | active | 1 | Buy milk | 30m |\n\
        | 2 | B | active | 2 | Read book | 1h |\n";
    let rows = parse_md_list(out);
    assert_eq!(rows.len(), 2);
    assert_eq!(
        rows[0],
        TaskRow {
            id: 1,
            est_secs: 1800,
            text: "Buy milk".into()
        }
    );
    assert_eq!(
        rows[1],
        TaskRow {
            id: 2,
            est_secs: 3600,
            text: "Read book".into()
        }
    );
}

#[test]
fn parse_md_list_unescapes_pipe_and_skips_non_active() {
    let out = "| ID | Cat | Status | Ord | Description | Est |\n\
        |---:|:---:|:-------|---:|:------------|----:|\n\
        | 7 | C | active | 1 | a \\| b | 5m |\n\
        | 8 | B | completed | 2 | done | 5m |\n";
    let rows = parse_md_list(out);
    assert_eq!(rows.len(), 1);
    assert_eq!(rows[0].text, "a | b");
    assert_eq!(rows[0].est_secs, 300);
}

#[test]
fn parse_md_list_empty_message() {
    assert!(parse_md_list("# Tasks\n\n_No tasks._\n").is_empty());
}

// --- further cases ------------------------------------------------------------

#[test]
fn parse_est_edge_cases() {
    assert_eq!(parse_est("30"), Some(30));
    assert_eq!(parse_est("m"), None);
    assert_eq!(parse_est("-5m"), Some(-300));
    assert_eq!(parse_est("+5m"), Some(300));
    assert_eq!(parse_est("5 m"), Some(300));
    assert_eq!(parse_est("5x"), None);
    assert_eq!(parse_est("1.5h"), None);
}

#[test]
fn parse_md_list_handles_missing_estimates_and_short_rows() {
    let out = "| 3 | A | Active | 1 | No estimate | |\n\
        | 4 | A | active | 1 |\n\
        | x | A | active | 1 | Bad id | 5m |\n\
        |5|A|ACTIVE|1|  Tight  |2d|\n";
    let rows = parse_md_list(out);
    assert_eq!(
        rows,
        vec![
            TaskRow { id: 3, est_secs: 0, text: "No estimate".into() },
            TaskRow { id: 5, est_secs: 172_800, text: "Tight".into() },
        ]
    );
}

#[test]
fn parse_md_list_checked_agrees_on_ordinary_output() {
    let out = "| 1 | A | active | 1 | Buy milk | 30m |\n";
    assert_eq!(parse_md_list_checked(out), Some(parse_md_list(out)));
}

#[test]
fn fake_source_records_writes_and_drops_written_rows() {
    let mut fake = FakeTaskSource::with_rows(vec![
        TaskRow { id: 1, est_secs: 60, text: "a".into() },
        TaskRow { id: 2, est_secs: 60, text: "b".into() },
    ]);
    assert_eq!(fake.list_active().map(|r| r.len()), Some(2));
    assert_eq!(fake.complete(1), Ok(()));
    assert_eq!(fake.delete(2), Ok(()));
    assert_eq!(fake.completed(), vec![1]);
    assert_eq!(fake.deleted(), vec![2]);
    assert_eq!(fake.list_active(), Some(vec![]));
    fake.set_available(false);
    assert_eq!(fake.list_active(), None);
    fake.set_available(true);
    fake.set_fail_writes(true);
    fake.set_rows(vec![TaskRow { id: 3, est_secs: 0, text: "c".into() }]);
    assert!(fake.complete(3).is_err());
    assert!(fake.completed() == vec![1]);
    assert_eq!(fake.list_active().map(|r| r.len()), Some(1));
}

#[test]
fn fake_source_failed_writes_say_why() {
    let mut fake = FakeTaskSource::with_rows(vec![TaskRow { id: 4, est_secs: 0, text: "d".into() }]);
    fake.set_fail_writes(true);
    assert_eq!(fake.complete(4), Err("write failed".to_string()));
    assert_eq!(fake.delete(4), Err("write failed".to_string()));
    assert!(fake.completed().is_empty());
    assert!(fake.deleted().is_empty());
}
