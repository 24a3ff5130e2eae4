use migrate::baseline::Baseline;
use migrate::error::ParseFailure;
use migrate::state::{
    append_history, append_record, get_current_version, get_pending, get_target_version,
    has_record, make_record, read_history, split_record,
};
use migrate::time::Timestamp;
use migrate::{AppliedMigration, Migration};

#[test]
fn test_get_pending() {
    let available = vec![
        Migration {
            id: "1f700-first".to_string(),
            version: "1f700".to_string(),
            file_path: "1f700-first.sh".into(),
        },
        Migration {
            id: "1f710-second".to_string(),
            version: "1f710".to_string(),
            file_path: "1f710-second.sh".into(),
        },
        Migration {
            id: "1f720-third".to_string(),
            version: "1f720".to_string(),
            file_path: "1f720-third.sh".into(),
        },
    ];

    let applied = vec![AppliedMigration {
        id: "1f700-first".to_string(),
        applied_at: Timestamp::now(),
    }];

    let pending = get_pending(&available, &applied, None);
    assert_eq!(pending.len(), 2);
    assert_eq!(pending[0].id, "1f710-second");
    assert_eq!(pending[1].id, "1f720-third");
}

#[test]
fn test_get_current_version() {
    let available = vec![
        Migration {
            id: "1f700-first".to_string(),
            version: "1f700".to_string(),
            file_path: "1f700-first.sh".into(),
        },
        Migration {
            id: "1f710-second".to_string(),
            version: "1f710".to_string(),
            file_path: "1f710-second.sh".into(),
        },
    ];

    // No applied migrations
    let applied: Vec<AppliedMigration> = vec![];
    assert_eq!(get_current_version(&available, &applied), None);

    // One applied migration
    let applied = vec![AppliedMigration {
        id: "1f700-first".to_string(),
        applied_at: Timestamp::now(),
    }];
    assert_eq!(
        get_current_version(&available, &applied),
        Some("1f700".to_string())
    );

    // Two applied migrations
    let applied = vec![
        AppliedMigration {
            id: "1f700-first".to_string(),
            applied_at: Timestamp::now(),
        },
        AppliedMigration {
            id: "1f710-second".to_string(),
            applied_at: Timestamp::now(),
        },
    ];
    assert_eq!(
        get_current_version(&available, &applied),
        Some("1f710".to_string())
    );
}

#[test]
fn test_get_target_version() {
    let available: Vec<Migration> = vec![];
    assert_eq!(get_target_version(&available), None);

    let available = vec![
        Migration {
            id: "1f700-first".to_string(),
            version: "1f700".to_string(),
            file_path: "1f700-first.sh".into(),
        },
        Migration {
            id: "1f710-second".to_string(),
            version: "1f710".to_string(),
            file_path: "1f710-second.sh".into(),
        },
    ];
    assert_eq!(get_target_version(&available), Some("1f710".to_string()));
}

fn migration(id: &str) -> Migration {
    Migration { id: id.to_string(), version: id[..5].to_string(), file_path: format!("{}.sh", id) }
}

fn record(id: &str) -> AppliedMigration {
    AppliedMigration { id: id.to_string(), applied_at: Timestamp::from_unix(1_704_067_200, 0).unwrap() }
}

fn baseline(version: &str) -> Baseline {
    Baseline {
        version: version.to_string(),
        created: Timestamp::from_unix(1_704_067_200, 0).unwrap(),
        summary: None,
    }
}

fn pending_ids(available: &[Migration], applied: &[AppliedMigration], b: Option<&Baseline>) -> Vec<String> {
    get_pending(available, applied, b).into_iter().map(|m| m.id.clone()).collect()
}

#[test]
fn nothing_is_pending_when_every_migration_has_a_record() {
    let available = vec![migration("00001-a"), migration("00002-b")];
    let applied = vec![record("00002-b"), record("00001-a"), record("00000-gone")];
    assert!(get_pending(&available, &applied, None).is_empty());
    assert!(get_pending(&available, &applied, Some(&baseline("00001"))).is_empty());
    assert!(get_pending(&[], &applied, None).is_empty());
}

#[test]
fn what_a_baseline_covers_is_not_pending_even_without_a_record() {
    let available = vec![migration("00001-a"), migration("00002-b"), migration("00003-c")];
    let b = baseline("00002");
    assert_eq!(pending_ids(&available, &[], Some(&b)), vec!["00003-c".to_string()]);
    assert_eq!(
        pending_ids(&available, &[], None),
        vec!["00001-a".to_string(), "00002-b".to_string(), "00003-c".to_string()]
    );
    assert!(pending_ids(&available, &[record("00003-c")], Some(&b)).is_empty());
    let high = baseline("zzzzz");
    assert!(pending_ids(&available, &[], Some(&high)).is_empty());
}

#[test]
fn pending_keeps_the_order_of_the_available() {
    let available = vec![migration("00003-c"), migration("00001-a"), migration("00002-b")];
    assert_eq!(
        pending_ids(&available, &[record("00001-a")], None),
        vec!["00003-c".to_string(), "00002-b".to_string()]
    );
}

#[test]
fn current_version_is_that_of_the_last_available_with_a_record() {
    let available = vec![migration("00001-a"), migration("00002-b"), migration("00003-c")];
    // a record of a migration whose file is gone does not count
    let applied = vec![record("00001-a"), record("00009-gone")];
    assert_eq!(get_current_version(&available, &applied), Some("00001".to_string()));
    // the last in the order of the available, not the last record
    let applied = vec![record("00003-c"), record("00001-a")];
    assert_eq!(get_current_version(&available, &applied), Some("00003".to_string()));
    // a gap does not hold it back
    let applied = vec![record("00003-c")];
    assert_eq!(get_current_version(&available, &applied), Some("00003".to_string()));
    assert_eq!(get_current_version(&[], &applied), None);
}

#[test]
fn current_version_does_not_look_at_a_baseline() {
    // a baseline covers everything, no file is left: the current version is none
    let applied = vec![record("00001-a")];
    assert_eq!(get_current_version(&[], &applied), None);
    assert_eq!(get_target_version(&[]), None);
}

#[test]
fn split_record_wants_two_tokens_with_one_space_between_them() {
    assert_eq!(
        split_record("00001-a 2024-01-01T00:00:00+00:00"),
        Some(("00001-a".to_string(), "2024-01-01T00:00:00+00:00".to_string()))
    );
    assert_eq!(
        split_record("  00001-a 2024-01-01T00:00:00Z \r"),
        Some(("00001-a".to_string(), "2024-01-01T00:00:00Z".to_string()))
    );
    assert_eq!(split_record("a b"), Some(("a".to_string(), "b".to_string())));
    assert_eq!(split_record("a\tb c"), Some(("a\tb".to_string(), "c".to_string())));
    // one token
    assert_eq!(split_record("nospace"), None);
    assert_eq!(split_record(""), None);
    assert_eq!(split_record("   \t "), None);
    assert_eq!(split_record("a\tb"), None);
    // three tokens or more
    assert_eq!(split_record("x y z"), None);
    assert_eq!(split_record("a  b"), None);
    assert_eq!(split_record("00001-a 2024-01-01 00:00:00Z"), None);
    assert_eq!(split_record("a b c d"), None);
}

#[test]
fn read_history_passes_over_a_line_of_three_tokens() {
    let text = "00001-first 2024-01-01T00:00:00+00:00\nx y z\n";
    let records = read_history(Some(text)).unwrap();
    assert_eq!(records.len(), 1);
    assert_eq!(records[0].id, "00001-first");
    assert_eq!(records[0].applied_at, Timestamp::from_unix(1_704_067_200, 0).unwrap());
    // also where the line comes first, and where its last tokens are no timestamp
    let text = "x y z\n00001-first 2024-01-01T00:00:00+00:00\nid not a-time\n";
    let records = read_history(Some(text)).unwrap();
    assert_eq!(records.len(), 1);
    assert_eq!(records[0].id, "00001-first");
}

#[test]
fn make_record_fails_on_a_timestamp_that_is_none() {
    let at = Timestamp::from_unix(1_704_067_200, 0).unwrap();
    let made = make_record("00001-a".to_string(), "x".to_string(), Some(at)).unwrap();
    assert_eq!(made.id, "00001-a");
    assert_eq!(made.applied_at, at);
    match make_record("00001-a".to_string(), "yesterday".to_string(), None) {
        Err(ParseFailure::HistoryTimestamp { text }) => assert_eq!(text, "yesterday"),
        other => panic!("{:?}", other),
    }
}

#[test]
fn read_history_of_a_missing_file_is_empty() {
    assert!(read_history(None).unwrap().is_empty());
    assert!(read_history(Some("")).unwrap().is_empty());
}

#[test]
fn read_history_reads_the_records_in_their_order() {
    let text = "00002-b 2024-01-02T00:00:00+00:00\n00001-a 2024-01-01T00:00:00Z\r\n";
    let records = read_history(Some(text)).unwrap();
    assert_eq!(records.len(), 2);
    assert_eq!(records[0].id, "00002-b");
    assert_eq!(records[0].applied_at, Timestamp::from_unix(1_704_153_600, 0).unwrap());
    assert_eq!(records[1].id, "00001-a");
    assert_eq!(records[1].applied_at, Timestamp::from_unix(1_704_067_200, 0).unwrap());
}

#[test]
fn read_history_takes_the_offset_into_account() {
    let records = read_history(Some("x 2024-01-01T02:00:00.5+02:00")).unwrap();
    assert_eq!(records[0].applied_at, Timestamp::from_unix(1_704_067_200, 500_000_000).unwrap());
}

#[test]
fn read_history_passes_over_lines_that_are_no_records() {
    let text = "\n   \ngarbage\n00001-a 2024-01-01T00:00:00Z\ntrailing-without-timestamp";
    let records = read_history(Some(text)).unwrap();
    assert_eq!(records.len(), 1);
    assert_eq!(records[0].id, "00001-a");
}

#[test]
fn read_history_fails_on_a_record_with_a_bad_timestamp() {
    let text = "00001-a 2024-01-01T00:00:00Z\n00002-b not-a-time\n00003-c also-bad\n";
    match read_history(Some(text)) {
        Err(e) => {
            assert!(matches!(&e, ParseFailure::HistoryTimestamp { text } if text == "not-a-time"));
            assert_eq!(e.message(), "Invalid timestamp in history file: not-a-time");
        }
        Ok(_) => panic!("a bad timestamp was read"),
    }
}

#[test]
fn append_history_adds_one_line_and_keeps_the_rest() {
    let mut history = String::from("00001-a 2024-01-01T00:00:00+00:00\n");
    let at = Timestamp::from_unix(1_704_153_600, 0).unwrap();
    append_history(&mut history, "00002-b", &at);
    assert_eq!(
        history,
        "00001-a 2024-01-01T00:00:00+00:00\n00002-b 2024-01-02T00:00:00+00:00\n"
    );
    let records = read_history(Some(&history)).unwrap();
    assert_eq!(records.len(), 2);
    assert_eq!(records[1].id, "00002-b");
    assert_eq!(records[1].applied_at, at);
}

#[test]
fn after_a_run_nothing_is_pending() {
    let available = vec![migration("00001-a"), migration("00002-b"), migration("00003-c")];
    let b = baseline("00001");
    let mut history = String::new();
    let applied = read_history(Some(&history)).unwrap();
    let at = Timestamp::from_unix(1_704_153_600, 0).unwrap();
    for m in get_pending(&available, &applied, Some(&b)) {
        append_history(&mut history, &m.id, &at);
    }
    assert_eq!(history.lines().count(), 2);
    let applied = read_history(Some(&history)).unwrap();
    assert!(get_pending(&available, &applied, Some(&b)).is_empty());
}

#[test]
fn append_record_writes_the_text_that_it_is_given() {
    let mut history = String::from("x y\n");
    append_record(&mut history, "00001-a", "any text");
    assert_eq!(history, "x y\n00001-a any text\n");
    append_record(&mut history, "", "");
    assert_eq!(history, "x y\n00001-a any text\n \n");
}

#[test]
fn two_records_of_one_migration_are_both_read() {
    // two runs at the same time can both record a migration
    let text = "00001-a 2024-01-01T00:00:00Z\n00001-a 2024-01-01T00:00:01Z\n";
    let records = read_history(Some(text)).unwrap();
    assert_eq!(records.len(), 2);
    assert_eq!(records[0].id, records[1].id);
    let available = vec![migration("00001-a"), migration("00002-b")];
    assert_eq!(pending_ids(&available, &records, None), vec!["00002-b".to_string()]);
    assert_eq!(get_current_version(&available, &records), Some("00001".to_string()));
}

#[test]
fn has_record_looks_for_the_id() {
    let applied = vec![record("00001-a"), record("00002-b")];
    assert!(has_record(&applied, &"00002-b".to_string()));
    assert!(!has_record(&applied, &"00002".to_string()));
    assert!(!has_record(&applied, &"00002-B".to_string()));
    assert!(!has_record(&[], &"00002-b".to_string()));
}

#[test]
fn a_record_that_was_appended_is_read_behind_the_others() {
    let at = Timestamp::from_unix(1_704_153_600, 123_000_000).unwrap();
    for before in ["", "00001-a 2024-01-01T00:00:00Z\n", "garbage\n\n", "x y z\r\n"] {
        let had = read_history(Some(before)).unwrap();
        let mut history = before.to_string();
        append_history(&mut history, "00002-b", &at);
        let has = read_history(Some(&history)).unwrap();
        assert_eq!(has.len(), had.len() + 1);
        for i in 0..had.len() {
            assert_eq!(has[i].id, had[i].id);
            assert_eq!(has[i].applied_at, had[i].applied_at);
        }
        assert_eq!(has[had.len()].id, "00002-b");
        assert_eq!(has[had.len()].applied_at, at);
    }
    // a history that fails keeps failing in the same way
    let mut history = "00001-a never\n".to_string();
    append_history(&mut history, "00002-b", &at);
    assert_eq!(
        read_history(Some(&history)).unwrap_err().message(),
        "Invalid timestamp in history file: never"
    );
}

#[test]
fn a_record_is_not_read_again_where_it_cannot_be() {
    let at = Timestamp::from_unix(1_704_153_600, 0).unwrap();
    // behind a last line that has no line feed the record makes that line longer
    let mut history = "00001-a 2024-01-01T00:00:00Z".to_string();
    append_history(&mut history, "00002-b", &at);
    assert!(read_history(Some(&history)).unwrap().is_empty());
    // an id with a space in it makes a line of three tokens
    let mut history = String::new();
    append_history(&mut history, "two words", &at);
    assert!(read_history(Some(&history)).unwrap().is_empty());
    // and so does an empty id, once the line is trimmed
    let mut history = String::new();
    append_history(&mut history, "", &at);
    assert!(read_history(Some(&history)).unwrap().is_empty());
}
