use migrate::baseline::round_trip::can_read_back;
use migrate::baseline::{
    baselined_migrations, parse_baseline, read_baseline, read_line, render_baseline,
    validate_baseline, version_lte, write_baseline, Baseline, Line, Scanner,
};
use migrate::error::{ParseFailure, ValidationError};
use migrate::time::Timestamp;
use migrate::{AppliedMigration, Migration};

#[test]
fn test_parse_baseline_simple() {
    let content = "version: 1fb2g\ncreated: 2024-06-15T14:30:00Z\n";
    let baseline = parse_baseline(content).unwrap();
    assert_eq!(baseline.version, "1fb2g");
    assert!(baseline.summary.is_none());
}

#[test]
fn test_parse_baseline_with_summary() {
    let content = r#"version: 1fb2g
created: 2024-06-15T14:30:00Z
summary: |
  Initial project setup
  TypeScript config
"#;
    let baseline = parse_baseline(content).unwrap();
    assert_eq!(baseline.version, "1fb2g");
    assert_eq!(
        baseline.summary,
        Some("Initial project setup\nTypeScript config".to_string())
    );
}

#[test]
fn test_parse_baseline_single_line_summary() {
    let content = "version: 1fb2g\ncreated: 2024-06-15T14:30:00Z\nsummary: Initial setup\n";
    let baseline = parse_baseline(content).unwrap();
    assert_eq!(baseline.version, "1fb2g");
    assert_eq!(baseline.summary, Some("Initial setup".to_string()));
}

#[test]
fn test_version_lte() {
    assert!(version_lte("1f700", "1f700"));
    assert!(version_lte("1f700", "1f710"));
    assert!(!version_lte("1f710", "1f700"));
    assert!(version_lte("00000", "zzzzz"));
}

#[test]
fn test_validate_baseline_no_matching_migration() {
    let available = vec![Migration {
        id: "1f700-first".to_string(),
        version: "1f700".to_string(),
        file_path: String::from("1f700-first.sh"),
    }];
    let applied = vec![];

    let result = validate_baseline("1f800", &available, &applied, None);
    assert!(result.is_err());
    assert!(result
        .unwrap_err()
        .message()
        .contains("No migration found"));
}

#[test]
fn test_validate_baseline_unapplied_migration() {
    let available = vec![
        Migration {
            id: "1f700-first".to_string(),
            version: "1f700".to_string(),
            file_path: String::from("1f700-first.sh"),
        },
        Migration {
            id: "1f710-second".to_string(),
            version: "1f710".to_string(),
            file_path: String::from("1f710-second.sh"),
        },
    ];
    let applied = vec![AppliedMigration {
        id: "1f710-second".to_string(),
        applied_at: Timestamp::now(),
    }];

    // Try to baseline at 1f710, but 1f700 hasn't been applied
    let result = validate_baseline("1f710", &available, &applied, None);
    assert!(result.is_err());
    assert!(result
        .unwrap_err()
        .message()
        .contains("has not been applied"));
}

#[test]
fn test_validate_baseline_backward_movement() {
    let available = vec![
        Migration {
            id: "1f700-first".to_string(),
            version: "1f700".to_string(),
            file_path: String::from("1f700-first.sh"),
        },
        Migration {
            id: "1f710-second".to_string(),
            version: "1f710".to_string(),
            file_path: String::from("1f710-second.sh"),
        },
    ];
    let applied = vec![
        AppliedMigration {
            id: "1f700-first".to_string(),
            applied_at: Timestamp::now(),
        },
        AppliedMigration {
            id: "1f710-second".to_string(),
            applied_at: Timestamp::now(),
        },
    ];

    let existing = Baseline {
        version: "1f710".to_string(),
        created: Timestamp::now(),
        summary: None,
    };

    let result = validate_baseline("1f700", &available, &applied, Some(&existing));
    assert!(result.is_err());
    assert!(result.unwrap_err().message().contains("backward"));
}

#[test]
fn test_validate_baseline_success() {
    let available = vec![
        Migration {
            id: "1f700-first".to_string(),
            version: "1f700".to_string(),
            file_path: String::from("1f700-first.sh"),
        },
        Migration {
            id: "1f710-second".to_string(),
            version: "1f710".to_string(),
            file_path: String::from("1f710-second.sh"),
        },
    ];
    let applied = vec![
        AppliedMigration {
            id: "1f700-first".to_string(),
            applied_at: Timestamp::now(),
        },
        AppliedMigration {
            id: "1f710-second".to_string(),
            applied_at: Timestamp::now(),
        },
    ];

    let result = validate_baseline("1f710", &available, &applied, None);
    assert!(result.is_ok());
}

fn migration(id: &str) -> Migration {
    Migration { id: id.to_string(), version: id[..5].to_string(), file_path: format!("{}.sh", id) }
}

fn record(id: &str) -> AppliedMigration {
    AppliedMigration { id: id.to_string(), applied_at: Timestamp::from_unix(1_704_067_200, 0).unwrap() }
}

fn noon() -> Timestamp {
    // 2024-06-15T14:30:00Z
    Timestamp::from_unix(1_718_461_800, 0).unwrap()
}

fn baseline(version: &str, summary: Option<&str>) -> Baseline {
    Baseline { version: version.to_string(), created: noon(), summary: summary.map(|s| s.to_string()) }
}

fn written(b: &Baseline) -> String {
    let mut out = String::from("what was there before");
    write_baseline(&mut out, b);
    out
}

#[test]
fn version_lte_is_the_order_of_a_dictionary() {
    assert!(version_lte("", ""));
    assert!(version_lte("", "0"));
    assert!(!version_lte("0", ""));
    assert!(version_lte("1f7", "1f700"));
    assert!(!version_lte("1f700", "1f7"));
    assert!(version_lte("9zzzz", "a0000"));
    assert!(version_lte("Zzzzz", "a0000"));
    assert!(!version_lte("é", "z"));
}

#[test]
fn validate_with_one_of_two_applied() {
    let available = vec![migration("00001-a"), migration("00002-b")];
    let applied = vec![record("00001-a")];
    match validate_baseline("00002", &available, &applied, None) {
        Err(ValidationError::Unapplied { id }) => assert_eq!(id, "00002-b"),
        other => panic!("{:?}", other),
    }
    assert!(validate_baseline("00001", &available, &applied, None).is_ok());
    let applied = vec![record("00001-a"), record("00002-b")];
    assert!(validate_baseline("00002", &available, &applied, None).is_ok());
}

#[test]
fn validate_names_the_first_unapplied_migration() {
    let available = vec![migration("00001-a"), migration("00002-b"), migration("00003-c")];
    let applied = vec![record("00001-a")];
    let e = validate_baseline("00003", &available, &applied, None).unwrap_err();
    assert_eq!(e.message(), "Cannot baseline: migration '00002-b' has not been applied");
}

#[test]
fn validate_refuses_to_move_a_baseline_backward() {
    let available = vec![migration("00001-a"), migration("00002-b")];
    let applied = vec![record("00001-a"), record("00002-b")];
    let existing = baseline("00002", None);
    let e = validate_baseline("00001", &available, &applied, Some(&existing)).unwrap_err();
    assert!(matches!(&e, ValidationError::BackwardMove { from, to } if from == "00002" && to == "00001"));
    assert_eq!(e.message(), "Cannot move baseline backward from '00002' to '00001'");
    // the same version again is no move backward
    assert!(validate_baseline("00002", &available, &applied, Some(&existing)).is_ok());
}

#[test]
fn validate_looks_for_the_version_first() {
    let available = vec![migration("00001-a")];
    let existing = baseline("00005", None);
    let e = validate_baseline("00003", &available, &[], Some(&existing)).unwrap_err();
    assert!(matches!(&e, ValidationError::NoSuchVersion { version } if version == "00003"));
    assert_eq!(e.message(), "No migration found with version '00003'");
    // and for a move backward before it looks at the records
    let e = validate_baseline("00001", &available, &[], Some(&existing)).unwrap_err();
    assert!(matches!(e, ValidationError::BackwardMove { .. }));
}

#[test]
fn baselined_migrations_are_those_at_or_before_the_version() {
    let available = vec![migration("00001-a"), migration("00002-b"), migration("00003-c")];
    let covered: Vec<&str> =
        baselined_migrations("00002", &available).into_iter().map(|m| m.id.as_str()).collect();
    assert_eq!(covered, vec!["00001-a", "00002-b"]);
    assert!(baselined_migrations("00000", &available).is_empty());
    assert_eq!(baselined_migrations("zzzzz", &available).len(), 3);
}

#[test]
fn read_line_outside_of_a_summary() {
    assert!(matches!(read_line(false, "version:  1fb2g \t"), Line::Version(v) if v == "1fb2g"));
    assert!(matches!(read_line(false, "version:"), Line::Version(v) if v.is_empty()));
    assert!(matches!(read_line(false, "created: x y"), Line::Created(t) if t == "x y"));
    assert!(matches!(read_line(false, "summary: |"), Line::SummaryBlock));
    assert!(matches!(read_line(false, "summary:|"), Line::SummaryBlock));
    assert!(matches!(read_line(false, "summary: a | b"), Line::Summary(s) if s == "a | b"));
    assert!(matches!(read_line(false, "summary:   "), Line::Other));
    assert!(matches!(read_line(false, " version: 1"), Line::Other));
    assert!(matches!(read_line(false, "Version: 1"), Line::Other));
    assert!(matches!(read_line(false, "  indented"), Line::Other));
    assert!(matches!(read_line(false, ""), Line::Other));
}

#[test]
fn read_line_within_a_summary() {
    assert!(matches!(read_line(true, "  two spaces"), Line::Continuation(s) if s == "two spaces"));
    assert!(matches!(read_line(true, "    four"), Line::Continuation(s) if s == "  four"));
    assert!(matches!(read_line(true, " \t one"), Line::Continuation(s) if s == "one"));
    assert!(matches!(read_line(true, " "), Line::Continuation(s) if s.is_empty()));
    assert!(matches!(read_line(true, ""), Line::Continuation(s) if s.is_empty()));
    assert!(matches!(read_line(true, "\tx"), Line::Other));
    assert!(matches!(read_line(true, "version: 1"), Line::Version(v) if v == "1"));
    assert!(matches!(read_line(true, "other"), Line::Other));
}

#[test]
fn scanner_takes_the_timestamp_that_it_is_given() {
    let mut scanner = Scanner::new();
    assert!(!scanner.in_block());
    scanner.advance(Line::Version("1fb2g".to_string()), None).unwrap();
    scanner.advance(Line::Created("whatever".to_string()), Some(noon())).unwrap();
    scanner.advance(Line::SummaryBlock, None).unwrap();
    assert!(scanner.in_block());
    scanner.advance(Line::Continuation("a".to_string()), None).unwrap();
    scanner.advance(Line::Continuation("".to_string()), None).unwrap();
    let b = scanner.finish().unwrap();
    assert_eq!(b.version, "1fb2g");
    assert_eq!(b.created, noon());
    assert_eq!(b.summary, Some("a".to_string()));
}

#[test]
fn scanner_fails_on_a_created_field_without_a_timestamp() {
    let mut scanner = Scanner::new();
    match scanner.advance(Line::Created("soon".to_string()), None) {
        Err(ParseFailure::BaselineTimestamp { text }) => assert_eq!(text, "soon"),
        other => panic!("{:?}", other),
    }
}

#[test]
fn parse_baseline_wants_a_version_and_a_timestamp() {
    let e = parse_baseline("created: 2024-06-15T14:30:00Z\n").unwrap_err();
    assert!(matches!(e, ParseFailure::MissingVersion));
    assert_eq!(e.message(), "Baseline file missing 'version' field");
    let e = parse_baseline("version: 1fb2g\n").unwrap_err();
    assert!(matches!(e, ParseFailure::MissingCreated));
    assert_eq!(e.message(), "Baseline file missing 'created' field");
    let e = parse_baseline("").unwrap_err();
    assert!(matches!(e, ParseFailure::MissingVersion));
}

#[test]
fn parse_baseline_fails_on_a_bad_timestamp_before_it_misses_a_field() {
    let e = parse_baseline("created: tomorrow\n").unwrap_err();
    assert!(matches!(&e, ParseFailure::BaselineTimestamp { text } if text == "tomorrow"));
    assert_eq!(e.message(), "Invalid timestamp in baseline: tomorrow");
    let e = parse_baseline("version: 1\ncreated: tomorrow\ncreated: 2024-06-15T14:30:00Z\n")
        .unwrap_err();
    assert!(matches!(e, ParseFailure::BaselineTimestamp { .. }));
}

#[test]
fn parse_baseline_reads_the_timestamp() {
    let b = parse_baseline("version: 1fb2g\ncreated: 2024-06-15T16:30:00.25+02:00\n").unwrap();
    assert_eq!(b.created, Timestamp::from_unix(1_718_461_800, 250_000_000).unwrap());
}

#[test]
fn parse_baseline_takes_the_last_of_a_repeated_field() {
    let b = parse_baseline(
        "version: 1\nversion: 2\ncreated: 2024-06-15T14:30:00Z\ncreated: 2024-06-15T14:30:01Z\nsummary: a\nsummary: b\n",
    )
    .unwrap();
    assert_eq!(b.version, "2");
    assert_eq!(b.created, Timestamp::from_unix(1_718_461_801, 0).unwrap());
    assert_eq!(b.summary, Some("b".to_string()));
}

#[test]
fn parse_baseline_reads_a_summary_of_several_lines() {
    let content = "summary: |\n  first\n\n    indented more\n one space\n  last   \n\n  \nversion: 1fb2g\ncreated: 2024-06-15T14:30:00Z\n";
    let b = parse_baseline(content).unwrap();
    assert_eq!(b.version, "1fb2g");
    assert_eq!(b.summary, Some("first\n\n  indented more\none space\nlast".to_string()));
}

#[test]
fn parse_baseline_ends_a_summary_at_a_line_that_is_not_indented() {
    let content = "version: 1\ncreated: 2024-06-15T14:30:00Z\nsummary: |\n  kept\nnot part of it\n  neither\n";
    let b = parse_baseline(content).unwrap();
    assert_eq!(b.summary, Some("kept".to_string()));
}

#[test]
fn parse_baseline_of_an_empty_summary_block() {
    // at the end of the file a block without lines leaves the summary as it was
    let b = parse_baseline("version: 1\ncreated: 2024-06-15T14:30:00Z\nsummary: |\n").unwrap();
    assert_eq!(b.summary, None);
    let b = parse_baseline("summary: old\nversion: 1\ncreated: 2024-06-15T14:30:00Z\nsummary: |\n")
        .unwrap();
    assert_eq!(b.summary, Some("old".to_string()));
    // before another field it makes the summary empty
    let b = parse_baseline("summary: |\nversion: 1\ncreated: 2024-06-15T14:30:00Z\n").unwrap();
    assert_eq!(b.summary, Some(String::new()));
    // blank lines alone make an empty summary
    let b = parse_baseline("version: 1\ncreated: 2024-06-15T14:30:00Z\nsummary: |\n\n  \n").unwrap();
    assert_eq!(b.summary, Some(String::new()));
}

#[test]
fn parse_baseline_reads_lines_that_end_with_a_carriage_return() {
    let b = parse_baseline("version: 1fb2g\r\ncreated: 2024-06-15T14:30:00Z\r\nsummary: |\r\n  a\r\n  b\r\n")
        .unwrap();
    assert_eq!(b.version, "1fb2g");
    assert_eq!(b.summary, Some("a\nb".to_string()));
}

#[test]
fn read_baseline_of_a_missing_file_is_none() {
    assert!(read_baseline(None).unwrap().is_none());
    let b = read_baseline(Some("version: 1fb2g\ncreated: 2024-06-15T14:30:00Z\n")).unwrap().unwrap();
    assert_eq!(b.version, "1fb2g");
    assert!(matches!(read_baseline(Some("")), Err(ParseFailure::MissingVersion)));
}

#[test]
fn write_baseline_without_a_summary() {
    assert_eq!(
        written(&baseline("1fb2g", None)),
        "version: 1fb2g\ncreated: 2024-06-15T14:30:00+00:00\n"
    );
}

#[test]
fn write_baseline_writes_the_summary_as_a_block() {
    assert_eq!(
        written(&baseline("1fb2g", Some("one line"))),
        "version: 1fb2g\ncreated: 2024-06-15T14:30:00+00:00\nsummary: |\n  one line\n"
    );
    assert_eq!(
        written(&baseline("1fb2g", Some("first\n\n  third"))),
        "version: 1fb2g\ncreated: 2024-06-15T14:30:00+00:00\nsummary: |\n  first\n  \n    third\n"
    );
}

#[test]
fn write_baseline_leaves_out_the_blank_lines_at_the_end() {
    assert_eq!(
        written(&baseline("1fb2g", Some("a\n\n \t\n\n"))),
        "version: 1fb2g\ncreated: 2024-06-15T14:30:00+00:00\nsummary: |\n  a\n"
    );
    assert_eq!(
        written(&baseline("1fb2g", Some(""))),
        "version: 1fb2g\ncreated: 2024-06-15T14:30:00+00:00\nsummary: |\n"
    );
    assert_eq!(
        written(&baseline("1fb2g", Some("\n  \n"))),
        "version: 1fb2g\ncreated: 2024-06-15T14:30:00+00:00\nsummary: |\n"
    );
}

#[test]
fn a_baseline_that_was_written_is_read_back() {
    for summary in [
        None,
        Some("one line"),
        Some("first\nsecond"),
        Some("first\n\n  indented\n\tlast"),
        Some("  begins with spaces"),
        Some("ends with a colon:\nversion: not a field\ncreated: neither\nsummary: |"),
    ] {
        let b = Baseline {
            version: "1fb2g".to_string(),
            created: Timestamp::from_unix(1_718_461_800, 123_456_789).unwrap(),
            summary: summary.map(|s| s.to_string()),
        };
        let back = parse_baseline(&written(&b)).unwrap();
        assert_eq!(back.version, b.version);
        assert_eq!(back.created, b.created);
        assert_eq!(back.summary, b.summary);
    }
}

#[test]
fn blank_lines_at_the_end_of_a_summary_are_not_read_back() {
    let b = baseline("1fb2g", Some("a\nb\n\n  \n"));
    let back = parse_baseline(&written(&b)).unwrap();
    assert_eq!(back.summary, Some("a\nb".to_string()));
    // and a summary of blank lines alone comes back as none
    let b = baseline("1fb2g", Some(" \n"));
    let back = parse_baseline(&written(&b)).unwrap();
    assert_eq!(back.summary, None);
}

#[test]
fn render_baseline_writes_the_text_that_it_is_given() {
    let mut out = String::from("old");
    render_baseline(&mut out, "1fb2g", "some time", None);
    assert_eq!(out, "version: 1fb2g\ncreated: some time\n");
    render_baseline(&mut out, "", "", Some("a\r\nb\n"));
    assert_eq!(out, "version: \ncreated: \nsummary: |\n  a\n  b\n");
}

#[test]
fn a_file_with_a_bad_timestamp_that_was_written_fails_with_it() {
    let mut out = String::new();
    render_baseline(&mut out, "1fb2g", "some time", Some("kept"));
    match parse_baseline(&out) {
        Err(ParseFailure::BaselineTimestamp { text }) => assert_eq!(text, "some time"),
        other => panic!("{:?}", other),
    }
}

#[test]
fn a_version_with_white_space_around_it_is_not_read_back() {
    let mut out = String::new();
    render_baseline(&mut out, " 1fb2g ", "2024-06-15T14:30:00Z", None);
    assert_eq!(parse_baseline(&out).unwrap().version, "1fb2g");
    // and a summary in which a line feed follows a carriage return loses the latter
    render_baseline(&mut out, "1fb2g", "2024-06-15T14:30:00Z", Some("a\r\nb"));
    assert_eq!(parse_baseline(&out).unwrap().summary, Some("a\nb".to_string()));
}

/// All texts of at most `len` characters out of `alphabet`.
fn texts(alphabet: &[char], len: usize) -> Vec<String> {
    let mut all = vec![String::new()];
    let mut last = vec![String::new()];
    for _ in 0..len {
        let mut next = Vec::new();
        for text in &last {
            for c in alphabet {
                let mut longer = text.clone();
                longer.push(*c);
                next.push(longer);
            }
        }
        all.extend(next.iter().cloned());
        last = next;
    }
    all
}

fn is_read_back(version: &str, created: &str, summary: Option<&str>) -> bool {
    let mut out = String::new();
    render_baseline(&mut out, version, created, summary);
    match parse_baseline(&out) {
        Ok(b) => {
            b.version == version
                && Some(b.created) == Timestamp::parse_rfc3339(created)
                && b.summary.as_deref() == summary
        }
        Err(_) => false,
    }
}

#[test]
fn can_read_back_tells_which_summaries_are_read_back() {
    let stamp = "2024-06-15T14:30:00+00:00";
    assert!(can_read_back("1fb2g", stamp, None));
    assert!(is_read_back("1fb2g", stamp, None));
    for summary in texts(&['a', ' ', '\n', '\r', '\t', 'é'], 5) {
        assert_eq!(
            can_read_back("1fb2g", stamp, Some(&summary)),
            is_read_back("1fb2g", stamp, Some(&summary)),
            "{:?}",
            summary
        );
    }
}

#[test]
fn can_read_back_tells_which_versions_are_read_back() {
    let stamp = "2024-06-15T14:30:00+00:00";
    for version in texts(&['1', ':', ' ', '\n', '\r', '|'], 4) {
        assert_eq!(
            can_read_back(&version, stamp, Some("kept")),
            is_read_back(&version, stamp, Some("kept")),
            "{:?}",
            version
        );
        assert_eq!(
            can_read_back(&version, stamp, None),
            is_read_back(&version, stamp, None),
            "{:?}",
            version
        );
    }
}

#[test]
fn can_read_back_wants_a_text_for_the_timestamp_that_is_a_value() {
    assert!(can_read_back("1fb2g", "anything", None));
    assert!(can_read_back("", "", None));
    assert!(!can_read_back("1fb2g", " 2024-06-15T14:30:00Z", None));
    assert!(!can_read_back("1fb2g", "2024-06-15T14:30:00Z\n", None));
    assert!(!can_read_back("1fb2g", "2024\n06", None));
}

#[test]
fn a_baseline_in_a_year_of_four_digits_is_read_back() {
    for (secs, nanos) in [
        (migrate::time::YEAR_0_SECS, 0u32),
        (0, 1),
        (1_483_228_799, 1_500_000_000),
        (migrate::time::YEAR_9999_SECS, 999_999_999),
    ] {
        for summary in [None, Some("one"), Some("two\n\n  lines"), Some("a\rb")] {
            let b = Baseline {
                version: "1fb2g".to_string(),
                created: Timestamp::from_unix(secs, nanos).unwrap(),
                summary: summary.map(|s| s.to_string()),
            };
            let back = read_baseline(Some(&written(&b))).unwrap().unwrap();
            assert_eq!(back.version, b.version);
            assert_eq!(back.created, b.created);
            assert_eq!(back.summary, b.summary);
        }
    }
}

#[test]
fn a_baseline_after_the_year_9999_is_not_read_back() {
    let b = Baseline {
        version: "1fb2g".to_string(),
        created: Timestamp::from_unix(migrate::time::YEAR_9999_SECS + 1, 0).unwrap(),
        summary: None,
    };
    assert!(matches!(
        parse_baseline(&written(&b)),
        Err(ParseFailure::BaselineTimestamp { text }) if text == "+10000-01-01T00:00:00+00:00"
    ));
}
