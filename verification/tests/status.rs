use migrate::baseline::Baseline;
use migrate::commands::status::{headline, is_baselined, status, Headline};
use migrate::state::{append_history, read_history};
use migrate::time::Timestamp;
use migrate::{AppliedMigration, Migration};

fn migration(id: &str) -> Migration {
    Migration { id: id.to_string(), version: id[..5].to_string(), file_path: format!("{}.sh", id) }
}

fn at() -> Timestamp {
    Timestamp::from_unix(1_704_067_200, 0).unwrap()
}

fn record(id: &str) -> AppliedMigration {
    AppliedMigration { id: id.to_string(), applied_at: at() }
}

fn baseline(version: &str) -> Baseline {
    Baseline { version: version.to_string(), created: at(), summary: Some("what was".to_string()) }
}

#[test]
fn status_before_and_after_a_run() {
    let available = vec![migration("00001-a"), migration("00002-b")];
    let shown = status(&available, &[], None).unwrap();
    assert!(matches!(
        &shown.headline,
        Headline::Behind { from: None, to, pending: 2 } if to == "00002"
    ));
    assert_eq!(shown.pending, vec!["00001-a".to_string(), "00002-b".to_string()]);
    assert!(shown.applied.is_empty());
    assert!(shown.baseline.is_none());

    let mut history = String::new();
    append_history(&mut history, "00001-a", &at());
    append_history(&mut history, "00002-b", &at());
    let applied = read_history(Some(&history)).unwrap();
    let shown = status(&available, &applied, None).unwrap();
    assert!(matches!(&shown.headline, Headline::UpToDate { version } if version == "00002"));
    assert_eq!(shown.applied.len(), 2);
    assert_eq!(shown.applied[0].id, "00001-a");
    assert_eq!(shown.applied[0].applied_at, at());
    assert!(!shown.applied[0].baselined);
    assert!(shown.pending.is_empty());
}

#[test]
fn status_of_an_empty_directory_is_none() {
    assert!(status(&[], &[], None).is_none());
    assert!(status(&[], &[record("00001-a")], None).is_none());
}

#[test]
fn status_with_one_of_two_applied() {
    let available = vec![migration("00001-first"), migration("00002-second")];
    let applied = vec![record("00001-first")];
    let shown = status(&available, &applied, None).unwrap();
    assert!(matches!(
        &shown.headline,
        Headline::Behind { from: Some(from), to, pending: 1 } if from == "00001" && to == "00002"
    ));
    assert_eq!(shown.applied.len(), 1);
    assert_eq!(shown.pending, vec!["00002-second".to_string()]);
}

#[test]
fn status_with_a_baseline_and_no_files() {
    let b = baseline("00002");
    let applied = vec![record("00001-a"), record("00002-b"), record("00003-c"), record("odd")];
    let shown = status(&[], &applied, Some(&b)).unwrap();
    assert!(matches!(&shown.headline, Headline::Baselined { version } if version == "00002"));
    assert_eq!(shown.baseline.as_ref().unwrap().version, "00002");
    assert_eq!(shown.baseline.as_ref().unwrap().summary, Some("what was".to_string()));
    let marks: Vec<bool> = shown.applied.iter().map(|line| line.baselined).collect();
    assert_eq!(marks, vec![true, true, false, true]);
}

#[test]
fn status_with_a_baseline_and_nothing_applied_of_what_is_left() {
    // the current version does not look at the baseline: it is none, and the
    // headline takes the version of the baseline in its place
    let available = vec![migration("00003-c")];
    let b = baseline("00002");
    let shown = status(&available, &[record("00001-a")], Some(&b)).unwrap();
    assert!(matches!(
        &shown.headline,
        Headline::Behind { from: Some(from), to, pending: 1 } if from == "00002" && to == "00003"
    ));
}

#[test]
fn headline_of_each_kind() {
    let b = baseline("00001");
    assert!(matches!(
        headline(None, Some("00002".to_string()), None, 3),
        Headline::Behind { from: None, pending: 3, .. }
    ));
    assert!(matches!(
        headline(None, Some("00002".to_string()), Some(&b), 3),
        Headline::Behind { from: Some(from), .. } if from == "00001"
    ));
    assert!(matches!(
        headline(Some("00002".to_string()), Some("00002".to_string()), Some(&b), 0),
        Headline::UpToDate { version } if version == "00002"
    ));
    assert!(matches!(
        headline(Some("00001".to_string()), Some("00002".to_string()), None, 1),
        Headline::Behind { from: Some(from), to, pending: 1 } if from == "00001" && to == "00002"
    ));
    assert!(matches!(headline(None, None, Some(&b), 0), Headline::Baselined { .. }));
    assert!(matches!(headline(None, None, None, 0), Headline::Nothing));
    assert!(matches!(headline(Some("00001".to_string()), None, None, 0), Headline::Nothing));
}

#[test]
fn is_baselined_compares_the_version_in_the_id() {
    let b = baseline("1f710");
    assert!(is_baselined("1f700-first", Some(&b)));
    assert!(is_baselined("1f710-second", Some(&b)));
    assert!(!is_baselined("1f720-third", Some(&b)));
    assert!(!is_baselined("1f700-first", None));
    // an id that begins with no version counts as covered
    assert!(is_baselined("short", Some(&b)));
    assert!(is_baselined("1f720_third", Some(&b)));
    assert!(is_baselined("", Some(&b)));
    assert!(!is_baselined("", None));
    // the five characters need not be letters or digits
    assert!(is_baselined("!!!!!-x", Some(&b)));
    assert!(!is_baselined("~~~~~-x", Some(&b)));
}
