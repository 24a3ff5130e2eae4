use migrate::loader::{discover_migrations, extract_id, extract_version, Entry};

#[test]
fn test_extract_version() {
    assert_eq!(extract_version("1f72f-init.sh"), Some("1f72f".to_string()));
    assert_eq!(
        extract_version("00000-something.ts"),
        Some("00000".to_string())
    );
    assert_eq!(extract_version("zzzzz-last.py"), Some("zzzzz".to_string()));
    assert_eq!(extract_version("ab-invalid.sh"), None); // Too short
    assert_eq!(extract_version("1234-short.sh"), None); // 4 chars, not 5
    assert_eq!(extract_version("123456-toolong.sh"), None); // No dash at position 5
}

#[test]
fn test_extract_id() {
    assert_eq!(extract_id("1f72f-init.sh"), "1f72f-init");
    assert_eq!(extract_id("00000-add-config.ts"), "00000-add-config");
    assert_eq!(extract_id("zzzzz-no-extension"), "zzzzz-no-extension");
}

#[test]
fn extract_version_wants_five_letters_or_digits_and_a_dash() {
    assert_eq!(extract_version("ABCDE-x"), Some("ABCDE".to_string()));
    assert_eq!(extract_version("12345-"), Some("12345".to_string()));
    assert_eq!(extract_version("12345"), None);
    assert_eq!(extract_version("1234_-x"), None);
    assert_eq!(extract_version("1234é-x"), None);
    assert_eq!(extract_version("é234-x.sh"), None);
    assert_eq!(extract_version(""), None);
}

#[test]
fn extract_id_cuts_at_the_last_dot() {
    assert_eq!(extract_id("00001-a.tar.gz"), "00001-a.tar");
    assert_eq!(extract_id(".hidden"), "");
    assert_eq!(extract_id("trailing."), "trailing");
    assert_eq!(extract_id(""), "");
    assert_eq!(extract_id("ünï.cödé"), "ünï");
}

fn file(name: &str) -> Entry {
    Entry { file_name: name.to_string(), path: format!("migrations/{}", name), is_file: true }
}

fn ids(entries: &Vec<Entry>) -> Vec<String> {
    discover_migrations(entries).into_iter().map(|m| m.id).collect()
}

#[test]
fn discover_orders_by_version() {
    let entries = vec![file("00003-c.sh"), file("00001-a.sh"), file("00002-b.py")];
    let found = discover_migrations(&entries);
    assert_eq!(found.len(), 3);
    assert_eq!(found[0].id, "00001-a");
    assert_eq!(found[0].version, "00001");
    assert_eq!(found[0].file_path, "migrations/00001-a.sh");
    assert_eq!(found[1].id, "00002-b");
    assert_eq!(found[2].id, "00003-c");
    assert_eq!(found[2].file_path, "migrations/00003-c.sh");
}

#[test]
fn discover_passes_over_what_is_no_migration() {
    let entries = vec![
        file("README.md"),
        file(".history"),
        file(".baseline"),
        file("00001-a.sh"),
        file("0001-short.sh"),
        file("000001-long.sh"),
        file("ABCDE-upper.sh"),
        file("00002_b.sh"),
        file("00003-"),
        file("00004-x"),
        file("0000é-x.sh"),
    ];
    assert_eq!(ids(&entries), vec!["00001-a".to_string(), "00004-x".to_string()]);
}

#[test]
fn discover_passes_over_directories() {
    let mut dir = file("00001-dir");
    dir.is_file = false;
    let entries = vec![dir, file("00002-b.sh")];
    assert_eq!(ids(&entries), vec!["00002-b".to_string()]);
}

#[test]
fn discover_keeps_the_order_of_entries_with_one_version() {
    let entries = vec![
        file("00002-z.sh"),
        file("00001-b.sh"),
        file("00002-a.sh"),
        file("00001-a.sh"),
        file("00002-m.sh"),
    ];
    assert_eq!(
        ids(&entries),
        vec![
            "00001-b".to_string(),
            "00001-a".to_string(),
            "00002-z".to_string(),
            "00002-a".to_string(),
            "00002-m".to_string(),
        ]
    );
}

#[test]
fn discover_of_nothing_is_nothing() {
    assert!(discover_migrations(&Vec::new()).is_empty());
}

#[test]
fn discover_sorts_digits_before_letters() {
    let entries = vec![file("a0000-x.sh"), file("9zzzz-y.sh"), file("1f72f-z.sh")];
    assert_eq!(
        ids(&entries),
        vec!["1f72f-z".to_string(), "9zzzz-y".to_string(), "a0000-x".to_string()]
    );
}
