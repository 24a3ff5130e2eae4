use migrate::commands::create::{plan, CreateError, Created};
use migrate::templates::{get_template, list_templates, templates};
use migrate::text::replace;

#[test]
fn the_templates_are_five() {
    assert_eq!(list_templates(), vec!["bash", "ts", "python", "node", "ruby"]);
    let all = templates();
    let extensions: Vec<&str> = all.iter().map(|t| t.extension).collect();
    assert_eq!(extensions, vec![".sh", ".ts", ".py", ".js", ".rb"]);
    for t in &all {
        assert!(t.content.starts_with("#!"));
        assert!(t.content.contains("{{DESCRIPTION}}"));
    }
}

#[test]
fn get_template_finds_a_template_by_its_name() {
    let bash = get_template("bash").unwrap();
    assert_eq!(bash.name, "bash");
    assert_eq!(bash.extension, ".sh");
    assert!(bash.content.starts_with("#!/usr/bin/env bash"));
    let ts = get_template("ts").unwrap();
    assert_eq!(ts.extension, ".ts");
    assert!(ts.content.starts_with("#!/usr/bin/env -S npx tsx"));
    assert_eq!(get_template("ruby").unwrap().extension, ".rb");
    assert!(get_template("Bash").is_none());
    assert!(get_template("").is_none());
    assert!(get_template("perl").is_none());
}

#[test]
fn create_lists_the_templates_before_anything_else() {
    match plan(true, None, "no such template", None, "1f72f", &[]) {
        Ok(Created::Templates(names)) => assert_eq!(names, list_templates()),
        other => panic!("{:?}", other),
    }
}

#[test]
fn create_wants_a_name_and_a_template() {
    let e = plan(false, None, "perl", None, "1f72f", &[]).unwrap_err();
    assert!(matches!(e, CreateError::MissingName));
    assert_eq!(e.message(), "Migration name is required. Usage: migrate create <name>");
    let e = plan(false, Some("x"), "perl", None, "1f72f", &[]).unwrap_err();
    assert!(matches!(&e, CreateError::UnknownTemplate { name } if name == "perl"));
    assert_eq!(
        e.message(),
        "Unknown template 'perl'. Available: bash, ts, python, node, ruby"
    );
}

#[test]
fn create_makes_a_file_from_the_template() {
    match plan(false, Some("test-migration"), "bash", Some("Adds a config"), "1f72f", &[]) {
        Ok(Created::File(file)) => {
            assert_eq!(file.file_name, "1f72f-test-migration.sh");
            assert!(file.content.starts_with("#!/usr/bin/env bash\n# Adds a config\n"));
            assert!(!file.content.contains("{{DESCRIPTION}}"));
        }
        other => panic!("{:?}", other),
    }
    match plan(false, Some("ts-migration"), "ts", None, "1f72f", &[]) {
        Ok(Created::File(file)) => {
            assert_eq!(file.file_name, "1f72f-ts-migration.ts");
            assert!(file.content.starts_with("#!/usr/bin/env -S npx tsx\n// TODO: Add description\n"));
        }
        other => panic!("{:?}", other),
    }
}

#[test]
fn create_refuses_a_file_name_that_is_taken() {
    let existing = vec!["README.md".to_string(), "1f72f-first.sh".to_string()];
    let e = plan(false, Some("first"), "bash", None, "1f72f", &existing).unwrap_err();
    assert!(matches!(&e, CreateError::AlreadyExists { file_name } if file_name == "1f72f-first.sh"));
    assert_eq!(e.message(), "Migration file already exists: 1f72f-first.sh");
    assert!(e.message().contains("already exists"));
    // another name, another extension or another version is free
    assert!(plan(false, Some("second"), "bash", None, "1f72f", &existing).is_ok());
    assert!(plan(false, Some("first"), "python", None, "1f72f", &existing).is_ok());
    assert!(plan(false, Some("first"), "bash", None, "1f730", &existing).is_ok());
}

#[test]
fn replace_puts_one_text_in_the_place_of_another() {
    assert_eq!(replace("a {{X}} b {{X}}", "{{X}}", "y"), "a y b y");
    assert_eq!(replace("aaaa", "aa", "b"), "bb");
    assert_eq!(replace("aaa", "aa", "b"), "ba");
    assert_eq!(replace("abc", "", "x"), "abc");
    assert_eq!(replace("", "a", "x"), "");
    assert_eq!(replace("abc", "abcd", "x"), "abc");
    assert_eq!(replace("abab", "ab", "ab"), "abab");
    assert_eq!(replace("x", "x", ""), "");
    assert_eq!(replace("héllo", "é", "e"), "hello");
    for (text, from, to) in [("a.b.c", ".", "::"), ("{{D}}{{D}", "{{D}}", "{{D}}{{D}}")] {
        assert_eq!(replace(text, from, to), text.replace(from, to));
    }
}
