use migrate::text::{
    ascii_alnum, chars_of, decimal, find_char, join_lines, less, less_or_same, lower_alnum,
    rfind_char, same_chars, same_text, split_lines, starts_with, trim, trim_end, white_space,
};

fn v(s: &str) -> Vec<char> {
    s.chars().collect()
}

fn s(v: &[char]) -> String {
    v.iter().collect()
}

#[test]
fn white_space_is_what_the_standard_library_calls_so() {
    for code in 0..=0x10FFFFu32 {
        if let Some(c) = char::from_u32(code) {
            assert_eq!(white_space(c), c.is_whitespace(), "{:x}", code);
        }
    }
}

#[test]
fn the_classes_of_letters_and_digits() {
    for code in 0..=0x10FFFFu32 {
        if let Some(c) = char::from_u32(code) {
            assert_eq!(ascii_alnum(c), c.is_ascii_alphanumeric(), "{:x}", code);
            assert_eq!(
                lower_alnum(c),
                c.is_ascii_digit() || c.is_ascii_lowercase(),
                "{:x}",
                code
            );
        }
    }
}

#[test]
fn chars_of_gives_the_characters() {
    assert_eq!(chars_of(""), Vec::<char>::new());
    assert_eq!(chars_of("aé€😀"), vec!['a', 'é', '€', '😀']);
}

#[test]
fn trim_is_that_of_the_standard_library() {
    for text in ["", " ", "a", "  a b \t\r\n", "\u{a0}x\u{3000}", "x  ", "  x", " \u{85} ", "a\u{200b}"] {
        assert_eq!(s(&trim(&v(text))), text.trim(), "{:?}", text);
        assert_eq!(s(&trim_end(&v(text))), text.trim_end(), "{:?}", text);
    }
}

#[test]
fn lines_are_those_of_the_standard_library() {
    for text in [
        "",
        "\n",
        "a",
        "a\n",
        "a\nb",
        "a\r\nb\r\n",
        "a\n\nb\n\n",
        "\r\n",
        "\r",
        "a\r",
        "a\rb\n",
        "a\r\r\n",
        "\n\r\n\r",
        "é\n€",
    ] {
        let ours: Vec<String> = split_lines(&v(text)).iter().map(|l| s(l)).collect();
        let theirs: Vec<String> = text.lines().map(|l| l.to_string()).collect();
        assert_eq!(ours, theirs, "{:?}", text);
    }
}

#[test]
fn join_puts_a_line_feed_between_the_lines() {
    assert_eq!(s(&join_lines(&vec![])), "");
    assert_eq!(s(&join_lines(&vec![v("a")])), "a");
    assert_eq!(s(&join_lines(&vec![v("a"), v(""), v("b")])), "a\n\nb");
    assert_eq!(s(&join_lines(&vec![v(""), v("")])), "\n");
}

#[test]
fn the_order_is_that_of_strings() {
    let texts = ["", "0", "00000", "1f72f", "1f730", "1f7", "A", "a", "z", "zzzzz", "é", "€", "😀", "a\u{0}"];
    for a in texts {
        for b in texts {
            assert_eq!(less(&v(a), &v(b)), a < b, "{:?} {:?}", a, b);
            assert_eq!(less_or_same(&v(a), &v(b)), a <= b, "{:?} {:?}", a, b);
            assert_eq!(same_chars(&v(a), &v(b)), a == b);
            assert_eq!(same_text(a, b), a == b);
        }
    }
}

#[test]
fn starts_with_looks_at_the_beginning() {
    assert!(starts_with(&v("version: 1"), "version:"));
    assert!(starts_with(&v("version:"), "version:"));
    assert!(!starts_with(&v("version"), "version:"));
    assert!(!starts_with(&v(" version:"), "version:"));
    assert!(starts_with(&v("x"), ""));
    assert!(starts_with(&v(""), ""));
}

#[test]
fn find_char_finds_the_first_and_rfind_char_the_last() {
    assert_eq!(find_char(&v("a b c"), ' '), 1);
    assert_eq!(find_char(&v("abc"), ' '), 3);
    assert_eq!(find_char(&v(""), ' '), 0);
    assert_eq!(rfind_char(&v("a.b.c"), '.'), Some(3));
    assert_eq!(rfind_char(&v("abc"), '.'), None);
    assert_eq!(rfind_char(&v("."), '.'), Some(0));
}

#[test]
fn decimal_writes_a_number_in_base_ten() {
    for n in [0i64, 1, 9, 10, 11, 99, 100, 12345, -1, -10, i64::MAX, i64::MIN, i32::MIN as i64] {
        assert_eq!(decimal(n), n.to_string());
    }
}
