use tempstack::util::decimal::{decimal_text, parse_index};
use tempstack::util::paths::{inside, join, parent};
use tempstack::util::utils::{paths_from_text, paths_to_text};

fn strings(items: &[&str]) -> Vec<String> {
    let mut out = Vec::new();
    for item in items {
        out.push(item.to_string());
    }
    out
}

#[test]
fn decimal_text_of_small_numbers() {
    assert_eq!(decimal_text(0), "0");
    assert_eq!(decimal_text(7), "7");
    assert_eq!(decimal_text(10), "10");
    assert_eq!(decimal_text(109), "109");
    assert_eq!(decimal_text(1234567890), "1234567890");
}

#[test]
fn decimal_text_of_the_largest_number() {
    assert_eq!(decimal_text(u128::MAX), "340282366920938463463374607431768211455");
}

#[test]
fn parse_index_reads_plain_digits() {
    assert_eq!(parse_index("0"), Some(0));
    assert_eq!(parse_index("1"), Some(1));
    assert_eq!(parse_index("42"), Some(42));
    assert_eq!(parse_index("1700000000000"), Some(1700000000000));
}

#[test]
fn parse_index_accepts_a_plus_sign_and_leading_zeros() {
    assert_eq!(parse_index("+7"), Some(7));
    assert_eq!(parse_index("007"), Some(7));
    assert_eq!(parse_index("+007"), Some(7));
}

#[test]
fn parse_index_refuses_what_is_no_number() {
    assert_eq!(parse_index(""), None);
    assert_eq!(parse_index("+"), None);
    assert_eq!(parse_index("abc"), None);
    assert_eq!(parse_index("1a"), None);
    assert_eq!(parse_index("a1"), None);
    assert_eq!(parse_index("-1"), None);
    assert_eq!(parse_index(" 1"), None);
    assert_eq!(parse_index("1 "), None);
    assert_eq!(parse_index("1_000"), None);
    assert_eq!(parse_index("++1"), None);
    assert_eq!(parse_index("1.0"), None);
    assert_eq!(parse_index("\u{0661}"), None);
}

#[test]
fn parse_index_stops_at_the_largest_usize() {
    let largest = decimal_text(usize::MAX as u128);
    assert_eq!(parse_index(&largest), Some(usize::MAX));
    let beyond = decimal_text(usize::MAX as u128 + 1);
    assert_eq!(parse_index(&beyond), None);
    assert_eq!(parse_index("99999999999999999999999999999999999999999"), None);
    assert_eq!(parse_index("99999999999999999999999999999999999999999x"), None);
}

#[test]
fn parse_index_agrees_with_the_standard_parser() {
    for text in ["0", "1", "+5", "0010", "", "+", "x", "5x", "-3", "18446744073709551616"] {
        assert_eq!(parse_index(text), text.parse::<usize>().ok());
    }
}

#[test]
fn parse_index_reads_back_decimal_text() {
    for n in [0usize, 1, 9, 10, 11, 99, 100, 65535, 4294967295] {
        assert_eq!(parse_index(&decimal_text(n as u128)), Some(n));
    }
}

#[test]
fn paths_from_text_splits_at_newlines() {
    assert_eq!(paths_from_text(""), Vec::<String>::new());
    assert_eq!(paths_from_text("/a\n"), strings(&["/a"]));
    assert_eq!(paths_from_text("/a\n/b\n"), strings(&["/a", "/b"]));
    assert_eq!(paths_from_text("/a\n/b"), strings(&["/a", "/b"]));
    assert_eq!(paths_from_text("/a"), strings(&["/a"]));
}

#[test]
fn paths_from_text_keeps_empty_lines() {
    assert_eq!(paths_from_text("\n"), strings(&[""]));
    assert_eq!(paths_from_text("\n\n"), strings(&["", ""]));
    assert_eq!(paths_from_text("/a\n\n/b\n"), strings(&["/a", "", "/b"]));
    assert_eq!(paths_from_text("\n/a"), strings(&["", "/a"]));
}

#[test]
fn paths_from_text_counts_characters_not_bytes() {
    assert_eq!(paths_from_text("/tmp/\u{00e9}t\u{00e9}\n/tmp/\u{65e5}\u{672c}\n"), strings(&[
        "/tmp/\u{00e9}t\u{00e9}",
        "/tmp/\u{65e5}\u{672c}",
    ]));
}

#[test]
fn paths_to_text_ends_every_path_with_a_newline() {
    assert_eq!(paths_to_text(&Vec::new()), "");
    assert_eq!(paths_to_text(&strings(&["/a"])), "/a\n");
    assert_eq!(paths_to_text(&strings(&["/a", "/b", "/c"])), "/a\n/b\n/c\n");
}

#[test]
fn registry_text_reads_back_as_written() {
    let paths = strings(&["/tmp/temp/tempfile_1", "", "/tmp/temp/tempfile_2", "relative"]);
    assert_eq!(paths_from_text(&paths_to_text(&paths)), paths);
}

#[test]
fn join_puts_one_separator_between_base_and_name() {
    assert_eq!(join("/tmp", "temp"), "/tmp/temp");
    assert_eq!(join("/tmp/", "temp"), "/tmp/temp");
    assert_eq!(join("", "temp"), "temp");
    assert_eq!(join("/", "temp"), "/temp");
    assert_eq!(join("a/b", "c"), "a/b/c");
    assert_eq!(join("/tmp", ""), "/tmp/");
}

#[test]
fn join_lets_an_absolute_name_stand_for_itself() {
    assert_eq!(join("/tmp", "/etc/passwd"), "/etc/passwd");
    assert_eq!(join("", "/x"), "/x");
}

#[test]
fn parent_is_what_stands_before_the_last_separator() {
    assert_eq!(parent("/tmp/temp/temp_files"), Some("/tmp/temp".to_string()));
    assert_eq!(parent("/tmp/temp"), Some("/tmp".to_string()));
    assert_eq!(parent("/tmp"), Some("/".to_string()));
    assert_eq!(parent("a/b"), Some("a".to_string()));
    assert_eq!(parent("a/b/"), Some("a/b".to_string()));
}

#[test]
fn parent_of_a_bare_name_is_none() {
    assert_eq!(parent("temp_files"), None);
    assert_eq!(parent(""), None);
}

#[test]
fn parent_of_the_root_is_none() {
    assert_eq!(parent("/"), None);
    assert_eq!(parent("/a"), Some("/".to_string()));
}

#[test]
fn inside_asks_for_a_separator_behind_the_directory() {
    assert!(inside("/tmp/temp", "/tmp/temp/temp_files"));
    assert!(inside("/tmp/temp", "/tmp/temp/a/b"));
    assert!(inside("/tmp/", "/tmp/x"));
    assert!(inside("/", "/x"));
    assert!(!inside("/tmp/temp", "/tmp/temp"));
    assert!(!inside("/tmp/temp", "/tmp/tempfile"));
    assert!(!inside("/tmp/temp", "/tmp/tem"));
    assert!(!inside("/tmp/temp", "/other/temp/x"));
    assert!(!inside("", "/x"));
    assert!(!inside("/tmp/temp/x", "/tmp/temp"));
}

#[test]
fn lines_written_back_give_the_text_with_a_final_newline() {
    for text in ["", "/a\n", "/a\n/b\n", "\n\n", "/a\n\n/b\n"] {
        assert_eq!(paths_to_text(&paths_from_text(text)), text);
    }
    assert_eq!(paths_to_text(&paths_from_text("/a\n/b")), "/a\n/b\n");
    assert_eq!(paths_to_text(&paths_from_text("/a")), "/a\n");
}
