//! Tests of texts, paths and encodings.

use ai_proxy::outside::{
    concat_names, current_time, now, parse_time, percent_decode, random_base64, random_id,
    FIRST_SECOND, LAST_SECOND,
};
use ai_proxy::paths::{
    absolute, absolute_path, default_path, join_path, parent, temporary_extension,
};
use ai_proxy::text::{
    contains, is_whitespace, join, number_text, split_once, starts_with, text_before, text_eq,
    to_lower, trim,
};
use std::path::Path;

#[test]
fn whitespace_is_that_of_unicode() {
    let mut code: u32 = 0;
    while code <= 0x10ffff {
        if let Some(c) = char::from_u32(code) {
            assert_eq!(is_whitespace(c), c.is_whitespace());
        }
        code += 1;
    }
}

#[test]
fn texts_are_taken_apart() {
    for text in ["", " a b ", "\u{a0}é\n", "\t\r", "x"] {
        assert_eq!(trim(text), text.trim());
    }
    assert_eq!(split_once("a-b-c", '-'), Some(("a".to_owned(), "b-c".to_owned())));
    assert_eq!(split_once("abc", '-'), None);
    assert!(starts_with("--help", "--"));
    assert!(!starts_with("-", "--"));
    assert_eq!(to_lower("TruE-É"), "true-É");
    assert!(contains("os error 98)", "os error 98"));
    assert!(contains("", ""));
    assert!(!contains("os error 9", "os error 98"));
    assert!(text_eq("a", "a"));
    assert!(!text_eq("a", "A"));
    assert!(text_before("a", "b"));
    assert!(!text_before("b", "b"));
    assert!(text_before("a", "aa"));
    assert_eq!(join(&vec!["a".to_owned(), "b".to_owned(), "".to_owned()], ", "), "a, b, ");
    assert_eq!(join(&vec![], ", "), "");
    for n in [0, 7, 10, 65535, u64::MAX] {
        assert_eq!(number_text(n), n.to_string());
    }
}

#[test]
fn parents_are_those_of_the_paths_of_the_system() {
    for path in [
        "", ".", "..", "/", "//", "a", "a/", "a//", "/a", "/a/", "a/b", "a//b", "a/./b", "a/b/.",
        "./a", "./", "/.", "/./a", "a/..", "../a", "a/b/c.json", "//a//b//", "./a/./.", "a/.", ".a/b",
    ] {
        let expected = Path::new(path).parent().map(|found| found.to_str().unwrap().to_owned());
        assert_eq!(parent(path), expected, "{path}");
    }
}

#[test]
fn the_database_is_written_under_another_name_first() {
    assert_eq!(temporary_extension(7, 1767225600000), "7.1767225600000.tmp");
    assert_eq!(temporary_extension(0, -12), "0.-12.tmp");
}

#[test]
fn paths_are_joined_as_those_of_the_system() {
    for base in ["", "/", "/data", "/data/", "rel"] {
        for path in ["", "x", "x/y", "/etc/x", "./x", "../x"] {
            let expected = Path::new(base).join(path).to_str().unwrap().to_owned();
            assert_eq!(join_path(base, path), expected);
            assert_eq!(absolute(path, base), expected);
            assert_eq!(absolute_path(path, base), expected);
        }
    }
}

#[test]
fn default_path_is_ai_proxy_sqlite3() {
    assert_eq!(default_path("./orche-proxy.db.json"), "./ai_proxy.sqlite3");
    assert_eq!(default_path("/data/foo.json"), "/data/ai_proxy.sqlite3");
    assert_eq!(default_path("orche-proxy.db.json"), "ai_proxy.sqlite3");
    assert_eq!(default_path("/"), "ai_proxy.sqlite3");
}

#[test]
fn times_are_read_and_written() {
    let time = parse_time("2026-01-01T00:00:00.250Z").unwrap();
    assert_eq!(time.secs, 1767225600);
    assert_eq!(time.nanos, 250_000_000);
    assert_eq!(parse_time("2026-01-01T01:00:00+01:00").unwrap().secs, 1767225600);
    assert!(parse_time("2026-01-01").is_none());
    assert!(parse_time("").is_none());
    let text = now();
    assert_eq!(text.len(), 24);
    assert!(text.ends_with('Z'));
    let read = parse_time(&text).unwrap();
    let clock = current_time();
    assert!(clock.secs - read.secs <= 5);
    assert!(clock.nanos < 1_000_000_000);
}

#[test]
fn the_range_of_times_is_that_of_the_calendar() {
    assert_eq!(chrono::DateTime::<chrono::Utc>::MIN_UTC.timestamp(), FIRST_SECOND);
    assert_eq!(chrono::DateTime::<chrono::Utc>::MAX_UTC.timestamp(), LAST_SECOND);
    assert!(chrono::DateTime::from_timestamp(FIRST_SECOND, 0).is_some());
    assert!(chrono::DateTime::from_timestamp(FIRST_SECOND - 1, 0).is_none());
    assert!(chrono::DateTime::from_timestamp(LAST_SECOND, 999_999_999).is_some());
    assert!(chrono::DateTime::from_timestamp(LAST_SECOND + 1, 0).is_none());
}

#[test]
fn random_texts_have_their_form() {
    let id = random_id("call");
    assert!(id.starts_with("call_"));
    assert_eq!(id.len(), 5 + 16);
    assert_ne!(id, random_id("call"));
    assert_eq!(random_base64(32).len(), 43);
    assert_eq!(random_base64(0), "");
    for c in random_base64(300).chars() {
        assert!(c.is_ascii_alphanumeric() || c == '-' || c == '_');
    }
}

#[test]
fn escapes_are_decoded() {
    assert_eq!(percent_decode("gpt%2D5.5"), "gpt-5.5");
    assert_eq!(percent_decode("a+b%20c"), "a b c");
    assert_eq!(percent_decode("a=1&b=2"), "ab");
    assert_eq!(percent_decode(""), "");
    let pairs = vec![("x".to_owned(), "1".to_owned()), ("y".to_owned(), "2".to_owned())];
    assert_eq!(concat_names(&pairs), "xy");
}
