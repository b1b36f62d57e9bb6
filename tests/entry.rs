use rusty_diary::date::Date;
use rusty_diary::entry::{DiaryEntry, Timestamp};
use rusty_diary::text::{count_words, normalize};

fn day(y: i32, m: u32, d: u32) -> Date {
    Date::from_ymd(y, m, d).unwrap()
}

#[test]
fn word_count_of_two_lines() {
    assert_eq!(count_words("One two three\nfour five"), 5);
    let e = DiaryEntry::new(1, day(2024, 1, 1), "One two three\nfour five".to_string());
    assert_eq!(e.word_count(), 5);
}

#[test]
fn word_count_edge_cases() {
    assert_eq!(count_words(""), 0);
    assert_eq!(count_words("   \t\n"), 0);
    assert_eq!(count_words("  lead and trail  "), 3);
    assert_eq!(count_words("a\u{3000}b\u{00A0}c"), 3);
}

#[test]
fn title_line_is_dropped_and_line_endings_unified() {
    assert_eq!(normalize("# 2024-01-01\nHello\r\nworld\n"), "Hello\nworld");
    assert_eq!(normalize("Plain text"), "Plain text");
    assert_eq!(normalize("# only a title"), "");
    assert_eq!(normalize("a\n\nb\n"), "a\n\nb");
}

#[test]
fn new_entry_is_normalized_and_stamped() {
    let e = DiaryEntry::new(3, day(2024, 2, 29), "# Title\nBody text".to_string());
    assert_eq!(e.exec_version, 3);
    assert_eq!(e.date, day(2024, 2, 29));
    assert_eq!(e.content, "Body text");
    assert_eq!(e.updated_at, Some(e.created_at));
}

#[test]
fn new_at_uses_the_given_time() {
    let t = Timestamp { date: day(2024, 1, 1), hour: 10, minute: 5, second: 0, nanosecond: 0 };
    let e = DiaryEntry::new_at(1, day(2024, 1, 1), "Text".to_string(), t);
    assert_eq!(e.created_at, t);
    assert_eq!(e.updated_at, Some(t));
}

#[test]
fn dedup_equality_ignores_version_and_time() {
    let a = DiaryEntry::new(1, day(2024, 1, 1), "same".to_string());
    let b = DiaryEntry::new(9, day(2024, 1, 1), "same".to_string());
    let c = DiaryEntry::new(1, day(2024, 1, 1), "other".to_string());
    let d = DiaryEntry::new(1, day(2024, 1, 2), "same".to_string());
    assert!(a.eq(&b));
    assert!(!a.eq(&c));
    assert!(!a.eq(&d));
}

#[test]
fn metadata_projects_date_count_and_version() {
    let e = DiaryEntry::new(6, day(2023, 12, 31), "a b c d".to_string());
    let m = e.metadata();
    assert_eq!(m.date, day(2023, 12, 31));
    assert_eq!(m.word_count, 4);
    assert_eq!(m.exec_version, 6);
}

#[test]
fn calendar_validity() {
    assert!(Date::from_ymd(2024, 2, 29).is_some());
    assert!(Date::from_ymd(2023, 2, 29).is_none());
    assert!(Date::from_ymd(1900, 2, 29).is_none());
    assert!(Date::from_ymd(2000, 2, 29).is_some());
    assert!(Date::from_ymd(2024, 4, 31).is_none());
    assert!(Date::from_ymd(2024, 13, 1).is_none());
    assert!(Date::from_ymd(2024, 1, 0).is_none());
    assert!(day(2023, 12, 31).is_before(&day(2024, 1, 1)));
    assert!(!day(2024, 1, 1).is_before(&day(2024, 1, 1)));
}
