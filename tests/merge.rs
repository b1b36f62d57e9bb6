use rusty_diary::date::Date;
use rusty_diary::entry::{DiaryEntry, Timestamp};
use rusty_diary::journal::{int_to_text, journal_file_name, journal_text};
use rusty_diary::merger::{Config, FileMerger, MergerError};

fn merger() -> FileMerger {
    FileMerger::new(Config::new())
}

fn names(v: &[&str]) -> Vec<String> {
    v.iter().map(|s| s.to_string()).collect()
}

#[test]
fn select_files_keeps_dated_names_newest_first() {
    let m = merger();
    assert!(m.compile_pattern().is_ok());
    let got = m
        .select_files(names(&["2024-01-01.md", "notes.txt", "2024-01-02.md", "writing-log.md", "2023-12-31"]))
        .unwrap();
    assert_eq!(got, names(&["2024-01-02.md", "2024-01-01.md", "2023-12-31"]));
}

#[test]
fn select_files_without_match_fails() {
    let m = merger();
    assert!(matches!(m.select_files(names(&["a.md", "b.txt"])), Err(MergerError::NoFilesFound)));
    assert!(matches!(m.select_files(Vec::new()), Err(MergerError::NoFilesFound)));
}

#[test]
fn invalid_merge_pattern_is_reported() {
    let mut c = Config::new();
    c.date_pattern = "([".to_string();
    let m = FileMerger::new(c);
    assert!(matches!(m.compile_pattern(), Err(MergerError::InvalidPattern(_))));
}

#[test]
fn merged_text_separates_files_and_keeps_earlier_log() {
    let m = merger();
    let contents = names(&["Test content 2", "Test content 1"]);
    let text = m.merged_text(&contents, "older");
    assert_eq!(text, "Test content 2\n\n***\nTest content 1\nolder");
    assert_eq!(m.merged_text(&Vec::new(), ""), "");
}

#[test]
fn merge_defaults() {
    let c = Config::default();
    assert_eq!(c.directory, ".");
    assert_eq!(c.output_filename, "writing-log.md");
    assert_eq!(c.separator, "\n***\n");
}

#[test]
fn output_file_is_not_removed() {
    let m = merger();
    assert!(!m.removable("writing-log.md"));
    assert!(m.removable("2024-01-01.md"));
}

fn entry(v: i64, d: Date, text: &str) -> DiaryEntry {
    let t = Timestamp { date: d, hour: 0, minute: 0, second: 0, nanosecond: 0 };
    DiaryEntry::new_at(v, d, text.to_string(), t)
}

#[test]
fn dates_print_as_iso_text() {
    assert_eq!(Date { year: 2024, month: 1, day: 5 }.to_text(), "2024-01-05");
    assert_eq!(Date { year: 12, month: 11, day: 30 }.to_text(), "0012-11-30");
    assert_eq!(Date { year: -1, month: 1, day: 1 }.to_text(), "-0001-01-01");
    assert_eq!(Date { year: 12345, month: 1, day: 1 }.to_text(), "+12345-01-01");
    assert_eq!(int_to_text(-42), "-42");
    assert_eq!(int_to_text(0), "0");
    assert_eq!(int_to_text(i64::MIN), "-9223372036854775808");
}

#[test]
fn journal_lists_entries_under_a_counted_header() {
    let today = Date { year: 2024, month: 3, day: 9 };
    let es = vec![
        entry(2, Date { year: 2024, month: 1, day: 2 }, "Second"),
        entry(1, Date { year: 2024, month: 1, day: 1 }, "First"),
    ];
    assert_eq!(
        journal_text(today, &es),
        "# rusty-diary:date:2024-03-09 -- ## total-entries(2)\n\n# 2024-01-02\nSecond\n\n***\n# 2024-01-01\nFirst\n\n***\n"
    );
    assert_eq!(journal_file_name("log", today, &es), "log_2024-03-09_2.md");
    assert_eq!(journal_file_name("log", today, &Vec::new()), "log_2024-03-09_0.md");
}
