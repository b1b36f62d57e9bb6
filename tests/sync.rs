use rusty_diary::date::Date;
use rusty_diary::diary::SourceFile;
use rusty_diary::processor::MarkdownProcessor;
use rusty_diary::schema::{migration_sql, pending_migrations, CREATE_ENTRIES, CREATE_METADATA};
use rusty_diary::storage::StorageManager;
use rusty_diary::{Config, RustyDiary, RustyDiaryError};

fn day(y: i32, m: u32, d: u32) -> Date {
    Date::from_ymd(y, m, d).unwrap()
}

fn src(name: &str, content: &str) -> SourceFile {
    SourceFile { name: name.to_string(), content: content.to_string() }
}

fn engine() -> RustyDiary {
    RustyDiary::new(Config::new(), StorageManager::new()).unwrap()
}

fn all_rows(d: &RustyDiary) -> Vec<(Date, i64, String)> {
    d.storage()
        .entries_by_date_range(day(1900, 1, 1), day(2200, 1, 1))
        .into_iter()
        .map(|e| (e.date, e.exec_version, e.content))
        .collect()
}

#[test]
fn empty_sources_fail_without_consuming_a_version() {
    let mut d = engine();
    let r = d.synchronize(vec![]);
    assert!(matches!(r, Err(RustyDiaryError::NoFilesFound(_))));
    assert_eq!(d.storage().latest_exec_version(), 0);
}

#[test]
fn first_run_stores_every_source() {
    let mut d = engine();
    let rep = d
        .synchronize(vec![src("2024-01-02.md", "Test content 2"), src("2024-01-01.md", "Test content 1")])
        .unwrap();
    assert_eq!(rep.exec_version, 1);
    assert_eq!(rep.start_date, day(2024, 1, 1));
    assert_eq!(rep.end_date, day(2024, 1, 2));
    assert_eq!(rep.stored.len(), 2);
    assert_eq!(rep.processed, vec![0, 1]);
    assert_eq!(
        all_rows(&d),
        vec![
            (day(2024, 1, 2), 1, "Test content 2".to_string()),
            (day(2024, 1, 1), 1, "Test content 1".to_string())
        ]
    );
}

#[test]
fn second_run_over_same_sources_adds_no_rows() {
    let mut d = engine();
    let sources = || vec![src("2024-01-01.md", "# Title\nHello world"), src("2024-01-05.md", "Five")];
    d.synchronize(sources()).unwrap();
    let before = all_rows(&d);
    let rep = d.synchronize(sources()).unwrap();
    assert_eq!(rep.exec_version, 2);
    assert!(rep.stored.is_empty());
    assert_eq!(rep.processed, vec![0, 1]);
    assert_eq!(all_rows(&d), before);
}

#[test]
fn changed_content_adds_one_row_at_the_new_version() {
    let mut d = engine();
    d.synchronize(vec![src("2024-01-01.md", "old text")]).unwrap();
    let rep = d.synchronize(vec![src("2024-01-01.md", "new text")]).unwrap();
    assert_eq!(rep.stored.len(), 1);
    assert_eq!(
        all_rows(&d),
        vec![
            (day(2024, 1, 1), 2, "new text".to_string()),
            (day(2024, 1, 1), 1, "old text".to_string())
        ]
    );
    assert_eq!(d.storage().latest_exec_version(), 2);
}

#[test]
fn versions_follow_the_latest_stored_one() {
    let mut d = engine();
    for (i, text) in ["a", "b", "c"].iter().enumerate() {
        let prior = d.storage().latest_exec_version();
        let rep = d.synchronize(vec![src("2024-03-03.md", text)]).unwrap();
        assert_eq!(rep.exec_version, prior + 1);
        assert_eq!(rep.exec_version, i as i64 + 1);
    }
}

#[test]
fn malformed_sources_are_reported_not_fatal() {
    let mut d = engine();
    let rep = d
        .synchronize(vec![
            src("notes.md", "no date here"),
            src("2024-02-30.md", "impossible day"),
            src("2024-02-01.md", "   "),
            src("2024-02-02.md", "kept"),
        ])
        .unwrap();
    assert_eq!(rep.processed, vec![3]);
    let failed: Vec<usize> = rep.failures.iter().map(|f| f.0).collect();
    assert_eq!(failed, vec![0, 1, 2]);
    assert!(matches!(rep.failures[0].1, RustyDiaryError::ContentIntegrity(_)));
    assert!(matches!(rep.failures[1].1, RustyDiaryError::DateParse(_)));
    assert!(matches!(rep.failures[2].1, RustyDiaryError::ContentIntegrity(_)));
    assert_eq!(all_rows(&d), vec![(day(2024, 2, 2), 1, "kept".to_string())]);
}

#[test]
fn sources_that_yield_nothing_fail_the_run() {
    let mut d = engine();
    let r = d.synchronize(vec![src("readme.md", "text")]);
    assert!(matches!(r, Err(RustyDiaryError::NoFilesFound(_))));
    assert_eq!(d.storage().latest_exec_version(), 0);
}

#[test]
fn processor_rejects_bad_pattern_and_reads_dates() {
    assert!(matches!(MarkdownProcessor::new("(unclosed"), Err(RustyDiaryError::InvalidPattern(_))));
    let p = MarkdownProcessor::new(r"^(\d{4}-\d{2}-\d{2})(\.md)?$").unwrap();
    assert_eq!(p.extract_date("2024-07-15.md").unwrap(), day(2024, 7, 15));
    assert!(matches!(p.extract_date("x.md"), Err(RustyDiaryError::ContentIntegrity(_))));
    assert!(matches!(p.extract_date("2024-13-01.md"), Err(RustyDiaryError::DateParse(_))));
    assert!(p.validate_content("body").is_ok());
    assert_eq!(p.validate_content(" \n"), Err(RustyDiaryError::ContentIntegrity("Empty content".to_string())));
}

#[test]
fn pending_migrations_follow_the_schema_version() {
    assert_eq!(pending_migrations(0), vec![1, 2]);
    assert_eq!(pending_migrations(1), vec![2]);
    assert_eq!(pending_migrations(2), Vec::<u32>::new());
    assert_eq!(pending_migrations(-3), vec![1, 2]);
    assert_eq!(migration_sql(1), CREATE_ENTRIES);
    assert_eq!(migration_sql(2), CREATE_METADATA);
}

#[test]
fn config_builders_set_one_field() {
    let c = Config::new();
    assert_eq!(c.directory, ".");
    assert_eq!(c.db_path, "diary.db");
    assert_eq!(c.output_file_prefix, "rusty-diary-log");
    let c = c.with_directory("/tmp/d").with_db("x.db").with_date_pattern("^(.*)$").with_output_file_prefix("log");
    assert_eq!(c.directory, "/tmp/d");
    assert_eq!(c.db_path, "x.db");
    assert_eq!(c.date_pattern, "^(.*)$");
    assert_eq!(c.output_file_prefix, "log");
    let d = Config::default();
    assert_eq!(d.date_pattern, r"^(\d{4}-\d{2}-\d{2})(\.md)?$");
    assert_eq!(d.db_path, "diary.db");
}
