use rusty_diary::date::Date;
use rusty_diary::entry::DiaryEntry;
use rusty_diary::storage::StorageManager;
use rusty_diary::RustyDiaryError;

fn day(y: i32, m: u32, d: u32) -> Date {
    Date::from_ymd(y, m, d).unwrap()
}

fn create_test_entry(exec_version: i64, date: Date, content: &str) -> DiaryEntry {
    DiaryEntry::new(exec_version, date, content.to_string())
}

#[test]
fn test_entry_lifecycle() {
    let mut repo = StorageManager::new();
    let test_date = day(2024, 1, 1);
    let entry = DiaryEntry::new(1, test_date, "Test content".to_string());

    repo.store_entries(vec![entry.clone()]).unwrap();

    let entries = repo.entries_by_date_range(test_date, test_date);
    assert_eq!(entries.len(), 1);
    assert_eq!(entries[0].content, "Test content");

    let metadata = repo.get_metadata();
    assert_eq!(metadata.len(), 1);
    assert_eq!(metadata[0].word_count, 2);
}

#[test]
fn test_storage_manager() {
    let mut manager = StorageManager::new();
    let test_date = day(2024, 1, 1);
    let entry = create_test_entry(1, test_date, "Test content");

    manager.store_entries(vec![entry]).unwrap();

    let retrieved = manager.entries_by_date_range(test_date, test_date);
    assert_eq!(retrieved.len(), 1);
    assert_eq!(retrieved[0].content, "Test content");
}

#[test]
fn single_entry_scenario_reports_version_and_metadata() {
    let mut manager = StorageManager::new();
    let d = day(2024, 1, 1);
    manager.store_entries(vec![create_test_entry(1, d, "Test content")]).unwrap();
    let found = manager.entries_by_date_range(d, d);
    assert_eq!(found.len(), 1);
    assert_eq!(found[0].content, "Test content");
    assert_eq!(manager.latest_exec_version(), 1);
    let meta = manager.get_metadata();
    assert_eq!(meta.len(), 1);
    assert_eq!(meta[0].date, d);
    assert_eq!(meta[0].word_count, 2);
    assert_eq!(meta[0].exec_version, 1);
}

#[test]
fn empty_store_has_latest_version_zero() {
    let manager = StorageManager::new();
    assert_eq!(manager.latest_exec_version(), 0);
    assert!(manager.get_metadata().is_empty());
}

#[test]
fn latest_version_is_the_maximum() {
    let mut manager = StorageManager::new();
    manager
        .store_entries(vec![
            create_test_entry(3, day(2024, 1, 1), "a"),
            create_test_entry(7, day(2023, 5, 1), "b"),
            create_test_entry(5, day(2024, 2, 1), "c"),
        ])
        .unwrap();
    assert_eq!(manager.latest_exec_version(), 7);
}

#[test]
fn range_query_orders_by_date_then_version_descending() {
    let mut manager = StorageManager::new();
    manager
        .store_entries(vec![
            create_test_entry(1, day(2024, 1, 1), "one"),
            create_test_entry(2, day(2024, 1, 3), "three"),
            create_test_entry(2, day(2024, 1, 1), "one again"),
            create_test_entry(1, day(2024, 1, 5), "outside"),
        ])
        .unwrap();
    let got = manager.entries_by_date_range(day(2024, 1, 1), day(2024, 1, 3));
    let keys: Vec<(Date, i64)> = got.iter().map(|e| (e.date, e.exec_version)).collect();
    assert_eq!(keys, vec![(day(2024, 1, 3), 2), (day(2024, 1, 1), 2), (day(2024, 1, 1), 1)]);
}

#[test]
fn version_query_orders_by_date_descending() {
    let mut manager = StorageManager::new();
    manager
        .store_entries(vec![
            create_test_entry(2, day(2024, 1, 1), "x"),
            create_test_entry(2, day(2024, 3, 1), "y"),
            create_test_entry(1, day(2024, 2, 1), "z"),
        ])
        .unwrap();
    let got = manager.get_entries_by_exec_version(2);
    let dates: Vec<Date> = got.iter().map(|e| e.date).collect();
    assert_eq!(dates, vec![day(2024, 3, 1), day(2024, 1, 1)]);
    assert!(manager.get_entries_by_exec_version(9).is_empty());
}

#[test]
fn metadata_orders_by_date_ascending_then_version_descending() {
    let mut manager = StorageManager::new();
    manager
        .store_entries(vec![
            create_test_entry(1, day(2024, 1, 2), "a b c"),
            create_test_entry(1, day(2024, 1, 1), "a"),
            create_test_entry(2, day(2024, 1, 1), "a b"),
        ])
        .unwrap();
    let meta = manager.get_metadata();
    let keys: Vec<(Date, i64, usize)> =
        meta.iter().map(|m| (m.date, m.exec_version, m.word_count)).collect();
    assert_eq!(
        keys,
        vec![(day(2024, 1, 1), 2, 2), (day(2024, 1, 1), 1, 1), (day(2024, 1, 2), 1, 3)]
    );
}

#[test]
fn same_key_is_replaced_and_last_in_batch_wins() {
    let mut manager = StorageManager::new();
    let d = day(2024, 4, 4);
    manager
        .store_entries(vec![create_test_entry(1, d, "first"), create_test_entry(1, d, "second")])
        .unwrap();
    let got = manager.entries_by_date_range(d, d);
    assert_eq!(got.len(), 1);
    assert_eq!(got[0].content, "second");
    manager.store_entries(vec![create_test_entry(1, d, "third")]).unwrap();
    let got = manager.entries_by_date_range(d, d);
    assert_eq!(got.len(), 1);
    assert_eq!(got[0].content, "third");
}

#[test]
fn batch_with_blank_entry_is_refused_whole() {
    let mut manager = StorageManager::new();
    let d = day(2024, 1, 1);
    let r = manager.store_entries(vec![
        create_test_entry(1, d, "fine"),
        create_test_entry(1, day(2024, 1, 2), " \n\t"),
    ]);
    assert!(matches!(r, Err(RustyDiaryError::ContentIntegrity(_))));
    assert!(manager.entries_by_date_range(day(2000, 1, 1), day(2100, 1, 1)).is_empty());
    assert_eq!(manager.latest_exec_version(), 0);
}

#[test]
fn batch_of_distinct_keys_is_visible_whole() {
    let mut manager = StorageManager::new();
    let batch: Vec<DiaryEntry> =
        (1..=5).map(|i| create_test_entry(4, day(2024, 6, i), "entry text")).collect();
    manager.store_entries(batch).unwrap();
    let got = manager.entries_by_date_range(day(2024, 6, 1), day(2024, 6, 5));
    assert_eq!(got.len(), 5);
    assert!(got.iter().all(|e| e.exec_version == 4));
}

#[test]
fn rows_read_back_are_restored_as_they_were() {
    let d = day(2024, 1, 1);
    let t = rusty_diary::entry::Timestamp { date: d, hour: 1, minute: 2, second: 3, nanosecond: 4 };
    let blank = DiaryEntry { exec_version: 1, date: d, content: String::new(), created_at: t, updated_at: Some(t) };
    let full = DiaryEntry::new_at(2, d, "Body".to_string(), t);
    let manager = StorageManager::from_rows(vec![blank, full]);
    assert_eq!(manager.latest_exec_version(), 2);
    let got = manager.entries_by_date_range(d, d);
    assert_eq!(got.len(), 2);
    assert_eq!(got[0].content, "Body");
    assert_eq!(got[1].content, "");
}
