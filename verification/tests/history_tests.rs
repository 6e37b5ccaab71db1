use falconshot::storage::{cutoff_date, days_to_ymd, is_leap, HistoryEntry, HistoryLog, HistoryType, StorageConfig};

fn test_entry(id: &str, title: &str) -> HistoryEntry {
    HistoryEntry {
        id: id.to_string(),
        entry_type: HistoryType::Screenshot,
        title: title.to_string(),
        file_path: None,
        thumbnail_path: None,
        metadata: "{}".to_string(),
        created_at: "2026-01-15".to_string(),
        tags: vec!["test".to_string()],
    }
}

#[test]
fn test_add_and_get() {
    let mut store = HistoryLog::new();
    store.add(&test_entry("1", "First"));
    let entry = store.get("1");
    assert!(entry.is_some());
    assert_eq!(entry.unwrap().title, "First");
}

#[test]
fn test_list_with_pagination() {
    let mut store = HistoryLog::new();
    for i in 0..5 {
        store.add(&test_entry(&format!("{i}"), &format!("Entry {i}")));
    }
    let page = store.list(2, 0);
    assert_eq!(page.len(), 2);
    let page2 = store.list(2, 2);
    assert_eq!(page2.len(), 2);
    assert_eq!(page[0].id, "4");
    assert_eq!(page2[0].id, "2");
    assert_eq!(store.list(10, 4).len(), 1);
    assert_eq!(store.list(10, 9).len(), 0);
}

#[test]
fn test_search() {
    let mut store = HistoryLog::new();
    store.add(&test_entry("1", "Screenshot of dashboard"));
    store.add(&test_entry("2", "Error log capture"));
    let results = store.search("dashboard");
    assert_eq!(results.len(), 1);
    assert_eq!(results[0].id, "1");
}

#[test]
fn test_delete() {
    let mut store = HistoryLog::new();
    store.add(&test_entry("1", "To delete"));
    store.delete("1");
    assert!(store.get("1").is_none());
}

#[test]
fn json_store_test_clear() {
    let mut store = HistoryLog::new();
    store.add(&test_entry("1", "A"));
    store.add(&test_entry("2", "B"));
    store.clear();
    assert_eq!(store.list(10, 0).len(), 0);
}

#[test]
fn search_ignores_case_and_looks_at_tags() {
    let mut store = HistoryLog::new();
    let mut e = test_entry("1", "Quarterly REPORT");
    e.tags = vec!["Finance".to_string()];
    store.add(&e);
    store.add(&test_entry("2", "other"));
    assert_eq!(store.search("report").len(), 1);
    assert_eq!(store.search("FINANCE")[0].id, "1");
    assert_eq!(store.search("TEST").len(), 1);
}

#[test]
fn newest_entry_wins_on_duplicate_ids() {
    let mut store = HistoryLog::new();
    store.add(&test_entry("1", "old"));
    store.add(&test_entry("1", "new"));
    assert_eq!(store.get("1").unwrap().title, "new");
}

#[test]
fn cleanup_drops_older_entries() {
    let mut store = HistoryLog::new();
    let mut old = test_entry("old", "old");
    old.created_at = "2025-12-31".to_string();
    store.add(&old);
    store.add(&test_entry("new", "new"));
    let removed = store.cleanup("2026-01-01");
    assert_eq!(removed, 1);
    assert!(store.get("old").is_none());
    assert!(store.get("new").is_some());
}

#[test]
fn storage_config_defaults() {
    let c = StorageConfig::default();
    assert_eq!(c.data_dir, "");
    assert_eq!(c.max_history_days, 30);
    assert_eq!(c.max_storage_mb, 500);
    assert!(c.auto_cleanup);
}

#[test]
fn calendar_dates() {
    assert_eq!(days_to_ymd(0), (1970, 1, 1));
    assert_eq!(days_to_ymd(31), (1970, 2, 1));
    assert_eq!(days_to_ymd(59), (1970, 3, 1));
    assert_eq!(days_to_ymd(365), (1971, 1, 1));
    assert_eq!(days_to_ymd(789), (1972, 2, 29));
    assert_eq!(days_to_ymd(11016), (2000, 2, 29));
    assert_eq!(days_to_ymd(20468), (2026, 1, 15));
    assert!(is_leap(2000));
    assert!(!is_leap(1900));
    assert!(is_leap(2024));
    assert!(!is_leap(2023));
}

#[test]
fn cutoff_is_formatted_with_padding() {
    // 2026-01-15 00:00:00 UTC is day 20468.
    let now = 20468u64 * 86400 + 3600;
    assert_eq!(cutoff_date(now, 0), "2026-01-15");
    assert_eq!(cutoff_date(now, 30), "2025-12-16");
    assert_eq!(cutoff_date(100, 30), "1970-01-01");
}
