use clipdeck::history::ClipboardItem;
use clipdeck::shortcuts::Shortcut;
use clipdeck::storage::{Storage, StorageError};

fn item(content: &str, timestamp: i64, pinned: bool) -> ClipboardItem {
    ClipboardItem { id: 0, content: content.to_string(), timestamp, pinned }
}

fn contents(items: &[ClipboardItem]) -> Vec<String> {
    items.iter().map(|i| i.content.clone()).collect()
}

#[test]
fn insert_assigns_increasing_ids() {
    let mut s = Storage::new();
    assert_eq!(s.insert_item(&item("a", 10, false)), Ok(1));
    assert_eq!(s.insert_item(&item("b", 11, false)), Ok(2));
    assert!(s.exists_content("a"));
    assert!(!s.exists_content("c"));
}

#[test]
fn duplicate_content_refreshes_timestamp_and_reports_its_id() {
    let mut s = Storage::new();
    s.insert_item(&item("a", 10, false)).unwrap();
    s.insert_item(&item("b", 11, false)).unwrap();
    // the duplicate is updated in place and keeps its id
    assert_eq!(s.insert_item(&item("a", 20, true)), Ok(1));
    let rows = s.history_rows();
    assert_eq!(rows.len(), 2);
    assert_eq!(rows[0].content, "a");
    assert_eq!(rows[0].timestamp, 20);
    assert!(!rows[0].pinned);
    // refreshed entry moves to the top of the history
    assert_eq!(contents(&s.get_history(50)), vec!["a", "b"]);
}

#[test]
fn ids_are_not_reused_after_delete() {
    let mut s = Storage::new();
    s.insert_item(&item("a", 1, false)).unwrap();
    s.insert_item(&item("b", 2, false)).unwrap();
    s.delete_item(2);
    assert!(!s.exists_content("b"));
    assert_eq!(s.insert_item(&item("c", 3, false)), Ok(3));
}

#[test]
fn full_id_counter_refuses_insert() {
    let mut s = Storage::from_rows(Vec::new(), i64::MAX, Vec::new(), i64::MAX).unwrap();
    assert_eq!(s.insert_item(&item("a", 1, false)), Err(StorageError::Full));
    assert_eq!(s.insert_shortcut_at("n", "c", 5), Err(StorageError::Full));
    assert!(s.history_rows().is_empty());
}

#[test]
fn from_rows_rejects_broken_tables() {
    let dup = vec![
        ClipboardItem { id: 1, content: "x".into(), timestamp: 1, pinned: false },
        ClipboardItem { id: 2, content: "x".into(), timestamp: 2, pinned: false },
    ];
    assert!(Storage::from_rows(dup, 5, Vec::new(), 0).is_none());
    let unordered = vec![
        ClipboardItem { id: 2, content: "x".into(), timestamp: 1, pinned: false },
        ClipboardItem { id: 1, content: "y".into(), timestamp: 2, pinned: false },
    ];
    assert!(Storage::from_rows(unordered, 5, Vec::new(), 0).is_none());
    let beyond = vec![ClipboardItem { id: 9, content: "x".into(), timestamp: 1, pinned: false }];
    assert!(Storage::from_rows(beyond, 5, Vec::new(), 0).is_none());
    let ok = vec![ClipboardItem { id: 3, content: "x".into(), timestamp: 1, pinned: true }];
    let s = Storage::from_rows(ok, 5, Vec::new(), 0).unwrap();
    assert_eq!(s.history_seq(), 5);
}

#[test]
fn history_lists_newest_first() {
    let mut s = Storage::new();
    s.insert_item(&item("old", 1, false)).unwrap();
    s.insert_item(&item("pin", 2, true)).unwrap();
    s.insert_item(&item("new", 3, false)).unwrap();
    s.insert_item(&item("tie", 3, false)).unwrap();
    assert_eq!(contents(&s.get_history(10)), vec!["new", "tie", "pin", "old"]);
    assert_eq!(contents(&s.get_history(2)), vec!["new", "tie"]);
    assert!(s.get_history(0).is_empty());
    assert_eq!(s.get_history(usize::MAX).len(), 4);
}

#[test]
fn old_pinned_row_does_not_push_out_a_newer_one() {
    let mut s = Storage::new();
    s.insert_item(&item("a", 0, true)).unwrap();
    s.insert_item(&item("b", 10, false)).unwrap();
    assert_eq!(contents(&s.get_history(1)), vec!["b"]);
}

#[test]
fn recopied_entry_leads_the_listing() {
    let mut s = Storage::new();
    s.insert_item(&item("a", 1, false)).unwrap();
    s.insert_item(&item("b", 2, false)).unwrap();
    s.insert_item(&item("c", 3, false)).unwrap();
    assert_eq!(s.insert_item(&item("a", 4, false)), Ok(1));
    assert_eq!(contents(&s.get_history(1)), vec!["a"]);
    assert_eq!(contents(&s.get_history(3)), vec!["a", "c", "b"]);
}

#[test]
fn set_pinned_changes_only_that_row() {
    let mut s = Storage::new();
    s.insert_item(&item("a", 1, false)).unwrap();
    s.insert_item(&item("b", 2, false)).unwrap();
    s.set_pinned(1, true);
    assert!(s.history_rows()[0].pinned);
    assert!(!s.history_rows()[1].pinned);
    // pinning does not change the order of the listing
    assert_eq!(contents(&s.get_history(10)), vec!["b", "a"]);
    s.set_pinned(99, true);
    assert!(!s.history_rows()[1].pinned);
}

#[test]
fn clear_history_keeps_pinned_and_counts() {
    let mut s = Storage::new();
    s.insert_item(&item("a", 1, false)).unwrap();
    s.insert_item(&item("b", 2, true)).unwrap();
    s.insert_item(&item("c", 3, false)).unwrap();
    assert_eq!(s.clear_history(), 2);
    assert_eq!(contents(s.history_rows()), vec!["b"]);
    assert_eq!(s.clear_history(), 0);
}

#[test]
fn evict_keeps_most_recent_and_pinned() {
    let mut s = Storage::new();
    for i in 0..60 {
        s.insert_item(&item(&format!("e{i}"), i, i == 0)).unwrap();
    }
    s.evict_old(50);
    let rows = s.history_rows();
    // the 50 most recent (e10..e59) plus the pinned e0
    assert_eq!(rows.len(), 51);
    assert_eq!(rows[0].content, "e0");
    assert_eq!(rows[1].content, "e10");
    assert_eq!(rows.iter().filter(|r| !r.pinned).count(), 50);
    // evicting again removes nothing
    s.evict_old(50);
    assert_eq!(s.history_rows().len(), 51);
}

#[test]
fn evict_counts_pinned_rows_in_the_window() {
    let mut s = Storage::new();
    s.insert_item(&item("a", 1, false)).unwrap();
    s.insert_item(&item("b", 2, false)).unwrap();
    s.insert_item(&item("p", 3, true)).unwrap();
    s.evict_old(2);
    // the two most recent are p and b; a goes
    assert_eq!(contents(s.history_rows()), vec!["b", "p"]);
    s.evict_old(0);
    assert_eq!(contents(s.history_rows()), vec!["p"]);
}

#[test]
fn evict_without_limit_keeps_everything() {
    let mut s = Storage::new();
    s.insert_item(&item("a", 1, false)).unwrap();
    s.insert_item(&item("b", 2, false)).unwrap();
    s.evict_old(usize::MAX);
    assert_eq!(s.history_rows().len(), 2);
}

#[test]
fn shortcuts_insert_list_and_delete() {
    let mut s = Storage::new();
    assert_eq!(s.insert_shortcut_at("first", "ls", 100), Ok(1));
    assert_eq!(s.insert_shortcut_at("second", "pwd", 200), Ok(2));
    assert_eq!(s.insert_shortcut_at("third", "date", 200), Ok(3));
    let names: Vec<String> = s.get_shortcuts().iter().map(|x| x.name.clone()).collect();
    assert_eq!(names, vec!["second", "third", "first"]);
    s.delete_shortcut(2);
    let names: Vec<String> = s.get_shortcuts().iter().map(|x| x.name.clone()).collect();
    assert_eq!(names, vec!["third", "first"]);
    // the two tables count their ids apart, and a repeated insert reports
    // the id of the row it refreshed
    assert_eq!(s.insert_item(&item("a", 1, false)), Ok(1));
    assert_eq!(s.insert_item(&item("a", 2, false)), Ok(1));
    assert_eq!(s.insert_shortcut_at("fourth", "id", 300), Ok(4));
    assert_eq!(s.insert_item(&item("a", 3, false)), Ok(1));
    assert_eq!(s.insert_item(&item("b", 4, false)), Ok(2));
}

#[test]
fn insert_shortcut_uses_the_clock() {
    let mut s = Storage::new();
    let id = s.insert_shortcut("n", "c").unwrap();
    let rows: &Vec<Shortcut> = s.shortcut_rows();
    assert_eq!(id, 1);
    assert_eq!(rows[0].name, "n");
    assert!(rows[0].created > 1_600_000_000);
}

#[test]
fn db_path_ends_with_the_file_name() {
    assert!(Storage::db_path().ends_with("clipdeck/history.db"));
}

#[test]
fn content_stays_stored_across_other_operations() {
    let mut s = Storage::new();
    s.insert_item(&item("a", 1, false)).unwrap();
    s.insert_item(&item("b", 2, false)).unwrap();
    s.set_pinned(1, true);
    s.insert_shortcut_at("n", "c", 3).unwrap();
    s.delete_shortcut(1);
    s.delete_item(2);
    s.insert_item(&item("c", 4, false)).unwrap();
    assert!(s.exists_content("a"));
    assert!(!s.exists_content("b"));
}
