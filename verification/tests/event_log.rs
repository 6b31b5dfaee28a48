use stream_log_client::event_log::{
    add_new_log_entry, delete_log_entry, entry_insertion_index, update_log_entry, EventLogEntry,
};
use stream_log_client::entry_parents::insert_position_time;

fn entry(id: &str, start: Option<i64>, key: Option<i32>, created: i64) -> EventLogEntry {
    EventLogEntry { id: String::from(id), parent: None, start_time: start, manual_sort_key: key, created_at: created, details: Default::default() }
}

fn ids(entries: &[EventLogEntry]) -> Vec<String> {
    entries.iter().map(|e| e.id.clone()).collect()
}

#[test]
fn insertion_index_orders_by_start_key_and_creation() {
    let entries = vec![
        entry("a", None, None, 0),
        entry("b", Some(10), Some(1), 5),
        entry("c", Some(10), None, 1),
        entry("d", Some(20), None, 0),
    ];
    assert_eq!(entry_insertion_index(&entries, &entry("n", Some(5), None, 0)), 1);
    assert_eq!(entry_insertion_index(&entries, &entry("n", Some(10), Some(0), 0)), 1);
    assert_eq!(entry_insertion_index(&entries, &entry("n", Some(10), Some(2), 0)), 2);
    assert_eq!(entry_insertion_index(&entries, &entry("n", Some(10), None, 0)), 2);
    assert_eq!(entry_insertion_index(&entries, &entry("n", Some(10), None, 1)), 3);
    assert_eq!(entry_insertion_index(&entries, &entry("n", Some(30), None, 0)), 4);
    assert_eq!(entry_insertion_index(&entries, &entry("n", None, None, 0)), 1);
}

#[test]
fn insertion_index_goes_after_equal_entries() {
    let entries = vec![entry("a", Some(1), None, 1), entry("b", Some(1), None, 1), entry("c", Some(1), None, 1)];
    assert_eq!(entry_insertion_index(&entries, &entry("n", Some(1), None, 1)), 3);
    assert_eq!(entry_insertion_index(&[], &entry("n", Some(1), None, 1)), 0);
}

#[test]
fn insertion_index_on_a_log_out_of_full_order() {
    // Same start, but the later sort key first: the index still lands between
    // an entry at or before the new one and an entry after it.
    let entries = vec![entry("a", Some(1), Some(5), 0), entry("b", Some(1), Some(2), 0)];
    let index = entry_insertion_index(&entries, &entry("n", Some(1), Some(3), 0));
    assert!(index <= 2);
    if index > 0 {
        assert!(entries[index - 1].position_le(&entry("n", Some(1), Some(3), 0)));
    }
    if index < 2 {
        assert!(!entries[index].position_le(&entry("n", Some(1), Some(3), 0)));
    }
    assert_eq!(index, 2);
}

#[test]
fn new_entry_is_appended_or_inserted() {
    let mut entries = vec![entry("a", Some(1), None, 0), entry("b", Some(5), None, 0)];
    add_new_log_entry(&mut entries, entry("c", Some(7), None, 0));
    assert_eq!(ids(&entries), vec!["a", "b", "c"]);
    add_new_log_entry(&mut entries, entry("d", Some(3), None, 0));
    assert_eq!(ids(&entries), vec!["a", "d", "b", "c"]);
    // Same start time as the last entry: appended even where the key sorts earlier.
    add_new_log_entry(&mut entries, entry("e", Some(7), Some(1), 0));
    assert_eq!(ids(&entries), vec!["a", "d", "b", "c", "e"]);
    let mut empty: Vec<EventLogEntry> = Vec::new();
    add_new_log_entry(&mut empty, entry("x", None, None, 0));
    assert_eq!(ids(&empty), vec!["x"]);
}

#[test]
fn delete_removes_first_with_id() {
    let mut entries = vec![entry("a", Some(1), None, 0), entry("b", Some(2), None, 0), entry("a", Some(3), None, 0)];
    delete_log_entry(&mut entries, &String::from("a"));
    assert_eq!(ids(&entries), vec!["b", "a"]);
    assert_eq!(entries[1].start_time, Some(3));
    delete_log_entry(&mut entries, &String::from("zzz"));
    assert_eq!(ids(&entries), vec!["b", "a"]);
}

#[test]
fn delete_undoes_add() {
    let before = vec![entry("a", Some(1), None, 0), entry("b", Some(5), None, 0)];
    let mut entries = before.clone();
    add_new_log_entry(&mut entries, entry("c", Some(3), None, 0));
    delete_log_entry(&mut entries, &String::from("c"));
    assert_eq!(ids(&entries), ids(&before));
}

#[test]
fn update_in_place_or_moved() {
    let mut entries = vec![entry("a", Some(1), None, 0), entry("b", Some(5), None, 0), entry("c", Some(9), None, 0)];
    update_log_entry(&mut entries, entry("b", Some(5), None, 0));
    assert_eq!(ids(&entries), vec!["a", "b", "c"]);
    update_log_entry(&mut entries, entry("a", Some(10), None, 0));
    assert_eq!(ids(&entries), vec!["b", "c", "a"]);
    update_log_entry(&mut entries, entry("c", Some(0), None, 0));
    assert_eq!(ids(&entries), vec!["c", "b", "a"]);
    update_log_entry(&mut entries, entry("missing", Some(0), None, 0));
    assert_eq!(ids(&entries), vec!["c", "b", "a"]);
}

fn child(id: &str, parent: &str, start: Option<i64>) -> EventLogEntry {
    EventLogEntry {
        id: String::from(id),
        parent: Some(String::from(parent)),
        start_time: start,
        manual_sort_key: None,
        created_at: 0,
        details: Default::default(),
    }
}

#[test]
fn insert_position_uses_entered_time_for_new_and_top_level_entries() {
    let log = vec![entry("a", Some(5), None, 0)];
    assert_eq!(insert_position_time(&log, &None, Some(42)), Some(42));
    assert_eq!(insert_position_time(&log, &Some(entry("a", Some(5), None, 0)), Some(42)), Some(42));
    assert_eq!(insert_position_time(&log, &None, None), None);
}

#[test]
fn insert_position_follows_parents_to_the_top() {
    let log = vec![
        entry("a", Some(5), None, 0),
        child("b", "a", Some(9)),
        child("c", "b", Some(12)),
    ];
    let editing = Some(child("d", "c", Some(30)));
    assert_eq!(insert_position_time(&log, &editing, Some(40)), Some(5));
    let editing = Some(child("b", "a", Some(9)));
    assert_eq!(insert_position_time(&log, &editing, Some(40)), Some(5));
}

#[test]
fn insert_position_stops_at_a_missing_parent() {
    let log = vec![entry("a", Some(5), None, 0), child("b", "gone", Some(9))];
    let editing = Some(child("c", "b", Some(30)));
    assert_eq!(insert_position_time(&log, &editing, Some(40)), Some(9));
    let editing = Some(child("x", "gone", Some(31)));
    assert_eq!(insert_position_time(&log, &editing, Some(40)), Some(31));
}
