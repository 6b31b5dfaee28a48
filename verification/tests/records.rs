use stream_log_client::records::{
    add_association_if_absent, remove_all_by_id, remove_association, remove_first_by_id, tab_for_time,
    update_existing_by_id, upsert_association, upsert_by_id, upsert_tab, Association, EventLogTab, Record,
};
use stream_log_client::records::{sort_newest_first, AvailableEvent};

fn rec(id: &str, data: u32) -> Record<u32> {
    Record { id: String::from(id), data }
}

fn data(records: &[Record<u32>]) -> Vec<(String, u32)> {
    records.iter().map(|r| (r.id.clone(), r.data)).collect()
}

#[test]
fn upsert_replaces_or_appends() {
    let mut records = vec![rec("a", 1), rec("b", 2)];
    upsert_by_id(&mut records, rec("b", 20));
    upsert_by_id(&mut records, rec("c", 3));
    assert_eq!(data(&records), vec![(String::from("a"), 1), (String::from("b"), 20), (String::from("c"), 3)]);
}

#[test]
fn update_existing_only() {
    let mut records = vec![rec("a", 1)];
    update_existing_by_id(&mut records, rec("a", 10));
    update_existing_by_id(&mut records, rec("z", 26));
    assert_eq!(data(&records), vec![(String::from("a"), 10)]);
}

#[test]
fn remove_first_and_all() {
    let mut records = vec![rec("a", 1), rec("b", 2), rec("a", 3)];
    remove_first_by_id(&mut records, &String::from("a"));
    assert_eq!(data(&records), vec![(String::from("b"), 2), (String::from("a"), 3)]);
    let mut records = vec![rec("a", 1), rec("b", 2), rec("a", 3), rec("c", 4)];
    remove_all_by_id(&mut records, &String::from("a"));
    assert_eq!(data(&records), vec![(String::from("b"), 2), (String::from("c"), 4)]);
    remove_all_by_id(&mut records, &String::from("q"));
    assert_eq!(records.len(), 2);
}

fn assoc(a: &str, b: &str, d: u8) -> Association<u8> {
    Association { first_id: String::from(a), second_id: String::from(b), data: d }
}

#[test]
fn associations() {
    let mut list = Vec::new();
    add_association_if_absent(&mut list, assoc("t", "e", 1));
    add_association_if_absent(&mut list, assoc("t", "e", 2));
    add_association_if_absent(&mut list, assoc("t", "f", 3));
    assert_eq!(list.iter().map(|a| a.data).collect::<Vec<_>>(), vec![1, 3]);
    upsert_association(&mut list, assoc("t", "f", 4));
    upsert_association(&mut list, assoc("u", "f", 5));
    assert_eq!(list.iter().map(|a| a.data).collect::<Vec<_>>(), vec![1, 4, 5]);
    remove_association(&mut list, &String::from("t"), &String::from("e"));
    remove_association(&mut list, &String::from("x"), &String::from("e"));
    assert_eq!(list.iter().map(|a| a.data).collect::<Vec<_>>(), vec![4, 5]);
}

fn tab(id: &str, start: i64) -> EventLogTab<()> {
    EventLogTab { id: String::from(id), start_time: start, data: () }
}

#[test]
fn tabs_stay_in_order() {
    let mut tabs = vec![tab("a", 0), tab("c", 100)];
    upsert_tab(&mut tabs, tab("b", 50));
    upsert_tab(&mut tabs, tab("d", 200));
    upsert_tab(&mut tabs, tab("z", -5));
    assert_eq!(tabs.iter().map(|t| t.id.clone()).collect::<Vec<_>>(), vec!["z", "a", "b", "c", "d"]);
    upsert_tab(&mut tabs, tab("a", 1000));
    assert_eq!(tabs[1].start_time, 1000);
}

#[test]
fn tab_lookup() {
    let tabs = vec![tab("a", 0), tab("b", 50), tab("c", 100)];
    assert_eq!(tab_for_time(&tabs, -1), None);
    assert_eq!(tab_for_time(&tabs, 0), Some(0));
    assert_eq!(tab_for_time(&tabs, 75), Some(1));
    assert_eq!(tab_for_time(&tabs, 100), Some(2));
    assert_eq!(tab_for_time(&tabs, 5000), Some(2));
    assert_eq!(tab_for_time::<()>(&vec![], 5), None);
}

fn available(id: &str, start_time: i64) -> AvailableEvent<u8> {
    AvailableEvent { id: String::from(id), start_time, data: 0 }
}

#[test]
fn available_events_newest_first() {
    let events = vec![available("a", 10), available("b", 30), available("c", 20), available("d", 30)];
    let sorted = sort_newest_first(events);
    let starts: Vec<i64> = sorted.iter().map(|e| e.start_time).collect();
    assert_eq!(starts, vec![30, 30, 20, 10]);
    let mut ids: Vec<&str> = sorted.iter().map(|e| e.id.as_str()).collect();
    assert_eq!(ids[2..], ["c", "a"]);
    ids.sort();
    assert_eq!(ids, vec!["a", "b", "c", "d"]);
    assert!(sort_newest_first::<u8>(vec![]).is_empty());
}
