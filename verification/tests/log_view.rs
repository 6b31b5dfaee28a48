use stream_log_client::entry_numbering::{number_entries, EntryLink};
use stream_log_client::name_completion::complete_entry_type_name;
use stream_log_client::tab_assignment::{assign_entries_to_tabs, entries_in_tab, filtered_entries_in_tab};

fn link(id: &str, parent: Option<&str>) -> EntryLink {
    EntryLink { id: String::from(id), parent: parent.map(String::from) }
}

#[test]
fn numbering_is_preorder() {
    let links = vec![
        link("a", None),
        link("b", None),
        link("a1", Some("a")),
        link("b1", Some("b")),
        link("a2", Some("a")),
        link("a1x", Some("a1")),
    ];
    let numbers = number_entries(&links).unwrap();
    let expected: Vec<(String, usize)> = vec![
        (String::from("a"), 1),
        (String::from("a1"), 2),
        (String::from("a1x"), 3),
        (String::from("a2"), 4),
        (String::from("b"), 5),
        (String::from("b1"), 6),
    ];
    assert_eq!(numbers, expected);
}

#[test]
fn numbering_skips_orphans() {
    let links = vec![link("a", None), link("x", Some("missing")), link("c", Some("c"))];
    let numbers = number_entries(&links).unwrap();
    assert_eq!(numbers, vec![(String::from("a"), 1)]);
    assert_eq!(number_entries(&vec![]).unwrap(), vec![]);
}

#[test]
fn empty_parent_id_counts_as_top_level() {
    let links = vec![link("a", Some("")), link("b", None)];
    let numbers = number_entries(&links).unwrap();
    assert_eq!(numbers, vec![(String::from("a"), 1), (String::from("b"), 2)]);
}

#[test]
fn entries_walk_through_tabs() {
    let tabs = vec![10, 20, 30];
    let entries = vec![Some(5), Some(10), Some(15), Some(25), Some(40)];
    let assigned = assign_entries_to_tabs(&tabs, &entries);
    assert_eq!(assigned, vec![None, Some(0), Some(0), Some(1), Some(2)]);
    let keep = vec![true, true, false, true, true];
    assert_eq!(entries_in_tab(&assigned, &keep, Some(0)), vec![1]);
    assert_eq!(entries_in_tab(&assigned, &keep, None), vec![0]);
    assert_eq!(entries_in_tab(&assigned, &keep, Some(2)), vec![4]);
}

#[test]
fn tab_cursor_never_goes_back() {
    let tabs = vec![10, 20];
    let entries = vec![Some(25), Some(5)];
    assert_eq!(assign_entries_to_tabs(&tabs, &entries), vec![Some(1), Some(1)]);
    assert_eq!(assign_entries_to_tabs(&vec![], &entries), vec![None, None]);
}

#[test]
fn entries_without_start_time_stay_with_the_current_tab() {
    let tabs = vec![10, 20];
    let entries = vec![None, Some(12), None, Some(20)];
    assert_eq!(assign_entries_to_tabs(&tabs, &entries), vec![None, Some(0), Some(0), Some(1)]);
}

fn names(list: &[&str]) -> Vec<String> {
    list.iter().map(|s| String::from(*s)).collect()
}

#[test]
fn exact_name_stays() {
    assert_eq!(complete_entry_type_name("Song", &names(&["Song", "song"])), None);
}

#[test]
fn name_completed_by_case() {
    assert_eq!(complete_entry_type_name("SONG", &names(&["Song", "Sponsor"])), Some(String::from("Song")));
}

#[test]
fn name_completed_by_unique_prefix() {
    assert_eq!(complete_entry_type_name("spo", &names(&["Song", "Sponsor"])), Some(String::from("Sponsor")));
    assert_eq!(complete_entry_type_name("s", &names(&["Song", "Sponsor"])), None);
    assert_eq!(complete_entry_type_name("x", &names(&["Song", "Sponsor"])), None);
    assert_eq!(complete_entry_type_name("ga", &names(&["Game", "GAME over"])), None);
    assert_eq!(complete_entry_type_name("gam", &names(&["Game start", "game start"])), Some(String::from("Game start")));
}

#[test]
fn tab_lists_follow_the_state_filter() {
    let assigned = assign_entries_to_tabs(&vec![10, 20], &vec![Some(1), Some(12), Some(15), Some(25)]);
    let states = vec![Some(1), None, Some(2), Some(1)];
    assert_eq!(filtered_entries_in_tab(&assigned, &states, &vec![], Some(0)), vec![1, 2]);
    assert_eq!(filtered_entries_in_tab(&assigned, &states, &vec![Some(2)], Some(0)), vec![2]);
    assert_eq!(filtered_entries_in_tab(&assigned, &states, &vec![None], Some(0)), vec![1]);
    assert_eq!(filtered_entries_in_tab(&assigned, &states, &vec![Some(1)], None), vec![0]);
    assert_eq!(filtered_entries_in_tab(&assigned, &states, &vec![Some(1)], Some(1)), vec![3]);
}
