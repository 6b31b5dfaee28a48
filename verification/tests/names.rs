use stream_log_client::name_checks::{
    check_new_event_tag, check_new_name, check_page_title, check_tag_replacement, find_first_by_name,
    find_last_by_name, select_by_name, sort_by_name, NameCheck, NamedItem, NewTagCheck, ReplacementCheck,
};

fn item(id: &str, name: &str) -> NamedItem {
    NamedItem { id: String::from(id), name: String::from(name) }
}

fn s(text: &str) -> String {
    String::from(text)
}

#[test]
fn name_lookups_pick_last_or_first() {
    let items = vec![item("1", "a"), item("2", "b"), item("3", "a")];
    assert_eq!(find_last_by_name(&items, &s("a")), Some(2));
    assert_eq!(find_first_by_name(&items, &s("a")), Some(0));
    assert_eq!(find_last_by_name(&items, &s("b")), Some(1));
    assert_eq!(find_last_by_name(&items, &s("c")), None);
    assert_eq!(find_first_by_name(&vec![], &s("a")), None);
}

#[test]
fn new_names() {
    let used = vec![s("Main"), s("Side")];
    assert_eq!(check_new_name(&s(""), &used), NameCheck::Empty);
    assert_eq!(check_new_name(&s("Main"), &used), NameCheck::InUse);
    assert_eq!(check_new_name(&s("main"), &used), NameCheck::Available);
    assert_eq!(check_new_name(&s(""), &vec![]), NameCheck::Empty);
}

#[test]
fn page_titles() {
    let pages = vec![item("p1", "Rules"), item("p2", "Schedule")];
    assert_eq!(check_page_title(&s("Rules"), &pages, &s("p1")), NameCheck::Available);
    assert_eq!(check_page_title(&s("Rules"), &pages, &s("p2")), NameCheck::InUse);
    assert_eq!(check_page_title(&s("Rules"), &pages, &s("")), NameCheck::InUse);
    assert_eq!(check_page_title(&s(""), &pages, &s("p1")), NameCheck::Empty);
    assert_eq!(check_page_title(&s("FAQ"), &pages, &s("p1")), NameCheck::Available);
}

#[test]
fn new_event_tags() {
    let tags = vec![item("t1", "boss"), item("t2", "death")];
    assert_eq!(check_new_event_tag(&s(""), &s("x"), &tags), NewTagCheck::EmptyName);
    assert_eq!(check_new_event_tag(&s("a,b"), &s("x"), &tags), NewTagCheck::NameHasComma);
    assert_eq!(check_new_event_tag(&s("boss"), &s("x"), &tags), NewTagCheck::DuplicateName);
    assert_eq!(check_new_event_tag(&s("skip"), &s(""), &tags), NewTagCheck::EmptyDescription);
    assert_eq!(check_new_event_tag(&s("skip"), &s("A skip"), &tags), NewTagCheck::Valid);
    assert_eq!(check_new_event_tag(&s("boss,"), &s(""), &tags), NewTagCheck::NameHasComma);
    assert_eq!(NewTagCheck::NameHasComma.message(), "Tag name cannot contain commas");
    assert_eq!(NewTagCheck::DuplicateName.message(), "Tag name cannot be the same as another tag");
    assert_eq!(NewTagCheck::Valid.message(), "");
}

#[test]
fn tag_replacements() {
    let tags = vec![item("t1", "boss"), item("t2", "death"), item("t3", "boss")];
    assert_eq!(check_tag_replacement(&s(""), &tags, &s("t1")), ReplacementCheck::NotEntered);
    assert_eq!(check_tag_replacement(&s("none"), &tags, &s("t1")), ReplacementCheck::Unknown);
    assert_eq!(check_tag_replacement(&s("death"), &tags, &s("t2")), ReplacementCheck::SameTag);
    assert_eq!(check_tag_replacement(&s("death"), &tags, &s("t1")), ReplacementCheck::Replace(1));
    assert_eq!(check_tag_replacement(&s("boss"), &tags, &s("t1")), ReplacementCheck::Replace(2));
    assert_eq!(check_tag_replacement(&s("boss"), &tags, &s("t3")), ReplacementCheck::SameTag);
    assert_eq!(ReplacementCheck::Unknown.message(), "Replacement tag must exist");
    assert_eq!(ReplacementCheck::SameTag.message(), "Cannot replace a tag with itself");
    assert_eq!(ReplacementCheck::NotEntered.message(), "");
}

#[test]
fn pages_sorted_by_title_stably() {
    let pages = vec![item("3", "Rules"), item("1", "FAQ"), item("4", "Rules"), item("2", "Éclair"), item("5", "")];
    let sorted = sort_by_name(&pages);
    let ids: Vec<&str> = sorted.iter().map(|p| p.id.as_str()).collect();
    assert_eq!(ids, vec!["5", "1", "3", "4", "2"]);
    let mut expected = pages.clone();
    expected.sort_by(|a, b| a.name.cmp(&b.name));
    let expected_ids: Vec<&str> = expected.iter().map(|p| p.id.as_str()).collect();
    assert_eq!(ids, expected_ids);
    assert!(sort_by_name(&vec![]).is_empty());
}

#[test]
fn events_are_selected_by_name() {
    let events = vec![
        NamedItem { id: String::from("a"), name: String::from("Marathon") },
        NamedItem { id: String::from("b"), name: String::from("Sprint") },
        NamedItem { id: String::from("c"), name: String::from("Marathon") },
    ];
    assert_eq!(select_by_name(&events, &String::from("Marathon")), (Some(2), None));
    assert_eq!(select_by_name(&events, &String::from("Sprint")), (Some(1), None));
    assert_eq!(select_by_name(&events, &String::new()), (None, None));
    assert_eq!(select_by_name(&events, &String::from("Relay")), (None, Some("No event has that name")));
}
