use stream_log_client::color::RgbColor;
use stream_log_client::event_log::EventLogEntry;
use stream_log_client::typing::{
    clear_typing, clear_typing_for_new_entry, clear_typing_for_updated_entry, expire_typing_events_at,
    handle_typing_data, TypingEvent, TypingTarget, TypingUser,
};

fn user(id: &str) -> TypingUser {
    TypingUser { id: String::from(id), username: format!("name-{}", id), color: RgbColor { r: 1, g: 2, b: 3 }, is_admin: false }
}

fn entry(id: &str) -> Option<EventLogEntry> {
    Some(EventLogEntry { id: String::from(id), parent: None, start_time: Some(0), manual_sort_key: None, created_at: 0, details: Default::default() })
}

fn summary(events: &[TypingEvent]) -> Vec<(String, Option<String>, TypingTarget, String, i64)> {
    events
        .iter()
        .map(|e| {
            (
                e.user.id.clone(),
                e.event_log_entry.as_ref().map(|x| x.id.clone()),
                e.target_field,
                e.data.clone(),
                e.time_received,
            )
        })
        .collect()
}

#[test]
fn typing_adds_then_refreshes() {
    let mut events = Vec::new();
    handle_typing_data(&mut events, entry("e1"), String::from("hel"), user("u1"), TypingTarget::Description, 100);
    handle_typing_data(&mut events, entry("e1"), String::from("1:00"), user("u1"), TypingTarget::StartTime, 200);
    handle_typing_data(&mut events, entry("e1"), String::from("hello"), user("u1"), TypingTarget::Description, 300);
    assert_eq!(
        summary(&events),
        vec![
            (String::from("u1"), Some(String::from("e1")), TypingTarget::Description, String::from("hello"), 300),
            (String::from("u1"), Some(String::from("e1")), TypingTarget::StartTime, String::from("1:00"), 300),
        ]
    );
}

#[test]
fn typing_of_other_users_and_entries_is_separate() {
    let mut events = Vec::new();
    handle_typing_data(&mut events, entry("e1"), String::from("a"), user("u1"), TypingTarget::Description, 1);
    handle_typing_data(&mut events, entry("e2"), String::from("b"), user("u1"), TypingTarget::Description, 2);
    handle_typing_data(&mut events, None, String::from("c"), user("u2"), TypingTarget::Description, 3);
    assert_eq!(events.len(), 3);
    assert_eq!(events[0].time_received, 1);
    assert_eq!(events[2].event_log_entry.is_none(), true);
}

#[test]
fn clearing_a_field_removes_its_event() {
    let mut events = Vec::new();
    handle_typing_data(&mut events, entry("e1"), String::from("a"), user("u1"), TypingTarget::Description, 1);
    handle_typing_data(&mut events, entry("e1"), String::from("b"), user("u1"), TypingTarget::MediaLink, 2);
    handle_typing_data(&mut events, entry("e1"), String::new(), user("u1"), TypingTarget::Description, 3);
    assert_eq!(summary(&events), vec![(String::from("u1"), Some(String::from("e1")), TypingTarget::MediaLink, String::from("b"), 2)]);
    handle_typing_data(&mut events, entry("e1"), String::new(), user("u1"), TypingTarget::Description, 4);
    assert_eq!(events.len(), 1);
}

#[test]
fn clearing_the_parent_is_recorded() {
    let mut events = Vec::new();
    handle_typing_data(&mut events, entry("e1"), String::new(), user("u1"), TypingTarget::Parent, 5);
    assert_eq!(summary(&events), vec![(String::from("u1"), Some(String::from("e1")), TypingTarget::Parent, String::new(), 5)]);
}

#[test]
fn typing_is_stamped_with_the_given_time() {
    let mut events = Vec::new();
    handle_typing_data(&mut events, entry("e1"), String::from("x"), user("u1"), TypingTarget::EndTime, 5);
    assert_eq!(events.len(), 1);
    assert_eq!(events[0].data, "x");
    assert_eq!(events[0].time_received, 5);
}

#[test]
fn clear_typing_removes_user_on_entry() {
    let mut events = Vec::new();
    handle_typing_data(&mut events, entry("e1"), String::from("a"), user("u1"), TypingTarget::Description, 1);
    handle_typing_data(&mut events, entry("e1"), String::from("b"), user("u1"), TypingTarget::EndTime, 1);
    handle_typing_data(&mut events, entry("e1"), String::from("c"), user("u2"), TypingTarget::Description, 1);
    handle_typing_data(&mut events, entry("e2"), String::from("d"), user("u1"), TypingTarget::Description, 1);
    clear_typing(&mut events, &entry("e1"), &user("u1"));
    assert_eq!(events.iter().map(|e| e.data.clone()).collect::<Vec<_>>(), vec!["c", "d"]);
}

#[test]
fn clear_typing_compares_the_whole_user_and_entry() {
    let mut events = Vec::new();
    handle_typing_data(&mut events, entry("e1"), String::from("a"), user("u1"), TypingTarget::Description, 1);
    let mut recolored = user("u1");
    recolored.color = RgbColor { r: 200, g: 0, b: 0 };
    clear_typing(&mut events, &entry("e1"), &recolored);
    assert_eq!(events.len(), 1);
    let mut moved = entry("e1");
    moved.as_mut().unwrap().start_time = Some(99);
    clear_typing(&mut events, &moved, &user("u1"));
    assert_eq!(events.len(), 1);
    clear_typing(&mut events, &entry("e1"), &user("u1"));
    assert!(events.is_empty());
}

#[test]
fn new_entry_clears_users_new_entry_typing() {
    let mut events = Vec::new();
    handle_typing_data(&mut events, None, String::from("a"), user("u1"), TypingTarget::Description, 1);
    handle_typing_data(&mut events, entry("e1"), String::from("b"), user("u1"), TypingTarget::Description, 1);
    handle_typing_data(&mut events, None, String::from("c"), user("u2"), TypingTarget::Description, 1);
    clear_typing_for_new_entry(&mut events, &String::from("u1"));
    assert_eq!(events.iter().map(|e| e.data.clone()).collect::<Vec<_>>(), vec!["b", "c"]);
}

#[test]
fn updated_entry_clears_users_typing_on_it() {
    let mut events = Vec::new();
    handle_typing_data(&mut events, entry("e1"), String::from("a"), user("u1"), TypingTarget::Description, 1);
    handle_typing_data(&mut events, entry("e2"), String::from("b"), user("u1"), TypingTarget::Description, 1);
    handle_typing_data(&mut events, entry("e1"), String::from("c"), user("u2"), TypingTarget::Description, 1);
    handle_typing_data(&mut events, None, String::from("d"), user("u1"), TypingTarget::Description, 1);
    clear_typing_for_updated_entry(&mut events, &String::from("u1"), &String::from("e1"));
    assert_eq!(events.iter().map(|e| e.data.clone()).collect::<Vec<_>>(), vec!["b", "c", "d"]);
}

#[test]
fn expiry_drops_old_events() {
    let mut events = Vec::new();
    handle_typing_data(&mut events, entry("e1"), String::from("old"), user("u1"), TypingTarget::Description, 1_000);
    handle_typing_data(&mut events, entry("e2"), String::from("edge"), user("u1"), TypingTarget::Description, 31_000);
    handle_typing_data(&mut events, entry("e3"), String::from("new"), user("u1"), TypingTarget::Description, 31_001);
    expire_typing_events_at(&mut events, 61_000);
    assert_eq!(events.iter().map(|e| e.data.clone()).collect::<Vec<_>>(), vec!["new"]);
}
