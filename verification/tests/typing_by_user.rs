use stream_log_client::color::RgbColor;
use stream_log_client::event_log::EventLogEntry;
use stream_log_client::typing::{handle_typing_data, TypingEvent, TypingTarget, TypingUser};
use stream_log_client::typing_summary::typing_by_user;

fn named(id: &str, name: &str) -> TypingUser {
    TypingUser { id: String::from(id), username: String::from(name), color: RgbColor { r: 0, g: 0, b: 0 }, is_admin: false }
}

fn entry(id: &str) -> Option<EventLogEntry> {
    Some(EventLogEntry { id: String::from(id), parent: None, start_time: Some(0), manual_sort_key: None, created_at: 0, details: Default::default() })
}

fn event(entry_id: Option<&str>, user: TypingUser, target: TypingTarget, data: &str) -> TypingEvent {
    TypingEvent {
        event_log_entry: entry_id.and_then(entry),
        user,
        target_field: target,
        data: String::from(data),
        time_received: 0,
    }
}

#[test]
fn typing_grouped_per_user_and_sorted_by_name() {
    let events = vec![
        event(Some("e1"), named("u2", "zed"), TypingTarget::Description, "hel"),
        event(Some("e1"), named("u1", "amy"), TypingTarget::StartTime, "1:00"),
        event(Some("e2"), named("u3", "bob"), TypingTarget::Description, "other entry"),
        event(Some("e1"), named("u2", "zed"), TypingTarget::Description, "hello"),
        event(Some("e1"), named("u2", "zed"), TypingTarget::Parent, "p1"),
        event(None, named("u4", "cat"), TypingTarget::EndTime, "2:00"),
    ];
    let summaries = typing_by_user(&events, &entry("e1"));
    assert_eq!(summaries.len(), 2);
    assert_eq!(summaries[0].user.id, "u1");
    assert_eq!(summaries[0].start_time, "1:00");
    assert_eq!(summaries[0].parent, None);
    assert_eq!(summaries[0].description, "");
    assert_eq!(summaries[1].user.id, "u2");
    assert_eq!(summaries[1].description, "hello");
    assert_eq!(summaries[1].parent, Some(String::from("p1")));
    assert_eq!(summaries[1].start_time, "");

    let new_entry = typing_by_user(&events, &None);
    assert_eq!(new_entry.len(), 1);
    assert_eq!(new_entry[0].user.username, "cat");
    assert_eq!(new_entry[0].end_time, "2:00");

    assert!(typing_by_user(&vec![], &entry("e1")).is_empty());
}

#[test]
fn first_seen_name_is_kept_for_a_user() {
    let events = vec![
        event(Some("e1"), named("u1", "old"), TypingTarget::MediaLink, "a"),
        event(Some("e1"), named("u1", "new"), TypingTarget::NotesToEditor, "b"),
    ];
    let summaries = typing_by_user(&events, &entry("e1"));
    assert_eq!(summaries.len(), 1);
    assert_eq!(summaries[0].user.username, "old");
    assert_eq!(summaries[0].media_link, "a");
    assert_eq!(summaries[0].notes_to_editor, "b");
}

#[test]
fn recorded_typing_is_shown() {
    let mut events = Vec::new();
    handle_typing_data(&mut events, entry("e1"), String::from("first"), named("u1", "amy"), TypingTarget::Description, 10);
    handle_typing_data(&mut events, entry("e1"), String::from("second"), named("u1", "amy"), TypingTarget::Description, 20);
    handle_typing_data(&mut events, entry("e1"), String::from("p9"), named("u1", "amy"), TypingTarget::Parent, 30);
    let summaries = typing_by_user(&events, &entry("e1"));
    assert_eq!(summaries.len(), 1);
    assert_eq!(summaries[0].description, "second");
    assert_eq!(summaries[0].parent, Some(String::from("p9")));
}
