use stream_log_client::color::RgbColor;
use stream_log_client::event_log::EventLogEntry;
use stream_log_client::event_state::{PermissionLevel, EventState, EventUpdate, TypingNotice};
use stream_log_client::records::{EventLogTab, Record};
use stream_log_client::typing::{TypingEvent, TypingTarget, TypingUser};

type State = EventState<&'static str, u8, u8, u8, u8, u8>;
type Update = EventUpdate<&'static str, u8, u8, u8, u8, u8>;

fn empty() -> State {
    EventState {
        event: "event",
        permission: PermissionLevel::Edit,
        video_edit_state_filters: Vec::new(),
        video_processing_state_filters: Vec::new(),
        entries: Vec::new(),
        typing: Vec::new(),
        entry_types: Vec::new(),
        editors: Vec::new(),
        info_pages: Vec::new(),
        tabs: Vec::new(),
        tags: Vec::new(),
    }
}

fn entry(id: &str, start: i64) -> EventLogEntry {
    EventLogEntry { id: String::from(id), parent: None, start_time: Some(start), manual_sort_key: None, created_at: 0, details: Default::default() }
}

fn user(id: &str) -> TypingUser {
    TypingUser { id: String::from(id), username: String::from(id), color: RgbColor { r: 9, g: 9, b: 9 }, is_admin: false }
}

fn record(id: &str, data: u8) -> Record<u8> {
    Record { id: String::from(id), data }
}

fn ids(state: &State) -> Vec<String> {
    state.entries.iter().map(|e| e.id.clone()).collect()
}

#[test]
fn entries_are_added_updated_and_deleted_in_order() {
    let mut state = empty();
    let me = String::from("me");
    state.apply(Update::NewLogEntry(entry("a", 10), String::from("u1")), Some(&me), 0);
    state.apply(Update::NewLogEntry(entry("b", 30), String::from("u1")), Some(&me), 0);
    state.apply(Update::NewLogEntry(entry("c", 20), String::from("u1")), Some(&me), 0);
    assert_eq!(ids(&state), vec!["a", "c", "b"]);
    state.apply(Update::UpdateLogEntry(entry("a", 40), None), Some(&me), 0);
    assert_eq!(ids(&state), vec!["c", "b", "a"]);
    state.apply(Update::DeleteLogEntry(String::from("b")), Some(&me), 0);
    assert_eq!(ids(&state), vec!["c", "a"]);
    state.apply(Update::UpdateEvent("renamed"), Some(&me), 0);
    assert_eq!(state.event, "renamed");
}

#[test]
fn typing_is_tracked_for_others_only_when_logged_in() {
    let mut state = empty();
    let me = String::from("me");
    let notice = |who: &str, data: &str| {
        Update::Typing(TypingNotice {
            entry: None,
            data: String::from(data),
            user: user(who),
            target: TypingTarget::Description,
        })
    };
    state.apply(notice("me", "mine"), Some(&me), 0);
    assert!(state.typing.is_empty());
    state.apply(notice("u1", "theirs"), None, 0);
    assert!(state.typing.is_empty());
    state.apply(notice("u1", "theirs"), Some(&me), 0);
    assert_eq!(state.typing.len(), 1);
    assert_eq!(state.typing[0].data, "theirs");
    state.apply(Update::NewLogEntry(entry("a", 10), String::from("u1")), Some(&me), 0);
    assert!(state.typing.is_empty());

    state.apply(notice("u2", "x"), Some(&me), 0);
    state.apply(Update::ClearTyping(None, user("u2")), None, 0);
    assert_eq!(state.typing.len(), 1);
    state.apply(Update::ClearTyping(None, user("u2")), Some(&me), 0);
    assert!(state.typing.is_empty());
}

#[test]
fn updating_an_entry_clears_its_authors_typing() {
    let mut state = empty();
    let me = String::from("me");
    state.apply(Update::NewLogEntry(entry("a", 10), String::from("u1")), Some(&me), 0);
    state.typing.push(TypingEvent {
        event_log_entry: Some(entry("a", 10)),
        user: user("u1"),
        target_field: TypingTarget::StartTime,
        data: String::from("0:01"),
        time_received: 0,
    });
    state.apply(Update::UpdateLogEntry(entry("a", 10), None), Some(&me), 0);
    assert_eq!(state.typing.len(), 1);
    state.apply(Update::UpdateLogEntry(entry("a", 10), Some(String::from("u1"))), Some(&me), 0);
    assert!(state.typing.is_empty());
}

#[test]
fn records_of_the_event_follow_updates() {
    let mut state = empty();
    let me = String::from("me");
    state.apply(Update::AddEntryType(record("t1", 1)), Some(&me), 0);
    state.apply(Update::UpdateEntryType(record("t1", 2)), Some(&me), 0);
    state.apply(Update::UpdateEntryType(record("t9", 9)), Some(&me), 0);
    assert_eq!(state.entry_types.len(), 1);
    assert_eq!(state.entry_types[0].data, 2);
    state.apply(Update::DeleteEntryType(String::from("t1")), Some(&me), 0);
    assert!(state.entry_types.is_empty());

    state.apply(Update::AddEditor(record("e1", 1)), Some(&me), 0);
    state.apply(Update::RemoveEditor(String::from("e1")), Some(&me), 0);
    assert!(state.editors.is_empty());

    state.apply(Update::UpdateInfoPage(record("p1", 1)), Some(&me), 0);
    state.apply(Update::UpdateInfoPage(record("p1", 5)), Some(&me), 0);
    assert_eq!(state.info_pages.len(), 1);
    assert_eq!(state.info_pages[0].data, 5);
    state.apply(Update::DeleteInfoPage(String::from("p1")), Some(&me), 0);
    assert!(state.info_pages.is_empty());

    state.apply(Update::UpdateTag(record("g1", 1)), Some(&me), 0);
    state.apply(Update::RemoveTag(String::from("g1")), Some(&me), 0);
    assert!(state.tags.is_empty());

    let tab = |id: &str, start: i64| EventLogTab { id: String::from(id), start_time: start, data: 0u8 };
    state.apply(Update::UpdateTab(tab("late", 50)), Some(&me), 0);
    state.apply(Update::UpdateTab(tab("early", 10)), Some(&me), 0);
    let tab_ids: Vec<&str> = state.tabs.iter().map(|t| t.id.as_str()).collect();
    assert_eq!(tab_ids, vec!["early", "late"]);
    state.apply(Update::DeleteTab(String::from("early")), Some(&me), 0);
    assert_eq!(state.tabs.len(), 1);
}
