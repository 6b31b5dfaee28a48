use stream_log_client::records::{Association, AvailableEvent, Record};
use stream_log_client::shared_data::{DataKinds, DataUpdate, SharedData};

struct Kinds;

impl DataKinds for Kinds {
    type User = &'static str;
    type Event = u8;
    type EntryType = u8;
    type Group = u8;
    type GroupEvent = u8;
    type EventEditor = u8;
    type UserGroup = u8;
    type TypeEvent = u8;
    type Tab = u8;
    type Application = u8;
    type AuthKey = &'static str;
    type InfoPage = u8;
    type AvailableEvent = u8;
    type UsernameCheck = bool;
    type Registration = bool;
}

fn empty() -> SharedData<Kinds> {
    SharedData {
        user: None,
        available_events: Vec::new(),
        all_users: Vec::new(),
        all_events: Vec::new(),
        all_entry_types: Vec::new(),
        all_permission_groups: Vec::new(),
        permission_group_events: Vec::new(),
        event_editors: Vec::new(),
        user_permission_groups: Vec::new(),
        entry_type_events: Vec::new(),
        all_event_log_tabs: Vec::new(),
        all_applications: Vec::new(),
        application_auth_keys: Vec::new(),
        all_info_pages: Vec::new(),
        username_check: None,
        final_register: None,
    }
}

fn record<D>(id: &str, data: D) -> Record<D> {
    Record { id: String::from(id), data }
}

fn pair(first: &str, second: &str, data: u8) -> Association<u8> {
    Association { first_id: String::from(first), second_id: String::from(second), data }
}

#[test]
fn user_update_sorts_available_events_newest_first() {
    let mut data = empty();
    let events = vec![
        AvailableEvent { id: String::from("a"), start_time: 10, data: 0u8 },
        AvailableEvent { id: String::from("b"), start_time: 30, data: 0u8 },
        AvailableEvent { id: String::from("c"), start_time: 20, data: 0u8 },
    ];
    data.apply(DataUpdate::UserUpdate("me", events));
    assert_eq!(data.user, Some("me"));
    let ids: Vec<&str> = data.available_events.iter().map(|e| e.id.as_str()).collect();
    assert_eq!(ids, vec!["b", "c", "a"]);
}

#[test]
fn admin_lists_follow_updates() {
    let mut data = empty();
    data.apply(DataUpdate::LoadEvents(vec![record("e1", 1)]));
    data.apply(DataUpdate::UpdateEvent(record("e1", 2)));
    data.apply(DataUpdate::UpdateEvent(record("e2", 3)));
    assert_eq!(data.all_events.iter().map(|r| r.data).collect::<Vec<_>>(), vec![2, 3]);

    data.apply(DataUpdate::AddTypeToEvent(pair("t", "e1", 1)));
    data.apply(DataUpdate::AddTypeToEvent(pair("t", "e1", 2)));
    assert_eq!(data.entry_type_events.len(), 1);
    assert_eq!(data.entry_type_events[0].data, 1);
    data.apply(DataUpdate::RemoveTypeFromEvent(String::from("t"), String::from("e1")));
    assert!(data.entry_type_events.is_empty());

    data.apply(DataUpdate::SetEventPermissionForGroup(pair("g", "e1", 1)));
    data.apply(DataUpdate::SetEventPermissionForGroup(pair("g", "e1", 5)));
    assert_eq!(data.permission_group_events.len(), 1);
    assert_eq!(data.permission_group_events[0].data, 5);

    data.apply(DataUpdate::AddTab(record("tab", 1)));
    data.apply(DataUpdate::AddTab(record("tab", 2)));
    data.apply(DataUpdate::UpdateTab(record("tab", 9)));
    assert_eq!(data.all_event_log_tabs.iter().map(|r| r.data).collect::<Vec<_>>(), vec![9, 2]);
    data.apply(DataUpdate::DeleteTab(String::from("tab")));
    assert!(data.all_event_log_tabs.is_empty());

    data.apply(DataUpdate::UpdateApplication(record("app", 1)));
    data.apply(DataUpdate::ShowApplicationAuthKey(record("app", "key")));
    data.apply(DataUpdate::RevokeApplication(String::from("app")));
    assert!(data.all_applications.is_empty());
    assert!(data.application_auth_keys.is_empty());

    data.apply(DataUpdate::UsernameCheck(true));
    data.apply(DataUpdate::Registration(false));
    assert_eq!(data.username_check, Some(true));
    assert_eq!(data.final_register, Some(false));
}
