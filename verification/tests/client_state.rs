use stream_log_client::client_state::{ClientState, EventLoad, ServerMessage};
use stream_log_client::event_log::EventLogEntry;
use stream_log_client::event_state::{EventUpdate, PermissionLevel};
use stream_log_client::records::{AvailableEvent, Record};
use stream_log_client::server_errors::SubscriptionFailure;
use stream_log_client::shared_data::{DataKinds, DataUpdate, SharedData};
use stream_log_client::subscription_manager::SubscriptionManager;
use stream_log_client::subscription_type::SubscriptionType;

struct Kinds;

impl DataKinds for Kinds {
    type User = &'static str;
    type Event = u8;
    type EntryType = u8;
    type Group = u8;
    type GroupEvent = u8;
    type EventEditor = u8;
    type UserGroup = u8;
    type TypeEvent = u8;
    type Tab = u8;
    type Application = u8;
    type AuthKey = u8;
    type InfoPage = u8;
    type AvailableEvent = u8;
    type UsernameCheck = bool;
    type Registration = bool;
}

type Client = ClientState<&'static str, u8, u8, u8, u8, u8, Kinds>;
type Message = ServerMessage<&'static str, u8, u8, u8, u8, u8, Kinds>;

fn entry(id: &str, start: i64) -> EventLogEntry {
    EventLogEntry { id: String::from(id), parent: None, start_time: Some(start), manual_sort_key: None, created_at: 0, details: Default::default() }
}

fn load(name: &'static str, entries: Vec<EventLogEntry>) -> EventLoad<&'static str, u8, u8, u8, u8, u8> {
    EventLoad {
        event: name,
        permission: PermissionLevel::View,
        entries,
        entry_types: Vec::new(),
        editors: Vec::new(),
        info_pages: Vec::new(),
        tabs: Vec::new(),
        tags: Vec::new(),
    }
}

fn client() -> Client {
    ClientState { subscriptions: SubscriptionManager::new(), events: Vec::new(), shared: SharedData::new(), errors: Vec::new() }
}

#[test]
fn loading_an_event_confirms_its_subscription_and_tracks_it() {
    let mut state = client();
    let t = SubscriptionType::EventLogData(String::from("ev"));
    let plan = state.subscriptions.plan_subscriptions(&vec![t.duplicate()]);
    state.subscriptions = plan.next;
    assert_eq!(state.subscriptions.requested_count(&t), 1);
    state.handle_message(Message::EventLoaded(String::from("ev"), load("Event", vec![entry("a", 1)])), None, 0);
    assert_eq!(state.subscriptions.requested_count(&t), 0);
    assert_eq!(state.subscriptions.active_count(&t), 1);
    assert_eq!(state.events.len(), 1);
    assert_eq!(state.events[0].id, "ev");
    assert_eq!(state.events[0].state.event, "Event");

    state.handle_message(
        Message::EventUpdate(String::from("ev"), EventUpdate::NewLogEntry(entry("b", 0), String::from("u"))),
        None,
        0,
    );
    let ids: Vec<&str> = state.events[0].state.entries.iter().map(|e| e.id.as_str()).collect();
    assert_eq!(ids, vec!["b", "a"]);
    state.handle_message(Message::EventUpdate(String::from("other"), EventUpdate::UpdateEvent("x")), None, 0);
    assert_eq!(state.events[0].state.event, "Event");

    state.handle_message(Message::EventLoaded(String::from("ev"), load("Again", vec![])), None, 0);
    assert_eq!(state.events.len(), 1);
    assert_eq!(state.events[0].state.event, "Again");
    assert!(state.events[0].state.entries.is_empty());

    state.handle_message(Message::Unsubscribed(t.duplicate()), None, 0);
    assert_eq!(state.subscriptions.active_count(&t), 0);
}

#[test]
fn refusals_and_lost_connections_add_errors() {
    let mut state = client();
    let plan = state.subscriptions.plan_subscriptions(&vec![SubscriptionType::AdminUsers]);
    state.subscriptions = plan.next;
    state.handle_message(Message::SubscriptionFailure(SubscriptionType::AdminUsers, SubscriptionFailure::NotAllowed), None, 0);
    assert_eq!(state.subscriptions.requested_count(&SubscriptionType::AdminUsers), 0);
    assert_eq!(state.errors.len(), 1);
    assert_eq!(state.errors[0].message(), "Subscription to AdminUsers failed; subscription not allowed");
    state.handle_message(Message::Data(DataUpdate::Registration(true)), None, 0);
    assert!(state.subscriptions.is_empty());
    assert_eq!(state.shared.final_register, Some(true));
    state.handle_message(Message::ConnectionLost, None, 0);
    assert_eq!(state.errors.len(), 2);
}

#[test]
fn list_loads_fill_the_shared_data_and_confirm_their_subscription() {
    let mut state = client();
    let plan = state.subscriptions.plan_subscriptions(&vec![SubscriptionType::AdminEvents]);
    state.subscriptions = plan.next;
    let events = vec![Record { id: String::from("e1"), data: 1u8 }, Record { id: String::from("e2"), data: 2u8 }];
    state.handle_message(Message::Data(DataUpdate::LoadEvents(events)), None, 0);
    assert_eq!(state.subscriptions.requested_count(&SubscriptionType::AdminEvents), 0);
    assert_eq!(state.subscriptions.active_count(&SubscriptionType::AdminEvents), 1);
    assert_eq!(state.shared.all_events.len(), 2);
    assert_eq!(state.shared.all_events[1].id, "e2");
    assert!(state.errors.is_empty());
}

#[test]
fn user_updates_set_the_user_and_sort_events_newest_first() {
    let mut state = client();
    let available = vec![
        AvailableEvent { id: String::from("old"), start_time: 10, data: 0u8 },
        AvailableEvent { id: String::from("new"), start_time: 30, data: 0u8 },
        AvailableEvent { id: String::from("mid"), start_time: 20, data: 0u8 },
    ];
    state.handle_message(Message::Data(DataUpdate::UserUpdate("me", available)), None, 0);
    assert_eq!(state.shared.user, Some("me"));
    let ids: Vec<&str> = state.shared.available_events.iter().map(|e| e.id.as_str()).collect();
    assert_eq!(ids, vec!["new", "mid", "old"]);
    assert!(state.subscriptions.is_empty());
}
