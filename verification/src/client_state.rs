use vstd::prelude::*;
use crate::error_data::ErrorData;
use crate::event_log::EventLogEntry;
use crate::event_state::{event_updated, viewer_view, EventState, EventUpdate, PermissionLevel};
use crate::records::{EventLogTab, Record};
use crate::shared_data::{data_updated, load_subscription, load_target, DataKinds, DataUpdate, SharedData};
use crate::server_errors::{connection_lost_error, failure_suffix, subscription_failure_error, SubscriptionFailure};
use crate::subscription_manager::{confirmation_applied, refusal_applied, removal_applied, SubscriptionManager};
use crate::subscription_type::{debug_text, SubscriptionTarget, SubscriptionType};
use crate::typing::TypingEvent;

verus! {

/// An event the client is subscribed to, with its id.
pub struct EventData<E, ET, U, P, T, G> {
    pub id: String,
    pub state: EventState<E, ET, U, P, T, G>,
}

/// The data of an event that the server sends when a subscription to it
/// starts.
pub struct EventLoad<E, ET, U, P, T, G> {
    pub event: E,
    pub permission: PermissionLevel,
    pub entries: Vec<EventLogEntry>,
    pub entry_types: Vec<Record<ET>>,
    pub editors: Vec<Record<U>>,
    pub info_pages: Vec<Record<P>>,
    pub tabs: Vec<EventLogTab<T>>,
    pub tags: Vec<Record<G>>,
}

/// What the client tracks of its exchange with the server: its
/// subscriptions, the events it is subscribed to, the data kept outside
/// events, and the errors to show.
pub struct ClientState<E, ET, U, P, T, G, K: DataKinds> {
    pub subscriptions: SubscriptionManager,
    pub events: Vec<EventData<E, ET, U, P, T, G>>,
    /// What the client keeps outside events.
    pub shared: SharedData<K>,
    pub errors: Vec<ErrorData>,
}

/// A message from the server, or the end of the connection.
pub enum ServerMessage<E, ET, U, P, T, G, K: DataKinds> {
    /// A subscription to the log data of the event with this id started.
    EventLoaded(String, EventLoad<E, ET, U, P, T, G>),
    /// A change of the data kept outside events: a list loaded when its
    /// subscription starts, a change the server sends, or an answer to
    /// registration.
    Data(DataUpdate<K>),
    /// An update of the event with this id.
    EventUpdate(String, EventUpdate<E, ET, U, P, T, G>),
    /// The server ended a subscription.
    Unsubscribed(SubscriptionType),
    /// The server refused a subscription.
    SubscriptionFailure(SubscriptionType, SubscriptionFailure),
    /// The connection broke.
    ConnectionLost,
}

/// `i` is the first event with the id `id`.
pub open spec fn is_first_event<E, ET, U, P, T, G>(s: Seq<EventData<E, ET, U, P, T, G>>, id: Seq<char>, i: int) -> bool {
    &&& 0 <= i < s.len()
    &&& s[i].id@ == id
    &&& forall|j: int| 0 <= j < i ==> s[j].id@ != id
}

/// No event has the id `id`.
pub open spec fn no_event<E, ET, U, P, T, G>(s: Seq<EventData<E, ET, U, P, T, G>>, id: Seq<char>) -> bool {
    forall|j: int| 0 <= j < s.len() ==> s[j].id@ != id
}

/// `state` holds what `load` brought, and the typing and video state
/// filters given.
pub open spec fn loaded<E, ET, U, P, T, G>(
    state: EventState<E, ET, U, P, T, G>,
    load: EventLoad<E, ET, U, P, T, G>,
    typing: Seq<TypingEvent>,
    edit_filters: Seq<u8>,
    processing_filters: Seq<u8>,
) -> bool {
    &&& state.event == load.event
    &&& state.permission == load.permission
    &&& state.video_edit_state_filters@ == edit_filters
    &&& state.video_processing_state_filters@ == processing_filters
    &&& state.entries == load.entries
    &&& state.entry_types == load.entry_types
    &&& state.editors == load.editors
    &&& state.info_pages == load.info_pages
    &&& state.tabs == load.tabs
    &&& state.tags == load.tags
    &&& state.typing@ == typing
}

/// `after` is `before` with one more error, which shows `message` and
/// nothing more.
pub open spec fn error_added(before: Seq<ErrorData>, after: Seq<ErrorData>, message: Seq<char>) -> bool {
    &&& after.len() == before.len() + 1
    &&& after.drop_last() == before
    &&& after.last()@.message == message
    &&& after.last()@.error is None
}

/// `after` is `before` once `message` arrived for a client whose user has
/// the id `viewer`, at time `now`:
/// - the log data of an event replaces what the client held of it (keeping
///   what users are typing there and the video state filters) or adds the
///   event with no typing and no filters, and confirms the subscription;
/// - a change of the data kept outside events is applied to it (see
///   [`data_updated`]), and a list load confirms its subscription;
/// - an update of a tracked event is applied to it (see
///   [`event_updated`]); one of another event is dropped;
/// - an unsubscription drops one count of the subscription;
/// - a refusal adds its error and drops the requested subscription;
/// - the end of the connection adds its error.
pub open spec fn message_applied<E, ET, U, P, T, G, K: DataKinds>(
    before: ClientState<E, ET, U, P, T, G, K>,
    after: ClientState<E, ET, U, P, T, G, K>,
    message: ServerMessage<E, ET, U, P, T, G, K>,
    viewer: Option<Seq<char>>,
    now: i64,
) -> bool {
    match message {
        ServerMessage::EventLoaded(id, load) => {
            &&& after.errors == before.errors
            &&& after.shared == before.shared
            &&& confirmation_applied(before.subscriptions, after.subscriptions, SubscriptionTarget::EventLogData(id@))
            &&& forall|i: int|
                is_first_event(before.events@, id@, i) ==> {
                    &&& after.events@.len() == before.events@.len()
                    &&& forall|j: int| 0 <= j < after.events@.len() && j != i ==> after.events@[j] == before.events@[j]
                    &&& after.events@[i].id == before.events@[i].id
                    &&& loaded(
                        after.events@[i].state,
                        load,
                        before.events@[i].state.typing@,
                        before.events@[i].state.video_edit_state_filters@,
                        before.events@[i].state.video_processing_state_filters@,
                    )
                }
            &&& no_event(before.events@, id@) ==> {
                &&& after.events@.drop_last() == before.events@
                &&& after.events@.len() == before.events@.len() + 1
                &&& after.events@.last().id == id
                &&& loaded(after.events@.last().state, load, Seq::empty(), Seq::empty(), Seq::empty())
            }
        },
        ServerMessage::Data(update) => {
            &&& after.errors == before.errors
            &&& after.events == before.events
            &&& data_updated(before.shared, after.shared, update)
            &&& match load_target(update) {
                Some(t) => confirmation_applied(before.subscriptions, after.subscriptions, t),
                None => after.subscriptions == before.subscriptions,
            }
        },
        ServerMessage::EventUpdate(id, update) => {
            &&& after.errors == before.errors
            &&& after.shared == before.shared
            &&& after.subscriptions == before.subscriptions
            &&& no_event(before.events@, id@) ==> after.events == before.events
            &&& forall|i: int|
                is_first_event(before.events@, id@, i) ==> {
                    &&& after.events@.len() == before.events@.len()
                    &&& forall|j: int| 0 <= j < after.events@.len() && j != i ==> after.events@[j] == before.events@[j]
                    &&& after.events@[i].id == before.events@[i].id
                    &&& event_updated(before.events@[i].state, after.events@[i].state, update, viewer, now)
                }
        },
        ServerMessage::Unsubscribed(t) => {
            &&& after.errors == before.errors
            &&& after.shared == before.shared
            &&& after.events == before.events
            &&& removal_applied(before.subscriptions, after.subscriptions, t@)
        },
        ServerMessage::SubscriptionFailure(t, failure) => {
            &&& after.events == before.events
            &&& after.shared == before.shared
            &&& refusal_applied(before.subscriptions, after.subscriptions, t@)
            &&& error_added(
                before.errors@,
                after.errors@,
                "Subscription to "@ + debug_text(t@) + failure_suffix(failure),
            )
        },
        ServerMessage::ConnectionLost => {
            &&& after.events == before.events
            &&& after.shared == before.shared
            &&& after.subscriptions == before.subscriptions
            &&& error_added(
                before.errors@,
                after.errors@,
                "The connection with the server has broken. If this wasn't expected, refresh the page."@,
            )
        },
    }
}

/// The state of an event just loaded, keeping the typing and the filters
/// given.
fn state_from_load<E, ET, U, P, T, G>(
    load: EventLoad<E, ET, U, P, T, G>,
    typing: Vec<TypingEvent>,
    edit_filters: Vec<u8>,
    processing_filters: Vec<u8>,
) -> (state: EventState<E, ET, U, P, T, G>)
    ensures
        loaded(state, load, typing@, edit_filters@, processing_filters@),
{
    EventState {
        event: load.event,
        permission: load.permission,
        video_edit_state_filters: edit_filters,
        video_processing_state_filters: processing_filters,
        entries: load.entries,
        typing,
        entry_types: load.entry_types,
        editors: load.editors,
        info_pages: load.info_pages,
        tabs: load.tabs,
        tags: load.tags,
    }
}

/// Finds the first event with the id `id`.
fn find_event<E, ET, U, P, T, G>(events: &Vec<EventData<E, ET, U, P, T, G>>, id: &String) -> (found: Option<usize>)
    ensures
        match found {
            Some(i) => is_first_event(events@, id@, i as int),
            None => no_event(events@, id@),
        },
{
    let mut i: usize = 0;
    while i < events.len()
        invariant
            i <= events@.len(),
            forall|j: int| 0 <= j < i ==> events@[j].id@ != id@,
        decreases events@.len() - i,
    {
        let same: bool = events[i].id == *id;
        if same {
            return Some(i);
        }
        i = i + 1;
    }
    None
}

impl<E, ET, U, P, T, G, K: DataKinds> ClientState<E, ET, U, P, T, G, K> {
    /// Handles one message from the server (see [`message_applied`]);
    /// `viewer` is the id of the logged-in user, if any, and `now` the time
    /// the message arrived, in milliseconds since the Unix epoch.
    pub fn handle_message(&mut self, message: ServerMessage<E, ET, U, P, T, G, K>, viewer: Option<&String>, now: i64)
        requires
            old(self).subscriptions.wf(),
        ensures
            final(self).subscriptions.wf(),
            message_applied(*old(self), *final(self), message, viewer_view(viewer), now),
    {
        match message {
            ServerMessage::EventLoaded(id, load) => {
                let target = SubscriptionType::EventLogData(id.clone());
                match find_event(&self.events, &id) {
                    Some(i) => {
                        let ghost before = self.events@;
                        let old_data = self.events.remove(i);
                        let data = EventData {
                            id: old_data.id,
                            state: state_from_load(
                                load,
                                old_data.state.typing,
                                old_data.state.video_edit_state_filters,
                                old_data.state.video_processing_state_filters,
                            ),
                        };
                        self.events.insert(i, data);
                        proof {
                            assert(self.events@ =~= before.update(i as int, self.events@[i as int]));
                            assert forall|k: int| is_first_event(before, id@, k) implies k == i by {
                                if k < i {
                                    assert(before[k].id@ != id@);
                                } else if k > i {
                                    assert(before[i as int].id@ != id@);
                                }
                            }
                        }
                    },
                    None => {
                        let ghost before = self.events@;
                        let data = EventData { id, state: state_from_load(load, Vec::new(), Vec::new(), Vec::new()) };
                        self.events.push(data);
                        proof {
                            assert(self.events@.drop_last() =~= before);
                        }
                    },
                }
                self.subscriptions.subscription_confirmation_received(target);
            },
            ServerMessage::Data(update) => {
                let target = load_subscription(&update);
                self.shared.apply(update);
                match target {
                    Some(t) => self.subscriptions.subscription_confirmation_received(t),
                    None => {},
                }
            },
            ServerMessage::EventUpdate(id, update) => {
                match find_event(&self.events, &id) {
                    Some(i) => {
                        let mut data = self.events.remove(i);
                        data.state.apply(update, viewer, now);
                        self.events.insert(i, data);
                    },
                    None => {},
                }
            },
            ServerMessage::Unsubscribed(t) => {
                self.subscriptions.remove_subscription(t);
            },
            ServerMessage::SubscriptionFailure(t, failure) => {
                let error = subscription_failure_error(&t, failure);
                let ghost before = self.errors@;
                self.errors.push(error);
                proof {
                    assert(self.errors@.drop_last() =~= before);
                }
                self.subscriptions.subscription_failure_received(t);
            },
            ServerMessage::ConnectionLost => {
                let ghost before = self.errors@;
                self.errors.push(connection_lost_error());
                proof {
                    assert(self.errors@.drop_last() =~= before);
                }
            },
        }
    }
}

} // verus!
