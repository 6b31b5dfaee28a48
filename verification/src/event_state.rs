use vstd::prelude::*;
use crate::event_log::{
    add_new_log_entry, delete_log_entry, entry_added, entry_deleted, entry_updated, entry_views, has_no_id,
    is_first_with_id, lemma_first_with_id_exists, log_sorted, position_le, sorted_by_start, start_less,
    update_log_entry, EventLogEntry,
};
use crate::records::{
    is_first_record, law_tabs_without, lemma_first_record_exists, lemma_record_dropped, lemma_record_put,
    lemma_tab_put, no_record, no_tab, record_dropped, record_put, record_removed, record_updated, record_upserted,
    remove_first_by_id, remove_tabs_by_id, tab_put, tab_upserted, tabs_sorted, tabs_without, update_existing_by_id,
    upsert_by_id, upsert_tab, EventLogTab, Record,
};
use crate::typing::law_kept_events;
use crate::typing::{
    clear_typing, clear_typing_for_new_entry, clear_typing_for_updated_entry, cleared, entry_id_of,
    entry_option_view, handle_typing_data, kept_events, typing_updated, typing_views, TypingEvent, TypingTarget,
    TypingUser, TypingView,
};

verus! {

/// What the client holds of an event it is subscribed to: the event, its
/// log, what other users are typing, and its entry types, editors, info
/// pages, tabs and tags. The types of the last five are those of the server's
/// records, which the client keeps without reading them here.
pub struct EventState<E, ET, U, P, T, G> {
    pub event: E,
    /// What the user may do in the event.
    pub permission: PermissionLevel,
    /// The video edit states the log is filtered to (by code; none filters nothing).
    pub video_edit_state_filters: Vec<u8>,
    /// The video processing states the log is filtered to (by code).
    pub video_processing_state_filters: Vec<u8>,
    pub entries: Vec<EventLogEntry>,
    pub typing: Vec<TypingEvent>,
    pub entry_types: Vec<Record<ET>>,
    pub editors: Vec<Record<U>>,
    pub info_pages: Vec<Record<P>>,
    pub tabs: Vec<EventLogTab<T>>,
    pub tags: Vec<Record<G>>,
}

/// What a user may do in an event.
#[derive(Clone, Copy, Debug, PartialEq, Eq, Structural)]
pub enum PermissionLevel {
    View,
    Edit,
    Supervisor,
}

impl PermissionLevel {
    /// Whether the user may edit the event's log.
    pub fn can_edit(&self) -> (can: bool)
        ensures
            can == (*self != PermissionLevel::View),
    {
        match self {
            PermissionLevel::View => false,
            _ => true,
        }
    }
}

/// A notification that a user typed into a field of an entry (of a new
/// entry where there is none).
pub struct TypingNotice {
    pub entry: Option<EventLogEntry>,
    pub data: String,
    pub user: TypingUser,
    pub target: TypingTarget,
}

/// An update of an event that the server sends to its subscribers.
pub enum EventUpdate<E, ET, U, P, T, G> {
    UpdateEvent(E),
    /// A new entry, and the id of the user who created it.
    NewLogEntry(EventLogEntry, String),
    /// The id of a deleted entry.
    DeleteLogEntry(String),
    /// An updated entry, and the id of the user who updated it, if any.
    UpdateLogEntry(EventLogEntry, Option<String>),
    Typing(TypingNotice),
    /// The user stopped typing into the entry (a new entry where there is none).
    ClearTyping(Option<EventLogEntry>, TypingUser),
    AddEntryType(Record<ET>),
    UpdateEntryType(Record<ET>),
    DeleteEntryType(String),
    AddEditor(Record<U>),
    RemoveEditor(String),
    UpdateInfoPage(Record<P>),
    DeleteInfoPage(String),
    UpdateTab(EventLogTab<T>),
    DeleteTab(String),
    UpdateTag(Record<G>),
    RemoveTag(String),
}

/// The typing events without those of the user with id `user_id` on a new
/// entry: that user just created one.
pub open spec fn without_new_entry_typing(s: Seq<TypingView>, user_id: Seq<char>) -> Seq<TypingView> {
    kept_events(s, |t: TypingView| !(t.user.id == user_id && t.event_log_entry is None))
}

/// The typing events without those of the user with id `user_id` on the
/// entry with id `entry_id`: that user just updated it.
pub open spec fn without_entry_typing(s: Seq<TypingView>, user_id: Seq<char>, entry_id: Seq<char>) -> Seq<TypingView> {
    kept_events(s, |t: TypingView| !(t.user.id == user_id && entry_id_of(t.event_log_entry) == Some(entry_id)))
}

/// `after` is `before` with `update` applied, for a client whose user has
/// the id `viewer` (none when nobody is logged in), received at time `now`
/// (milliseconds since the Unix epoch): each update changes one
/// list, or two for entries and the typing of their author, and leaves the
/// rest alone. Typing is tracked only for a logged-in user, and not the
/// user's own.
pub open spec fn event_updated<E, ET, U, P, T, G>(
    before: EventState<E, ET, U, P, T, G>,
    after: EventState<E, ET, U, P, T, G>,
    update: EventUpdate<E, ET, U, P, T, G>,
    viewer: Option<Seq<char>>,
    now: i64,
) -> bool {
    match update {
        EventUpdate::UpdateEvent(event) => after == EventState { event: event, ..before },
        EventUpdate::NewLogEntry(entry, author) => {
            &&& after == EventState { entries: after.entries, typing: after.typing, ..before }
            &&& entry_added(before.entries@, after.entries@, entry)
            &&& typing_views(after.typing@) == without_new_entry_typing(typing_views(before.typing@), author@)
        },
        EventUpdate::DeleteLogEntry(id) => {
            &&& after == EventState { entries: after.entries, ..before }
            &&& entry_deleted(before.entries@, after.entries@, id@)
        },
        EventUpdate::UpdateLogEntry(entry, author) => {
            &&& after == EventState { entries: after.entries, typing: after.typing, ..before }
            &&& entry_updated(before.entries@, after.entries@, entry)
            &&& match author {
                Some(a) => typing_views(after.typing@) == without_entry_typing(typing_views(before.typing@), a@, entry.id@),
                None => after.typing == before.typing,
            }
        },
        EventUpdate::Typing(notice) => {
            &&& after == EventState { typing: after.typing, ..before }
            &&& if viewer is Some && viewer != Some(notice.user.id@) {
                typing_updated(
                    typing_views(before.typing@),
                    typing_views(after.typing@),
                    entry_option_view(notice.entry),
                    notice.data@,
                    notice.user@,
                    notice.target,
                    now,
                )
            } else {
                after.typing == before.typing
            }
        },
        EventUpdate::ClearTyping(entry, user) => {
            &&& after == EventState { typing: after.typing, ..before }
            &&& if viewer is Some {
                typing_views(after.typing@) == cleared(typing_views(before.typing@), user@, entry_option_view(entry))
            } else {
                after.typing == before.typing
            }
        },
        EventUpdate::AddEntryType(r) => {
            &&& after == EventState { entry_types: after.entry_types, ..before }
            &&& after.entry_types@ == before.entry_types@.push(r)
        },
        EventUpdate::UpdateEntryType(r) => {
            &&& after == EventState { entry_types: after.entry_types, ..before }
            &&& record_updated(before.entry_types@, after.entry_types@, r)
        },
        EventUpdate::DeleteEntryType(id) => {
            &&& after == EventState { entry_types: after.entry_types, ..before }
            &&& record_removed(before.entry_types@, after.entry_types@, id@)
        },
        EventUpdate::AddEditor(r) => {
            &&& after == EventState { editors: after.editors, ..before }
            &&& after.editors@ == before.editors@.push(r)
        },
        EventUpdate::RemoveEditor(id) => {
            &&& after == EventState { editors: after.editors, ..before }
            &&& record_removed(before.editors@, after.editors@, id@)
        },
        EventUpdate::UpdateInfoPage(r) => {
            &&& after == EventState { info_pages: after.info_pages, ..before }
            &&& record_upserted(before.info_pages@, after.info_pages@, r)
        },
        EventUpdate::DeleteInfoPage(id) => {
            &&& after == EventState { info_pages: after.info_pages, ..before }
            &&& record_removed(before.info_pages@, after.info_pages@, id@)
        },
        EventUpdate::UpdateTab(tab) => {
            &&& after == EventState { tabs: after.tabs, ..before }
            &&& tab_upserted(before.tabs@, after.tabs@, tab)
        },
        EventUpdate::DeleteTab(id) => {
            &&& after == EventState { tabs: after.tabs, ..before }
            &&& after.tabs@ == tabs_without(before.tabs@, id@)
            &&& tabs_sorted(before.tabs@) ==> tabs_sorted(after.tabs@)
        },
        EventUpdate::UpdateTag(r) => {
            &&& after == EventState { tags: after.tags, ..before }
            &&& record_upserted(before.tags@, after.tags@, r)
        },
        EventUpdate::RemoveTag(id) => {
            &&& after == EventState { tags: after.tags, ..before }
            &&& record_removed(before.tags@, after.tags@, id@)
        },
    }
}

/// The id of the logged-in user, if any, as characters.
pub open spec fn viewer_view(viewer: Option<&String>) -> Option<Seq<char>> {
    match viewer {
        Some(v) => Some(v@),
        None => None,
    }
}

impl<E, ET, U, P, T, G> EventState<E, ET, U, P, T, G> {
    /// Applies an update the server sent for this event (see
    /// [`event_updated`]); `viewer` is the id of the logged-in user, if any,
    /// and `now` the time the update arrived, in milliseconds since the Unix
    /// epoch.
    pub fn apply(&mut self, update: EventUpdate<E, ET, U, P, T, G>, viewer: Option<&String>, now: i64)
        ensures
            event_updated(*old(self), *final(self), update, viewer_view(viewer), now),
    {
        match update {
            EventUpdate::UpdateEvent(event) => {
                self.event = event;
            },
            EventUpdate::NewLogEntry(entry, author) => {
                add_new_log_entry(&mut self.entries, entry);
                clear_typing_for_new_entry(&mut self.typing, &author);
            },
            EventUpdate::DeleteLogEntry(id) => {
                delete_log_entry(&mut self.entries, &id);
            },
            EventUpdate::UpdateLogEntry(entry, author) => {
                match &author {
                    Some(a) => clear_typing_for_updated_entry(&mut self.typing, a, &entry.id),
                    None => {},
                }
                update_log_entry(&mut self.entries, entry);
            },
            EventUpdate::Typing(notice) => {
                match viewer {
                    Some(v) => {
                        let own: bool = *v == notice.user.id;
                        if !own {
                            handle_typing_data(&mut self.typing, notice.entry, notice.data, notice.user, notice.target, now);
                        }
                    },
                    None => {},
                }
            },
            EventUpdate::ClearTyping(entry, user) => {
                if viewer.is_some() {
                    clear_typing(&mut self.typing, &entry, &user);
                }
            },
            EventUpdate::AddEntryType(r) => {
                self.entry_types.push(r);
            },
            EventUpdate::UpdateEntryType(r) => {
                update_existing_by_id(&mut self.entry_types, r);
            },
            EventUpdate::DeleteEntryType(id) => {
                remove_first_by_id(&mut self.entry_types, &id);
            },
            EventUpdate::AddEditor(r) => {
                self.editors.push(r);
            },
            EventUpdate::RemoveEditor(id) => {
                remove_first_by_id(&mut self.editors, &id);
            },
            EventUpdate::UpdateInfoPage(r) => {
                upsert_by_id(&mut self.info_pages, r);
            },
            EventUpdate::DeleteInfoPage(id) => {
                remove_first_by_id(&mut self.info_pages, &id);
            },
            EventUpdate::UpdateTab(tab) => {
                upsert_tab(&mut self.tabs, tab);
            },
            EventUpdate::DeleteTab(id) => {
                remove_tabs_by_id(&mut self.tabs, &id);
            },
            EventUpdate::UpdateTag(r) => {
                upsert_by_id(&mut self.tags, r);
            },
            EventUpdate::RemoveTag(id) => {
                remove_first_by_id(&mut self.tags, &id);
            },
        }
    }
}

/// A new entry that starts with the last entry of the log but belongs before
/// it: appended all the same, it leaves the log out of order.
pub open spec fn appended_out_of_order(entries: Seq<EventLogEntry>, entry: EventLogEntry) -> bool {
    &&& entries.len() > 0
    &&& !start_less(entry.start_time, entries.last().start_time)
    &&& !position_le(entries.last()@, entry@)
}

/// Every update keeps the log in order and the tabs in order of start time,
/// but for two: a new entry appended out of order (see
/// [`appended_out_of_order`]), and an update of an existing tab, which is
/// replaced where it stands whatever its new start time.
pub proof fn law_updates_keep_order<E, ET, U, P, T, G>(
    before: EventState<E, ET, U, P, T, G>,
    after: EventState<E, ET, U, P, T, G>,
    update: EventUpdate<E, ET, U, P, T, G>,
    viewer: Option<Seq<char>>,
    now: i64,
)
    requires
        event_updated(before, after, update, viewer, now),
        log_sorted(entry_views(before.entries@)),
        tabs_sorted(before.tabs@),
        update matches EventUpdate::NewLogEntry(entry, _) ==> !appended_out_of_order(before.entries@, entry),
        update matches EventUpdate::UpdateTab(tab) ==> no_tab(before.tabs@, tab.id@),
    ensures
        log_sorted(entry_views(after.entries@)),
        tabs_sorted(after.tabs@),
{
}

/// Every update keeps the log in order of start time, without exception.
pub proof fn law_updates_keep_start_order<E, ET, U, P, T, G>(
    before: EventState<E, ET, U, P, T, G>,
    after: EventState<E, ET, U, P, T, G>,
    update: EventUpdate<E, ET, U, P, T, G>,
    viewer: Option<Seq<char>>,
    now: i64,
)
    requires
        event_updated(before, after, update, viewer, now),
        sorted_by_start(entry_views(before.entries@)),
    ensures
        sorted_by_start(entry_views(after.entries@)),
{
}

/// An update of an event touches only what it is about: the event, its log
/// (and the typing of an entry's author), the typing, or one of its lists;
/// the permission and the video state filters are never changed by one.
pub proof fn law_event_updates_touch_their_parts<E, ET, U, P, T, G>(
    before: EventState<E, ET, U, P, T, G>,
    after: EventState<E, ET, U, P, T, G>,
    update: EventUpdate<E, ET, U, P, T, G>,
    viewer: Option<Seq<char>>,
    now: i64,
)
    requires
        event_updated(before, after, update, viewer, now),
    ensures
        after.permission == before.permission,
        after.video_edit_state_filters == before.video_edit_state_filters,
        after.video_processing_state_filters == before.video_processing_state_filters,
        !(update is UpdateEvent) ==> after.event == before.event,
        !(update is NewLogEntry || update is DeleteLogEntry || update is UpdateLogEntry) ==> after.entries
            == before.entries,
        !(update is NewLogEntry || update is UpdateLogEntry || update is Typing || update is ClearTyping)
            ==> after.typing@ == before.typing@,
        !(update is AddEntryType || update is UpdateEntryType || update is DeleteEntryType) ==> after.entry_types
            == before.entry_types,
        !(update is AddEditor || update is RemoveEditor) ==> after.editors == before.editors,
        !(update is UpdateInfoPage || update is DeleteInfoPage) ==> after.info_pages == before.info_pages,
        !(update is UpdateTab || update is DeleteTab) ==> after.tabs == before.tabs,
        !(update is UpdateTag || update is RemoveTag) ==> after.tags == before.tags,
{
}

/// What each update does to the part it is about: the event is replaced; a
/// new entry joins the log and its author's typing on a new entry is
/// dropped; a deleted entry leaves (the first with its id); an updated
/// entry stays as many entries and is in the log, and its author's typing
/// on it is dropped; an added type or editor is appended; an updated record
/// or tab becomes the first of its id; a removed one leaves (the first with
/// its id); a deleted tab leaves no tab with its id.
pub proof fn law_event_update_effects<E, ET, U, P, T, G>(
    before: EventState<E, ET, U, P, T, G>,
    after: EventState<E, ET, U, P, T, G>,
    update: EventUpdate<E, ET, U, P, T, G>,
    viewer: Option<Seq<char>>,
    now: i64,
)
    requires
        event_updated(before, after, update, viewer, now),
    ensures
        match update {
            EventUpdate::UpdateEvent(event) => after.event == event,
            EventUpdate::NewLogEntry(entry, author) => {
                &&& after.entries@.len() == before.entries@.len() + 1
                &&& after.entries@.contains(entry)
                &&& forall|j: int| 0 <= j < before.entries@.len() ==> after.entries@.contains(#[trigger] before.entries@[j])
                &&& forall|k: int| 0 <= k < after.typing@.len() ==> !((#[trigger] after.typing@[k])@.user.id == author@
                    && after.typing@[k]@.event_log_entry is None)
                &&& forall|k: int| 0 <= k < after.typing@.len() ==> typing_views(before.typing@).contains(
                    (#[trigger] after.typing@[k])@,
                )
                &&& forall|j: int|
                    0 <= j < before.typing@.len() && !((#[trigger] before.typing@[j])@.user.id == author@
                        && before.typing@[j]@.event_log_entry is None) ==> typing_views(after.typing@).contains(
                        before.typing@[j]@,
                    )
            },
            EventUpdate::DeleteLogEntry(id) => {
                &&& has_no_id(before.entries@, id@) ==> after.entries@ == before.entries@
                &&& !has_no_id(before.entries@, id@) ==> {
                    &&& after.entries@.len() + 1 == before.entries@.len()
                    &&& exists|i: int| {
                        &&& #[trigger] is_first_with_id(before.entries@, id@, i)
                        &&& forall|j: int| 0 <= j < i ==> after.entries@[j] == before.entries@[j]
                        &&& forall|j: int| i <= j < after.entries@.len() ==> after.entries@[j] == before.entries@[j + 1]
                    }
                }
            },
            EventUpdate::UpdateLogEntry(entry, author) => {
                &&& has_no_id(before.entries@, entry.id@) ==> after.entries@ == before.entries@
                &&& !has_no_id(before.entries@, entry.id@) ==> after.entries@.len() == before.entries@.len()
                    && after.entries@.contains(entry)
                &&& author is None ==> after.typing@ == before.typing@
                &&& author matches Some(a) ==> forall|k: int|
                    0 <= k < after.typing@.len() ==> !((#[trigger] after.typing@[k])@.user.id == a@
                        && entry_id_of(after.typing@[k]@.event_log_entry) == Some(entry.id@))
            },
            EventUpdate::AddEntryType(r) => after.entry_types@ == before.entry_types@.push(r),
            EventUpdate::UpdateEntryType(r) => {
                &&& no_record(before.entry_types@, r.id@) ==> after.entry_types@ == before.entry_types@
                &&& !no_record(before.entry_types@, r.id@) ==> record_put(before.entry_types@, after.entry_types@, r)
            },
            EventUpdate::DeleteEntryType(id) => record_dropped(before.entry_types@, after.entry_types@, id@),
            EventUpdate::AddEditor(r) => after.editors@ == before.editors@.push(r),
            EventUpdate::RemoveEditor(id) => record_dropped(before.editors@, after.editors@, id@),
            EventUpdate::UpdateInfoPage(r) => record_put(before.info_pages@, after.info_pages@, r),
            EventUpdate::DeleteInfoPage(id) => record_dropped(before.info_pages@, after.info_pages@, id@),
            EventUpdate::UpdateTab(tab) => tab_put(before.tabs@, after.tabs@, tab),
            EventUpdate::DeleteTab(id) => {
                &&& no_tab(after.tabs@, id@)
                &&& forall|j: int| 0 <= j < before.tabs@.len() && before.tabs@[j].id@ != id@ ==> after.tabs@.contains(
                    #[trigger] before.tabs@[j],
                )
            },
            EventUpdate::UpdateTag(r) => record_put(before.tags@, after.tags@, r),
            EventUpdate::RemoveTag(id) => record_dropped(before.tags@, after.tags@, id@),
            _ => true,
        },
{
    match update {
        EventUpdate::NewLogEntry(entry, author) => {
            let b = before.entries@;
            let a = after.entries@;
            if b.len() == 0 || !start_less(entry.start_time, b.last().start_time) {
                assert(a == b.push(entry));
                assert(a[b.len() as int] == entry);
                assert forall|j: int| 0 <= j < b.len() implies a.contains(#[trigger] b[j]) by {
                    assert(a[j] == b[j]);
                }
            } else {
                let i = choose|i: int| 0 <= i <= b.len() && a == b.insert(i, entry) && crate::event_log::is_local_insertion_point(
                    entry_views(b),
                    entry@,
                    i,
                ) && (log_sorted(entry_views(b)) ==> crate::event_log::is_insertion_point(entry_views(b), entry@, i));
                assert(a[i] == entry);
                assert forall|j: int| 0 <= j < b.len() implies a.contains(#[trigger] b[j]) by {
                    if j < i {
                        assert(a[j] == b[j]);
                    } else {
                        assert(a[j + 1] == b[j]);
                    }
                }
            }
            let keep = |t: TypingView| !(t.user.id == author@ && t.event_log_entry is None);
            law_kept_events(typing_views(before.typing@), keep);
            let ta = typing_views(after.typing@);
            assert forall|k: int| 0 <= k < after.typing@.len() implies !((#[trigger] after.typing@[k])@.user.id
                == author@ && after.typing@[k]@.event_log_entry is None) by {
                assert(ta[k] == after.typing@[k]@);
                assert(keep(ta[k]));
            }
            assert forall|k: int| 0 <= k < after.typing@.len() implies typing_views(before.typing@).contains(
                (#[trigger] after.typing@[k])@,
            ) by {
                assert(ta[k] == after.typing@[k]@);
            }
            assert forall|j: int|
                0 <= j < before.typing@.len() && !((#[trigger] before.typing@[j])@.user.id == author@
                    && before.typing@[j]@.event_log_entry is None) implies ta.contains(before.typing@[j]@) by {
                assert(typing_views(before.typing@)[j] == before.typing@[j]@);
                assert(keep(typing_views(before.typing@)[j]));
            }
        },
        EventUpdate::DeleteLogEntry(id) => {
            if !has_no_id(before.entries@, id@) {
                let w = choose|j: int| 0 <= j < before.entries@.len() && before.entries@[j].id@ == id@;
                lemma_first_with_id_exists(before.entries@, id@, w);
                let i = choose|i: int| #[trigger] is_first_with_id(before.entries@, id@, i);
                assert(after.entries@ == before.entries@.remove(i));
            }
        },
        EventUpdate::UpdateLogEntry(entry, author) => {
            let b = before.entries@;
            let a = after.entries@;
            if !has_no_id(b, entry.id@) {
                let w = choose|j: int| 0 <= j < b.len() && b[j].id@ == entry.id@;
                lemma_first_with_id_exists(b, entry.id@, w);
                let i = choose|i: int| #[trigger] is_first_with_id(b, entry.id@, i);
                if crate::event_log::same_position(b[i]@, entry@) {
                    assert(a == b.update(i, entry));
                    assert(a[i] == entry);
                } else {
                    let j = choose|j: int| 0 <= j < b.len() && a == b.remove(i).insert(j, entry)
                        && crate::event_log::is_local_insertion_point(entry_views(b.remove(i)), entry@, j) && (
                    log_sorted(entry_views(b.remove(i))) ==> crate::event_log::is_insertion_point(
                        entry_views(b.remove(i)),
                        entry@,
                        j,
                    ));
                    assert(a[j] == entry);
                }
            }
            if let Some(au) = author {
                let keep = |t: TypingView|
                    !(t.user.id == au@ && crate::typing::entry_id_of(t.event_log_entry) == Some(entry.id@));
                law_kept_events(typing_views(before.typing@), keep);
                let ta = typing_views(after.typing@);
                assert forall|k: int| 0 <= k < after.typing@.len() implies !((#[trigger] after.typing@[k])@.user.id
                    == au@ && entry_id_of(after.typing@[k]@.event_log_entry) == Some(entry.id@)) by {
                    assert(ta[k] == after.typing@[k]@);
                    assert(keep(ta[k]));
                }
            }
        },
        EventUpdate::UpdateEntryType(r) => {
            if !no_record(before.entry_types@, r.id@) {
                lemma_first_record_exists(before.entry_types@, r.id@);
                let i = choose|i: int| #[trigger] is_first_record(before.entry_types@, r.id@, i);
                assert(after.entry_types@ == before.entry_types@.update(i, r));
                assert forall|j: int| 0 <= j < i implies after.entry_types@[j].id@ != r.id@ by {
                    assert(after.entry_types@[j] == before.entry_types@[j]);
                }
                assert(is_first_record(after.entry_types@, r.id@, i));
            }
        },
        EventUpdate::DeleteEntryType(id) => lemma_record_dropped(before.entry_types@, after.entry_types@, id@),
        EventUpdate::RemoveEditor(id) => lemma_record_dropped(before.editors@, after.editors@, id@),
        EventUpdate::UpdateInfoPage(r) => lemma_record_put(before.info_pages@, after.info_pages@, r),
        EventUpdate::DeleteInfoPage(id) => lemma_record_dropped(before.info_pages@, after.info_pages@, id@),
        EventUpdate::UpdateTab(tab) => lemma_tab_put(before.tabs@, after.tabs@, tab),
        EventUpdate::DeleteTab(id) => law_tabs_without(before.tabs@, id@),
        EventUpdate::UpdateTag(r) => lemma_record_put(before.tags@, after.tags@, r),
        EventUpdate::RemoveTag(id) => lemma_record_dropped(before.tags@, after.tags@, id@),
        _ => {},
    }
}

/// Typing is tracked only for a logged-in user, and only for others: a
/// notice from the viewer, or one with nobody logged in, changes nothing; a
/// notice from another user records what was typed and leaves others'
/// typing as it was; a user stopping typing (seen by a logged-in user)
/// leaves none of that user's typing on that entry and keeps the rest.
pub proof fn law_typing_updates<E, ET, U, P, T, G>(
    before: EventState<E, ET, U, P, T, G>,
    after: EventState<E, ET, U, P, T, G>,
    update: EventUpdate<E, ET, U, P, T, G>,
    viewer: Option<Seq<char>>,
    now: i64,
)
    requires
        event_updated(before, after, update, viewer, now),
    ensures
        update matches EventUpdate::Typing(notice) ==> {
            &&& (viewer is None || viewer == Some(notice.user.id@)) ==> after.typing@ == before.typing@
            &&& (viewer is Some && viewer != Some(notice.user.id@) && (notice.data@.len() > 0 || notice.target
                == TypingTarget::Parent)) ==> exists|i: int|
                0 <= i < after.typing@.len() && (#[trigger] after.typing@[i])@.user.id == notice.user.id@
                    && after.typing@[i]@.target_field == notice.target && entry_id_of(
                    after.typing@[i]@.event_log_entry,
                ) == entry_id_of(entry_option_view(notice.entry)) && after.typing@[i]@.data == notice.data@
                    && after.typing@[i]@.time_received == now
        },
        update matches EventUpdate::ClearTyping(entry, user) ==> {
            &&& viewer is None ==> after.typing@ == before.typing@
            &&& viewer is Some ==> forall|i: int|
                0 <= i < after.typing@.len() ==> !((#[trigger] after.typing@[i])@.user == user@
                    && after.typing@[i]@.event_log_entry == entry_option_view(entry))
            &&& viewer is Some ==> forall|i: int|
                0 <= i < before.typing@.len() && !((#[trigger] before.typing@[i])@.user == user@
                    && before.typing@[i]@.event_log_entry == entry_option_view(entry)) ==> typing_views(
                    after.typing@,
                ).contains(before.typing@[i]@)
        },
{
    match update {
        EventUpdate::Typing(notice) => {
            if viewer is Some && viewer != Some(notice.user.id@) && (notice.data@.len() > 0 || notice.target
                == TypingTarget::Parent) {
                let ta = typing_views(after.typing@);
                crate::typing::law_typing_recorded(
                    typing_views(before.typing@),
                    ta,
                    entry_option_view(notice.entry),
                    notice.data@,
                    notice.user@,
                    notice.target,
                    now,
                );
                let i = choose|i: int|
                    0 <= i < ta.len() && crate::typing::same_field(
                        #[trigger] ta[i],
                        entry_id_of(entry_option_view(notice.entry)),
                        notice.user@.id,
                        notice.target,
                    ) && ta[i].data == notice.data@ && ta[i].time_received == now;
                assert(ta[i] == after.typing@[i]@);
            }
        },
        EventUpdate::ClearTyping(entry, user) => {
            if viewer is Some {
                let tb = typing_views(before.typing@);
                let ta = typing_views(after.typing@);
                crate::typing::law_cleared_typing_gone(tb, user@, entry_option_view(entry));
                assert forall|i: int| 0 <= i < after.typing@.len() implies !((#[trigger] after.typing@[i])@.user
                    == user@ && after.typing@[i]@.event_log_entry == entry_option_view(entry)) by {
                    assert(ta[i] == after.typing@[i]@);
                }
                assert forall|i: int|
                    0 <= i < before.typing@.len() && !((#[trigger] before.typing@[i])@.user == user@
                        && before.typing@[i]@.event_log_entry == entry_option_view(entry)) implies ta.contains(
                    before.typing@[i]@,
                ) by {
                    assert(tb[i] == before.typing@[i]@);
                }
            }
        },
        _ => {},
    }
}

} // verus!
