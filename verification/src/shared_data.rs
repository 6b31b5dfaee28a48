use vstd::prelude::*;
use crate::records::{
    add_association_if_absent, association_added, association_removed, association_upserted, newest_first,
    rearranged, record_removed, record_updated, record_upserted, remove_all_by_id, remove_association,
    remove_first_by_id, sort_newest_first, update_existing_by_id, upsert_association, upsert_by_id, without_id,
    law_remove_all_by_id, lemma_first_record_exists, lemma_pair_dropped, lemma_pair_joined, lemma_pair_put,
    lemma_record_dropped, lemma_record_put, no_record, pair_dropped, pair_joined, pair_put, record_dropped, record_put,
    is_first_record, Association, AvailableEvent, Record,
};
use crate::subscription_type::{SubscriptionTarget, SubscriptionType};

verus! {

/// The types of the server's records that the client keeps outside events.
pub trait DataKinds {
    type User;
    type Event;
    type EntryType;
    type Group;
    type GroupEvent;
    type EventEditor;
    type UserGroup;
    type TypeEvent;
    type Tab;
    type Application;
    type AuthKey;
    type InfoPage;
    type AvailableEvent;
    type UsernameCheck;
    type Registration;
}

/// What the client keeps outside events: the logged-in user and the events
/// open to them, the administration lists, and the answers to registration.
/// Pairings are found by two ids (for instance a group's and an event's).
pub struct SharedData<K: DataKinds> {
    pub user: Option<K::User>,
    pub available_events: Vec<AvailableEvent<K::AvailableEvent>>,
    pub all_users: Vec<Record<K::User>>,
    pub all_events: Vec<Record<K::Event>>,
    pub all_entry_types: Vec<Record<K::EntryType>>,
    pub all_permission_groups: Vec<Record<K::Group>>,
    pub permission_group_events: Vec<Association<K::GroupEvent>>,
    pub event_editors: Vec<Association<K::EventEditor>>,
    pub user_permission_groups: Vec<Association<K::UserGroup>>,
    pub entry_type_events: Vec<Association<K::TypeEvent>>,
    /// Every event's tabs, by tab id.
    pub all_event_log_tabs: Vec<Record<K::Tab>>,
    pub all_applications: Vec<Record<K::Application>>,
    /// Application keys shown once, by application id.
    pub application_auth_keys: Vec<Record<K::AuthKey>>,
    pub all_info_pages: Vec<Record<K::InfoPage>>,
    pub username_check: Option<K::UsernameCheck>,
    pub final_register: Option<K::Registration>,
}

/// An update of what the client keeps outside events: a list loaded when
/// its subscription starts, a change the server sends, or an answer to
/// registration.
pub enum DataUpdate<K: DataKinds> {
    /// The logged-in user and the events open to them.
    UserUpdate(K::User, Vec<AvailableEvent<K::AvailableEvent>>),
    LoadUsers(Vec<Record<K::User>>),
    LoadEvents(Vec<Record<K::Event>>),
    LoadEntryTypes(Vec<Record<K::EntryType>>),
    LoadPermissionGroups(Vec<Record<K::Group>>, Vec<Association<K::GroupEvent>>),
    LoadUserPermissionGroups(Vec<Association<K::UserGroup>>),
    LoadEntryTypeEvents(Vec<Association<K::TypeEvent>>),
    LoadEventEditors(Vec<Association<K::EventEditor>>),
    LoadEventLogTabs(Vec<Record<K::Tab>>),
    LoadApplications(Vec<Record<K::Application>>),
    LoadInfoPages(Vec<Record<K::InfoPage>>),
    UpdateEvent(Record<K::Event>),
    UpdateEntryType(Record<K::EntryType>),
    AddTypeToEvent(Association<K::TypeEvent>),
    /// The ids of the entry type and the event.
    RemoveTypeFromEvent(String, String),
    UpdateGroup(Record<K::Group>),
    SetEventPermissionForGroup(Association<K::GroupEvent>),
    /// The ids of the group and the event.
    RemoveEventFromGroup(String, String),
    UpdateUser(Record<K::User>),
    AddEditor(Association<K::EventEditor>),
    /// The ids of the editor and the event.
    RemoveEditor(String, String),
    AddUserToGroup(Association<K::UserGroup>),
    /// The ids of the user and the group.
    RemoveUserFromGroup(String, String),
    AddTab(Record<K::Tab>),
    UpdateTab(Record<K::Tab>),
    /// The id of a deleted tab.
    DeleteTab(String),
    UpdateApplication(Record<K::Application>),
    /// An application's key, by the application's id.
    ShowApplicationAuthKey(Record<K::AuthKey>),
    /// The id of a revoked application.
    RevokeApplication(String),
    UpdateInfoPage(Record<K::InfoPage>),
    /// The id of a deleted info page.
    DeleteInfoPage(String),
    UsernameCheck(K::UsernameCheck),
    Registration(K::Registration),
}

/// `after` is `before` with `update` applied: each update sets or changes
/// one list (a revoked application leaves two), and leaves the rest alone.
pub open spec fn data_updated<K: DataKinds>(before: SharedData<K>, after: SharedData<K>, update: DataUpdate<K>) -> bool {
    match update {
        DataUpdate::UserUpdate(user, events) => {
            &&& after == SharedData { user: Some(user), available_events: after.available_events, ..before }
            &&& newest_first(after.available_events@)
            &&& exists|origin: Seq<int>| rearranged(events@, after.available_events@, origin)
        },
        DataUpdate::LoadUsers(list) => after == SharedData { all_users: list, ..before },
        DataUpdate::LoadEvents(list) => after == SharedData { all_events: list, ..before },
        DataUpdate::LoadEntryTypes(list) => after == SharedData { all_entry_types: list, ..before },
        DataUpdate::LoadPermissionGroups(groups, pairs) => after == SharedData {
            all_permission_groups: groups,
            permission_group_events: pairs,
            ..before
        },
        DataUpdate::LoadUserPermissionGroups(list) => after == SharedData { user_permission_groups: list, ..before },
        DataUpdate::LoadEntryTypeEvents(list) => after == SharedData { entry_type_events: list, ..before },
        DataUpdate::LoadEventEditors(list) => after == SharedData { event_editors: list, ..before },
        DataUpdate::LoadEventLogTabs(list) => after == SharedData { all_event_log_tabs: list, ..before },
        DataUpdate::LoadApplications(list) => after == SharedData { all_applications: list, ..before },
        DataUpdate::LoadInfoPages(list) => after == SharedData { all_info_pages: list, ..before },
        DataUpdate::UpdateEvent(r) => {
            &&& after == SharedData { all_events: after.all_events, ..before }
            &&& record_upserted(before.all_events@, after.all_events@, r)
        },
        DataUpdate::UpdateEntryType(r) => {
            &&& after == SharedData { all_entry_types: after.all_entry_types, ..before }
            &&& record_upserted(before.all_entry_types@, after.all_entry_types@, r)
        },
        DataUpdate::AddTypeToEvent(a) => {
            &&& after == SharedData { entry_type_events: after.entry_type_events, ..before }
            &&& association_added(before.entry_type_events@, after.entry_type_events@, a)
        },
        DataUpdate::RemoveTypeFromEvent(first, second) => {
            &&& after == SharedData { entry_type_events: after.entry_type_events, ..before }
            &&& association_removed(before.entry_type_events@, after.entry_type_events@, first@, second@)
        },
        DataUpdate::UpdateGroup(r) => {
            &&& after == SharedData { all_permission_groups: after.all_permission_groups, ..before }
            &&& record_upserted(before.all_permission_groups@, after.all_permission_groups@, r)
        },
        DataUpdate::SetEventPermissionForGroup(a) => {
            &&& after == SharedData { permission_group_events: after.permission_group_events, ..before }
            &&& association_upserted(before.permission_group_events@, after.permission_group_events@, a)
        },
        DataUpdate::RemoveEventFromGroup(first, second) => {
            &&& after == SharedData { permission_group_events: after.permission_group_events, ..before }
            &&& association_removed(before.permission_group_events@, after.permission_group_events@, first@, second@)
        },
        DataUpdate::UpdateUser(r) => {
            &&& after == SharedData { all_users: after.all_users, ..before }
            &&& record_upserted(before.all_users@, after.all_users@, r)
        },
        DataUpdate::AddEditor(a) => {
            &&& after == SharedData { event_editors: after.event_editors, ..before }
            &&& association_added(before.event_editors@, after.event_editors@, a)
        },
        DataUpdate::RemoveEditor(first, second) => {
            &&& after == SharedData { event_editors: after.event_editors, ..before }
            &&& association_removed(before.event_editors@, after.event_editors@, first@, second@)
        },
        DataUpdate::AddUserToGroup(a) => {
            &&& after == SharedData { user_permission_groups: after.user_permission_groups, ..before }
            &&& association_added(before.user_permission_groups@, after.user_permission_groups@, a)
        },
        DataUpdate::RemoveUserFromGroup(first, second) => {
            &&& after == SharedData { user_permission_groups: after.user_permission_groups, ..before }
            &&& association_removed(before.user_permission_groups@, after.user_permission_groups@, first@, second@)
        },
        DataUpdate::AddTab(r) => {
            &&& after == SharedData { all_event_log_tabs: after.all_event_log_tabs, ..before }
            &&& after.all_event_log_tabs@ == before.all_event_log_tabs@.push(r)
        },
        DataUpdate::UpdateTab(r) => {
            &&& after == SharedData { all_event_log_tabs: after.all_event_log_tabs, ..before }
            &&& record_updated(before.all_event_log_tabs@, after.all_event_log_tabs@, r)
        },
        DataUpdate::DeleteTab(id) => {
            &&& after == SharedData { all_event_log_tabs: after.all_event_log_tabs, ..before }
            &&& after.all_event_log_tabs@ == without_id(before.all_event_log_tabs@, id@)
        },
        DataUpdate::UpdateApplication(r) => {
            &&& after == SharedData { all_applications: after.all_applications, ..before }
            &&& record_upserted(before.all_applications@, after.all_applications@, r)
        },
        DataUpdate::ShowApplicationAuthKey(r) => {
            &&& after == SharedData { application_auth_keys: after.application_auth_keys, ..before }
            &&& record_upserted(before.application_auth_keys@, after.application_auth_keys@, r)
        },
        DataUpdate::RevokeApplication(id) => {
            &&& after == SharedData {
                all_applications: after.all_applications,
                application_auth_keys: after.application_auth_keys,
                ..before
            }
            &&& record_removed(before.all_applications@, after.all_applications@, id@)
            &&& record_removed(before.application_auth_keys@, after.application_auth_keys@, id@)
        },
        DataUpdate::UpdateInfoPage(r) => {
            &&& after == SharedData { all_info_pages: after.all_info_pages, ..before }
            &&& record_upserted(before.all_info_pages@, after.all_info_pages@, r)
        },
        DataUpdate::DeleteInfoPage(id) => {
            &&& after == SharedData { all_info_pages: after.all_info_pages, ..before }
            &&& record_removed(before.all_info_pages@, after.all_info_pages@, id@)
        },
        DataUpdate::UsernameCheck(c) => after == SharedData { username_check: Some(c), ..before },
        DataUpdate::Registration(r) => after == SharedData { final_register: Some(r), ..before },
    }
}

/// The subscription whose start a list load answers; none for the other
/// updates.
pub open spec fn load_target<K: DataKinds>(update: DataUpdate<K>) -> Option<SubscriptionTarget> {
    match update {
        DataUpdate::LoadUsers(_) => Some(SubscriptionTarget::AdminUsers),
        DataUpdate::LoadEvents(_) => Some(SubscriptionTarget::AdminEvents),
        DataUpdate::LoadEntryTypes(_) => Some(SubscriptionTarget::AdminEntryTypes),
        DataUpdate::LoadPermissionGroups(_, _) => Some(SubscriptionTarget::AdminPermissionGroups),
        DataUpdate::LoadUserPermissionGroups(_) => Some(SubscriptionTarget::AdminPermissionGroupUsers),
        DataUpdate::LoadEntryTypeEvents(_) => Some(SubscriptionTarget::AdminEntryTypesEvents),
        DataUpdate::LoadEventEditors(_) => Some(SubscriptionTarget::AdminEventEditors),
        DataUpdate::LoadEventLogTabs(_) => Some(SubscriptionTarget::AdminEventLogTabs),
        DataUpdate::LoadApplications(_) => Some(SubscriptionTarget::AdminApplications),
        DataUpdate::LoadInfoPages(_) => Some(SubscriptionTarget::AdminInfoPages),
        _ => None,
    }
}

/// A list load answers the subscription to that list, and every other
/// update answers none.
pub proof fn law_loads_answer_their_subscription<K: DataKinds>(update: DataUpdate<K>)
    ensures
        update is LoadUsers <==> load_target(update) == Some(SubscriptionTarget::AdminUsers),
        update is LoadEvents <==> load_target(update) == Some(SubscriptionTarget::AdminEvents),
        update is LoadEntryTypes <==> load_target(update) == Some(SubscriptionTarget::AdminEntryTypes),
        update is LoadPermissionGroups <==> load_target(update) == Some(SubscriptionTarget::AdminPermissionGroups),
        update is LoadUserPermissionGroups <==> load_target(update) == Some(
            SubscriptionTarget::AdminPermissionGroupUsers,
        ),
        update is LoadEntryTypeEvents <==> load_target(update) == Some(SubscriptionTarget::AdminEntryTypesEvents),
        update is LoadEventEditors <==> load_target(update) == Some(SubscriptionTarget::AdminEventEditors),
        update is LoadEventLogTabs <==> load_target(update) == Some(SubscriptionTarget::AdminEventLogTabs),
        update is LoadApplications <==> load_target(update) == Some(SubscriptionTarget::AdminApplications),
        update is LoadInfoPages <==> load_target(update) == Some(SubscriptionTarget::AdminInfoPages),
        !(update is LoadUsers || update is LoadEvents || update is LoadEntryTypes || update is LoadPermissionGroups
            || update is LoadUserPermissionGroups || update is LoadEntryTypeEvents || update is LoadEventEditors
            || update is LoadEventLogTabs || update is LoadApplications || update is LoadInfoPages) ==> load_target(
            update,
        ) is None,
{
}

/// The subscription whose start a list load answers (see [`load_target`]).
pub fn load_subscription<K: DataKinds>(update: &DataUpdate<K>) -> (t: Option<SubscriptionType>)
    ensures
        match t {
            Some(s) => load_target(*update) == Some(s@),
            None => load_target(*update) is None,
        },
{
    match update {
        DataUpdate::LoadUsers(_) => Some(SubscriptionType::AdminUsers),
        DataUpdate::LoadEvents(_) => Some(SubscriptionType::AdminEvents),
        DataUpdate::LoadEntryTypes(_) => Some(SubscriptionType::AdminEntryTypes),
        DataUpdate::LoadPermissionGroups(_, _) => Some(SubscriptionType::AdminPermissionGroups),
        DataUpdate::LoadUserPermissionGroups(_) => Some(SubscriptionType::AdminPermissionGroupUsers),
        DataUpdate::LoadEntryTypeEvents(_) => Some(SubscriptionType::AdminEntryTypesEvents),
        DataUpdate::LoadEventEditors(_) => Some(SubscriptionType::AdminEventEditors),
        DataUpdate::LoadEventLogTabs(_) => Some(SubscriptionType::AdminEventLogTabs),
        DataUpdate::LoadApplications(_) => Some(SubscriptionType::AdminApplications),
        DataUpdate::LoadInfoPages(_) => Some(SubscriptionType::AdminInfoPages),
        _ => None,
    }
}

/// An update touches only the lists it is about: each list stays as it was
/// unless the update loads it or changes it.
pub proof fn law_updates_touch_their_lists<K: DataKinds>(before: SharedData<K>, after: SharedData<K>, update: DataUpdate<K>)
    requires
        data_updated(before, after, update),
    ensures
        !(update is UserUpdate) ==> after.user == before.user && after.available_events == before.available_events,
        !(update is LoadUsers || update is UpdateUser) ==> after.all_users == before.all_users,
        !(update is LoadEvents || update is UpdateEvent) ==> after.all_events == before.all_events,
        !(update is LoadEntryTypes || update is UpdateEntryType) ==> after.all_entry_types == before.all_entry_types,
        !(update is LoadPermissionGroups || update is UpdateGroup) ==> after.all_permission_groups
            == before.all_permission_groups,
        !(update is LoadPermissionGroups || update is SetEventPermissionForGroup || update is RemoveEventFromGroup)
            ==> after.permission_group_events == before.permission_group_events,
        !(update is LoadEventEditors || update is AddEditor || update is RemoveEditor) ==> after.event_editors
            == before.event_editors,
        !(update is LoadUserPermissionGroups || update is AddUserToGroup || update is RemoveUserFromGroup)
            ==> after.user_permission_groups == before.user_permission_groups,
        !(update is LoadEntryTypeEvents || update is AddTypeToEvent || update is RemoveTypeFromEvent)
            ==> after.entry_type_events == before.entry_type_events,
        !(update is LoadEventLogTabs || update is AddTab || update is UpdateTab || update is DeleteTab)
            ==> after.all_event_log_tabs == before.all_event_log_tabs,
        !(update is LoadApplications || update is UpdateApplication || update is RevokeApplication)
            ==> after.all_applications == before.all_applications,
        !(update is ShowApplicationAuthKey || update is RevokeApplication) ==> after.application_auth_keys
            == before.application_auth_keys,
        !(update is LoadInfoPages || update is UpdateInfoPage || update is DeleteInfoPage) ==> after.all_info_pages
            == before.all_info_pages,
        !(update is UsernameCheck) ==> after.username_check == before.username_check,
        !(update is Registration) ==> after.final_register == before.final_register,
{
}

/// What each update does to the list it is about: a load replaces the list;
/// a changed record or association becomes the first of its ids (added
/// where there was none); an addition adds only what is not there yet; a
/// removal takes out the first match and keeps the rest in order; a deleted
/// tab leaves no tab with its id; the user's update sets the user and lists
/// exactly the events given, newest first.
pub proof fn law_update_effects<K: DataKinds>(before: SharedData<K>, after: SharedData<K>, update: DataUpdate<K>)
    requires
        data_updated(before, after, update),
    ensures
        match update {
            DataUpdate::UserUpdate(user, events) => {
                &&& after.user == Some(user)
                &&& after.available_events@.len() == events@.len()
                &&& forall|i: int, j: int| 0 <= i < j < after.available_events@.len()
                    ==> after.available_events@[i].start_time >= after.available_events@[j].start_time
                &&& forall|i: int| 0 <= i < after.available_events@.len() ==> events@.contains(
                    #[trigger] after.available_events@[i],
                )
                &&& forall|j: int| 0 <= j < events@.len() ==> after.available_events@.contains(#[trigger] events@[j])
            },
            DataUpdate::LoadUsers(list) => after.all_users == list,
            DataUpdate::LoadEvents(list) => after.all_events == list,
            DataUpdate::LoadEntryTypes(list) => after.all_entry_types == list,
            DataUpdate::LoadPermissionGroups(groups, events) => after.all_permission_groups == groups
                && after.permission_group_events == events,
            DataUpdate::LoadUserPermissionGroups(list) => after.user_permission_groups == list,
            DataUpdate::LoadEntryTypeEvents(list) => after.entry_type_events == list,
            DataUpdate::LoadEventEditors(list) => after.event_editors == list,
            DataUpdate::LoadEventLogTabs(list) => after.all_event_log_tabs == list,
            DataUpdate::LoadApplications(list) => after.all_applications == list,
            DataUpdate::LoadInfoPages(list) => after.all_info_pages == list,
            DataUpdate::UpdateEvent(r) => record_put(before.all_events@, after.all_events@, r),
            DataUpdate::UpdateEntryType(r) => record_put(before.all_entry_types@, after.all_entry_types@, r),
            DataUpdate::AddTypeToEvent(a) => pair_joined(before.entry_type_events@, after.entry_type_events@, a),
            DataUpdate::RemoveTypeFromEvent(first, second) => pair_dropped(
                before.entry_type_events@,
                after.entry_type_events@,
                first@,
                second@,
            ),
            DataUpdate::UpdateGroup(r) => record_put(before.all_permission_groups@, after.all_permission_groups@, r),
            DataUpdate::SetEventPermissionForGroup(a) => pair_put(
                before.permission_group_events@,
                after.permission_group_events@,
                a,
            ),
            DataUpdate::RemoveEventFromGroup(first, second) => pair_dropped(
                before.permission_group_events@,
                after.permission_group_events@,
                first@,
                second@,
            ),
            DataUpdate::UpdateUser(r) => record_put(before.all_users@, after.all_users@, r),
            DataUpdate::AddEditor(a) => pair_joined(before.event_editors@, after.event_editors@, a),
            DataUpdate::RemoveEditor(first, second) => pair_dropped(
                before.event_editors@,
                after.event_editors@,
                first@,
                second@,
            ),
            DataUpdate::AddUserToGroup(a) => pair_joined(before.user_permission_groups@, after.user_permission_groups@, a),
            DataUpdate::RemoveUserFromGroup(first, second) => pair_dropped(
                before.user_permission_groups@,
                after.user_permission_groups@,
                first@,
                second@,
            ),
            DataUpdate::AddTab(r) => after.all_event_log_tabs@.len() == before.all_event_log_tabs@.len() + 1
                && after.all_event_log_tabs@.last() == r && forall|j: int|
                0 <= j < before.all_event_log_tabs@.len() ==> after.all_event_log_tabs@[j]
                    == before.all_event_log_tabs@[j],
            DataUpdate::UpdateTab(r) => {
                &&& no_record(before.all_event_log_tabs@, r.id@) ==> after.all_event_log_tabs@ == before.all_event_log_tabs@
                &&& !no_record(before.all_event_log_tabs@, r.id@) ==> record_put(
                    before.all_event_log_tabs@,
                    after.all_event_log_tabs@,
                    r,
                )
            },
            DataUpdate::DeleteTab(id) => {
                &&& no_record(after.all_event_log_tabs@, id@)
                &&& forall|j: int|
                    0 <= j < before.all_event_log_tabs@.len() && before.all_event_log_tabs@[j].id@ != id@
                        ==> after.all_event_log_tabs@.contains(#[trigger] before.all_event_log_tabs@[j])
                &&& forall|j: int|
                    0 <= j < after.all_event_log_tabs@.len() ==> before.all_event_log_tabs@.contains(
                        #[trigger] after.all_event_log_tabs@[j],
                    )
            },
            DataUpdate::UpdateApplication(r) => record_put(before.all_applications@, after.all_applications@, r),
            DataUpdate::ShowApplicationAuthKey(r) => record_put(
                before.application_auth_keys@,
                after.application_auth_keys@,
                r,
            ),
            DataUpdate::RevokeApplication(id) => record_dropped(before.all_applications@, after.all_applications@, id@)
                && record_dropped(before.application_auth_keys@, after.application_auth_keys@, id@),
            DataUpdate::UpdateInfoPage(r) => record_put(before.all_info_pages@, after.all_info_pages@, r),
            DataUpdate::DeleteInfoPage(id) => record_dropped(before.all_info_pages@, after.all_info_pages@, id@),
            DataUpdate::UsernameCheck(c) => after.username_check == Some(c),
            DataUpdate::Registration(r) => after.final_register == Some(r),
        },
{
    match update {
        DataUpdate::UserUpdate(user, events) => {
            let out = after.available_events@;
            let src = events@;
            let origin = choose|origin: Seq<int>| rearranged(src, out, origin);
            assert forall|i: int| 0 <= i < out.len() implies src.contains(#[trigger] out[i]) by {
                assert(out[i] == src[origin[i]]);
            }
            let range = vstd::set_lib::set_int_range(0, src.len() as int);
            vstd::set_lib::lemma_int_range(0, src.len() as int);
            assert(origin.no_duplicates());
            origin.unique_seq_to_set();
            assert(origin.to_set().subset_of(range)) by {
                assert forall|x: int| origin.to_set().contains(x) implies range.contains(x) by {
                    let k = choose|k: int| 0 <= k < origin.len() && origin[k] == x;
                    assert(0 <= origin[k] < src.len());
                }
            }
            vstd::set_lib::lemma_len_subset(origin.to_set(), range);
            vstd::set_lib::lemma_subset_equality(origin.to_set(), range);
            assert forall|j: int| 0 <= j < src.len() implies out.contains(#[trigger] src[j]) by {
                assert(range.contains(j));
                assert(origin.to_set().contains(j));
                let k = choose|k: int| 0 <= k < origin.len() && origin[k] == j;
                assert(out[k] == src[j]);
            }
        },
        DataUpdate::UpdateEvent(r) => lemma_record_put(before.all_events@, after.all_events@, r),
        DataUpdate::UpdateEntryType(r) => lemma_record_put(before.all_entry_types@, after.all_entry_types@, r),
        DataUpdate::AddTypeToEvent(a) => lemma_pair_joined(before.entry_type_events@, after.entry_type_events@, a),
        DataUpdate::RemoveTypeFromEvent(first, second) => lemma_pair_dropped(
            before.entry_type_events@,
            after.entry_type_events@,
            first@,
            second@,
        ),
        DataUpdate::UpdateGroup(r) => lemma_record_put(before.all_permission_groups@, after.all_permission_groups@, r),
        DataUpdate::SetEventPermissionForGroup(a) => lemma_pair_put(
            before.permission_group_events@,
            after.permission_group_events@,
            a,
        ),
        DataUpdate::RemoveEventFromGroup(first, second) => lemma_pair_dropped(
            before.permission_group_events@,
            after.permission_group_events@,
            first@,
            second@,
        ),
        DataUpdate::UpdateUser(r) => lemma_record_put(before.all_users@, after.all_users@, r),
        DataUpdate::AddEditor(a) => lemma_pair_joined(before.event_editors@, after.event_editors@, a),
        DataUpdate::RemoveEditor(first, second) => lemma_pair_dropped(
            before.event_editors@,
            after.event_editors@,
            first@,
            second@,
        ),
        DataUpdate::AddUserToGroup(a) => lemma_pair_joined(
            before.user_permission_groups@,
            after.user_permission_groups@,
            a,
        ),
        DataUpdate::RemoveUserFromGroup(first, second) => lemma_pair_dropped(
            before.user_permission_groups@,
            after.user_permission_groups@,
            first@,
            second@,
        ),
        DataUpdate::UpdateTab(r) => {
            if !no_record(before.all_event_log_tabs@, r.id@) {
                lemma_first_record_exists(before.all_event_log_tabs@, r.id@);
                let i = choose|i: int| #[trigger] is_first_record(before.all_event_log_tabs@, r.id@, i);
                assert(after.all_event_log_tabs@ == before.all_event_log_tabs@.update(i, r));
                assert forall|j: int| 0 <= j < i implies after.all_event_log_tabs@[j].id@ != r.id@ by {
                    assert(after.all_event_log_tabs@[j] == before.all_event_log_tabs@[j]);
                }
                assert(is_first_record(after.all_event_log_tabs@, r.id@, i));
            }
        },
        DataUpdate::DeleteTab(id) => law_remove_all_by_id(before.all_event_log_tabs@, id@),
        DataUpdate::UpdateApplication(r) => lemma_record_put(before.all_applications@, after.all_applications@, r),
        DataUpdate::ShowApplicationAuthKey(r) => lemma_record_put(
            before.application_auth_keys@,
            after.application_auth_keys@,
            r,
        ),
        DataUpdate::RevokeApplication(id) => {
            lemma_record_dropped(before.all_applications@, after.all_applications@, id@);
            lemma_record_dropped(before.application_auth_keys@, after.application_auth_keys@, id@);
        },
        DataUpdate::UpdateInfoPage(r) => lemma_record_put(before.all_info_pages@, after.all_info_pages@, r),
        DataUpdate::DeleteInfoPage(id) => lemma_record_dropped(before.all_info_pages@, after.all_info_pages@, id@),
        _ => {},
    }
}

impl<K: DataKinds> SharedData<K> {
    /// No user, no answers and every list empty.
    pub fn new() -> (data: SharedData<K>)
        ensures
            data.user is None,
            data.available_events@.len() == 0,
            data.all_users@.len() == 0,
            data.all_events@.len() == 0,
            data.all_entry_types@.len() == 0,
            data.all_permission_groups@.len() == 0,
            data.permission_group_events@.len() == 0,
            data.event_editors@.len() == 0,
            data.user_permission_groups@.len() == 0,
            data.entry_type_events@.len() == 0,
            data.all_event_log_tabs@.len() == 0,
            data.all_applications@.len() == 0,
            data.application_auth_keys@.len() == 0,
            data.all_info_pages@.len() == 0,
            data.username_check is None,
            data.final_register is None,
    {
        SharedData {
            user: None,
            available_events: Vec::new(),
            all_users: Vec::new(),
            all_events: Vec::new(),
            all_entry_types: Vec::new(),
            all_permission_groups: Vec::new(),
            permission_group_events: Vec::new(),
            event_editors: Vec::new(),
            user_permission_groups: Vec::new(),
            entry_type_events: Vec::new(),
            all_event_log_tabs: Vec::new(),
            all_applications: Vec::new(),
            application_auth_keys: Vec::new(),
            all_info_pages: Vec::new(),
            username_check: None,
            final_register: None,
        }
    }

    /// Applies an update (see [`data_updated`]).
    pub fn apply(&mut self, update: DataUpdate<K>)
        ensures
            data_updated(*old(self), *final(self), update),
    {
        match update {
            DataUpdate::UserUpdate(user, events) => {
                self.user = Some(user);
                self.available_events = sort_newest_first(events);
            },
            DataUpdate::LoadUsers(list) => self.all_users = list,
            DataUpdate::LoadEvents(list) => self.all_events = list,
            DataUpdate::LoadEntryTypes(list) => self.all_entry_types = list,
            DataUpdate::LoadPermissionGroups(groups, pairs) => {
                self.all_permission_groups = groups;
                self.permission_group_events = pairs;
            },
            DataUpdate::LoadUserPermissionGroups(list) => self.user_permission_groups = list,
            DataUpdate::LoadEntryTypeEvents(list) => self.entry_type_events = list,
            DataUpdate::LoadEventEditors(list) => self.event_editors = list,
            DataUpdate::LoadEventLogTabs(list) => self.all_event_log_tabs = list,
            DataUpdate::LoadApplications(list) => self.all_applications = list,
            DataUpdate::LoadInfoPages(list) => self.all_info_pages = list,
            DataUpdate::UpdateEvent(r) => upsert_by_id(&mut self.all_events, r),
            DataUpdate::UpdateEntryType(r) => upsert_by_id(&mut self.all_entry_types, r),
            DataUpdate::AddTypeToEvent(a) => add_association_if_absent(&mut self.entry_type_events, a),
            DataUpdate::RemoveTypeFromEvent(first, second) => remove_association(
                &mut self.entry_type_events,
                &first,
                &second,
            ),
            DataUpdate::UpdateGroup(r) => upsert_by_id(&mut self.all_permission_groups, r),
            DataUpdate::SetEventPermissionForGroup(a) => upsert_association(&mut self.permission_group_events, a),
            DataUpdate::RemoveEventFromGroup(first, second) => remove_association(
                &mut self.permission_group_events,
                &first,
                &second,
            ),
            DataUpdate::UpdateUser(r) => upsert_by_id(&mut self.all_users, r),
            DataUpdate::AddEditor(a) => add_association_if_absent(&mut self.event_editors, a),
            DataUpdate::RemoveEditor(first, second) => remove_association(&mut self.event_editors, &first, &second),
            DataUpdate::AddUserToGroup(a) => add_association_if_absent(&mut self.user_permission_groups, a),
            DataUpdate::RemoveUserFromGroup(first, second) => remove_association(
                &mut self.user_permission_groups,
                &first,
                &second,
            ),
            DataUpdate::AddTab(r) => self.all_event_log_tabs.push(r),
            DataUpdate::UpdateTab(r) => update_existing_by_id(&mut self.all_event_log_tabs, r),
            DataUpdate::DeleteTab(id) => remove_all_by_id(&mut self.all_event_log_tabs, &id),
            DataUpdate::UpdateApplication(r) => upsert_by_id(&mut self.all_applications, r),
            DataUpdate::ShowApplicationAuthKey(r) => upsert_by_id(&mut self.application_auth_keys, r),
            DataUpdate::RevokeApplication(id) => {
                remove_first_by_id(&mut self.all_applications, &id);
                remove_first_by_id(&mut self.application_auth_keys, &id);
            },
            DataUpdate::UpdateInfoPage(r) => upsert_by_id(&mut self.all_info_pages, r),
            DataUpdate::DeleteInfoPage(id) => remove_first_by_id(&mut self.all_info_pages, &id),
            DataUpdate::UsernameCheck(c) => self.username_check = Some(c),
            DataUpdate::Registration(r) => self.final_register = Some(r),
        }
    }
}

} // verus!
