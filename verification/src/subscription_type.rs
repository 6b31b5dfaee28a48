use vstd::prelude::*;
use crate::text::{concat3, debug_quoted, quoted_debug_text};

verus! {

/// A kind of data the client can subscribe to on the server.
#[derive(Clone, Debug)]
pub enum SubscriptionType {
    /// The log data of the event with the given id.
    EventLogData(String),
    AdminUsers,
    AdminEvents,
    AdminPermissionGroups,
    AdminPermissionGroupUsers,
    AdminEntryTypes,
    AdminEntryTypesEvents,
    AdminEventEditors,
    AdminEventLogTabs,
    AdminEventLogSections,
    AdminApplications,
    AdminInfoPages,
    AdminTags,
    AdminTagEvents,
    AvailableTags,
    TagList,
}

/// What a [`SubscriptionType`] denotes: the same variants, with the event id
/// taken as its characters.
pub enum SubscriptionTarget {
    EventLogData(Seq<char>),
    AdminUsers,
    AdminEvents,
    AdminPermissionGroups,
    AdminPermissionGroupUsers,
    AdminEntryTypes,
    AdminEntryTypesEvents,
    AdminEventEditors,
    AdminEventLogTabs,
    AdminEventLogSections,
    AdminApplications,
    AdminInfoPages,
    AdminTags,
    AdminTagEvents,
    AvailableTags,
    TagList,
}

impl View for SubscriptionType {
    type V = SubscriptionTarget;

    open spec fn view(&self) -> SubscriptionTarget {
        match self {
            SubscriptionType::EventLogData(id) => SubscriptionTarget::EventLogData(id@),
            SubscriptionType::AdminUsers => SubscriptionTarget::AdminUsers,
            SubscriptionType::AdminEvents => SubscriptionTarget::AdminEvents,
            SubscriptionType::AdminPermissionGroups => SubscriptionTarget::AdminPermissionGroups,
            SubscriptionType::AdminPermissionGroupUsers => SubscriptionTarget::AdminPermissionGroupUsers,
            SubscriptionType::AdminEntryTypes => SubscriptionTarget::AdminEntryTypes,
            SubscriptionType::AdminEntryTypesEvents => SubscriptionTarget::AdminEntryTypesEvents,
            SubscriptionType::AdminEventEditors => SubscriptionTarget::AdminEventEditors,
            SubscriptionType::AdminEventLogTabs => SubscriptionTarget::AdminEventLogTabs,
            SubscriptionType::AdminEventLogSections => SubscriptionTarget::AdminEventLogSections,
            SubscriptionType::AdminApplications => SubscriptionTarget::AdminApplications,
            SubscriptionType::AdminInfoPages => SubscriptionTarget::AdminInfoPages,
            SubscriptionType::AdminTags => SubscriptionTarget::AdminTags,
            SubscriptionType::AdminTagEvents => SubscriptionTarget::AdminTagEvents,
            SubscriptionType::AvailableTags => SubscriptionTarget::AvailableTags,
            SubscriptionType::TagList => SubscriptionTarget::TagList,
        }
    }
}

/// The targets of a sequence of subscription types, in order.
pub open spec fn targets(s: Seq<SubscriptionType>) -> Seq<SubscriptionTarget> {
    s.map_values(|t: SubscriptionType| t@)
}

/// The text `derive(Debug)` writes for a subscription type: the variant's
/// name, and for an event's log data the event id in quotes and brackets.
pub open spec fn debug_text(t: SubscriptionTarget) -> Seq<char> {
    match t {
        SubscriptionTarget::EventLogData(id) => "EventLogData("@ + quoted_debug_text(id) + ")"@,
        SubscriptionTarget::AdminUsers => "AdminUsers"@,
        SubscriptionTarget::AdminEvents => "AdminEvents"@,
        SubscriptionTarget::AdminPermissionGroups => "AdminPermissionGroups"@,
        SubscriptionTarget::AdminPermissionGroupUsers => "AdminPermissionGroupUsers"@,
        SubscriptionTarget::AdminEntryTypes => "AdminEntryTypes"@,
        SubscriptionTarget::AdminEntryTypesEvents => "AdminEntryTypesEvents"@,
        SubscriptionTarget::AdminEventEditors => "AdminEventEditors"@,
        SubscriptionTarget::AdminEventLogTabs => "AdminEventLogTabs"@,
        SubscriptionTarget::AdminEventLogSections => "AdminEventLogSections"@,
        SubscriptionTarget::AdminApplications => "AdminApplications"@,
        SubscriptionTarget::AdminInfoPages => "AdminInfoPages"@,
        SubscriptionTarget::AdminTags => "AdminTags"@,
        SubscriptionTarget::AdminTagEvents => "AdminTagEvents"@,
        SubscriptionTarget::AvailableTags => "AvailableTags"@,
        SubscriptionTarget::TagList => "TagList"@,
    }
}

impl SubscriptionType {
    /// The text of this subscription type as `Debug` writes it.
    pub fn debug_text(&self) -> (text: String)
        ensures
            text@ == debug_text(self@),
    {
        match self {
            SubscriptionType::EventLogData(id) => concat3("EventLogData(", debug_quoted(id.as_str()).as_str(), ")"),
            SubscriptionType::AdminUsers => "AdminUsers".to_string(),
            SubscriptionType::AdminEvents => "AdminEvents".to_string(),
            SubscriptionType::AdminPermissionGroups => "AdminPermissionGroups".to_string(),
            SubscriptionType::AdminPermissionGroupUsers => "AdminPermissionGroupUsers".to_string(),
            SubscriptionType::AdminEntryTypes => "AdminEntryTypes".to_string(),
            SubscriptionType::AdminEntryTypesEvents => "AdminEntryTypesEvents".to_string(),
            SubscriptionType::AdminEventEditors => "AdminEventEditors".to_string(),
            SubscriptionType::AdminEventLogTabs => "AdminEventLogTabs".to_string(),
            SubscriptionType::AdminEventLogSections => "AdminEventLogSections".to_string(),
            SubscriptionType::AdminApplications => "AdminApplications".to_string(),
            SubscriptionType::AdminInfoPages => "AdminInfoPages".to_string(),
            SubscriptionType::AdminTags => "AdminTags".to_string(),
            SubscriptionType::AdminTagEvents => "AdminTagEvents".to_string(),
            SubscriptionType::AvailableTags => "AvailableTags".to_string(),
            SubscriptionType::TagList => "TagList".to_string(),
        }
    }

    /// Whether two subscription types denote the same data.
    pub fn same_as(&self, other: &SubscriptionType) -> (same: bool)
        ensures
            same == (self@ == other@),
    {
        match (self, other) {
            (SubscriptionType::EventLogData(a), SubscriptionType::EventLogData(b)) => {
                let same_id: bool = *a == *b;
                same_id
            },
            (SubscriptionType::AdminUsers, SubscriptionType::AdminUsers) => true,
            (SubscriptionType::AdminEvents, SubscriptionType::AdminEvents) => true,
            (SubscriptionType::AdminPermissionGroups, SubscriptionType::AdminPermissionGroups) => true,
            (SubscriptionType::AdminPermissionGroupUsers, SubscriptionType::AdminPermissionGroupUsers) => true,
            (SubscriptionType::AdminEntryTypes, SubscriptionType::AdminEntryTypes) => true,
            (SubscriptionType::AdminEntryTypesEvents, SubscriptionType::AdminEntryTypesEvents) => true,
            (SubscriptionType::AdminEventEditors, SubscriptionType::AdminEventEditors) => true,
            (SubscriptionType::AdminEventLogTabs, SubscriptionType::AdminEventLogTabs) => true,
            (SubscriptionType::AdminEventLogSections, SubscriptionType::AdminEventLogSections) => true,
            (SubscriptionType::AdminApplications, SubscriptionType::AdminApplications) => true,
            (SubscriptionType::AdminInfoPages, SubscriptionType::AdminInfoPages) => true,
            (SubscriptionType::AdminTags, SubscriptionType::AdminTags) => true,
            (SubscriptionType::AdminTagEvents, SubscriptionType::AdminTagEvents) => true,
            (SubscriptionType::AvailableTags, SubscriptionType::AvailableTags) => true,
            (SubscriptionType::TagList, SubscriptionType::TagList) => true,
            _ => false,
        }
    }

    /// A copy of this subscription type.
    pub fn duplicate(&self) -> (copy: SubscriptionType)
        ensures
            copy@ == self@,
    {
        match self {
            SubscriptionType::EventLogData(id) => SubscriptionType::EventLogData(id.clone()),
            SubscriptionType::AdminUsers => SubscriptionType::AdminUsers,
            SubscriptionType::AdminEvents => SubscriptionType::AdminEvents,
            SubscriptionType::AdminPermissionGroups => SubscriptionType::AdminPermissionGroups,
            SubscriptionType::AdminPermissionGroupUsers => SubscriptionType::AdminPermissionGroupUsers,
            SubscriptionType::AdminEntryTypes => SubscriptionType::AdminEntryTypes,
            SubscriptionType::AdminEntryTypesEvents => SubscriptionType::AdminEntryTypesEvents,
            SubscriptionType::AdminEventEditors => SubscriptionType::AdminEventEditors,
            SubscriptionType::AdminEventLogTabs => SubscriptionType::AdminEventLogTabs,
            SubscriptionType::AdminEventLogSections => SubscriptionType::AdminEventLogSections,
            SubscriptionType::AdminApplications => SubscriptionType::AdminApplications,
            SubscriptionType::AdminInfoPages => SubscriptionType::AdminInfoPages,
            SubscriptionType::AdminTags => SubscriptionType::AdminTags,
            SubscriptionType::AdminTagEvents => SubscriptionType::AdminTagEvents,
            SubscriptionType::AvailableTags => SubscriptionType::AvailableTags,
            SubscriptionType::TagList => SubscriptionType::TagList,
        }
    }
}

} // verus!
