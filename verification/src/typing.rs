use vstd::prelude::*;
use crate::color::RgbColor;
use crate::event_log::{EntryView, EventLogEntry};

verus! {

/// The field of a log entry that a user is typing into.
#[derive(Clone, Copy, Debug, PartialEq, Eq, Hash, Structural)]
pub enum TypingTarget {
    Parent,
    StartTime,
    EndTime,
    EntryType,
    Description,
    MediaLink,
    SubmitterWinner,
    NotesToEditor,
}

/// A user as typing notifications name them.
#[derive(Clone, Debug)]
pub struct TypingUser {
    pub id: String,
    pub username: String,
    /// The color the user's name is shown in.
    pub color: RgbColor,
    pub is_admin: bool,
}

/// What a [`TypingUser`] holds.
pub struct UserView {
    pub id: Seq<char>,
    pub username: Seq<char>,
    pub color: RgbColor,
    pub is_admin: bool,
}

impl View for TypingUser {
    type V = UserView;

    open spec fn view(&self) -> UserView {
        UserView { id: self.id@, username: self.username@, color: self.color, is_admin: self.is_admin }
    }
}

/// Another user is typing into a field of a log entry (or of a new entry,
/// where there is no entry).
#[derive(Clone, Debug)]
pub struct TypingEvent {
    pub event_log_entry: Option<EventLogEntry>,
    pub user: TypingUser,
    pub target_field: TypingTarget,
    pub data: String,
    /// When the notification arrived, in milliseconds since the Unix epoch.
    pub time_received: i64,
}

/// What a [`TypingEvent`] holds.
pub struct TypingView {
    pub event_log_entry: Option<EntryView>,
    pub user: UserView,
    pub target_field: TypingTarget,
    pub data: Seq<char>,
    pub time_received: i64,
}

/// The view of an optional entry.
pub open spec fn entry_option_view(e: Option<EventLogEntry>) -> Option<EntryView> {
    match e {
        Some(entry) => Some(entry@),
        None => None,
    }
}

/// The id of an optional entry.
pub open spec fn entry_id_of(e: Option<EntryView>) -> Option<Seq<char>> {
    match e {
        Some(entry) => Some(entry.id),
        None => None,
    }
}

impl View for TypingEvent {
    type V = TypingView;

    open spec fn view(&self) -> TypingView {
        TypingView {
            event_log_entry: entry_option_view(self.event_log_entry),
            user: self.user@,
            target_field: self.target_field,
            data: self.data@,
            time_received: self.time_received,
        }
    }
}

/// The views of a sequence of typing events.
pub open spec fn typing_views(s: Seq<TypingEvent>) -> Seq<TypingView> {
    s.map_values(|t: TypingEvent| t@)
}

/// The event comes from the given user typing into the given entry (or into a new one).
pub open spec fn same_source(t: TypingView, entry_id: Option<Seq<char>>, user_id: Seq<char>) -> bool {
    entry_id_of(t.event_log_entry) == entry_id && t.user.id == user_id
}

/// The event comes from the given user typing into the given field of the given entry.
pub open spec fn same_field(t: TypingView, entry_id: Option<Seq<char>>, user_id: Seq<char>, target: TypingTarget) -> bool {
    same_source(t, entry_id, user_id) && t.target_field == target
}

/// An event of the same source, refreshed by new typing into `target`.
pub open spec fn refreshed(t: TypingView, target: TypingTarget, data: Seq<char>, now: i64) -> TypingView {
    TypingView {
        time_received: now,
        data: if t.target_field == target { data } else { t.data },
        ..t
    }
}

/// `i` is the first event for the given field of the given user and entry.
pub open spec fn is_first_field_match(
    events: Seq<TypingView>,
    entry_id: Option<Seq<char>>,
    user_id: Seq<char>,
    target: TypingTarget,
    i: int,
) -> bool {
    &&& 0 <= i < events.len()
    &&& same_field(events[i], entry_id, user_id, target)
    &&& forall|j: int| 0 <= j < i ==> !same_field(#[trigger] events[j], entry_id, user_id, target)
}

/// Some event is for the given field of the given user and entry.
pub open spec fn has_field_match(
    events: Seq<TypingView>,
    entry_id: Option<Seq<char>>,
    user_id: Seq<char>,
    target: TypingTarget,
) -> bool {
    exists|i: int| 0 <= i < events.len() && same_field(#[trigger] events[i], entry_id, user_id, target)
}

/// `after` is what the typing events `before` become on a notification that
/// `user` typed `data` into `target` of `entry` at time `now`.
/// Clearing a field other than the parent removes the first event for that
/// field, if any. Otherwise every event of the same user and entry is
/// refreshed, and a new event is appended when none was for that field.
pub open spec fn typing_updated(
    before: Seq<TypingView>,
    after: Seq<TypingView>,
    entry: Option<EntryView>,
    data: Seq<char>,
    user: UserView,
    target: TypingTarget,
    now: i64,
) -> bool {
    let entry_id = entry_id_of(entry);
    if data.len() == 0 && target != TypingTarget::Parent {
        &&& !has_field_match(before, entry_id, user.id, target) ==> after == before
        &&& forall|i: int| is_first_field_match(before, entry_id, user.id, target, i) ==> after == before.remove(i)
    } else {
        let updated = Seq::new(
            before.len(),
            |i: int|
                if same_source(before[i], entry_id, user.id) {
                    refreshed(before[i], target, data, now)
                } else {
                    before[i]
                },
        );
        if has_field_match(before, entry_id, user.id, target) {
            after == updated
        } else {
            after == updated.push(
                TypingView { event_log_entry: entry, user: user, target_field: target, data: data, time_received: now },
            )
        }
    }
}

fn same_entry_id(a: &Option<EventLogEntry>, b: &Option<EventLogEntry>) -> (same: bool)
    ensures
        same == (entry_id_of(entry_option_view(*a)) == entry_id_of(entry_option_view(*b))),
{
    match (a, b) {
        (Some(x), Some(y)) => {
            let same: bool = x.id == y.id;
            same
        },
        (None, None) => true,
        _ => false,
    }
}

pub(crate) fn same_entry(a: &Option<EventLogEntry>, b: &Option<EventLogEntry>) -> (same: bool)
    ensures
        same == (entry_option_view(*a) == entry_option_view(*b)),
{
    match (a, b) {
        (Some(x), Some(y)) => {
            let same_id: bool = x.id == y.id;
            let same_parent: bool = match (&x.parent, &y.parent) {
                (Some(p), Some(q)) => {
                    let same: bool = *p == *q;
                    same
                },
                (None, None) => true,
                _ => false,
            };
            same_id && same_parent && x.same_position_as(y) && x.details.same_as(&y.details)
        },
        (None, None) => true,
        _ => false,
    }
}

fn same_user(a: &TypingUser, b: &TypingUser) -> (same: bool)
    ensures
        same == (a@ == b@),
{
    let same_id: bool = a.id == b.id;
    let same_name: bool = a.username == b.username;
    same_id && same_name && a.color == b.color && a.is_admin == b.is_admin
}

fn duplicate_entry(e: &Option<EventLogEntry>) -> (copy: Option<EventLogEntry>)
    ensures
        entry_option_view(copy) == entry_option_view(*e),
{
    match e {
        Some(entry) => Some(entry.duplicate()),
        None => None,
    }
}

impl TypingEvent {
    /// A copy of this event.
    pub fn duplicate(&self) -> (copy: TypingEvent)
        ensures
            copy@ == self@,
    {
        TypingEvent {
            event_log_entry: duplicate_entry(&self.event_log_entry),
            user: TypingUser {
                id: self.user.id.clone(),
                username: self.user.username.clone(),
                color: self.user.color,
                is_admin: self.user.is_admin,
            },
            target_field: self.target_field,
            data: self.data.clone(),
            time_received: self.time_received,
        }
    }
}

/// Records a typing notification received at time `now` (see [`typing_updated`]).
pub fn handle_typing_data(
    events: &mut Vec<TypingEvent>,
    event_log_entry: Option<EventLogEntry>,
    typed_data: String,
    typing_user: TypingUser,
    target_field: TypingTarget,
    now: i64,
)
    ensures
        typing_updated(
            typing_views(old(events)@),
            typing_views(final(events)@),
            entry_option_view(event_log_entry),
            typed_data@,
            typing_user@,
            target_field,
            now,
        ),
{
    let ghost old_views = typing_views(events@);
    let ghost entry_id = entry_id_of(entry_option_view(event_log_entry));
    let ghost user_id = typing_user.id@;
    if typed_data.as_str().is_empty() && target_field != TypingTarget::Parent {
        let mut i: usize = 0;
        while i < events.len()
            invariant
                i <= events@.len(),
                old_views == typing_views(events@),
                old_views == typing_views(old(events)@),
                typed_data@.len() == 0,
                target_field != TypingTarget::Parent,
                entry_id == entry_id_of(entry_option_view(event_log_entry)),
                user_id == typing_user.id@,
                forall|j: int| 0 <= j < i ==> !same_field(#[trigger] old_views[j], entry_id, user_id, target_field),
            decreases events@.len() - i,
        {
            let matches = same_entry_id(&events[i].event_log_entry, &event_log_entry) && {
                let same_user_id: bool = events[i].user.id == typing_user.id;
                same_user_id
            } && events[i].target_field == target_field;
            if matches {
                proof {
                    assert(same_field(old_views[i as int], entry_id, user_id, target_field));
                    assert forall|c: int| is_first_field_match(old_views, entry_id, user_id, target_field, c) implies c
                        == i by {
                        if c > i {
                            assert(!same_field(old_views[i as int], entry_id, user_id, target_field));
                        }
                    }
                }
                events.remove(i);
                proof {
                    assert(typing_views(events@) =~= old_views.remove(i as int));
                    assert(has_field_match(old_views, entry_id, user_id, target_field));
                }
                return;
            }
            i = i + 1;
        }
        proof {
            assert(!has_field_match(old_views, entry_id, user_id, target_field));
            assert forall|c: int| !is_first_field_match(old_views, entry_id, user_id, target_field, c) by {
                if 0 <= c < old_views.len() {
                    assert(!same_field(old_views[c], entry_id, user_id, target_field));
                }
            }
        }
    } else {
        let mut found_exact_event = false;
        let mut i: usize = 0;
        while i < events.len()
            invariant
                i <= events@.len(),
                events@.len() == old_views.len(),
                entry_id == entry_id_of(entry_option_view(event_log_entry)),
                user_id == typing_user.id@,
                forall|j: int|
                    0 <= j < i ==> #[trigger] typing_views(events@)[j] == (if same_source(old_views[j], entry_id, user_id) {
                        refreshed(old_views[j], target_field, typed_data@, now)
                    } else {
                        old_views[j]
                    }),
                forall|j: int| i <= j < events@.len() ==> #[trigger] typing_views(events@)[j] == old_views[j],
                found_exact_event == exists|j: int|
                    0 <= j < i && same_field(#[trigger] old_views[j], entry_id, user_id, target_field),
            decreases events@.len() - i,
        {
            let ghost before = events@;
            let source = same_entry_id(&events[i].event_log_entry, &event_log_entry) && {
                let same_user_id: bool = events[i].user.id == typing_user.id;
                same_user_id
            };
            proof {
                assert(typing_views(before)[i as int] == old_views[i as int]);
            }
            if source {
                let mut event = events.remove(i);
                event.time_received = now;
                if event.target_field == target_field {
                    event.data = typed_data.clone();
                    found_exact_event = true;
                }
                events.insert(i, event);
                proof {
                    assert(events@ =~= before.update(i as int, event));
                    assert(event@ == refreshed(old_views[i as int], target_field, typed_data@, now));
                }
            }
            proof {
                assert forall|j: int| 0 <= j < i + 1 implies #[trigger] typing_views(events@)[j] == (if same_source(
                    old_views[j],
                    entry_id,
                    user_id,
                ) {
                    refreshed(old_views[j], target_field, typed_data@, now)
                } else {
                    old_views[j]
                }) by {
                    if j < i {
                        assert(typing_views(events@)[j] == typing_views(before)[j]);
                    }
                }
                assert forall|j: int| i + 1 <= j < events@.len() implies #[trigger] typing_views(events@)[j]
                    == old_views[j] by {
                    assert(typing_views(events@)[j] == typing_views(before)[j]);
                }
                if same_field(old_views[i as int], entry_id, user_id, target_field) {
                    assert(found_exact_event);
                }
            }
            i = i + 1;
        }
        let ghost updated = Seq::new(
            old_views.len(),
            |j: int|
                if same_source(old_views[j], entry_id, user_id) {
                    refreshed(old_views[j], target_field, typed_data@, now)
                } else {
                    old_views[j]
                },
        );
        proof {
            assert(typing_views(events@) =~= updated);
        }
        if !found_exact_event {
            let new_event = TypingEvent {
                event_log_entry,
                user: typing_user,
                target_field,
                data: typed_data,
                time_received: now,
            };
            let ghost before = events@;
            events.push(new_event);
            proof {
                assert(typing_views(events@) =~= typing_views(before).push(new_event@));
            }
        }
    }
}


/// The events of `s` for which `keep` holds, in order.
pub open spec fn kept_events(s: Seq<TypingView>, keep: spec_fn(TypingView) -> bool) -> Seq<TypingView>
    decreases s.len(),
{
    if s.len() == 0 {
        Seq::empty()
    } else {
        let rest = kept_events(s.drop_last(), keep);
        if keep(s.last()) {
            rest.push(s.last())
        } else {
            rest
        }
    }
}

/// Which typing events to drop.
enum Discard<'a> {
    /// Events of this user on this entry.
    UserOnEntry(&'a TypingUser, &'a Option<EventLogEntry>),
    /// Events of the user with this id on a new entry.
    UserOnNewEntry(&'a String),
    /// Events of the user with this id on the entry with this id.
    UserOnEntryId(&'a String, &'a String),
    /// Events received at or before this time.
    ReceivedBy(i64),
}

spec fn discard_spec(d: Discard, t: TypingView) -> bool {
    match d {
        Discard::UserOnEntry(user, entry) => t.user == user@ && t.event_log_entry == entry_option_view(*entry),
        Discard::UserOnNewEntry(user_id) => t.user.id == user_id@ && t.event_log_entry is None,
        Discard::UserOnEntryId(user_id, entry_id) => t.user.id == user_id@ && entry_id_of(t.event_log_entry) == Some(
            entry_id@,
        ),
        Discard::ReceivedBy(cutoff) => t.time_received <= cutoff,
    }
}

fn discards(d: &Discard, t: &TypingEvent) -> (drop: bool)
    ensures
        drop == discard_spec(*d, t@),
{
    match d {
        Discard::UserOnEntry(user, entry) => same_user(&t.user, user) && same_entry(&t.event_log_entry, entry),
        Discard::UserOnNewEntry(user_id) => {
            let same_id: bool = t.user.id == **user_id;
            same_id && t.event_log_entry.is_none()
        },
        Discard::UserOnEntryId(user_id, entry_id) => {
            let same_id: bool = t.user.id == **user_id;
            same_id && match &t.event_log_entry {
                Some(entry) => {
                    let same_entry_id: bool = entry.id == **entry_id;
                    same_entry_id
                },
                None => false,
            }
        },
        Discard::ReceivedBy(cutoff) => t.time_received <= *cutoff,
    }
}

fn retain_events(events: &mut Vec<TypingEvent>, d: Discard)
    ensures
        typing_views(final(events)@) == kept_events(typing_views(old(events)@), |t: TypingView| !discard_spec(d, t)),
{
    let ghost keep = |t: TypingView| !discard_spec(d, t);
    let ghost all = typing_views(events@);
    let mut kept: Vec<TypingEvent> = Vec::new();
    let mut i: usize = 0;
    while i < events.len()
        invariant
            i <= events@.len(),
            all == typing_views(events@),
            keep == (|t: TypingView| !discard_spec(d, t)),
            typing_views(kept@) == kept_events(all.take(i as int), keep),
        decreases events@.len() - i,
    {
        proof {
            assert(all.take(i + 1).drop_last() =~= all.take(i as int));
            assert(all.take(i + 1).last() == events@[i as int]@);
        }
        if !discards(&d, &events[i]) {
            let ghost before = kept@;
            kept.push(events[i].duplicate());
            proof {
                assert(typing_views(kept@) =~= typing_views(before).push(events@[i as int]@));
            }
        }
        i = i + 1;
    }
    proof {
        assert(all.take(events@.len() as int) =~= all);
    }
    *events = kept;
}

/// The events of `s` other than those of `user` on `entry`.
pub open spec fn cleared(s: Seq<TypingView>, user: UserView, entry: Option<EntryView>) -> Seq<TypingView> {
    kept_events(s, |t: TypingView| !(t.user == user && t.event_log_entry == entry))
}

/// Drops the events of `typing_user` on `event_log_entry`: the user stopped typing there.
pub fn clear_typing(events: &mut Vec<TypingEvent>, event_log_entry: &Option<EventLogEntry>, typing_user: &TypingUser)
    ensures
        typing_views(final(events)@) == cleared(
            typing_views(old(events)@),
            typing_user@,
            entry_option_view(*event_log_entry),
        ),
{
    retain_events(events, Discard::UserOnEntry(typing_user, event_log_entry));
    proof {
        assert((|t: TypingView| !discard_spec(Discard::UserOnEntry(typing_user, event_log_entry), t)) =~= (|
            t: TypingView,
        | !(t.user == typing_user@ && t.event_log_entry == entry_option_view(*event_log_entry))));
    }
}

/// Drops the events of the user with id `user_id` on a new entry: that user
/// just created an entry.
pub fn clear_typing_for_new_entry(events: &mut Vec<TypingEvent>, user_id: &String)
    ensures
        typing_views(final(events)@) == kept_events(
            typing_views(old(events)@),
            |t: TypingView| !(t.user.id == user_id@ && t.event_log_entry is None),
        ),
{
    retain_events(events, Discard::UserOnNewEntry(user_id));
    proof {
        assert((|t: TypingView| !discard_spec(Discard::UserOnNewEntry(user_id), t)) =~= (|t: TypingView|
            !(t.user.id == user_id@ && t.event_log_entry is None)));
    }
}

/// Drops the events of the user with id `user_id` on the entry with id
/// `entry_id`: that user just updated the entry.
pub fn clear_typing_for_updated_entry(events: &mut Vec<TypingEvent>, user_id: &String, entry_id: &String)
    ensures
        typing_views(final(events)@) == kept_events(
            typing_views(old(events)@),
            |t: TypingView| !(t.user.id == user_id@ && entry_id_of(t.event_log_entry) == Some(entry_id@)),
        ),
{
    retain_events(events, Discard::UserOnEntryId(user_id, entry_id));
    proof {
        assert((|t: TypingView| !discard_spec(Discard::UserOnEntryId(user_id, entry_id), t)) =~= (|t: TypingView|
            !(t.user.id == user_id@ && entry_id_of(t.event_log_entry) == Some(entry_id@))));
    }
}

/// How long a typing notification stays, in milliseconds.
pub const TYPING_EXPIRY_MILLIS: i64 = 30_000;

/// The events of `s` received less than [`TYPING_EXPIRY_MILLIS`] before `now`.
pub open spec fn unexpired(s: Seq<TypingView>, now: i64) -> Seq<TypingView> {
    kept_events(s, |t: TypingView| t.time_received > now - TYPING_EXPIRY_MILLIS)
}

/// Drops the events received more than [`TYPING_EXPIRY_MILLIS`] before `now`.
pub fn expire_typing_events_at(events: &mut Vec<TypingEvent>, now: i64)
    requires
        now >= i64::MIN + TYPING_EXPIRY_MILLIS,
    ensures
        typing_views(final(events)@) == unexpired(typing_views(old(events)@), now),
{
    let cutoff = now - TYPING_EXPIRY_MILLIS;
    retain_events(events, Discard::ReceivedBy(cutoff));
    proof {
        assert((|t: TypingView| !discard_spec(Discard::ReceivedBy(cutoff), t)) =~= (|t: TypingView|
            t.time_received > now - TYPING_EXPIRY_MILLIS));
    }
}


/// Filtering keeps exactly the events that pass, in order: each kept event
/// passes and was there, and each event that passes is kept.
pub proof fn law_kept_events(s: Seq<TypingView>, keep: spec_fn(TypingView) -> bool)
    ensures
        forall|i: int| 0 <= i < kept_events(s, keep).len() ==> keep(#[trigger] kept_events(s, keep)[i]),
        forall|i: int| 0 <= i < kept_events(s, keep).len() ==> s.contains(#[trigger] kept_events(s, keep)[i]),
        forall|i: int| 0 <= i < s.len() && keep(#[trigger] s[i]) ==> kept_events(s, keep).contains(s[i]),
        kept_events(s, keep).len() <= s.len(),
    decreases s.len(),
{
    if s.len() > 0 {
        let d = s.drop_last();
        law_kept_events(d, keep);
        let k = kept_events(s, keep);
        let kd = kept_events(d, keep);
        assert forall|i: int| 0 <= i < k.len() implies keep(#[trigger] k[i]) && s.contains(k[i]) by {
            if i < kd.len() {
                assert(k[i] == kd[i]);
                let j = choose|j: int| 0 <= j < d.len() && d[j] == kd[i];
                assert(s[j] == d[j]);
            } else {
                assert(s[s.len() - 1] == k[i]);
            }
        }
        assert forall|i: int| 0 <= i < s.len() && keep(#[trigger] s[i]) implies k.contains(s[i]) by {
            if i < s.len() - 1 {
                assert(d[i] == s[i]);
                assert(kd.contains(d[i]));
                let j = choose|j: int| 0 <= j < kd.len() && kd[j] == d[i];
                assert(k[j] == kd[j]);
            } else {
                assert(k[k.len() - 1] == s[i]);
            }
        }
    }
}

/// After a user stops typing on an entry, none of that user's events on
/// that entry remain, and every other event does.
pub proof fn law_cleared_typing_gone(s: Seq<TypingView>, user: UserView, entry: Option<EntryView>)
    ensures
        forall|i: int|
            0 <= i < cleared(s, user, entry).len() ==> !((#[trigger] cleared(s, user, entry)[i]).user == user
                && cleared(s, user, entry)[i].event_log_entry == entry),
        forall|i: int|
            0 <= i < s.len() && !((#[trigger] s[i]).user == user && s[i].event_log_entry == entry) ==> cleared(
                s,
                user,
                entry,
            ).contains(s[i]),
{
    let keep = |t: TypingView| !(t.user == user && t.event_log_entry == entry);
    law_kept_events(s, keep);
    assert forall|i: int|
        0 <= i < s.len() && !((#[trigger] s[i]).user == user && s[i].event_log_entry == entry) implies cleared(
        s,
        user,
        entry,
    ).contains(s[i]) by {
        assert(keep(s[i]));
    }
    assert forall|i: int| 0 <= i < cleared(s, user, entry).len() implies !((#[trigger] cleared(
        s,
        user,
        entry,
    )[i]).user == user && cleared(s, user, entry)[i].event_log_entry == entry) by {
        assert(keep(kept_events(s, keep)[i]));
    }
}

/// After expiry at `now`, every remaining event arrived less than
/// [`TYPING_EXPIRY_MILLIS`] before `now`, and every such event remains.
pub proof fn law_expired_typing_gone(s: Seq<TypingView>, now: i64)
    ensures
        forall|i: int|
            0 <= i < unexpired(s, now).len() ==> (#[trigger] unexpired(s, now)[i]).time_received > now
                - TYPING_EXPIRY_MILLIS,
        forall|i: int|
            0 <= i < s.len() && (#[trigger] s[i]).time_received > now - TYPING_EXPIRY_MILLIS ==> unexpired(
                s,
                now,
            ).contains(s[i]),
{
    let keep = |t: TypingView| t.time_received > now - TYPING_EXPIRY_MILLIS;
    law_kept_events(s, keep);
    assert forall|i: int| 0 <= i < unexpired(s, now).len() implies (#[trigger] unexpired(
        s,
        now,
    )[i]).time_received > now - TYPING_EXPIRY_MILLIS by {
        assert(keep(kept_events(s, keep)[i]));
    }
    assert forall|i: int|
        0 <= i < s.len() && (#[trigger] s[i]).time_received > now - TYPING_EXPIRY_MILLIS implies unexpired(
        s,
        now,
    ).contains(s[i]) by {
        assert(keep(s[i]));
    }
}

/// After typing into a field (anything but clearing a field other than the
/// parent), an event for that field holds what was typed and the time it
/// arrived; events of other users or entries are untouched.
pub proof fn law_typing_recorded(
    before: Seq<TypingView>,
    after: Seq<TypingView>,
    entry: Option<EntryView>,
    data: Seq<char>,
    user: UserView,
    target: TypingTarget,
    now: i64,
)
    requires
        typing_updated(before, after, entry, data, user, target, now),
        data.len() > 0 || target == TypingTarget::Parent,
    ensures
        exists|i: int|
            0 <= i < after.len() && same_field(#[trigger] after[i], entry_id_of(entry), user.id, target)
                && after[i].data == data && after[i].time_received == now,
        forall|i: int|
            0 <= i < before.len() && !same_source(before[i], entry_id_of(entry), user.id) ==> #[trigger] after[i]
                == before[i],
{
    let entry_id = entry_id_of(entry);
    if has_field_match(before, entry_id, user.id, target) {
        let i = choose|i: int| 0 <= i < before.len() && same_field(#[trigger] before[i], entry_id, user.id, target);
        assert(same_field(after[i], entry_id, user.id, target));
    } else {
        let i = before.len() as int;
        assert(same_field(after[i], entry_id, user.id, target));
    }
}

/// Clearing a field other than the parent removes one event for that field
/// when there was one, and changes nothing otherwise.
pub proof fn law_typing_cleared(
    before: Seq<TypingView>,
    after: Seq<TypingView>,
    entry: Option<EntryView>,
    user: UserView,
    target: TypingTarget,
    now: i64,
)
    requires
        typing_updated(before, after, entry, Seq::empty(), user, target, now),
        target != TypingTarget::Parent,
    ensures
        has_field_match(before, entry_id_of(entry), user.id, target) ==> after.len() + 1 == before.len(),
        !has_field_match(before, entry_id_of(entry), user.id, target) ==> after == before,
{
    let entry_id = entry_id_of(entry);
    if has_field_match(before, entry_id, user.id, target) {
        let i = choose|i: int| 0 <= i < before.len() && same_field(#[trigger] before[i], entry_id, user.id, target);
        lemma_first_field_match_exists(before, entry_id, user.id, target, i);
        let f = choose|f: int| is_first_field_match(before, entry_id, user.id, target, f);
        assert(Seq::<char>::empty().len() == 0);
        assert(after == before.remove(f));
    }
}

proof fn lemma_first_field_match_exists(
    s: Seq<TypingView>,
    entry_id: Option<Seq<char>>,
    user_id: Seq<char>,
    target: TypingTarget,
    i: int,
)
    requires
        0 <= i < s.len(),
        same_field(s[i], entry_id, user_id, target),
    ensures
        exists|f: int| is_first_field_match(s, entry_id, user_id, target, f),
    decreases i,
{
    if exists|j: int| 0 <= j < i && same_field(#[trigger] s[j], entry_id, user_id, target) {
        let j = choose|j: int| 0 <= j < i && same_field(#[trigger] s[j], entry_id, user_id, target);
        lemma_first_field_match_exists(s, entry_id, user_id, target, j);
    } else {
        assert(is_first_field_match(s, entry_id, user_id, target, i));
    }
}

/// `t` and `u` are typing by the same user into the same field of the same
/// entry (or both of a new entry).
pub open spec fn same_key(t: TypingView, u: TypingView) -> bool {
    same_field(u, entry_id_of(t.event_log_entry), t.user.id, t.target_field)
}

/// No two events are typing by the same user into the same field of the
/// same entry.
pub open spec fn fields_unique(s: Seq<TypingView>) -> bool {
    forall|i: int, j: int| 0 <= i < j < s.len() ==> !same_key(#[trigger] s[i], #[trigger] s[j])
}

/// Keeping some of the events keeps them unique.
proof fn lemma_kept_unique(s: Seq<TypingView>, keep: spec_fn(TypingView) -> bool)
    requires
        fields_unique(s),
    ensures
        fields_unique(kept_events(s, keep)),
    decreases s.len(),
{
    if s.len() > 0 {
        let d = s.drop_last();
        assert forall|i: int, j: int| 0 <= i < j < d.len() implies !same_key(#[trigger] d[i], #[trigger] d[j]) by {
            assert(d[i] == s[i] && d[j] == s[j]);
        }
        lemma_kept_unique(d, keep);
        law_kept_events(d, keep);
        let k = kept_events(s, keep);
        let kd = kept_events(d, keep);
        if keep(s.last()) {
            assert forall|i: int, j: int| 0 <= i < j < k.len() implies !same_key(#[trigger] k[i], #[trigger] k[j]) by {
                if j == k.len() - 1 {
                    assert(k[i] == kd[i]);
                    assert(d.contains(kd[i]));
                    let a = choose|a: int| 0 <= a < d.len() && d[a] == kd[i];
                    assert(s[a] == d[a]);
                    assert(!same_key(s[a], s[s.len() - 1]));
                } else {
                    assert(k[i] == kd[i] && k[j] == kd[j]);
                }
            }
        }
    }
}

/// Recording or clearing typing keeps the events unique per user, entry and
/// field, and so does dropping events (clearing a user's typing, or expiry).
pub proof fn law_typing_stays_unique(
    before: Seq<TypingView>,
    after: Seq<TypingView>,
    entry: Option<EntryView>,
    data: Seq<char>,
    user: UserView,
    target: TypingTarget,
    now: i64,
    keep: spec_fn(TypingView) -> bool,
)
    requires
        fields_unique(before),
    ensures
        typing_updated(before, after, entry, data, user, target, now) ==> fields_unique(after),
        fields_unique(kept_events(before, keep)),
{
    lemma_kept_unique(before, keep);
    if typing_updated(before, after, entry, data, user, target, now) {
        let entry_id = entry_id_of(entry);
        if data.len() == 0 && target != TypingTarget::Parent {
            if has_field_match(before, entry_id, user.id, target) {
                let f = choose|f: int| 0 <= f < before.len() && same_field(#[trigger] before[f], entry_id, user.id, target);
                lemma_first_field_match_exists(before, entry_id, user.id, target, f);
                let g = choose|g: int| is_first_field_match(before, entry_id, user.id, target, g);
                assert(after == before.remove(g));
                assert forall|i: int, j: int| 0 <= i < j < after.len() implies !same_key(#[trigger] after[i], #[trigger] after[j]) by {
                    let a = if i < g { i } else { i + 1 };
                    let b = if j < g { j } else { j + 1 };
                    assert(after[i] == before[a] && after[j] == before[b]);
                }
            }
        } else {
            assert forall|i: int, j: int| 0 <= i < j < after.len() implies !same_key(#[trigger] after[i], #[trigger] after[j]) by {
                if j < before.len() {
                    assert(!same_key(before[i], before[j]));
                } else {
                    assert(!has_field_match(before, entry_id, user.id, target));
                    assert(!same_field(before[i], entry_id, user.id, target));
                }
            }
        }
    }
}

} // verus!
