use vstd::prelude::*;
use crate::event_log::{EntryView, EventLogEntry};
use crate::text::{lemma_text_less_trans, text_less, text_less_exec};
use crate::typing::{
    entry_id_of, entry_option_view, has_field_match, same_entry, same_source, typing_updated, typing_views, TypingEvent,
    TypingTarget, TypingUser, TypingView, UserView,
};

verus! {

/// What one user is typing into the entry being edited, field by field.
#[derive(Clone, Debug)]
pub struct UserTyping {
    pub user: TypingUser,
    /// The parent entry typed in, when the user typed one.
    pub parent: Option<String>,
    pub start_time: String,
    pub end_time: String,
    pub entry_type: String,
    pub description: String,
    pub submitter_winner: String,
    pub media_link: String,
    pub notes_to_editor: String,
}

/// What a [`UserTyping`] holds.
pub struct UserTypingView {
    pub user: UserView,
    pub parent: Option<Seq<char>>,
    pub start_time: Seq<char>,
    pub end_time: Seq<char>,
    pub entry_type: Seq<char>,
    pub description: Seq<char>,
    pub submitter_winner: Seq<char>,
    pub media_link: Seq<char>,
    pub notes_to_editor: Seq<char>,
}

impl View for UserTyping {
    type V = UserTypingView;

    open spec fn view(&self) -> UserTypingView {
        UserTypingView {
            user: self.user@,
            parent: match self.parent {
                Some(p) => Some(p@),
                None => None,
            },
            start_time: self.start_time@,
            end_time: self.end_time@,
            entry_type: self.entry_type@,
            description: self.description@,
            submitter_winner: self.submitter_winner@,
            media_link: self.media_link@,
            notes_to_editor: self.notes_to_editor@,
        }
    }
}

/// The views of a sequence of per-user typing.
pub open spec fn user_typing_views(s: Seq<UserTyping>) -> Seq<UserTypingView> {
    s.map_values(|u: UserTyping| u@)
}

/// The event is typing by the user with id `user_id` into `entry`.
pub open spec fn by_user_on(t: TypingView, entry: Option<EntryView>, user_id: Seq<char>) -> bool {
    t.event_log_entry == entry && t.user.id == user_id
}

/// What the user with id `user_id` typed last into `target` of `entry`.
pub open spec fn last_typed(
    events: Seq<TypingView>,
    entry: Option<EntryView>,
    user_id: Seq<char>,
    target: TypingTarget,
) -> Option<Seq<char>>
    decreases events.len(),
{
    if events.len() == 0 {
        None
    } else if by_user_on(events.last(), entry, user_id) && events.last().target_field == target {
        Some(events.last().data)
    } else {
        last_typed(events.drop_last(), entry, user_id, target)
    }
}

/// The user as named by the first event of the user with id `user_id` on `entry`.
pub open spec fn first_user(events: Seq<TypingView>, entry: Option<EntryView>, user_id: Seq<char>) -> Option<UserView>
    decreases events.len(),
{
    if events.len() == 0 {
        None
    } else {
        match first_user(events.drop_last(), entry, user_id) {
            Some(u) => Some(u),
            None => if by_user_on(events.last(), entry, user_id) {
                Some(events.last().user)
            } else {
                None
            },
        }
    }
}

/// The text last typed into a field, empty where nothing was typed.
pub open spec fn or_empty(typed: Option<Seq<char>>) -> Seq<char> {
    match typed {
        Some(t) => t,
        None => Seq::empty(),
    }
}

/// What `user` is typing into `entry`, field by field, after `events`.
pub open spec fn summary_of(events: Seq<TypingView>, entry: Option<EntryView>, user: UserView) -> UserTypingView {
    UserTypingView {
        user: user,
        parent: last_typed(events, entry, user.id, TypingTarget::Parent),
        start_time: or_empty(last_typed(events, entry, user.id, TypingTarget::StartTime)),
        end_time: or_empty(last_typed(events, entry, user.id, TypingTarget::EndTime)),
        entry_type: or_empty(last_typed(events, entry, user.id, TypingTarget::EntryType)),
        description: or_empty(last_typed(events, entry, user.id, TypingTarget::Description)),
        submitter_winner: or_empty(last_typed(events, entry, user.id, TypingTarget::SubmitterWinner)),
        media_link: or_empty(last_typed(events, entry, user.id, TypingTarget::MediaLink)),
        notes_to_editor: or_empty(last_typed(events, entry, user.id, TypingTarget::NotesToEditor)),
    }
}

/// Some event is typing by the user with id `user_id` into `entry`.
pub open spec fn has_typed(events: Seq<TypingView>, entry: Option<EntryView>, user_id: Seq<char>) -> bool {
    exists|j: int| 0 <= j < events.len() && by_user_on(#[trigger] events[j], entry, user_id)
}

/// A user is named by [`first_user`] exactly when that user typed into the entry.
proof fn lemma_first_user(events: Seq<TypingView>, entry: Option<EntryView>, user_id: Seq<char>)
    ensures
        first_user(events, entry, user_id) is Some <==> has_typed(events, entry, user_id),
        first_user(events, entry, user_id) matches Some(u) ==> u.id == user_id,
    decreases events.len(),
{
    if events.len() > 0 {
        let d = events.drop_last();
        lemma_first_user(d, entry, user_id);
        if has_typed(d, entry, user_id) {
            let j = choose|j: int| 0 <= j < d.len() && by_user_on(#[trigger] d[j], entry, user_id);
            assert(events[j] == d[j]);
        }
        if has_typed(events, entry, user_id) && !by_user_on(events.last(), entry, user_id) {
            let j = choose|j: int| 0 <= j < events.len() && by_user_on(#[trigger] events[j], entry, user_id);
            assert(j < events.len() - 1);
            assert(d[j] == events[j]);
        }
    }
}

/// Nothing is typed by a user who typed nothing into the entry.
proof fn lemma_nothing_typed(events: Seq<TypingView>, entry: Option<EntryView>, user_id: Seq<char>, target: TypingTarget)
    requires
        !has_typed(events, entry, user_id),
    ensures
        last_typed(events, entry, user_id, target) is None,
    decreases events.len(),
{
    if events.len() > 0 {
        let d = events.drop_last();
        assert(!by_user_on(events[events.len() - 1], entry, user_id));
        assert forall|j: int| 0 <= j < d.len() implies !by_user_on(#[trigger] d[j], entry, user_id) by {
            assert(d[j] == events[j]);
        }
        lemma_nothing_typed(d, entry, user_id, target);
    }
}

/// The summary with `target` set to `data`.
pub open spec fn with_field(v: UserTypingView, target: TypingTarget, data: Seq<char>) -> UserTypingView {
    match target {
        TypingTarget::Parent => UserTypingView { parent: Some(data), ..v },
        TypingTarget::StartTime => UserTypingView { start_time: data, ..v },
        TypingTarget::EndTime => UserTypingView { end_time: data, ..v },
        TypingTarget::EntryType => UserTypingView { entry_type: data, ..v },
        TypingTarget::Description => UserTypingView { description: data, ..v },
        TypingTarget::SubmitterWinner => UserTypingView { submitter_winner: data, ..v },
        TypingTarget::MediaLink => UserTypingView { media_link: data, ..v },
        TypingTarget::NotesToEditor => UserTypingView { notes_to_editor: data, ..v },
    }
}

/// How one more event changes what a user is typing.
proof fn lemma_step(p: Seq<TypingView>, t: TypingView, entry: Option<EntryView>, user: UserView)
    ensures
        summary_of(p.push(t), entry, user) == (if by_user_on(t, entry, user.id) {
            with_field(summary_of(p, entry, user), t.target_field, t.data)
        } else {
            summary_of(p, entry, user)
        }),
        first_user(p.push(t), entry, user.id) == (if first_user(p, entry, user.id) is Some {
            first_user(p, entry, user.id)
        } else if by_user_on(t, entry, user.id) {
            Some(t.user)
        } else {
            None
        }),
        has_typed(p.push(t), entry, user.id) == (has_typed(p, entry, user.id) || by_user_on(t, entry, user.id)),
{
    let q = p.push(t);
    assert(q.drop_last() =~= p);
    assert(q.last() == t);
    if has_typed(q, entry, user.id) && !by_user_on(t, entry, user.id) {
        let j = choose|j: int| 0 <= j < q.len() && by_user_on(#[trigger] q[j], entry, user.id);
        assert(j < p.len());
        assert(p[j] == q[j]);
    }
    if has_typed(p, entry, user.id) {
        let j = choose|j: int| 0 <= j < p.len() && by_user_on(#[trigger] p[j], entry, user.id);
        assert(q[j] == p[j]);
    }
    if by_user_on(t, entry, user.id) {
        assert(q[p.len() as int] == t);
    }
}

/// A summary with nothing typed yet.
pub open spec fn empty_summary(user: UserView) -> UserTypingView {
    UserTypingView {
        user: user,
        parent: None,
        start_time: Seq::empty(),
        end_time: Seq::empty(),
        entry_type: Seq::empty(),
        description: Seq::empty(),
        submitter_winner: Seq::empty(),
        media_link: Seq::empty(),
        notes_to_editor: Seq::empty(),
    }
}

fn set_field(summary: &mut UserTyping, target: TypingTarget, data: &String)
    ensures
        final(summary)@ == with_field(old(summary)@, target, data@),
{
    match target {
        TypingTarget::Parent => summary.parent = Some(data.clone()),
        TypingTarget::StartTime => summary.start_time = data.clone(),
        TypingTarget::EndTime => summary.end_time = data.clone(),
        TypingTarget::EntryType => summary.entry_type = data.clone(),
        TypingTarget::Description => summary.description = data.clone(),
        TypingTarget::SubmitterWinner => summary.submitter_winner = data.clone(),
        TypingTarget::MediaLink => summary.media_link = data.clone(),
        TypingTarget::NotesToEditor => summary.notes_to_editor = data.clone(),
    }
}

impl UserTyping {
    /// A copy of this summary.
    pub fn duplicate(&self) -> (copy: UserTyping)
        ensures
            copy@ == self@,
    {
        UserTyping {
            user: TypingUser {
                id: self.user.id.clone(),
                username: self.user.username.clone(),
                color: self.user.color,
                is_admin: self.user.is_admin,
            },
            parent: match &self.parent {
                Some(p) => Some(p.clone()),
                None => None,
            },
            start_time: self.start_time.clone(),
            end_time: self.end_time.clone(),
            entry_type: self.entry_type.clone(),
            description: self.description.clone(),
            submitter_winner: self.submitter_winner.clone(),
            media_link: self.media_link.clone(),
            notes_to_editor: self.notes_to_editor.clone(),
        }
    }
}

/// No text comes strictly before itself.
proof fn lemma_text_less_irreflexive(a: Seq<char>)
    ensures
        !text_less(a, a),
    decreases a.len(),
{
    if a.len() > 0 {
        lemma_text_less_irreflexive(a.drop_first());
    }
}

/// The summaries are in order of username.
pub open spec fn sorted_by_username(s: Seq<UserTypingView>) -> bool {
    forall|i: int, j: int| 0 <= i < j < s.len() ==> !text_less(s[j].user.username, s[i].user.username)
}

/// No two summaries are of the same user id.
pub open spec fn distinct_users(s: Seq<UserTypingView>) -> bool {
    forall|i: int, j: int| 0 <= i < s.len() && 0 <= j < s.len() && i != j ==> s[i].user.id != s[j].user.id
}

/// Inserts `item` into summaries sorted by username, after those whose
/// username does not come after its own; returns where it went.
fn insert_sorted(sorted: &mut Vec<UserTyping>, item: UserTyping) -> (p: usize)
    requires
        sorted_by_username(user_typing_views(old(sorted)@)),
        distinct_users(user_typing_views(old(sorted)@)),
        forall|i: int| 0 <= i < old(sorted)@.len() ==> (#[trigger] old(sorted)@[i])@.user.id != item@.user.id,
    ensures
        p <= old(sorted)@.len(),
        final(sorted)@ == old(sorted)@.insert(p as int, item),
        sorted_by_username(user_typing_views(final(sorted)@)),
        distinct_users(user_typing_views(final(sorted)@)),
{
    let mut p: usize = 0;
    while p < sorted.len() && !text_less_exec(item.user.username.as_str(), sorted[p].user.username.as_str())
        invariant
            p <= sorted@.len(),
            forall|i: int| 0 <= i < p ==> !text_less(item@.user.username, #[trigger] sorted@[i]@.user.username),
        decreases sorted@.len() - p,
    {
        p = p + 1;
    }
    let ghost old_sorted = sorted@;
    let ghost v = user_typing_views(old_sorted);
    let ghost x = item@;
    proof {
        if p < old_sorted.len() {
            assert(text_less(x.user.username, v[p as int].user.username));
        }
    }
    sorted.insert(p, item);
    proof {
        let w = user_typing_views(sorted@);
        assert(w =~= v.insert(p as int, x));
        assert forall|i: int, j: int| 0 <= i < j < w.len() implies !text_less(w[j].user.username, w[i].user.username) by {
            if i < p && j == p {
                assert(!text_less(x.user.username, old_sorted[i]@.user.username));
            } else if i == p && j > p {
                if text_less(w[j].user.username, x.user.username) {
                    lemma_text_less_trans(w[j].user.username, x.user.username, v[p as int].user.username);
                    if j - 1 == p {
                        lemma_text_less_irreflexive(v[p as int].user.username);
                    } else {
                        assert(!text_less(v[j - 1].user.username, v[p as int].user.username));
                    }
                }
            } else if i < p && j > p {
                assert(!text_less(v[j - 1].user.username, v[i].user.username));
            } else if i > p {
                assert(!text_less(v[j - 1].user.username, v[i - 1].user.username));
            } else {
                assert(!text_less(v[j].user.username, v[i].user.username));
            }
        }
        assert forall|i: int, j: int| 0 <= i < w.len() && 0 <= j < w.len() && i != j implies w[i].user.id
            != w[j].user.id by {
            if i != p && j != p {
                let a = if i < p { i } else { i - 1 };
                let b = if j < p { j } else { j - 1 };
                assert(v[a].user.id != v[b].user.id);
            } else if i == p {
                let b = if j < p { j } else { j - 1 };
                assert(old_sorted[b]@.user.id != x.user.id);
            } else {
                let a = if i < p { i } else { i - 1 };
                assert(old_sorted[a]@.user.id != x.user.id);
            }
        }
    }
    p
}

/// Every element of `a` is among the first `k` of `b`, and each of those is in `a`.
pub open spec fn drawn_from(a: Seq<UserTypingView>, b: Seq<UserTypingView>, k: int) -> bool {
    &&& forall|i: int| 0 <= i < a.len() ==> exists|j: int| 0 <= j < k && #[trigger] a[i] == b[j]
    &&& forall|j: int| 0 <= j < k ==> exists|i: int| 0 <= i < a.len() && a[i] == #[trigger] b[j]
}

/// Inserting the next element of `b` anywhere keeps `a` drawn from `b`.
proof fn lemma_drawn_insert(a: Seq<UserTypingView>, b: Seq<UserTypingView>, k: int, p: int)
    requires
        drawn_from(a, b, k),
        0 <= k < b.len(),
        0 <= p <= a.len(),
    ensures
        drawn_from(a.insert(p, b[k]), b, k + 1),
{
    let w = a.insert(p, b[k]);
    assert forall|i: int| 0 <= i < w.len() implies exists|j: int| 0 <= j < k + 1 && #[trigger] w[i] == b[j] by {
        if i < p {
            assert(w[i] == a[i]);
        } else if i == p {
            assert(w[i] == b[k]);
        } else {
            assert(w[i] == a[i - 1]);
        }
    }
    assert forall|j: int| 0 <= j < k + 1 implies exists|i: int| 0 <= i < w.len() && w[i] == #[trigger] b[j] by {
        if j < k {
            let i = choose|i: int| 0 <= i < a.len() && a[i] == b[j];
            if i < p {
                assert(w[i] == a[i]);
            } else {
                assert(w[i + 1] == a[i]);
            }
        } else {
            assert(w[p] == b[j]);
        }
    }
}

/// Sorts summaries of distinct users by username (in no fixed order among
/// equal usernames).
fn sort_by_username(items: &Vec<UserTyping>) -> (sorted: Vec<UserTyping>)
    requires
        distinct_users(user_typing_views(items@)),
    ensures
        sorted@.len() == items@.len(),
        distinct_users(user_typing_views(sorted@)),
        sorted_by_username(user_typing_views(sorted@)),
        drawn_from(user_typing_views(sorted@), user_typing_views(items@), items@.len() as int),
{
    let ghost src = user_typing_views(items@);
    let mut sorted: Vec<UserTyping> = Vec::new();
    let mut k: usize = 0;
    proof {
        assert(drawn_from(user_typing_views(sorted@), src, 0));
    }
    while k < items.len()
        invariant
            src == user_typing_views(items@),
            distinct_users(src),
            k <= items@.len(),
            sorted@.len() == k,
            distinct_users(user_typing_views(sorted@)),
            sorted_by_username(user_typing_views(sorted@)),
            drawn_from(user_typing_views(sorted@), src, k as int),
        decreases items@.len() - k,
    {
        let item = items[k].duplicate();
        let ghost old_sorted = sorted@;
        let ghost v = user_typing_views(old_sorted);
        proof {
            assert forall|i: int| 0 <= i < old_sorted.len() implies (#[trigger] old_sorted[i])@.user.id != item@.user.id by {
                assert(v[i] == old_sorted[i]@);
                let j = choose|j: int| 0 <= j < k && v[i] == src[j];
                assert(src[k as int] == item@);
            }
        }
        let p = insert_sorted(&mut sorted, item);
        proof {
            assert(user_typing_views(sorted@) =~= v.insert(p as int, src[k as int]));
            lemma_drawn_insert(v, src, k as int, p as int);
        }
        k = k + 1;
    }
    sorted
}

/// `groups` holds, for each user who typed into `entry` in `events`, what
/// that user is typing, once per user.
pub open spec fn groups_typing(groups: Seq<UserTypingView>, events: Seq<TypingView>, entry: Option<EntryView>) -> bool {
    &&& forall|i: int| 0 <= i < groups.len() ==> #[trigger] groups[i] == summary_of(events, entry, groups[i].user)
    &&& forall|i: int| 0 <= i < groups.len() ==> first_user(events, entry, (#[trigger] groups[i]).user.id) == Some(groups[i].user)
    &&& distinct_users(groups)
    &&& forall|id: Seq<char>| #[trigger] has_typed(events, entry, id) ==> exists|i: int| 0 <= i < groups.len() && groups[i].user.id == id
}

/// The index of the summary of the user with the given id, if any.
fn find_user(groups: &Vec<UserTyping>, user_id: &String) -> (found: Option<usize>)
    ensures
        match found {
            Some(i) => i < groups@.len() && groups@[i as int]@.user.id == user_id@,
            None => forall|i: int| 0 <= i < groups@.len() ==> (#[trigger] groups@[i])@.user.id != user_id@,
        },
{
    let mut i: usize = 0;
    while i < groups.len()
        invariant
            i <= groups@.len(),
            forall|j: int| 0 <= j < i ==> (#[trigger] groups@[j])@.user.id != user_id@,
        decreases groups@.len() - i,
    {
        let same: bool = groups[i].user.id == *user_id;
        if same {
            return Some(i);
        }
        i = i + 1;
    }
    None
}

/// Folds one more typing event into the per-user summaries.
fn add_to_groups(groups: &mut Vec<UserTyping>, event: &TypingEvent, editing: &Option<EventLogEntry>, Ghost(p): Ghost<Seq<TypingView>>)
    requires
        groups_typing(user_typing_views(old(groups)@), p, entry_option_view(*editing)),
    ensures
        groups_typing(user_typing_views(final(groups)@), p.push(event@), entry_option_view(*editing)),
{
    let ghost e = entry_option_view(*editing);
    let ghost t = event@;
    let ghost q = p.push(t);
    let ghost v = user_typing_views(groups@);
    if !same_entry(&event.event_log_entry, editing) {
        proof {
            assert forall|i: int| 0 <= i < v.len() implies #[trigger] v[i] == summary_of(q, e, v[i].user)
                && first_user(q, e, v[i].user.id) == Some(v[i].user) by {
                lemma_step(p, t, e, v[i].user);
            }
            assert forall|id: Seq<char>| #[trigger] has_typed(q, e, id) implies exists|i: int|
                0 <= i < v.len() && v[i].user.id == id by {
                lemma_step(p, t, e, UserView { id: id, username: t.user.username, color: t.user.color, is_admin: t.user.is_admin });
                assert(has_typed(p, e, id));
            }
        }
        return;
    }
    match find_user(groups, &event.user.id) {
        Some(g) => {
            let mut updated = groups[g].duplicate();
            set_field(&mut updated, event.target_field, &event.data);
            groups.set(g, updated);
            proof {
                let w = user_typing_views(groups@);
                assert(w =~= v.update(g as int, w[g as int]));
                assert forall|i: int| 0 <= i < w.len() implies #[trigger] w[i] == summary_of(q, e, w[i].user)
                    && first_user(q, e, w[i].user.id) == Some(w[i].user) by {
                    lemma_step(p, t, e, v[i].user);
                    if i != g {
                        assert(v[i].user.id != v[g as int].user.id);
                    }
                }
                assert forall|id: Seq<char>| #[trigger] has_typed(q, e, id) implies exists|i: int|
                    0 <= i < w.len() && w[i].user.id == id by {
                    lemma_step(p, t, e, UserView { id: id, username: t.user.username, color: t.user.color, is_admin: t.user.is_admin });
                    if id == t.user.id {
                        assert(w[g as int].user.id == id);
                    } else {
                        assert(has_typed(p, e, id));
                        let i = choose|i: int| 0 <= i < v.len() && v[i].user.id == id;
                        assert(w[i].user.id == id);
                    }
                }
                assert forall|i: int, j: int| 0 <= i < w.len() && 0 <= j < w.len() && i != j implies w[i].user.id
                    != w[j].user.id by {
                    assert(v[i].user.id != v[j].user.id);
                }
            }
        },
        None => {
            proof {
                if has_typed(p, e, t.user.id) {
                    let i = choose|i: int| 0 <= i < v.len() && v[i].user.id == t.user.id;
                    assert(groups@[i]@.user.id != t.user.id);
                }
                lemma_first_user(p, e, t.user.id);
                lemma_nothing_typed(p, e, t.user.id, TypingTarget::Parent);
                lemma_nothing_typed(p, e, t.user.id, TypingTarget::StartTime);
                lemma_nothing_typed(p, e, t.user.id, TypingTarget::EndTime);
                lemma_nothing_typed(p, e, t.user.id, TypingTarget::EntryType);
                lemma_nothing_typed(p, e, t.user.id, TypingTarget::Description);
                lemma_nothing_typed(p, e, t.user.id, TypingTarget::SubmitterWinner);
                lemma_nothing_typed(p, e, t.user.id, TypingTarget::MediaLink);
                lemma_nothing_typed(p, e, t.user.id, TypingTarget::NotesToEditor);
                lemma_step(p, t, e, t.user);
                assert(summary_of(p, e, t.user) == empty_summary(t.user));
            }
            let mut fresh = UserTyping {
                user: TypingUser {
                    id: event.user.id.clone(),
                    username: event.user.username.clone(),
                    color: event.user.color,
                    is_admin: event.user.is_admin,
                },
                parent: None,
                start_time: String::new(),
                end_time: String::new(),
                entry_type: String::new(),
                description: String::new(),
                submitter_winner: String::new(),
                media_link: String::new(),
                notes_to_editor: String::new(),
            };
            proof {
                assert(fresh@ == empty_summary(t.user));
            }
            set_field(&mut fresh, event.target_field, &event.data);
            groups.push(fresh);
            proof {
                let w = user_typing_views(groups@);
                assert(w =~= v.push(w[v.len() as int]));
                assert forall|i: int| 0 <= i < w.len() implies #[trigger] w[i] == summary_of(q, e, w[i].user)
                    && first_user(q, e, w[i].user.id) == Some(w[i].user) by {
                    if i < v.len() {
                        lemma_step(p, t, e, v[i].user);
                        assert(groups@[i]@.user.id != t.user.id);
                    }
                }
                assert forall|id: Seq<char>| #[trigger] has_typed(q, e, id) implies exists|i: int|
                    0 <= i < w.len() && w[i].user.id == id by {
                    lemma_step(p, t, e, UserView { id: id, username: t.user.username, color: t.user.color, is_admin: t.user.is_admin });
                    if id == t.user.id {
                        assert(w[v.len() as int].user.id == id);
                    } else {
                        assert(has_typed(p, e, id));
                        let i = choose|i: int| 0 <= i < v.len() && v[i].user.id == id;
                        assert(w[i].user.id == id);
                    }
                }
                assert forall|i: int, j: int| 0 <= i < w.len() && 0 <= j < w.len() && i != j implies w[i].user.id
                    != w[j].user.id by {
                    if i < v.len() && j < v.len() {
                        assert(v[i].user.id != v[j].user.id);
                    } else if i < v.len() {
                        assert(groups@[i]@.user.id != t.user.id);
                    } else {
                        assert(groups@[j]@.user.id != t.user.id);
                    }
                }
            }
        },
    }
}

/// What each user is typing into the entry being edited (or into a new
/// entry, where none is edited): one summary per user who typed into it,
/// holding the text last typed into each field, ordered by username (in no
/// fixed order among equal usernames).
pub fn typing_by_user(events: &Vec<TypingEvent>, editing: &Option<EventLogEntry>) -> (summaries: Vec<UserTyping>)
    ensures
        forall|i: int| 0 <= i < summaries@.len() ==> (#[trigger] summaries@[i])@ == summary_of(
            typing_views(events@),
            entry_option_view(*editing),
            summaries@[i]@.user,
        ),
        forall|i: int| 0 <= i < summaries@.len() ==> first_user(
            typing_views(events@),
            entry_option_view(*editing),
            (#[trigger] summaries@[i])@.user.id,
        ) == Some(summaries@[i]@.user),
        distinct_users(user_typing_views(summaries@)),
        forall|id: Seq<char>| #[trigger] has_typed(typing_views(events@), entry_option_view(*editing), id)
            ==> exists|i: int| 0 <= i < summaries@.len() && summaries@[i]@.user.id == id,
        sorted_by_username(user_typing_views(summaries@)),
{
    let ghost s = typing_views(events@);
    let ghost e = entry_option_view(*editing);
    let mut groups: Vec<UserTyping> = Vec::new();
    let mut k: usize = 0;
    proof {
        assert(s.take(0) =~= Seq::<TypingView>::empty());
        assert(user_typing_views(groups@) =~= Seq::<UserTypingView>::empty());
    }
    while k < events.len()
        invariant
            s == typing_views(events@),
            e == entry_option_view(*editing),
            k <= events@.len(),
            groups_typing(user_typing_views(groups@), s.take(k as int), e),
        decreases events@.len() - k,
    {
        add_to_groups(&mut groups, &events[k], editing, Ghost(s.take(k as int)));
        proof {
            assert(s.take(k as int).push(events@[k as int]@) =~= s.take(k + 1));
        }
        k = k + 1;
    }
    proof {
        assert(s.take(k as int) =~= s);
    }
    let sorted = sort_by_username(&groups);
    proof {
        let g = user_typing_views(groups@);
        let w = user_typing_views(sorted@);
        assert forall|i: int| 0 <= i < sorted@.len() implies (#[trigger] sorted@[i])@ == summary_of(s, e, sorted@[i]@.user)
            && first_user(s, e, sorted@[i]@.user.id) == Some(sorted@[i]@.user) by {
            assert(w[i] == sorted@[i]@);
            let j = choose|j: int| 0 <= j < g.len() && w[i] == g[j];
        }
        assert forall|id: Seq<char>| #[trigger] has_typed(s, e, id) implies exists|i: int|
            0 <= i < sorted@.len() && sorted@[i]@.user.id == id by {
            let j = choose|j: int| 0 <= j < g.len() && g[j].user.id == id;
            let i = choose|i: int| 0 <= i < w.len() && w[i] == g[j];
            assert(w[i] == sorted@[i]@);
        }
    }
    sorted
}

/// Where some event of the user into `target` of `entry` exists and all of
/// them hold `data`, that is what the user last typed there.
proof fn lemma_last_typed_uniform(
    s: Seq<TypingView>,
    entry: Option<EntryView>,
    user_id: Seq<char>,
    target: TypingTarget,
    data: Seq<char>,
)
    requires
        exists|i: int| 0 <= i < s.len() && by_user_on(#[trigger] s[i], entry, user_id) && s[i].target_field == target,
        forall|i: int|
            0 <= i < s.len() && by_user_on(#[trigger] s[i], entry, user_id) && s[i].target_field == target ==> s[i].data
                == data,
    ensures
        last_typed(s, entry, user_id, target) == Some(data),
    decreases s.len(),
{
    let n = s.len() - 1;
    if !(by_user_on(s[n], entry, user_id) && s[n].target_field == target) {
        let d = s.drop_last();
        let i = choose|i: int| 0 <= i < s.len() && by_user_on(#[trigger] s[i], entry, user_id) && s[i].target_field == target;
        assert(d[i] == s[i]);
        assert forall|j: int|
            0 <= j < d.len() && by_user_on(#[trigger] d[j], entry, user_id) && d[j].target_field == target implies d[j].data
                == data by {
            assert(d[j] == s[j]);
        }
        lemma_last_typed_uniform(d, entry, user_id, target, data);
    }
}

/// What a user types into a field is what the summaries then show for that
/// user and field, where the user's earlier typing into that entry names the
/// entry as it is now.
pub proof fn law_typed_text_shown(
    before: Seq<TypingView>,
    after: Seq<TypingView>,
    entry: Option<EntryView>,
    data: Seq<char>,
    user: UserView,
    target: TypingTarget,
    now: i64,
)
    requires
        typing_updated(before, after, entry, data, user, target, now),
        data.len() > 0 || target == TypingTarget::Parent,
        forall|i: int|
            0 <= i < before.len() && same_source(#[trigger] before[i], entry_id_of(entry), user.id) ==> before[i].event_log_entry
                == entry,
    ensures
        last_typed(after, entry, user.id, target) == Some(data),
        has_typed(after, entry, user.id),
{
    let entry_id = entry_id_of(entry);
    if has_field_match(before, entry_id, user.id, target) {
        let i = choose|i: int| 0 <= i < before.len() && crate::typing::same_field(#[trigger] before[i], entry_id, user.id, target);
        assert(by_user_on(after[i], entry, user.id) && after[i].target_field == target);
        assert forall|j: int|
            0 <= j < after.len() && by_user_on(#[trigger] after[j], entry, user.id) && after[j].target_field == target implies after[j].data
                == data by {
            assert(same_source(before[j], entry_id, user.id));
        }
        lemma_last_typed_uniform(after, entry, user.id, target, data);
    } else {
        let n = before.len() as int;
        assert(after[n].event_log_entry == entry);
        assert(by_user_on(after[n], entry, user.id));
        assert(after.drop_last().len() == n);
    }
}

} // verus!
