use vstd::prelude::*;
use crate::subscription_counts::{
    count_map, counted_list_wf, find_counted, lemma_count_map_dom, lemma_count_map_positive,
    lemma_count_map_remove, lemma_count_map_update, lemma_count_map_value, lemma_push_unique, Counted,
};
use crate::subscription_type::{targets, SubscriptionTarget, SubscriptionType};

verus! {

/// The targets of `s` that are not in `excluded`, in the order of `s`.
pub open spec fn without(s: Seq<SubscriptionTarget>, excluded: Set<SubscriptionTarget>) -> Seq<SubscriptionTarget>
    decreases s.len(),
{
    if s.len() == 0 {
        Seq::empty()
    } else {
        let rest = without(s.drop_last(), excluded);
        if excluded.contains(s.last()) {
            rest
        } else {
            rest.push(s.last())
        }
    }
}

/// The distinct targets of `s`, each at the place where it first occurs.
pub open spec fn first_occurrences(s: Seq<SubscriptionTarget>) -> Seq<SubscriptionTarget>
    decreases s.len(),
{
    if s.len() == 0 {
        Seq::empty()
    } else {
        let rest = first_occurrences(s.drop_last());
        if rest.contains(s.last()) {
            rest
        } else {
            rest.push(s.last())
        }
    }
}

/// How often each target occurs in `s`.
pub open spec fn occurrences(s: Seq<SubscriptionTarget>) -> Map<SubscriptionTarget, nat>
    decreases s.len(),
{
    if s.len() == 0 {
        Map::empty()
    } else {
        let rest = occurrences(s.drop_last());
        let k = s.last();
        rest.insert(k, if rest.dom().contains(k) { rest[k] + 1 } else { 1 })
    }
}

/// The count map after one of the subscribers of `k` has gone away.
pub open spec fn decremented(m: Map<SubscriptionTarget, nat>, k: SubscriptionTarget) -> Map<SubscriptionTarget, nat> {
    if m[k] <= 1 {
        m.remove(k)
    } else {
        m.insert(k, (m[k] - 1) as nat)
    }
}

/// Counts that a manager can hold: every count positive, and no target both
/// active and requested.
pub open spec fn counts_wf(
    active: Map<SubscriptionTarget, nat>,
    requested: Map<SubscriptionTarget, nat>,
) -> bool {
    &&& forall|k: SubscriptionTarget| active.dom().contains(k) ==> active[k] > 0
    &&& forall|k: SubscriptionTarget| requested.dom().contains(k) ==> requested[k] > 0
    &&& active.dom().disjoint(requested.dom())
}

/// Tracks, for each subscription type, how many parts of the client want it,
/// separately for subscriptions the server has confirmed (active) and those
/// that were requested but not yet confirmed.
pub struct SubscriptionManager {
    active: Vec<Counted>,
    requested: Vec<Counted>,
}

/// What to do to change the subscriptions: end `ends`, then start `starts`;
/// once both were sent, the manager becomes `next`.
pub struct SubscriptionPlan {
    pub ends: Vec<SubscriptionType>,
    pub starts: Vec<SubscriptionType>,
    pub next: SubscriptionManager,
}

spec fn order_of(s: Seq<Counted>) -> Seq<SubscriptionTarget> {
    s.map_values(|c: Counted| c.subscription@)
}

proof fn lemma_order_contains(s: Seq<Counted>, k: SubscriptionTarget)
    ensures
        order_of(s).contains(k) <==> count_map(s).dom().contains(k),
        order_of(s).len() == s.len(),
{
    lemma_count_map_dom(s, k);
    if order_of(s).contains(k) {
        let i = choose|i: int| 0 <= i < order_of(s).len() && order_of(s)[i] == k;
        assert(s[i].subscription@ == k);
    }
    if count_map(s).dom().contains(k) {
        let i = choose|i: int| 0 <= i < s.len() && s[i].subscription@ == k;
        assert(order_of(s)[i] == k);
    }
}

proof fn lemma_empty_list(s: Seq<Counted>)
    ensures
        (s.len() == 0) <==> (count_map(s) =~= Map::empty()),
{
    if s.len() > 0 {
        assert(count_map(s).dom().contains(s.last().subscription@));
    }
}

impl SubscriptionManager {
    /// Confirmed subscriptions, with how many parts of the client want each.
    pub closed spec fn active(&self) -> Map<SubscriptionTarget, nat> {
        count_map(self.active@)
    }

    /// Requested but unconfirmed subscriptions, with how many parts of the client want each.
    pub closed spec fn requested(&self) -> Map<SubscriptionTarget, nat> {
        count_map(self.requested@)
    }

    /// The confirmed subscriptions in the order the manager keeps them.
    pub closed spec fn active_order(&self) -> Seq<SubscriptionTarget> {
        order_of(self.active@)
    }

    /// The requested subscriptions in the order the manager keeps them.
    pub closed spec fn requested_order(&self) -> Seq<SubscriptionTarget> {
        order_of(self.requested@)
    }

    /// The manager's internal lists are well kept.
    pub closed spec fn wf(&self) -> bool {
        &&& counted_list_wf(self.active@)
        &&& counted_list_wf(self.requested@)
        &&& self.active().dom().disjoint(self.requested().dom())
    }

    /// A well-kept manager holds positive, disjoint counts, and its orders
    /// list each counted target once.
    pub proof fn lemma_wf(&self)
        requires
            self.wf(),
        ensures
            counts_wf(self.active(), self.requested()),
            self.active_order().no_duplicates(),
            self.requested_order().no_duplicates(),
            forall|k: SubscriptionTarget| self.active_order().contains(k) <==> self.active().dom().contains(k),
            forall|k: SubscriptionTarget| self.requested_order().contains(k) <==> self.requested().dom().contains(k),
    {
        assert forall|k: SubscriptionTarget| self.active().dom().contains(k) implies self.active()[k] > 0 by {
            lemma_count_map_positive(self.active@, k);
        }
        assert forall|k: SubscriptionTarget| self.requested().dom().contains(k) implies self.requested()[k] > 0 by {
            lemma_count_map_positive(self.requested@, k);
        }
        assert forall|k: SubscriptionTarget| self.active_order().contains(k) <==> self.active().dom().contains(k) by {
            lemma_order_contains(self.active@, k);
        }
        assert forall|k: SubscriptionTarget| self.requested_order().contains(k) <==> self.requested().dom().contains(k) by {
            lemma_order_contains(self.requested@, k);
        }
    }

    /// A manager with no subscriptions.
    pub fn new() -> (manager: SubscriptionManager)
        ensures
            manager.wf(),
            manager.active() == Map::<SubscriptionTarget, nat>::empty(),
            manager.requested() == Map::<SubscriptionTarget, nat>::empty(),
    {
        SubscriptionManager { active: Vec::new(), requested: Vec::new() }
    }

    /// Whether no subscription is active or requested.
    pub fn is_empty(&self) -> (empty: bool)
        ensures
            empty == (self.active() == Map::<SubscriptionTarget, nat>::empty()
                && self.requested() == Map::<SubscriptionTarget, nat>::empty()),
    {
        proof {
            lemma_empty_list(self.active@);
            lemma_empty_list(self.requested@);
        }
        self.active.len() == 0 && self.requested.len() == 0
    }
}

/// Lowers the count of the entry at `i` by one, dropping it when it reaches zero.
fn decrement_at(list: &mut Vec<Counted>, i: usize)
    requires
        counted_list_wf(old(list)@),
        i < old(list)@.len(),
    ensures
        counted_list_wf(final(list)@),
        count_map(final(list)@) == decremented(count_map(old(list)@), old(list)@[i as int].subscription@),
{
    let ghost s = list@;
    let ghost k = s[i as int].subscription@;
    proof {
        lemma_count_map_value(s, i as int);
        lemma_count_map_remove(s, i as int);
    }
    let entry = list.remove(i);
    if entry.count > 1 {
        let updated = Counted { subscription: entry.subscription, count: entry.count - 1 };
        list.insert(i, updated);
        proof {
            assert(list@ =~= s.update(i as int, updated));
            lemma_count_map_update(s, i as int, updated);
            assert(count_map(s).insert(k, (entry.count - 1) as nat) =~= decremented(count_map(s), k));
        }
    }
}

/// `after` is `before` once one part of the client no longer wants `k`:
/// its count drops by one where it is active, else where it is requested,
/// and a count that reaches zero goes; nothing changes where `k` is not
/// tracked.
pub open spec fn removal_applied(before: SubscriptionManager, after: SubscriptionManager, k: SubscriptionTarget) -> bool {
    &&& before.active().dom().contains(k) ==> {
        &&& after.active() == decremented(before.active(), k)
        &&& after.requested() == before.requested()
    }
    &&& !before.active().dom().contains(k) ==> {
        &&& after.active() == before.active()
        &&& before.requested().dom().contains(k) ==> after.requested() == decremented(before.requested(), k)
        &&& !before.requested().dom().contains(k) ==> after.requested() == before.requested()
    }
}

/// `after` is `before` once the server confirmed `k`: a requested count
/// becomes active; nothing changes where `k` is not requested.
pub open spec fn confirmation_applied(before: SubscriptionManager, after: SubscriptionManager, k: SubscriptionTarget) -> bool {
    &&& before.requested().dom().contains(k) ==> {
        &&& after.active() == before.active().insert(k, before.requested()[k])
        &&& after.requested() == before.requested().remove(k)
    }
    &&& !before.requested().dom().contains(k) ==> {
        &&& after.active() == before.active()
        &&& after.requested() == before.requested()
    }
}

/// `after` is `before` once the server refused `k`: it is no longer requested.
pub open spec fn refusal_applied(before: SubscriptionManager, after: SubscriptionManager, k: SubscriptionTarget) -> bool {
    &&& after.active() == before.active()
    &&& after.requested() == before.requested().remove(k)
}

impl SubscriptionManager {
    /// Removes a subscription for data: lowers the count of the subscription
    /// type where it is active, else where it is requested, dropping it when
    /// the count reaches zero.
    pub fn remove_subscription(&mut self, subscription_type: SubscriptionType)
        requires
            old(self).wf(),
        ensures
            final(self).wf(),
            removal_applied(*old(self), *final(self), subscription_type@),
    {
        match find_counted(&self.active, &subscription_type) {
            Some(i) => {
                decrement_at(&mut self.active, i);
            },
            None => match find_counted(&self.requested, &subscription_type) {
                Some(i) => {
                    decrement_at(&mut self.requested, i);
                },
                None => {},
            },
        }
    }

    /// To be called when the server confirms a subscription: its requested
    /// count becomes active. Nothing changes when it is not requested (an
    /// unsubscription was already sent).
    pub fn subscription_confirmation_received(&mut self, subscription_type: SubscriptionType)
        requires
            old(self).wf(),
        ensures
            final(self).wf(),
            confirmation_applied(*old(self), *final(self), subscription_type@),
    {
        match find_counted(&self.requested, &subscription_type) {
            Some(i) => {
                let ghost r = self.requested@;
                let ghost a = self.active@;
                proof {
                    lemma_count_map_value(r, i as int);
                    lemma_count_map_remove(r, i as int);
                }
                let entry = self.requested.remove(i);
                proof {
                    assert(!count_map(a).dom().contains(entry.subscription@));
                    lemma_push_unique(a, entry);
                }
                self.active.push(entry);
            },
            None => {},
        }
    }

    /// To be called when the server refuses a subscription: it is no longer requested.
    pub fn subscription_failure_received(&mut self, subscription_type: SubscriptionType)
        requires
            old(self).wf(),
        ensures
            final(self).wf(),
            refusal_applied(*old(self), *final(self), subscription_type@),
    {
        match find_counted(&self.requested, &subscription_type) {
            Some(i) => {
                proof {
                    lemma_count_map_remove(self.requested@, i as int);
                }
                self.requested.remove(i);
            },
            None => {
                proof {
                    assert(count_map(self.requested@).remove(subscription_type@) =~= count_map(self.requested@));
                }
            },
        }
    }
}


/// Appends to `out` the subscription types of `list`, in order, whose target
/// is not counted in `excluded`.
fn push_uncounted(list: &Vec<Counted>, excluded: &Vec<Counted>, out: &mut Vec<SubscriptionType>)
    ensures
        targets(final(out)@) == targets(old(out)@) + without(order_of(list@), count_map(excluded@).dom()),
{
    let ghost start = targets(out@);
    let ghost ex = count_map(excluded@).dom();
    let mut i: usize = 0;
    while i < list.len()
        invariant
            i <= list@.len(),
            ex == count_map(excluded@).dom(),
            targets(out@) == start + without(order_of(list@).take(i as int), ex),
        decreases list@.len() - i,
    {
        proof {
            assert(order_of(list@).take(i + 1).drop_last() =~= order_of(list@).take(i as int));
        }
        let found = find_counted(excluded, &list[i].subscription);
        if found.is_none() {
            let copy = list[i].subscription.duplicate();
            let ghost before = out@;
            out.push(copy);
            proof {
                assert(targets(out@) =~= targets(before).push(copy@));
            }
        }
        i = i + 1;
    }
    proof {
        assert(order_of(list@).take(list@.len() as int) =~= order_of(list@));
    }
}

/// A one-entry list counting `subscription_type` once.
fn single_count(subscription_type: &SubscriptionType) -> (list: Vec<Counted>)
    ensures
        counted_list_wf(list@),
        count_map(list@) == Map::<SubscriptionTarget, nat>::empty().insert(subscription_type@, 1),
        count_map(list@).dom() == Set::<SubscriptionTarget>::empty().insert(subscription_type@),
{
    let mut list: Vec<Counted> = Vec::new();
    list.push(Counted { subscription: subscription_type.duplicate(), count: 1 });
    proof {
        assert(list@.drop_last() =~= Seq::<Counted>::empty());
        assert(count_map(list@.drop_last()) =~= Map::<SubscriptionTarget, nat>::empty());
        assert(count_map(list@) =~= Map::<SubscriptionTarget, nat>::empty().insert(subscription_type@, 1));
        assert(count_map(list@).dom() =~= Set::<SubscriptionTarget>::empty().insert(subscription_type@));
    }
    list
}

impl SubscriptionManager {
    /// The subscriptions to end when the set of subscriptions is to become
    /// only `subscription_type`: every other active one, in order, then every
    /// other requested one, in order.
    pub fn ends_for_single(&self, subscription_type: &SubscriptionType) -> (ends: Vec<SubscriptionType>)
        ensures
            targets(ends@) == without(self.active_order(), set![subscription_type@]) + without(
                self.requested_order(),
                set![subscription_type@],
            ),
    {
        let only = single_count(subscription_type);
        let mut ends: Vec<SubscriptionType> = Vec::new();
        proof {
            assert(set![subscription_type@] =~= Set::<SubscriptionTarget>::empty().insert(subscription_type@));
        }
        push_uncounted(&self.active, &only, &mut ends);
        push_uncounted(&self.requested, &only, &mut ends);
        proof {
            assert(targets(Seq::<SubscriptionType>::empty()) =~= Seq::<SubscriptionTarget>::empty());
        }
        ends
    }

    /// Keeps only `subscription_type`, with a count of one, wherever it is
    /// active or requested; drops every other subscription.
    pub fn retain_only(&mut self, subscription_type: &SubscriptionType)
        requires
            old(self).wf(),
        ensures
            final(self).wf(),
            final(self).active() == (if old(self).active().dom().contains(subscription_type@) {
                Map::<SubscriptionTarget, nat>::empty().insert(subscription_type@, 1)
            } else {
                Map::<SubscriptionTarget, nat>::empty()
            }),
            final(self).requested() == (if old(self).requested().dom().contains(subscription_type@) {
                Map::<SubscriptionTarget, nat>::empty().insert(subscription_type@, 1)
            } else {
                Map::<SubscriptionTarget, nat>::empty()
            }),
    {
        let in_active = find_counted(&self.active, subscription_type).is_some();
        let in_requested = find_counted(&self.requested, subscription_type).is_some();
        if in_active {
            self.active = single_count(subscription_type);
        } else {
            self.active = Vec::new();
        }
        if in_requested {
            self.requested = single_count(subscription_type);
        } else {
            self.requested = Vec::new();
        }
        proof {
            assert(count_map(Seq::<Counted>::empty()) =~= Map::<SubscriptionTarget, nat>::empty());
            assert(!(in_active && in_requested));
        }
    }

    /// Records that a subscription to `subscription_type` was just requested,
    /// for one part of the client.
    pub fn record_subscription_request(&mut self, subscription_type: SubscriptionType)
        requires
            old(self).wf(),
            !old(self).active().dom().contains(subscription_type@),
        ensures
            final(self).wf(),
            final(self).active() == old(self).active(),
            final(self).requested() == old(self).requested().insert(subscription_type@, 1),
    {
        let entry = Counted { subscription: subscription_type, count: 1 };
        match find_counted(&self.requested, &entry.subscription) {
            Some(i) => {
                let ghost r = self.requested@;
                self.requested.remove(i);
                self.requested.insert(i, entry);
                proof {
                    assert(self.requested@ =~= r.update(i as int, entry));
                    lemma_count_map_update(r, i as int, entry);
                    assert forall|j: int| 0 <= j < self.requested@.len() implies self.requested@[j].count > 0 by {
                        if j != i {
                            assert(self.requested@[j] == r[j]);
                        }
                    }
                    assert forall|j: int, l: int|
                        0 <= j < self.requested@.len() && 0 <= l < self.requested@.len() && j != l
                        implies self.requested@[j].subscription@ != self.requested@[l].subscription@ by {
                        assert(r[j].subscription@ != r[l].subscription@);
                    }
                }
            },
            None => {
                proof {
                    lemma_push_unique(self.requested@, entry);
                }
                self.requested.push(entry);
            },
        }
    }
}


/// Counts how often each subscription type occurs in `types`, keeping the
/// types in the order of their first occurrence.
fn count_types(types: &Vec<SubscriptionType>) -> (counts: Vec<Counted>)
    requires
        types@.len() <= u32::MAX,
    ensures
        counted_list_wf(counts@),
        count_map(counts@) == occurrences(targets(types@)),
        order_of(counts@) == first_occurrences(targets(types@)),
{
    let ghost all = targets(types@);
    let mut counts: Vec<Counted> = Vec::new();
    let mut i: usize = 0;
    proof {
        assert(all.take(0) =~= Seq::<SubscriptionTarget>::empty());
        assert(order_of(counts@) =~= Seq::<SubscriptionTarget>::empty());
        assert(count_map(counts@) =~= Map::<SubscriptionTarget, nat>::empty());
    }
    while i < types.len()
        invariant
            i <= types@.len(),
            types@.len() <= u32::MAX,
            all == targets(types@),
            counted_list_wf(counts@),
            count_map(counts@) == occurrences(all.take(i as int)),
            order_of(counts@) == first_occurrences(all.take(i as int)),
            forall|k: SubscriptionTarget| count_map(counts@).dom().contains(k) ==> count_map(counts@)[k] <= i,
        decreases types@.len() - i,
    {
        let ghost s = counts@;
        let ghost k = types@[i as int]@;
        proof {
            assert(all.take(i + 1).drop_last() =~= all.take(i as int));
            assert(all.take(i + 1).last() == k);
            lemma_order_contains(s, k);
        }
        match find_counted(&counts, &types[i]) {
            Some(j) => {
                proof {
                    lemma_count_map_value(s, j as int);
                }
                let old_entry = counts.remove(j);
                let entry = Counted { subscription: old_entry.subscription, count: old_entry.count + 1 };
                counts.insert(j, entry);
                proof {
                    assert(counts@ =~= s.update(j as int, entry));
                    lemma_count_map_update(s, j as int, entry);
                    assert(order_of(counts@) =~= order_of(s));
                    assert forall|l: int| 0 <= l < counts@.len() implies counts@[l].count > 0 by {
                        if l != j {
                            assert(counts@[l] == s[l]);
                        }
                    }
                    assert forall|l: int, m: int|
                        0 <= l < counts@.len() && 0 <= m < counts@.len() && l != m
                        implies counts@[l].subscription@ != counts@[m].subscription@ by {
                        assert(s[l].subscription@ != s[m].subscription@);
                    }
                }
            },
            None => {
                let entry = Counted { subscription: types[i].duplicate(), count: 1 };
                proof {
                    lemma_push_unique(s, entry);
                }
                counts.push(entry);
                proof {
                    assert(order_of(counts@) =~= order_of(s).push(k));
                }
            },
        }
        i = i + 1;
    }
    proof {
        assert(all.take(types@.len() as int) =~= all);
    }
    counts
}

/// Splits `list` by `wanted`: returns, in the order of `list`, the entries
/// whose target is wanted, each with its wanted count, and appends the
/// subscription types of the others to `ends`.
fn keep_wanted(list: &Vec<Counted>, wanted: &Vec<Counted>, ends: &mut Vec<SubscriptionType>) -> (kept: Vec<Counted>)
    requires
        counted_list_wf(list@),
        counted_list_wf(wanted@),
    ensures
        counted_list_wf(kept@),
        count_map(kept@) == count_map(wanted@).restrict(count_map(list@).dom()),
        targets(final(ends)@) == targets(old(ends)@) + without(order_of(list@), count_map(wanted@).dom()),
{
    let ghost start = targets(ends@);
    let ghost w = count_map(wanted@);
    let mut kept: Vec<Counted> = Vec::new();
    let mut i: usize = 0;
    proof {
        assert(list@.take(0) =~= Seq::<Counted>::empty());
        assert(order_of(list@).take(0) =~= Seq::<SubscriptionTarget>::empty());
        assert(w.restrict(count_map(list@.take(0)).dom()) =~= count_map(kept@));
    }
    while i < list.len()
        invariant
            i <= list@.len(),
            counted_list_wf(list@),
            counted_list_wf(wanted@),
            w == count_map(wanted@),
            counted_list_wf(kept@),
            count_map(kept@) == w.restrict(count_map(list@.take(i as int)).dom()),
            targets(ends@) == start + without(order_of(list@).take(i as int), w.dom()),
        decreases list@.len() - i,
    {
        let ghost s = kept@;
        let ghost k = list@[i as int].subscription@;
        let ghost d = count_map(list@.take(i as int)).dom();
        proof {
            assert(list@.take(i + 1).drop_last() =~= list@.take(i as int));
            assert(order_of(list@).take(i + 1).drop_last() =~= order_of(list@).take(i as int));
            assert(count_map(list@.take(i + 1)).dom() =~= d.insert(k));
            lemma_count_map_dom(list@.take(i as int), k);
            if d.contains(k) {
                let j = choose|j: int| 0 <= j < list@.take(i as int).len() && list@.take(i as int)[j].subscription@ == k;
                assert(list@[j].subscription@ == k);
                assert(false);
            }
        }
        match find_counted(wanted, &list[i].subscription) {
            Some(j) => {
                proof {
                    lemma_count_map_value(wanted@, j as int);
                    lemma_count_map_positive(wanted@, k);
                }
                let entry = Counted { subscription: list[i].subscription.duplicate(), count: wanted[j].count };
                proof {
                    lemma_push_unique(s, entry);
                }
                kept.push(entry);
                proof {
                    assert(w.restrict(d.insert(k)) =~= w.restrict(d).insert(k, w[k]));
                }
            },
            None => {
                let copy = list[i].subscription.duplicate();
                let ghost before = ends@;
                ends.push(copy);
                proof {
                    assert(targets(ends@) =~= targets(before).push(copy@));
                    assert(w.restrict(d.insert(k)) =~= w.restrict(d));
                }
            },
        }
        i = i + 1;
    }
    proof {
        assert(list@.take(list@.len() as int) =~= list@);
        assert(order_of(list@).take(list@.len() as int) =~= order_of(list@));
    }
    kept
}

/// Adds to `kept`, in the order of `wanted`, every wanted entry whose target
/// is neither in `active` nor in `requested`, and appends its subscription
/// type to `starts`.
fn add_unknown(
    wanted: &Vec<Counted>,
    active: &Vec<Counted>,
    requested: &Vec<Counted>,
    kept: &mut Vec<Counted>,
    starts: &mut Vec<SubscriptionType>,
)
    requires
        counted_list_wf(wanted@),
        counted_list_wf(old(kept)@),
        count_map(old(kept)@).dom().subset_of(count_map(requested@).dom()),
    ensures
        counted_list_wf(final(kept)@),
        count_map(final(kept)@) == count_map(old(kept)@).union_prefer_right(
            count_map(wanted@).remove_keys(count_map(active@).dom().union(count_map(requested@).dom())),
        ),
        targets(final(starts)@) == targets(old(starts)@) + without(
            order_of(wanted@),
            count_map(active@).dom().union(count_map(requested@).dom()),
        ),
{
    let ghost start = targets(starts@);
    let ghost k0 = count_map(kept@);
    let ghost known = count_map(active@).dom().union(count_map(requested@).dom());
    let mut i: usize = 0;
    proof {
        assert(wanted@.take(0) =~= Seq::<Counted>::empty());
        assert(order_of(wanted@).take(0) =~= Seq::<SubscriptionTarget>::empty());
        assert(k0.union_prefer_right(count_map(wanted@.take(0)).remove_keys(known)) =~= k0);
    }
    while i < wanted.len()
        invariant
            i <= wanted@.len(),
            counted_list_wf(wanted@),
            known == count_map(active@).dom().union(count_map(requested@).dom()),
            k0.dom().subset_of(count_map(requested@).dom()),
            counted_list_wf(kept@),
            count_map(kept@) == k0.union_prefer_right(count_map(wanted@.take(i as int)).remove_keys(known)),
            targets(starts@) == start + without(order_of(wanted@).take(i as int), known),
        decreases wanted@.len() - i,
    {
        let ghost s = kept@;
        let ghost e = wanted@[i as int];
        let ghost k = e.subscription@;
        let ghost m = count_map(wanted@.take(i as int));
        proof {
            assert(wanted@.take(i + 1).drop_last() =~= wanted@.take(i as int));
            assert(order_of(wanted@).take(i + 1).drop_last() =~= order_of(wanted@).take(i as int));
            assert(count_map(wanted@.take(i + 1)) == m.insert(k, e.count as nat));
            lemma_count_map_dom(wanted@.take(i as int), k);
            if m.dom().contains(k) {
                let j = choose|j: int| 0 <= j < wanted@.take(i as int).len() && wanted@.take(i as int)[j].subscription@ == k;
                assert(wanted@[j].subscription@ == k);
                assert(false);
            }
        }
        let in_active = find_counted(active, &wanted[i].subscription).is_some();
        let in_requested = find_counted(requested, &wanted[i].subscription).is_some();
        if !in_active && !in_requested {
            let entry = Counted { subscription: wanted[i].subscription.duplicate(), count: wanted[i].count };
            let copy = wanted[i].subscription.duplicate();
            proof {
                assert(!count_map(s).dom().contains(k));
                lemma_push_unique(s, entry);
            }
            kept.push(entry);
            let ghost before = starts@;
            starts.push(copy);
            proof {
                assert(targets(starts@) =~= targets(before).push(copy@));
                assert(k0.union_prefer_right(m.insert(k, e.count as nat).remove_keys(known)) =~= k0.union_prefer_right(
                    m.remove_keys(known),
                ).insert(k, e.count as nat));
            }
        } else {
            proof {
                assert(k0.union_prefer_right(m.insert(k, e.count as nat).remove_keys(known)) =~= k0.union_prefer_right(
                    m.remove_keys(known),
                ));
            }
        }
        i = i + 1;
    }
    proof {
        assert(wanted@.take(wanted@.len() as int) =~= wanted@);
        assert(order_of(wanted@).take(wanted@.len() as int) =~= order_of(wanted@));
    }
}

impl SubscriptionManager {
    /// Plans the change of the current subscriptions to exactly those in
    /// `subscription_types`, each counted as often as it occurs there.
    /// Subscriptions that stay keep their place (active or requested) with the
    /// new count; those no longer wanted are ended; the new ones are started,
    /// in the order of their first occurrence, and become requested.
    pub fn plan_subscriptions(&self, subscription_types: &Vec<SubscriptionType>) -> (plan: SubscriptionPlan)
        requires
            self.wf(),
            subscription_types@.len() <= u32::MAX,
        ensures
            plan.next.wf(),
            plan.next.active() == occurrences(targets(subscription_types@)).restrict(self.active().dom()),
            plan.next.requested() == occurrences(targets(subscription_types@)).remove_keys(self.active().dom()),
            targets(plan.ends@) == without(self.active_order(), occurrences(targets(subscription_types@)).dom())
                + without(self.requested_order(), occurrences(targets(subscription_types@)).dom()),
            targets(plan.starts@) == without(
                first_occurrences(targets(subscription_types@)),
                self.active().dom().union(self.requested().dom()),
            ),
    {
        let wanted = count_types(subscription_types);
        let ghost w = count_map(wanted@);
        let mut ends: Vec<SubscriptionType> = Vec::new();
        let new_active = keep_wanted(&self.active, &wanted, &mut ends);
        let mut new_requested = keep_wanted(&self.requested, &wanted, &mut ends);
        let mut starts: Vec<SubscriptionType> = Vec::new();
        proof {
            assert(count_map(new_requested@).dom().subset_of(count_map(self.requested@).dom()));
        }
        let ghost k0 = count_map(new_requested@);
        add_unknown(&wanted, &self.active, &self.requested, &mut new_requested, &mut starts);
        proof {
            let a = self.active().dom();
            let r = self.requested().dom();
            assert(k0.union_prefer_right(w.remove_keys(a.union(r))) =~= w.remove_keys(a));
            assert(targets(Seq::<SubscriptionType>::empty()) =~= Seq::<SubscriptionTarget>::empty());
            assert(Seq::<SubscriptionTarget>::empty() + without(self.active_order(), w.dom()) =~= without(
                self.active_order(),
                w.dom(),
            ));
            assert(Seq::<SubscriptionTarget>::empty() + without(first_occurrences(targets(subscription_types@)), a.union(r))
                =~= without(first_occurrences(targets(subscription_types@)), a.union(r)));
        }
        let next = SubscriptionManager { active: new_active, requested: new_requested };
        SubscriptionPlan { ends, starts, next }
    }
}


/// After planning, every wanted subscription is tracked exactly once, with
/// the number of times it was wanted: the active and requested counts are
/// disjoint and together are the occurrence counts of `wanted`.
pub proof fn law_plan_tracks_wanted(active_targets: Set<SubscriptionTarget>, wanted: Seq<SubscriptionTarget>)
    ensures
        occurrences(wanted).restrict(active_targets).dom().disjoint(
            occurrences(wanted).remove_keys(active_targets).dom(),
        ),
        occurrences(wanted).restrict(active_targets).union_prefer_right(
            occurrences(wanted).remove_keys(active_targets),
        ) == occurrences(wanted),
{
    let w = occurrences(wanted);
    assert(w.restrict(active_targets).union_prefer_right(w.remove_keys(active_targets)) =~= w);
}

/// How often a target occurs in a sequence.
pub open spec fn count_of(s: Seq<SubscriptionTarget>, k: SubscriptionTarget) -> nat
    decreases s.len(),
{
    if s.len() == 0 {
        0
    } else {
        count_of(s.drop_last(), k) + if s.last() == k { 1nat } else { 0nat }
    }
}

/// The occurrence counts are the number of times each target occurs, and
/// hold exactly the targets that occur.
pub proof fn law_occurrences_count(s: Seq<SubscriptionTarget>, k: SubscriptionTarget)
    ensures
        occurrences(s).dom().contains(k) <==> count_of(s, k) > 0,
        occurrences(s).dom().contains(k) ==> occurrences(s)[k] == count_of(s, k),
    decreases s.len(),
{
    if s.len() > 0 {
        law_occurrences_count(s.drop_last(), k);
    }
}

/// A confirmation does not change how many parts of the client want each
/// subscription, and keeps the counts well formed.
pub proof fn law_confirmation_keeps_counts(
    active: Map<SubscriptionTarget, nat>,
    requested: Map<SubscriptionTarget, nat>,
    k: SubscriptionTarget,
)
    requires
        counts_wf(active, requested),
        requested.dom().contains(k),
    ensures
        counts_wf(active.insert(k, requested[k]), requested.remove(k)),
        active.insert(k, requested[k]).union_prefer_right(requested.remove(k)) == active.union_prefer_right(
            requested,
        ),
{
    assert(!active.dom().contains(k));
    assert(active.insert(k, requested[k]).union_prefer_right(requested.remove(k)) =~= active.union_prefer_right(
        requested,
    ));
}

/// A request for a subscription not tracked yet, followed by its removal
/// (or by a refusal from the server), leaves the requested counts as they were.
pub proof fn law_request_then_withdraw(requested: Map<SubscriptionTarget, nat>, k: SubscriptionTarget)
    requires
        !requested.dom().contains(k),
    ensures
        decremented(requested.insert(k, 1), k) == requested,
        requested.insert(k, 1).remove(k) == requested,
{
    assert(decremented(requested.insert(k, 1), k) =~= requested);
    assert(requested.insert(k, 1).remove(k) =~= requested);
}

/// Each of as many removals as a subscription was wanted lowers its count
/// by one, and the last one drops it.
pub proof fn law_removals_drop_subscription(m: Map<SubscriptionTarget, nat>, k: SubscriptionTarget, n: nat)
    requires
        m.dom().contains(k),
        m[k] == n + 1,
    ensures
        n == 0 ==> !decremented(m, k).dom().contains(k),
        n > 0 ==> decremented(m, k).dom().contains(k) && decremented(m, k)[k] == n,
        decremented(m, k).remove(k) == m.remove(k),
{
    assert(decremented(m, k).remove(k) =~= m.remove(k));
}


/// Occurrence counts are positive and count exactly the targets that occur.
proof fn lemma_occurrences_positive(s: Seq<SubscriptionTarget>)
    ensures
        forall|k: SubscriptionTarget| #[trigger] occurrences(s).dom().contains(k) ==> occurrences(s)[k] > 0,
        forall|k: SubscriptionTarget| #[trigger] occurrences(s).dom().contains(k) <==> s.contains(k),
    decreases s.len(),
{
    if s.len() > 0 {
        let d = s.drop_last();
        let last = s.last();
        lemma_occurrences_positive(d);
        let rest = occurrences(d);
        assert(occurrences(s) == rest.insert(last, if rest.dom().contains(last) { rest[last] + 1 } else { 1 }));
        assert forall|k: SubscriptionTarget| #[trigger] occurrences(s).dom().contains(k) implies occurrences(s)[k] > 0 by {
            if k != last {
                assert(rest.dom().contains(k));
            }
        }
        assert forall|k: SubscriptionTarget| #[trigger] occurrences(s).dom().contains(k) <==> s.contains(k) by {
            if k == last {
                assert(s[s.len() - 1] == k);
            } else {
                if rest.dom().contains(k) {
                    assert(d.contains(k));
                    let i = choose|i: int| 0 <= i < d.len() && d[i] == k;
                    assert(s[i] == k);
                }
                if s.contains(k) {
                    let i = choose|i: int| 0 <= i < s.len() && s[i] == k;
                    assert(i < s.len() - 1);
                    assert(d[i] == k);
                    assert(rest.dom().contains(k));
                }
            }
        }
    }
}

/// Every operation of the manager keeps its counts well formed: removal,
/// confirmation, refusal, keeping a single subscription, recording a new
/// request, and planning towards any wanted list (the limit on the list's
/// length is a limit of the counters only).
pub proof fn law_operations_keep_counts_wf(
    active: Map<SubscriptionTarget, nat>,
    requested: Map<SubscriptionTarget, nat>,
    k: SubscriptionTarget,
    wanted: Seq<SubscriptionTarget>,
)
    requires
        counts_wf(active, requested),
    ensures
        active.dom().contains(k) ==> counts_wf(decremented(active, k), requested),
        !active.dom().contains(k) && requested.dom().contains(k) ==> counts_wf(active, decremented(requested, k)),
        requested.dom().contains(k) ==> counts_wf(active.insert(k, requested[k]), requested.remove(k)),
        counts_wf(active, requested.remove(k)),
        counts_wf(
            if active.dom().contains(k) { Map::empty().insert(k, 1nat) } else { Map::empty() },
            if requested.dom().contains(k) { Map::empty().insert(k, 1nat) } else { Map::empty() },
        ),
        !active.dom().contains(k) ==> counts_wf(active, requested.insert(k, 1)),
        counts_wf(
            occurrences(wanted).restrict(active.dom()),
            occurrences(wanted).remove_keys(active.dom()),
        ),
{
    lemma_occurrences_positive(wanted);
    let w = occurrences(wanted);
    assert(w.restrict(active.dom()).dom().disjoint(w.remove_keys(active.dom()).dom()));
    if active.dom().contains(k) {
        assert(decremented(active, k).dom().subset_of(active.dom()));
    }
    if !active.dom().contains(k) && requested.dom().contains(k) {
        assert(decremented(requested, k).dom().subset_of(requested.dom()));
    }
    if active.dom().contains(k) {
        assert(!requested.dom().contains(k));
    }
}

/// The targets of `s` not in `excluded` are none when every target of `s`
/// is in it.
proof fn lemma_without_all(s: Seq<SubscriptionTarget>, excluded: Set<SubscriptionTarget>)
    requires
        forall|i: int| 0 <= i < s.len() ==> excluded.contains(#[trigger] s[i]),
    ensures
        without(s, excluded).len() == 0,
    decreases s.len(),
{
    if s.len() > 0 {
        let d = s.drop_last();
        assert forall|i: int| 0 <= i < d.len() implies excluded.contains(#[trigger] d[i]) by {
            assert(d[i] == s[i]);
        }
        lemma_without_all(d, excluded);
        assert(excluded.contains(s[s.len() - 1]));
    }
}

/// The first occurrences are targets of the sequence.
proof fn lemma_first_occurrences_in(s: Seq<SubscriptionTarget>)
    ensures
        forall|i: int| 0 <= i < first_occurrences(s).len() ==> s.contains(#[trigger] first_occurrences(s)[i]),
    decreases s.len(),
{
    if s.len() > 0 {
        let d = s.drop_last();
        lemma_first_occurrences_in(d);
        let f = first_occurrences(s);
        assert forall|i: int| 0 <= i < f.len() implies s.contains(#[trigger] f[i]) by {
            if i < first_occurrences(d).len() {
                let j = choose|j: int| 0 <= j < d.len() && d[j] == first_occurrences(d)[i];
                assert(s[j] == d[j]);
            } else {
                assert(s[s.len() - 1] == f[i]);
            }
        }
    }
}

/// Setting the same subscriptions twice is the same as setting them once:
/// from the manager the first plan leads to, a plan for the same list ends
/// nothing, starts nothing, and keeps the active and requested counts.
pub proof fn law_set_subscriptions_twice(m: SubscriptionManager, wanted: Seq<SubscriptionTarget>, earlier: Set<SubscriptionTarget>)
    requires
        m.wf(),
        m.active() == occurrences(wanted).restrict(earlier),
        m.requested() == occurrences(wanted).remove_keys(earlier),
    ensures
        occurrences(wanted).restrict(m.active().dom()) == m.active(),
        occurrences(wanted).remove_keys(m.active().dom()) == m.requested(),
        without(m.active_order(), occurrences(wanted).dom()).len() == 0,
        without(m.requested_order(), occurrences(wanted).dom()).len() == 0,
        without(first_occurrences(wanted), m.active().dom().union(m.requested().dom())).len() == 0,
{
    let w = occurrences(wanted);
    m.lemma_wf();
    lemma_occurrences_positive(wanted);
    assert(w.restrict(m.active().dom()) =~= m.active());
    assert(w.remove_keys(m.active().dom()) =~= m.requested());
    assert forall|i: int| 0 <= i < m.active_order().len() implies w.dom().contains(#[trigger] m.active_order()[i]) by {
        assert(m.active_order().contains(m.active_order()[i]));
    }
    lemma_without_all(m.active_order(), w.dom());
    assert forall|i: int| 0 <= i < m.requested_order().len() implies w.dom().contains(
        #[trigger] m.requested_order()[i],
    ) by {
        assert(m.requested_order().contains(m.requested_order()[i]));
    }
    lemma_without_all(m.requested_order(), w.dom());
    lemma_first_occurrences_in(wanted);
    let both = m.active().dom().union(m.requested().dom());
    assert forall|i: int| 0 <= i < first_occurrences(wanted).len() implies both.contains(
        #[trigger] first_occurrences(wanted)[i],
    ) by {
        let k = first_occurrences(wanted)[i];
        assert(w.dom().contains(k));
        if !earlier.contains(k) {
            assert(m.requested().dom().contains(k));
        }
    }
    lemma_without_all(first_occurrences(wanted), both);
}

/// The active and requested counts after confirmations of `confirmed`, in
/// order: each confirmation of a requested subscription makes its count
/// active; others change nothing.
pub open spec fn after_confirmations(
    active: Map<SubscriptionTarget, nat>,
    requested: Map<SubscriptionTarget, nat>,
    confirmed: Seq<SubscriptionTarget>,
) -> (Map<SubscriptionTarget, nat>, Map<SubscriptionTarget, nat>)
    decreases confirmed.len(),
{
    if confirmed.len() == 0 {
        (active, requested)
    } else {
        let (a, r) = after_confirmations(active, requested, confirmed.drop_last());
        let k = confirmed.last();
        if r.dom().contains(k) {
            (a.insert(k, r[k]), r.remove(k))
        } else {
            (a, r)
        }
    }
}

/// Confirmations keep the counts together and disjoint, and leave requested
/// exactly what was not confirmed.
proof fn lemma_after_confirmations(
    active: Map<SubscriptionTarget, nat>,
    requested: Map<SubscriptionTarget, nat>,
    confirmed: Seq<SubscriptionTarget>,
)
    requires
        active.dom().disjoint(requested.dom()),
    ensures
        after_confirmations(active, requested, confirmed).0.dom().disjoint(
            after_confirmations(active, requested, confirmed).1.dom(),
        ),
        after_confirmations(active, requested, confirmed).0.union_prefer_right(
            after_confirmations(active, requested, confirmed).1,
        ) == active.union_prefer_right(requested),
        forall|k: SubscriptionTarget| #[trigger] after_confirmations(active, requested, confirmed).1.dom().contains(k)
            <==> requested.dom().contains(k) && !confirmed.contains(k),
    decreases confirmed.len(),
{
    if confirmed.len() > 0 {
        let d = confirmed.drop_last();
        lemma_after_confirmations(active, requested, d);
        let (a, r) = after_confirmations(active, requested, d);
        let k = confirmed.last();
        if r.dom().contains(k) {
            assert(!a.dom().contains(k));
            assert(a.insert(k, r[k]).union_prefer_right(r.remove(k)) =~= a.union_prefer_right(r));
        }
        assert forall|x: SubscriptionTarget| #[trigger] after_confirmations(active, requested, confirmed).1.dom().contains(
            x,
        ) <==> requested.dom().contains(x) && !confirmed.contains(x) by {
            if d.contains(x) {
                let i = choose|i: int| 0 <= i < d.len() && d[i] == x;
                assert(confirmed[i] == x);
            }
            if confirmed.contains(x) && x != k {
                let i = choose|i: int| 0 <= i < confirmed.len() && confirmed[i] == x;
                assert(i < confirmed.len() - 1);
                assert(d[i] == x);
            }
            if x == k {
                assert(confirmed[confirmed.len() - 1] == x);
            }
        }
    }
}

/// Once the server confirms every subscription of a plan (each wanted
/// target at least once, in any order), all of them are active, each with
/// the number of times it was wanted, and none is requested.
pub proof fn law_confirmations_after_plan(
    earlier: Set<SubscriptionTarget>,
    wanted: Seq<SubscriptionTarget>,
    confirmed: Seq<SubscriptionTarget>,
)
    requires
        forall|k: SubscriptionTarget| wanted.contains(k) ==> confirmed.contains(k),
    ensures
        after_confirmations(
            occurrences(wanted).restrict(earlier),
            occurrences(wanted).remove_keys(earlier),
            confirmed,
        ).0 == occurrences(wanted),
        after_confirmations(
            occurrences(wanted).restrict(earlier),
            occurrences(wanted).remove_keys(earlier),
            confirmed,
        ).1 == Map::<SubscriptionTarget, nat>::empty(),
{
    let w = occurrences(wanted);
    let a = w.restrict(earlier);
    let r = w.remove_keys(earlier);
    lemma_occurrences_positive(wanted);
    lemma_after_confirmations(a, r, confirmed);
    let (a2, r2) = after_confirmations(a, r, confirmed);
    assert(r2 =~= Map::<SubscriptionTarget, nat>::empty()) by {
        assert forall|k: SubscriptionTarget| !r2.dom().contains(k) by {
            if r.dom().contains(k) {
                assert(wanted.contains(k));
            }
        }
    }
    assert(a.union_prefer_right(r) =~= w);
    assert(a2 =~= a2.union_prefer_right(r2));
}

impl SubscriptionManager {
    /// How many parts of the client want the confirmed subscription
    /// `subscription_type` (zero when it is not active).
    pub fn active_count(&self, subscription_type: &SubscriptionType) -> (count: u32)
        requires
            self.wf(),
        ensures
            self.active().dom().contains(subscription_type@) ==> count == self.active()[subscription_type@],
            !self.active().dom().contains(subscription_type@) ==> count == 0,
    {
        match find_counted(&self.active, subscription_type) {
            Some(i) => {
                proof {
                    lemma_count_map_value(self.active@, i as int);
                }
                self.active[i].count
            },
            None => 0,
        }
    }

    /// How many parts of the client want the requested subscription
    /// `subscription_type` (zero when it is not requested).
    pub fn requested_count(&self, subscription_type: &SubscriptionType) -> (count: u32)
        requires
            self.wf(),
        ensures
            self.requested().dom().contains(subscription_type@) ==> count == self.requested()[subscription_type@],
            !self.requested().dom().contains(subscription_type@) ==> count == 0,
    {
        match find_counted(&self.requested, subscription_type) {
            Some(i) => {
                proof {
                    lemma_count_map_value(self.requested@, i as int);
                }
                self.requested[i].count
            },
            None => 0,
        }
    }
}


impl Default for SubscriptionManager {
    /// A manager with no subscriptions.
    fn default() -> (manager: SubscriptionManager)
        ensures
            manager.wf(),
            manager.active() == Map::<SubscriptionTarget, nat>::empty(),
            manager.requested() == Map::<SubscriptionTarget, nat>::empty(),
    {
        SubscriptionManager::new()
    }
}

} // verus!
