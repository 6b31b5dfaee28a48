use vstd::prelude::*;
use crate::subscription_type::{SubscriptionTarget, SubscriptionType};

verus! {

/// A subscription type together with the number of parts of the client that want it.
pub struct Counted {
    pub subscription: SubscriptionType,
    pub count: u32,
}

/// The counts held by a list of counted subscriptions, by target.
/// Where a target occurs twice the later entry wins; the lists this crate
/// keeps never hold a target twice.
pub open spec fn count_map(s: Seq<Counted>) -> Map<SubscriptionTarget, nat>
    decreases s.len(),
{
    if s.len() == 0 {
        Map::empty()
    } else {
        count_map(s.drop_last()).insert(s.last().subscription@, s.last().count as nat)
    }
}

/// No target occurs twice in the list.
pub open spec fn unique_targets(s: Seq<Counted>) -> bool {
    forall|i: int, j: int|
        0 <= i < s.len() && 0 <= j < s.len() && i != j ==> s[i].subscription@ != s[j].subscription@
}

/// Every count in the list is at least one.
pub open spec fn positive_counts(s: Seq<Counted>) -> bool {
    forall|i: int| 0 <= i < s.len() ==> s[i].count > 0
}

/// A well-kept list: every target once, with a positive count.
pub open spec fn counted_list_wf(s: Seq<Counted>) -> bool {
    unique_targets(s) && positive_counts(s)
}

/// A target is counted exactly when some entry of the list holds it.
pub proof fn lemma_count_map_dom(s: Seq<Counted>, k: SubscriptionTarget)
    ensures
        count_map(s).dom().contains(k) <==> exists|i: int| 0 <= i < s.len() && s[i].subscription@ == k,
    decreases s.len(),
{
    if s.len() > 0 {
        lemma_count_map_dom(s.drop_last(), k);
        if count_map(s.drop_last()).dom().contains(k) {
            let i = choose|i: int| 0 <= i < s.drop_last().len() && s.drop_last()[i].subscription@ == k;
            assert(s[i].subscription@ == k);
        }
        if exists|i: int| 0 <= i < s.len() && s[i].subscription@ == k {
            let i = choose|i: int| 0 <= i < s.len() && s[i].subscription@ == k;
            if i < s.len() - 1 {
                assert(s.drop_last()[i].subscription@ == k);
            }
        }
    }
}

/// In a list without repeated targets, the count of an entry's target is that entry's count.
pub proof fn lemma_count_map_value(s: Seq<Counted>, i: int)
    requires
        unique_targets(s),
        0 <= i < s.len(),
    ensures
        count_map(s).dom().contains(s[i].subscription@),
        count_map(s)[s[i].subscription@] == s[i].count as nat,
    decreases s.len(),
{
    if i < s.len() - 1 {
        assert(unique_targets(s.drop_last()));
        lemma_count_map_value(s.drop_last(), i);
        assert(s.drop_last()[i] == s[i]);
        assert(s.last().subscription@ != s[i].subscription@);
    }
}

/// Every counted value in a well-kept list is positive.
pub proof fn lemma_count_map_positive(s: Seq<Counted>, k: SubscriptionTarget)
    requires
        counted_list_wf(s),
        count_map(s).dom().contains(k),
    ensures
        count_map(s)[k] > 0,
{
    lemma_count_map_dom(s, k);
    let i = choose|i: int| 0 <= i < s.len() && s[i].subscription@ == k;
    lemma_count_map_value(s, i);
}

/// Removing an entry from a list without repeated targets removes its target from the counts.
pub proof fn lemma_count_map_remove(s: Seq<Counted>, i: int)
    requires
        unique_targets(s),
        0 <= i < s.len(),
    ensures
        count_map(s.remove(i)) =~= count_map(s).remove(s[i].subscription@),
    decreases s.len(),
{
    let k = s[i].subscription@;
    if i == s.len() - 1 {
        assert(s.remove(i) =~= s.drop_last());
        lemma_count_map_dom(s.drop_last(), k);
        if count_map(s.drop_last()).dom().contains(k) {
            let j = choose|j: int| 0 <= j < s.drop_last().len() && s.drop_last()[j].subscription@ == k;
            assert(s[j].subscription@ == k);
        }
    } else {
        let d = s.drop_last();
        assert(unique_targets(d));
        assert(d[i] == s[i]);
        lemma_count_map_remove(d, i);
        assert(s.remove(i) =~= d.remove(i).push(s.last()));
        assert(s.remove(i).drop_last() =~= d.remove(i));
        assert(s.last().subscription@ != k);
    }
}

/// Replacing an entry by one with the same target sets that target's count.
pub proof fn lemma_count_map_update(s: Seq<Counted>, i: int, c: Counted)
    requires
        unique_targets(s),
        0 <= i < s.len(),
        c.subscription@ == s[i].subscription@,
    ensures
        count_map(s.update(i, c)) =~= count_map(s).insert(c.subscription@, c.count as nat),
    decreases s.len(),
{
    let k = c.subscription@;
    if i == s.len() - 1 {
        assert(s.update(i, c).drop_last() =~= s.drop_last());
    } else {
        let d = s.drop_last();
        assert(unique_targets(d));
        assert(d[i] == s[i]);
        lemma_count_map_update(d, i, c);
        assert(s.update(i, c).drop_last() =~= d.update(i, c));
        assert(s.last().subscription@ != k);
    }
}

/// Appending an entry whose target is not yet counted keeps the targets unique.
pub proof fn lemma_push_unique(s: Seq<Counted>, c: Counted)
    requires
        unique_targets(s),
        !count_map(s).dom().contains(c.subscription@),
    ensures
        unique_targets(s.push(c)),
        count_map(s.push(c)) == count_map(s).insert(c.subscription@, c.count as nat),
{
    lemma_count_map_dom(s, c.subscription@);
    assert(s.push(c).drop_last() =~= s);
    assert forall|i: int, j: int|
        0 <= i < s.push(c).len() && 0 <= j < s.push(c).len() && i != j
        implies s.push(c)[i].subscription@ != s.push(c)[j].subscription@ by {
        if i < s.len() && j < s.len() {
        } else if i < s.len() {
            assert(s[i].subscription@ != c.subscription@);
        } else {
            assert(s[j].subscription@ != c.subscription@);
        }
    }
}

/// Finds the entry for a subscription type in a list of counted subscriptions.
pub fn find_counted(list: &Vec<Counted>, subscription_type: &SubscriptionType) -> (found: Option<usize>)
    ensures
        match found {
            Some(i) => i < list@.len() && list@[i as int].subscription@ == subscription_type@,
            None => forall|i: int| 0 <= i < list@.len() ==> list@[i].subscription@ != subscription_type@,
        },
        found is None <==> !count_map(list@).dom().contains(subscription_type@),
{
    proof {
        lemma_count_map_dom(list@, subscription_type@);
    }
    let mut i: usize = 0;
    while i < list.len()
        invariant
            i <= list@.len(),
            forall|j: int| 0 <= j < i ==> list@[j].subscription@ != subscription_type@,
        decreases list@.len() - i,
    {
        if list[i].subscription.same_as(subscription_type) {
            proof {
                assert(list@[i as int].subscription@ == subscription_type@);
                lemma_count_map_dom(list@, subscription_type@);
            }
            return Some(i);
        }
        i = i + 1;
    }
    None
}

} // verus!
