use vstd::prelude::*;

verus! {

/// An entry of the log as its numbering sees it: its id and the id of its
/// parent entry (`None` for a top-level entry).
#[derive(Clone, Debug)]
pub struct EntryLink {
    pub id: String,
    pub parent: Option<String>,
}

/// The parent key of a link: the parent's id, or the empty id for a
/// top-level entry.
pub open spec fn parent_key(link: EntryLink) -> Seq<char> {
    match link.parent {
        Some(p) => p@,
        None => Seq::empty(),
    }
}

/// The ids in the order the numbering visits them: from link `k` on, each
/// child of `parent` (in log order) followed by its own children, to a
/// depth of `depth`.
pub open spec fn walk(links: Seq<EntryLink>, parent: Seq<char>, depth: nat, k: int) -> Seq<Seq<char>>
    decreases depth, links.len() - k,
{
    if depth == 0 || k < 0 || k >= links.len() {
        Seq::empty()
    } else {
        let rest = walk(links, parent, depth, k + 1);
        if parent_key(links[k]) == parent {
            seq![links[k].id@] + walk(links, links[k].id@, (depth - 1) as nat, 0) + rest
        } else {
            rest
        }
    }
}

/// The numbering of all entries: top-level entries and, after each, its
/// children, numbered from one in that order.
pub open spec fn numbering(links: Seq<EntryLink>) -> Seq<Seq<char>> {
    walk(links, Seq::empty(), links.len(), 0)
}

/// `chain` climbs from an entry to a top-level one through the log: it
/// starts at the entry, each next index is an entry whose id is the parent
/// of the one before, the last is top-level, and no entry is visited twice.
pub open spec fn climbs_to_top(links: Seq<EntryLink>, chain: Seq<int>) -> bool {
    &&& chain.len() > 0
    &&& forall|k: int| 0 <= k < chain.len() ==> 0 <= #[trigger] chain[k] < links.len()
    &&& forall|k: int| 0 <= k < chain.len() - 1 ==> parent_key(links[#[trigger] chain[k]]) == links[chain[k + 1]].id@
    &&& parent_key(links[chain.last()]).len() == 0
    &&& chain.no_duplicates()
}

/// Every entry that climbs through its parents to a top-level entry gets a
/// number, however deep it is nested.
pub proof fn law_every_reachable_entry_numbered(links: Seq<EntryLink>, chain: Seq<int>)
    requires
        climbs_to_top(links, chain),
    ensures
        numbering(links).contains(links[chain[0]].id@),
{
    assert(chain.to_set().subset_of(vstd::set_lib::set_int_range(0, links.len() as int))) by {
        assert forall|x: int| chain.to_set().contains(x) implies vstd::set_lib::set_int_range(
            0,
            links.len() as int,
        ).contains(x) by {
            let k = choose|k: int| 0 <= k < chain.len() && chain[k] == x;
            assert(0 <= chain[k] < links.len());
        }
    }
    vstd::set_lib::lemma_int_range(0, links.len() as int);
    vstd::set_lib::lemma_len_subset(chain.to_set(), vstd::set_lib::set_int_range(0, links.len() as int));
    chain.unique_seq_to_set();
    assert(parent_key(links[chain.last()]) =~= Seq::<char>::empty());
    lemma_walk_reaches(links, Seq::empty(), links.len(), chain);
}

/// `chain` climbs in at most `depth` entries from an entry with the id `x`
/// to a child of `parent`.
pub open spec fn climbs_from(links: Seq<EntryLink>, chain: Seq<int>, x: Seq<char>, parent: Seq<char>, depth: nat) -> bool {
    &&& linked(links, chain)
    &&& chain.len() <= depth
    &&& parent_key(links[chain.last()]) == parent
    &&& links[chain[0]].id@ == x
}

/// The indices name entries, each next one the parent of the one before.
pub open spec fn linked(links: Seq<EntryLink>, chain: Seq<int>) -> bool {
    &&& chain.len() > 0
    &&& forall|k: int| 0 <= k < chain.len() ==> 0 <= #[trigger] chain[k] < links.len()
    &&& forall|k: int| 0 <= k < chain.len() - 1 ==> parent_key(links[#[trigger] chain[k]]) == links[chain[k + 1]].id@
}

/// No entry is its own ancestor: no chain of parents leads from an entry
/// back to it.
pub open spec fn no_parent_cycle(links: Seq<EntryLink>) -> bool {
    forall|chain: Seq<int>| #[trigger] linked(links, chain) ==> parent_key(links[chain.last()]) != links[chain[0]].id@
}

/// No two entries share an id.
pub open spec fn distinct_ids(links: Seq<EntryLink>) -> bool {
    forall|i: int, j: int| 0 <= i < links.len() && 0 <= j < links.len() && i != j ==> links[i].id@ != links[j].id@
}

/// Where ids are distinct and no entry is its own ancestor, no entry is
/// numbered twice.
pub proof fn law_numbered_once(links: Seq<EntryLink>)
    requires
        distinct_ids(links),
        no_parent_cycle(links),
    ensures
        numbering(links).no_duplicates(),
{
    lemma_walk_no_dup(links, Seq::empty(), links.len(), 0);
}

/// Where ids are distinct, an entry with a parent is numbered after that
/// parent.
pub proof fn law_parents_numbered_first(links: Seq<EntryLink>, n: int, j: int)
    requires
        distinct_ids(links),
        0 <= j < links.len(),
        0 <= n < numbering(links).len(),
        numbering(links)[n] == links[j].id@,
        parent_key(links[j]).len() > 0,
    ensures
        exists|m: int| 0 <= m < n && numbering(links)[m] == parent_key(links[j]),
{
    lemma_parent_first(links, Seq::empty(), links.len(), 0, n, j);
}

proof fn lemma_parent_first(links: Seq<EntryLink>, parent: Seq<char>, depth: nat, k: int, n: int, j: int)
    requires
        distinct_ids(links),
        0 <= j < links.len(),
        0 <= n < walk(links, parent, depth, k).len(),
        walk(links, parent, depth, k)[n] == links[j].id@,
        parent_key(links[j]) != parent,
    ensures
        exists|m: int| 0 <= m < n && walk(links, parent, depth, k)[m] == parent_key(links[j]),
    decreases depth, links.len() - k,
{
    let w = walk(links, parent, depth, k);
    if depth == 0 || k < 0 || k >= links.len() {
    } else {
        let rest = walk(links, parent, depth, k + 1);
        if parent_key(links[k]) == parent {
            let d = (depth - 1) as nat;
            let idk = links[k].id@;
            let sub = walk(links, idk, d, 0);
            let head = seq![idk] + sub;
            assert(w == head + rest);
            if n == 0 {
                assert(w[0] == idk);
                if j != k {
                    assert(links[j].id@ != links[k].id@);
                }
            } else if n < head.len() {
                assert(sub[n - 1] == links[j].id@);
                if parent_key(links[j]) == idk {
                    assert(w[0] == idk);
                } else {
                    lemma_parent_first(links, idk, d, 0, n - 1, j);
                    let m = choose|m: int| 0 <= m < n - 1 && sub[m] == parent_key(links[j]);
                    assert(w[m + 1] == sub[m]);
                }
            } else {
                assert(rest[n - head.len()] == links[j].id@);
                lemma_parent_first(links, parent, depth, k + 1, n - head.len(), j);
                let m = choose|m: int| 0 <= m < n - head.len() && rest[m] == parent_key(links[j]);
                assert(w[m + head.len()] == rest[m]);
            }
        } else {
            assert(w == rest);
            lemma_parent_first(links, parent, depth, k + 1, n, j);
        }
    }
}

/// Two chains from the same entry agree as far as both go.
proof fn lemma_chains_agree(links: Seq<EntryLink>, a: Seq<int>, b: Seq<int>, n: int)
    requires
        distinct_ids(links),
        linked(links, a),
        linked(links, b),
        a[0] == b[0],
        0 <= n < a.len(),
        n < b.len(),
    ensures
        forall|i: int| 0 <= i <= n ==> a[i] == b[i],
    decreases n,
{
    if n > 0 {
        lemma_chains_agree(links, a, b, n - 1);
        assert(a[n - 1] == b[n - 1]);
        assert(parent_key(links[a[n - 1]]) == links[a[n]].id@);
        assert(parent_key(links[b[n - 1]]) == links[b[n]].id@);
        assert(0 <= a[n] < links.len() && 0 <= b[n] < links.len());
    }
}

/// The part of a chain from `s` to its end is a chain.
proof fn lemma_tail_linked(links: Seq<EntryLink>, c: Seq<int>, s: int)
    requires
        linked(links, c),
        0 <= s < c.len(),
    ensures
        linked(links, c.subrange(s, c.len() as int)),
        c.subrange(s, c.len() as int)[0] == c[s],
        c.subrange(s, c.len() as int).last() == c.last(),
{
    let t = c.subrange(s, c.len() as int);
    assert forall|k: int| 0 <= k < t.len() implies 0 <= #[trigger] t[k] < links.len() by {
        assert(t[k] == c[s + k]);
    }
    assert forall|k: int| 0 <= k < t.len() - 1 implies parent_key(links[#[trigger] t[k]]) == links[t[k + 1]].id@ by {
        assert(t[k] == c[s + k] && t[k + 1] == c[s + k + 1]);
    }
}

proof fn lemma_walk_no_dup(links: Seq<EntryLink>, parent: Seq<char>, depth: nat, k: int)
    requires
        distinct_ids(links),
        no_parent_cycle(links),
    ensures
        walk(links, parent, depth, k).no_duplicates(),
    decreases depth, links.len() - k,
{
    if depth == 0 || k < 0 || k >= links.len() {
    } else {
        let rest = walk(links, parent, depth, k + 1);
        lemma_walk_no_dup(links, parent, depth, k + 1);
        if parent_key(links[k]) == parent {
            let d = (depth - 1) as nat;
            let idk = links[k].id@;
            let sub = walk(links, idk, d, 0);
            lemma_walk_no_dup(links, idk, d, 0);
            // The entry itself is neither below itself nor among its later siblings' walks.
            if sub.contains(idk) {
                lemma_walk_sound(links, idk, d, 0, idk);
                let a = choose|c: Seq<int>| #[trigger] climbs_from(links, c, idk, idk, d) && c.last() >= 0;
                assert(linked(links, a));
            }
            if rest.contains(idk) {
                lemma_walk_sound(links, parent, depth, k + 1, idk);
                let b = choose|c: Seq<int>| #[trigger] climbs_from(links, c, idk, parent, depth) && c.last() >= k + 1;
                assert(b[0] == k);
                assert(b.len() > 1);
                lemma_tail_linked(links, b, 1);
                let t = b.subrange(1, b.len() as int);
                assert(linked(links, t));
                assert(links[t[0]].id@ == parent);
            }
            assert forall|i: int, j: int| 0 <= i < sub.len() && 0 <= j < rest.len() implies sub[i] != rest[j] by {
                if sub[i] == rest[j] {
                    let x = sub[i];
                    assert(sub.contains(x));
                    assert(rest.contains(x));
                    lemma_walk_sound(links, idk, d, 0, x);
                    lemma_walk_sound(links, parent, depth, k + 1, x);
                    let a = choose|c: Seq<int>| #[trigger] climbs_from(links, c, x, idk, d) && c.last() >= 0;
                    let b = choose|c: Seq<int>| #[trigger] climbs_from(links, c, x, parent, depth) && c.last() >= k + 1;
                    lemma_disjoint_subtrees(links, parent, k, a, b);
                }
            }
            vstd::seq_lib::lemma_no_dup_in_concat(sub, rest);
            let head = seq![idk];
            assert forall|i: int, j: int| 0 <= i < head.len() && 0 <= j < (sub + rest).len() implies head[i] != (sub
                + rest)[j] by {
                if j < sub.len() {
                    assert((sub + rest)[j] == sub[j]);
                    if sub[j] == idk {
                        assert(sub.contains(idk));
                    }
                } else {
                    assert((sub + rest)[j] == rest[j - sub.len()]);
                    if rest[j - sub.len()] == idk {
                        assert(rest.contains(idk));
                    }
                }
            }
            vstd::seq_lib::lemma_no_dup_in_concat(head, sub + rest);
            assert(walk(links, parent, depth, k) =~= head + (sub + rest));
        }
    }
}

/// An entry below a child `k` of `parent` is not also reached from a later
/// child of `parent`, unless some entry is its own ancestor.
proof fn lemma_disjoint_subtrees(links: Seq<EntryLink>, parent: Seq<char>, k: int, a: Seq<int>, b: Seq<int>)
    requires
        distinct_ids(links),
        no_parent_cycle(links),
        0 <= k < links.len(),
        parent_key(links[k]) == parent,
        linked(links, a),
        parent_key(links[a.last()]) == links[k].id@,
        linked(links, b),
        parent_key(links[b.last()]) == parent,
        b.last() >= k + 1,
    ensures
        links[a[0]].id@ != links[b[0]].id@,
{
    if links[a[0]].id@ == links[b[0]].id@ {
        let a2 = a.push(k);
        assert(a2[a.len() as int] == k);
        assert forall|i: int| 0 <= i < a2.len() implies 0 <= #[trigger] a2[i] < links.len() by {
            if i < a.len() {
                assert(a2[i] == a[i]);
            }
        }
        assert forall|i: int| 0 <= i < a2.len() - 1 implies parent_key(links[#[trigger] a2[i]]) == links[a2[i + 1]].id@ by {
            if i < a.len() - 1 {
                assert(a2[i] == a[i] && a2[i + 1] == a[i + 1]);
            } else {
                assert(a2[i] == a.last());
            }
        }
        assert(linked(links, a2));
        assert(a2[0] == a[0]);
        assert(0 <= a[0] < links.len() && 0 <= b[0] < links.len());
        assert(a2[0] == b[0]);
        let la = a2.len() as int;
        let lb = b.len() as int;
        if la == lb {
            lemma_chains_agree(links, a2, b, la - 1);
            assert(a2.last() == b.last());
        } else if la < lb {
            lemma_chains_agree(links, a2, b, la - 1);
            assert(b[la - 1] == k);
            assert(links[b[la]].id@ == parent);
            lemma_tail_linked(links, b, la);
            let t = b.subrange(la, lb);
            assert(linked(links, t));
        } else {
            lemma_chains_agree(links, a2, b, lb - 1);
            assert(a2[lb - 1] == b.last());
            assert(links[a2[lb]].id@ == parent);
            lemma_tail_linked(links, a2, lb);
            let t = a2.subrange(lb, la);
            assert(linked(links, t));
            assert(t.last() == k);
        }
    }
}

/// Only entries get numbers, and only those that climb through their parents
/// to a top-level entry.
pub proof fn law_numbered_entries_reach_top(links: Seq<EntryLink>, n: int)
    requires
        0 <= n < numbering(links).len(),
    ensures
        exists|chain: Seq<int>| climbs_from(links, chain, numbering(links)[n], Seq::empty(), links.len()),
{
    lemma_walk_sound(links, Seq::empty(), links.len(), 0, numbering(links)[n]);
}

proof fn lemma_walk_sound(links: Seq<EntryLink>, parent: Seq<char>, depth: nat, k: int, x: Seq<char>)
    requires
        walk(links, parent, depth, k).contains(x),
    ensures
        exists|chain: Seq<int>| #[trigger] climbs_from(links, chain, x, parent, depth) && chain.last() >= k,
    decreases depth, links.len() - k,
{
    let w = walk(links, parent, depth, k);
    if depth == 0 || k < 0 || k >= links.len() {
        assert(w.len() == 0);
    } else {
        let rest = walk(links, parent, depth, k + 1);
        if parent_key(links[k]) == parent {
            let sub = walk(links, links[k].id@, (depth - 1) as nat, 0);
            let head = seq![links[k].id@] + sub;
            assert(w == head + rest);
            let m = choose|m: int| 0 <= m < w.len() && w[m] == x;
            if m == 0 {
                let c = seq![k];
                assert(climbs_from(links, c, x, parent, depth) && c.last() >= k);
            } else if m < head.len() {
                assert(sub[m - 1] == x);
                let d = (depth - 1) as nat;
                let below = links[k].id@;
                lemma_walk_sound(links, below, d, 0, x);
                let c = choose|c: Seq<int>| #[trigger] climbs_from(links, c, x, below, d) && c.last() >= 0;
                let c2 = c.push(k);
                assert(c2.last() == k);
                assert(c2[0] == c[0]);
                assert forall|i: int| 0 <= i < c2.len() - 1 implies parent_key(links[#[trigger] c2[i]])
                    == links[c2[i + 1]].id@ by {
                    if i < c.len() - 1 {
                        assert(c2[i] == c[i] && c2[i + 1] == c[i + 1]);
                    } else {
                        assert(c2[i] == c.last());
                    }
                }
                assert(climbs_from(links, c2, x, parent, depth) && c2.last() >= k);
            } else {
                assert(rest[m - head.len()] == x);
                lemma_walk_sound(links, parent, depth, k + 1, x);
            }
        } else {
            assert(w == rest);
            lemma_walk_sound(links, parent, depth, k + 1, x);
        }
    }
}

/// The walk under `parent` to a depth of `depth` visits the first entry of
/// a chain of at most `depth` entries climbing to a child of `parent`.
proof fn lemma_walk_reaches(links: Seq<EntryLink>, parent: Seq<char>, depth: nat, chain: Seq<int>)
    requires
        0 < chain.len() <= depth,
        forall|k: int| 0 <= k < chain.len() ==> 0 <= #[trigger] chain[k] < links.len(),
        forall|k: int| 0 <= k < chain.len() - 1 ==> parent_key(links[#[trigger] chain[k]]) == links[chain[k + 1]].id@,
        parent_key(links[chain.last()]) == parent,
    ensures
        walk(links, parent, depth, 0).contains(links[chain[0]].id@),
    decreases chain.len(),
{
    let top = chain.last();
    assert(chain[chain.len() - 1] == top);
    if chain.len() == 1 {
        lemma_walk_from(links, parent, depth, 0, top, links[chain[0]].id@);
    } else {
        let sub = chain.drop_last();
        assert forall|k: int| 0 <= k < sub.len() - 1 implies parent_key(links[#[trigger] sub[k]])
            == links[sub[k + 1]].id@ by {
            assert(sub[k] == chain[k] && sub[k + 1] == chain[k + 1]);
        }
        assert(sub.last() == chain[chain.len() - 2]);
        lemma_walk_reaches(links, links[top].id@, (depth - 1) as nat, sub);
        assert(sub[0] == chain[0]);
        lemma_walk_from(links, parent, depth, 0, top, links[chain[0]].id@);
    }
}

/// The walk under `parent` from link `k` visits a child `top` of `parent` at
/// or after `k`, and everything the walk under `top` visits.
proof fn lemma_walk_from(links: Seq<EntryLink>, parent: Seq<char>, depth: nat, k: int, top: int, x: Seq<char>)
    requires
        0 <= k <= top < links.len(),
        depth > 0,
        parent_key(links[top]) == parent,
        x == links[top].id@ || walk(links, links[top].id@, (depth - 1) as nat, 0).contains(x),
    ensures
        walk(links, parent, depth, k).contains(x),
    decreases top - k,
{
    let w = walk(links, parent, depth, k);
    let rest = walk(links, parent, depth, k + 1);
    if parent_key(links[k]) == parent {
        let sub = walk(links, links[k].id@, (depth - 1) as nat, 0);
        let head = seq![links[k].id@] + sub;
        assert(w == head + rest);
        if k == top {
            if x == links[top].id@ {
                assert(w[0] == x);
            } else {
                let m = choose|m: int| 0 <= m < sub.len() && sub[m] == x;
                assert(w[1 + m] == x);
            }
        } else {
            lemma_walk_from(links, parent, depth, k + 1, top, x);
            let m = choose|m: int| 0 <= m < rest.len() && rest[m] == x;
            assert(w[head.len() + m] == x);
        }
    } else {
        assert(w == rest);
        lemma_walk_from(links, parent, depth, k + 1, top, x);
    }
}

fn parent_matches(link: &EntryLink, parent: &String) -> (matches: bool)
    ensures
        matches == (parent_key(*link) == parent@),
{
    match &link.parent {
        Some(p) => {
            let same: bool = *p == *parent;
            same
        },
        None => {
            let empty = parent.as_str().is_empty();
            proof {
                if empty {
                    assert(parent@ =~= Seq::<char>::empty());
                }
            }
            empty
        },
    }
}

/// The ids of the numbered pairs, in order.
pub open spec fn numbered_ids(s: Seq<(String, usize)>) -> Seq<Seq<char>> {
    s.map_values(|p: (String, usize)| p.0@)
}

/// Every pair carries its position, counted from one.
pub open spec fn numbered_in_order(s: Seq<(String, usize)>) -> bool {
    forall|i: int| 0 <= i < s.len() ==> (#[trigger] s[i]).1 == i + 1
}

/// Numbers in order start at one and go up by one from each entry to the
/// next.
pub proof fn law_numbers_count_from_one(s: Seq<(String, usize)>)
    requires
        numbered_in_order(s),
    ensures
        s.len() > 0 ==> s[0].1 == 1,
        forall|i: int| 0 <= i < s.len() - 1 ==> #[trigger] s[i + 1].1 == s[i].1 + 1,
{
    assert forall|i: int| 0 <= i < s.len() - 1 implies #[trigger] s[i + 1].1 == s[i].1 + 1 by {
        assert(s[i].1 == i + 1);
        assert(s[i + 1].1 == i + 2);
    }
    if s.len() > 0 {
        assert(s[0].1 == 1);
    }
}

fn number_children(
    links: &Vec<EntryLink>,
    parent: &String,
    depth: usize,
    numbers: &mut Vec<(String, usize)>,
) -> (complete: bool)
    requires
        numbered_in_order(old(numbers)@),
    ensures
        numbered_in_order(final(numbers)@),
        complete ==> numbered_ids(final(numbers)@) == numbered_ids(old(numbers)@) + walk(
            links@,
            parent@,
            depth as nat,
            0,
        ),
        !complete ==> old(numbers)@.len() + walk(links@, parent@, depth as nat, 0).len() >= usize::MAX,
    decreases depth,
{
    if depth == 0 {
        proof {
            assert(numbered_ids(numbers@) =~= numbered_ids(numbers@) + Seq::<Seq<char>>::empty());
        }
        return true;
    }
    let ghost start = numbered_ids(numbers@);
    let ghost start_len = numbers@.len();
    let ghost full = walk(links@, parent@, depth as nat, 0);
    let mut k: usize = 0;
    proof {
        assert(full =~= Seq::<Seq<char>>::empty() + walk(links@, parent@, depth as nat, 0));
    }
    while k < links.len()
        invariant
            0 < depth,
            k <= links@.len(),
            numbered_in_order(numbers@),
            start_len == old(numbers)@.len(),
            start_len + full.len() == numbers@.len() + walk(links@, parent@, depth as nat, k as int).len(),
            full == walk(links@, parent@, depth as nat, 0),
            exists|done: Seq<Seq<char>>|
                #![trigger done + walk(links@, parent@, depth as nat, k as int)]
                full == done + walk(links@, parent@, depth as nat, k as int) && numbered_ids(numbers@) == start
                    + done,
        decreases links@.len() - k,
    {
        let ghost done = choose|done: Seq<Seq<char>>|
            #![trigger done + walk(links@, parent@, depth as nat, k as int)]
            full == done + walk(links@, parent@, depth as nat, k as int) && numbered_ids(numbers@) == start + done;
        let ghost rest = walk(links@, parent@, depth as nat, k + 1);
        if parent_matches(&links[k], parent) {
            let count = numbers.len();
            if count == usize::MAX {
                proof {
                    assert(walk(links@, parent@, depth as nat, k as int) == seq![links@[k as int].id@] + walk(
                        links@,
                        links@[k as int].id@,
                        (depth - 1) as nat,
                        0,
                    ) + rest);
                }
                return false;
            }
            let ghost before = numbers@;
            numbers.push((links[k].id.clone(), count + 1));
            proof {
                assert(numbered_ids(numbers@) =~= numbered_ids(before).push(links@[k as int].id@));
                assert forall|i: int| 0 <= i < numbers@.len() implies (#[trigger] numbers@[i]).1 == i + 1 by {
                    if i < before.len() {
                        assert(numbers@[i] == before[i]);
                    }
                }
            }
            let ghost mid = numbered_ids(numbers@);
            let ghost sub = walk(links@, links@[k as int].id@, (depth - 1) as nat, 0);
            let complete = number_children(links, &links[k].id, depth - 1, numbers);
            if !complete {
                proof {
                    assert(walk(links@, parent@, depth as nat, k as int) == seq![links@[k as int].id@] + sub + rest);
                }
                return false;
            }
            proof {
                let new_done = done + seq![links@[k as int].id@] + sub;
                assert(walk(links@, parent@, depth as nat, k as int) == seq![links@[k as int].id@] + sub + rest);
                assert(full =~= new_done + rest);
                assert(numbered_ids(numbers@) =~= start + new_done);
                assert(full == new_done + walk(links@, parent@, depth as nat, k + 1));
            }
        } else {
            proof {
                assert(walk(links@, parent@, depth as nat, k as int) == rest);
                assert(full == done + walk(links@, parent@, depth as nat, k + 1));
            }
        }
        k = k + 1;
    }
    proof {
        let done = choose|done: Seq<Seq<char>>|
            #![trigger done + walk(links@, parent@, depth as nat, k as int)]
            full == done + walk(links@, parent@, depth as nat, k as int) && numbered_ids(numbers@) == start + done;
        assert(walk(links@, parent@, depth as nat, k as int) =~= Seq::<Seq<char>>::empty());
        assert(done =~= full);
    }
    true
}

/// Numbers the entries of a log for display: each top-level entry, then
/// (recursively) its children, in log order, numbered from one. Returns the
/// ids with their numbers, in numbering order. The walk goes no deeper than
/// the number of entries, which only an id repeated along a chain of parents
/// could reach. `None` where the numbering would not fit in `usize`.
pub fn number_entries(links: &Vec<EntryLink>) -> (numbers: Option<Vec<(String, usize)>>)
    ensures
        numbers matches Some(n) ==> numbered_ids(n@) == numbering(links@) && numbered_in_order(n@),
        numbers is None ==> numbering(links@).len() >= usize::MAX,
{
    let mut numbers: Vec<(String, usize)> = Vec::new();
    let root = String::new();
    proof {
        assert(root@ =~= Seq::<char>::empty());
        assert(numbered_ids(numbers@) =~= Seq::<Seq<char>>::empty());
    }
    if number_children(links, &root, links.len(), &mut numbers) {
        proof {
            assert(numbered_ids(numbers@) =~= Seq::<Seq<char>>::empty() + numbering(links@));
        }
        Some(numbers)
    } else {
        None
    }
}

} // verus!
