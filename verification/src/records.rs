use vstd::prelude::*;

verus! {

/// A record the server sends, found again by its id; `data` is the rest of
/// it, which the client keeps but does not read here.
#[derive(Clone, Debug)]
pub struct Record<D> {
    pub id: String,
    pub data: D,
}

/// `i` is the first record with the given id.
pub open spec fn is_first_record<D>(s: Seq<Record<D>>, id: Seq<char>, i: int) -> bool {
    &&& 0 <= i < s.len()
    &&& s[i].id@ == id
    &&& forall|j: int| 0 <= j < i ==> s[j].id@ != id
}

/// No record has the given id.
pub open spec fn no_record<D>(s: Seq<Record<D>>, id: Seq<char>) -> bool {
    forall|j: int| 0 <= j < s.len() ==> s[j].id@ != id
}

/// Finds the first record with the given id.
pub fn find_record<D>(records: &Vec<Record<D>>, id: &String) -> (found: Option<usize>)
    ensures
        match found {
            Some(i) => is_first_record(records@, id@, i as int),
            None => no_record(records@, id@),
        },
{
    let mut i: usize = 0;
    while i < records.len()
        invariant
            i <= records@.len(),
            forall|j: int| 0 <= j < i ==> records@[j].id@ != id@,
        decreases records@.len() - i,
    {
        let same: bool = records[i].id == *id;
        if same {
            return Some(i);
        }
        i = i + 1;
    }
    None
}

proof fn lemma_first_record_unique<D>(s: Seq<Record<D>>, id: Seq<char>, i: int, j: int)
    requires
        is_first_record(s, id, i),
        is_first_record(s, id, j),
    ensures
        i == j,
{
    if i < j {
        assert(s[i].id@ == id);
    } else if j < i {
        assert(s[j].id@ == id);
    }
}

/// `after` is `before` with the first record of the id of `record`
/// replaced by it, or with `record` appended where there is none.
pub open spec fn record_upserted<D>(before: Seq<Record<D>>, after: Seq<Record<D>>, record: Record<D>) -> bool {
    &&& no_record(before, record.id@) ==> after == before.push(record)
    &&& forall|i: int| is_first_record(before, record.id@, i) ==> after == before.update(i, record)
}

/// `after` is `before` with the first record of the id of `record` replaced
/// by it; unchanged where there is none.
pub open spec fn record_updated<D>(before: Seq<Record<D>>, after: Seq<Record<D>>, record: Record<D>) -> bool {
    &&& no_record(before, record.id@) ==> after == before
    &&& forall|i: int| is_first_record(before, record.id@, i) ==> after == before.update(i, record)
}

/// `after` is `before` without its first record of the id `id`; unchanged
/// where there is none.
pub open spec fn record_removed<D>(before: Seq<Record<D>>, after: Seq<Record<D>>, id: Seq<char>) -> bool {
    &&& no_record(before, id) ==> after == before
    &&& forall|i: int| is_first_record(before, id, i) ==> after == before.remove(i)
}

/// Replaces the first record with the same id as `record`, or appends
/// `record` when there is none.
pub fn upsert_by_id<D>(records: &mut Vec<Record<D>>, record: Record<D>)
    ensures
        record_upserted(old(records)@, final(records)@, record),
{
    let ghost s = records@;
    match find_record(records, &record.id) {
        Some(i) => {
            let ghost r = record;
            records.remove(i);
            records.insert(i, record);
            proof {
                assert(records@ =~= s.update(i as int, r));
                assert forall|j: int| is_first_record(s, r.id@, j) implies records@ == s.update(j, r) by {
                    lemma_first_record_unique(s, r.id@, i as int, j);
                }
            }
        },
        None => {
            records.push(record);
        },
    }
}

/// Replaces the first record with the same id as `record`; nothing changes
/// when there is none.
pub fn update_existing_by_id<D>(records: &mut Vec<Record<D>>, record: Record<D>)
    ensures
        record_updated(old(records)@, final(records)@, record),
{
    let ghost s = records@;
    match find_record(records, &record.id) {
        Some(i) => {
            let ghost r = record;
            records.remove(i);
            records.insert(i, record);
            proof {
                assert(records@ =~= s.update(i as int, r));
                assert forall|j: int| is_first_record(s, r.id@, j) implies records@ == s.update(j, r) by {
                    lemma_first_record_unique(s, r.id@, i as int, j);
                }
            }
        },
        None => {},
    }
}

/// Removes the first record with the given id; nothing changes when there is none.
pub fn remove_first_by_id<D>(records: &mut Vec<Record<D>>, id: &String)
    ensures
        record_removed(old(records)@, final(records)@, id@),
{
    let ghost s = records@;
    match find_record(records, id) {
        Some(i) => {
            records.remove(i);
            proof {
                assert forall|j: int| is_first_record(s, id@, j) implies records@ == s.remove(j) by {
                    lemma_first_record_unique(s, id@, i as int, j);
                }
            }
        },
        None => {},
    }
}

/// The records of `s` whose id is not `id`, in order.
pub open spec fn without_id<D>(s: Seq<Record<D>>, id: Seq<char>) -> Seq<Record<D>>
    decreases s.len(),
{
    if s.len() == 0 {
        Seq::empty()
    } else {
        let rest = without_id(s.drop_last(), id);
        if s.last().id@ == id {
            rest
        } else {
            rest.push(s.last())
        }
    }
}

/// Removes every record with the given id.
pub fn remove_all_by_id<D>(records: &mut Vec<Record<D>>, id: &String)
    ensures
        final(records)@ == without_id(old(records)@, id@),
{
    let ghost s = records@;
    let ghost mut done: int = 0;
    let mut i: usize = 0;
    proof {
        assert(s.take(0) =~= Seq::<Record<D>>::empty());
        assert(records@.take(0) =~= without_id(s.take(0), id@));
        assert(records@.skip(0) =~= s.skip(0));
    }
    while i < records.len()
        invariant
            0 <= done <= s.len(),
            i <= records@.len(),
            records@.take(i as int) == without_id(s.take(done), id@),
            records@.skip(i as int) == s.skip(done),
            records@.len() - i == s.len() - done,
        decreases records@.len() - i,
    {
        let ghost before = records@;
        proof {
            assert(before.skip(i as int)[0] == s.skip(done)[0]);
            assert(before[i as int] == s[done]);
            assert(s.take(done + 1).drop_last() =~= s.take(done));
            assert(s.take(done + 1).last() == s[done]);
        }
        let same: bool = records[i].id == *id;
        if same {
            records.remove(i);
            proof {
                assert(records@.take(i as int) =~= before.take(i as int));
                assert forall|k: int| 0 <= k < records@.skip(i as int).len() implies #[trigger] records@.skip(i as int)[k]
                    == s.skip(done + 1)[k] by {
                    assert(before.skip(i as int)[k + 1] == s.skip(done)[k + 1]);
                }
                assert(records@.skip(i as int) =~= s.skip(done + 1));
            }
        } else {
            proof {
                assert(records@.take(i + 1) =~= before.take(i as int).push(before[i as int]));
                assert forall|k: int| 0 <= k < records@.skip(i + 1).len() implies #[trigger] records@.skip(i + 1)[k]
                    == s.skip(done + 1)[k] by {
                    assert(before.skip(i as int)[k + 1] == s.skip(done)[k + 1]);
                }
                assert(records@.skip(i + 1) =~= s.skip(done + 1));
            }
            i = i + 1;
        }
        proof {
            done = done + 1;
        }
    }
    proof {
        assert(records@.skip(i as int).len() == 0);
        assert(done == s.len());
        assert(s.take(done) =~= s);
        assert(records@.take(i as int) =~= records@);
    }
}


/// A pairing of two records (such as an entry type and an event), found
/// again by the ids of both; `data` is the rest of it.
#[derive(Clone, Debug)]
pub struct Association<D> {
    pub first_id: String,
    pub second_id: String,
    pub data: D,
}

/// The association pairs the given ids.
pub open spec fn pairs<D>(a: Association<D>, first: Seq<char>, second: Seq<char>) -> bool {
    a.first_id@ == first && a.second_id@ == second
}

/// `i` is the first association of the given pair.
pub open spec fn is_first_pair<D>(s: Seq<Association<D>>, first: Seq<char>, second: Seq<char>, i: int) -> bool {
    &&& 0 <= i < s.len()
    &&& pairs(s[i], first, second)
    &&& forall|j: int| 0 <= j < i ==> !pairs(#[trigger] s[j], first, second)
}

/// No association is of the given pair.
pub open spec fn no_pair<D>(s: Seq<Association<D>>, first: Seq<char>, second: Seq<char>) -> bool {
    forall|j: int| 0 <= j < s.len() ==> !pairs(#[trigger] s[j], first, second)
}

/// Finds the first association of the given pair.
pub fn find_pair<D>(list: &Vec<Association<D>>, first: &String, second: &String) -> (found: Option<usize>)
    ensures
        match found {
            Some(i) => is_first_pair(list@, first@, second@, i as int),
            None => no_pair(list@, first@, second@),
        },
{
    let mut i: usize = 0;
    while i < list.len()
        invariant
            i <= list@.len(),
            forall|j: int| 0 <= j < i ==> !pairs(#[trigger] list@[j], first@, second@),
        decreases list@.len() - i,
    {
        let same_first: bool = list[i].first_id == *first;
        let same_second: bool = list[i].second_id == *second;
        if same_first && same_second {
            return Some(i);
        }
        i = i + 1;
    }
    None
}

proof fn lemma_first_pair_unique<D>(s: Seq<Association<D>>, first: Seq<char>, second: Seq<char>, i: int, j: int)
    requires
        is_first_pair(s, first, second, i),
        is_first_pair(s, first, second, j),
    ensures
        i == j,
{
    if i < j {
        assert(pairs(s[i], first, second));
    } else if j < i {
        assert(pairs(s[j], first, second));
    }
}

/// Appends the association unless one of the same pair is already there.
pub fn add_association_if_absent<D>(list: &mut Vec<Association<D>>, association: Association<D>)
    ensures
        association_added(old(list)@, final(list)@, association),
{
    match find_pair(list, &association.first_id, &association.second_id) {
        Some(_) => {},
        None => {
            list.push(association);
        },
    }
}

/// Replaces the first association of the same pair, or appends it when
/// there is none.
pub fn upsert_association<D>(list: &mut Vec<Association<D>>, association: Association<D>)
    ensures
        association_upserted(old(list)@, final(list)@, association),
{
    let ghost s = list@;
    match find_pair(list, &association.first_id, &association.second_id) {
        Some(i) => {
            let ghost a = association;
            list.remove(i);
            list.insert(i, association);
            proof {
                assert(list@ =~= s.update(i as int, a));
                assert forall|j: int| is_first_pair(s, a.first_id@, a.second_id@, j) implies list@ == s.update(j, a) by {
                    lemma_first_pair_unique(s, a.first_id@, a.second_id@, i as int, j);
                }
            }
        },
        None => {
            list.push(association);
        },
    }
}

/// Removes the first association of the given pair; nothing changes when there is none.
pub fn remove_association<D>(list: &mut Vec<Association<D>>, first: &String, second: &String)
    ensures
        association_removed(old(list)@, final(list)@, first@, second@),
{
    let ghost s = list@;
    match find_pair(list, first, second) {
        Some(i) => {
            list.remove(i);
            proof {
                assert forall|j: int| is_first_pair(s, first@, second@, j) implies list@ == s.remove(j) by {
                    lemma_first_pair_unique(s, first@, second@, i as int, j);
                }
            }
        },
        None => {},
    }
}

/// `after` is `before` with `a` appended where no association pairs its
/// ids; unchanged otherwise.
pub open spec fn association_added<D>(before: Seq<Association<D>>, after: Seq<Association<D>>, a: Association<D>) -> bool {
    &&& no_pair(before, a.first_id@, a.second_id@) ==> after == before.push(a)
    &&& !no_pair(before, a.first_id@, a.second_id@) ==> after == before
}

/// `after` is `before` with the first association of the ids of `a`
/// replaced by it, or with `a` appended where there is none.
pub open spec fn association_upserted<D>(before: Seq<Association<D>>, after: Seq<Association<D>>, a: Association<D>) -> bool {
    &&& no_pair(before, a.first_id@, a.second_id@) ==> after == before.push(a)
    &&& forall|i: int| is_first_pair(before, a.first_id@, a.second_id@, i) ==> after == before.update(i, a)
}

/// `after` is `before` without its first association of the two ids;
/// unchanged where there is none.
pub open spec fn association_removed<D>(
    before: Seq<Association<D>>,
    after: Seq<Association<D>>,
    first: Seq<char>,
    second: Seq<char>,
) -> bool {
    &&& no_pair(before, first, second) ==> after == before
    &&& forall|i: int| is_first_pair(before, first, second, i) ==> after == before.remove(i)
}

/// A tab of an event log, starting at `start_time` (milliseconds since the
/// Unix epoch); `data` is the rest of it.
#[derive(Clone, Debug)]
pub struct EventLogTab<D> {
    pub id: String,
    pub start_time: i64,
    pub data: D,
}

/// The tabs are in order of start time.
pub open spec fn tabs_sorted<D>(s: Seq<EventLogTab<D>>) -> bool {
    forall|i: int, j: int| 0 <= i < j < s.len() ==> s[i].start_time <= s[j].start_time
}

/// `i` is the first tab with the given id.
pub open spec fn is_first_tab<D>(s: Seq<EventLogTab<D>>, id: Seq<char>, i: int) -> bool {
    &&& 0 <= i < s.len()
    &&& s[i].id@ == id
    &&& forall|j: int| 0 <= j < i ==> s[j].id@ != id
}

/// No tab has the given id.
pub open spec fn no_tab<D>(s: Seq<EventLogTab<D>>, id: Seq<char>) -> bool {
    forall|j: int| 0 <= j < s.len() ==> s[j].id@ != id
}

/// The index before which a tab starting at `start_time` goes: every
/// earlier tab starts before it. On tabs in order every later tab starts no
/// earlier; otherwise the index is only within bounds.
pub fn tab_insertion_index<D>(tabs: &Vec<EventLogTab<D>>, start_time: i64) -> (index: usize)
    ensures
        index <= tabs@.len(),
        tabs_sorted(tabs@) ==> forall|j: int| 0 <= j < index ==> tabs@[j].start_time < start_time,
        tabs_sorted(tabs@) ==> forall|j: int| index <= j < tabs@.len() ==> tabs@[j].start_time >= start_time,
{
    let mut low: usize = 0;
    let mut high: usize = tabs.len();
    while low < high
        invariant
            low <= high <= tabs@.len(),
            tabs_sorted(tabs@) ==> forall|j: int| 0 <= j < low ==> tabs@[j].start_time < start_time,
            tabs_sorted(tabs@) ==> forall|j: int| high <= j < tabs@.len() ==> tabs@[j].start_time >= start_time,
        decreases high - low,
    {
        let mid = low + (high - low) / 2;
        if tabs[mid].start_time < start_time {
            low = mid + 1;
        } else {
            high = mid;
        }
    }
    low
}

/// `after` is the tabs `before` with `tab` applied: the first tab with its
/// id replaced where it stands, or, where there is none, `tab` inserted
/// where its start time keeps tabs in order in order.
pub open spec fn tab_upserted<D>(before: Seq<EventLogTab<D>>, after: Seq<EventLogTab<D>>, tab: EventLogTab<D>) -> bool {
    &&& forall|i: int| is_first_tab(before, tab.id@, i) ==> after == before.update(i, tab)
    &&& no_tab(before, tab.id@) ==> exists|i: int|
        0 <= i <= before.len() && after == before.insert(i, tab) && (tabs_sorted(before) ==> tabs_sorted(after))
}

/// Applies an update of a tab: the first tab with the same id is replaced
/// where it stands; a new tab is inserted where its start time keeps the
/// tabs in order.
pub fn upsert_tab<D>(tabs: &mut Vec<EventLogTab<D>>, tab: EventLogTab<D>)
    ensures
        tab_upserted(old(tabs)@, final(tabs)@, tab),
{
    let ghost s = tabs@;
    let mut i: usize = 0;
    while i < tabs.len()
        invariant
            tabs@ == s,
            s == old(tabs)@,
            i <= tabs@.len(),
            forall|j: int| 0 <= j < i ==> tabs@[j].id@ != tab.id@,
        decreases tabs@.len() - i,
    {
        let same: bool = tabs[i].id == tab.id;
        if same {
            let ghost t = tab;
            tabs.remove(i);
            tabs.insert(i, tab);
            proof {
                assert(tabs@ =~= s.update(i as int, t));
                assert(!no_tab(s, t.id@)) by {
                    assert(s[i as int].id@ == t.id@);
                }
                assert forall|j: int| is_first_tab(s, t.id@, j) implies tabs@ == s.update(j, t) by {
                    if j < i {
                        assert(s[j].id@ != t.id@);
                    } else if j > i {
                        assert(s[i as int].id@ == t.id@);
                    }
                }
            }
            return;
        }
        i = i + 1;
    }
    let index = tab_insertion_index(tabs, tab.start_time);
    let ghost t = tab;
    tabs.insert(index, tab);
    proof {
        if tabs_sorted(s) {
            let u = tabs@;
            assert forall|a: int, b: int| 0 <= a < b < u.len() implies u[a].start_time <= u[b].start_time by {
                if b < index {
                    assert(u[a] == s[a] && u[b] == s[b]);
                } else if b == index {
                    assert(u[a] == s[a]);
                } else if a == index {
                    assert(u[b] == s[b - 1]);
                } else if a < index {
                    assert(u[a] == s[a] && u[b] == s[b - 1]);
                } else {
                    assert(u[a] == s[a - 1] && u[b] == s[b - 1]);
                }
            }
        }
        assert(forall|j: int| is_first_tab(s, t.id@, j) ==> false);
    }
}

/// The tabs of `s` whose id is not `id`, in order.
pub open spec fn tabs_without<D>(s: Seq<EventLogTab<D>>, id: Seq<char>) -> Seq<EventLogTab<D>>
    decreases s.len(),
{
    if s.len() == 0 {
        Seq::empty()
    } else {
        let rest = tabs_without(s.drop_last(), id);
        if s.last().id@ == id {
            rest
        } else {
            rest.push(s.last())
        }
    }
}

/// Every tab kept is a tab of `s`, and tabs in order stay in order.
/// After every tab with an id is removed, none with that id is left, and
/// every other tab is kept.
pub proof fn law_tabs_without<D>(s: Seq<EventLogTab<D>>, id: Seq<char>)
    ensures
        no_tab(tabs_without(s, id), id),
        forall|j: int| 0 <= j < s.len() && s[j].id@ != id ==> tabs_without(s, id).contains(#[trigger] s[j]),
    decreases s.len(),
{
    if s.len() > 0 {
        let d = s.drop_last();
        law_tabs_without(d, id);
        let rest = tabs_without(d, id);
        let t = tabs_without(s, id);
        assert forall|k: int| 0 <= k < t.len() implies t[k].id@ != id by {
            if k < rest.len() {
                assert(t[k] == rest[k]);
            }
        }
        assert forall|j: int| 0 <= j < s.len() && s[j].id@ != id implies t.contains(#[trigger] s[j]) by {
            if j < d.len() {
                assert(d[j] == s[j]);
                assert(rest.contains(d[j]));
                let m = choose|m: int| 0 <= m < rest.len() && rest[m] == d[j];
                assert(t[m] == rest[m]);
            } else {
                assert(t[t.len() - 1] == s[j]);
            }
        }
    }
}

/// `after` holds `tab` as the first tab with its id, keeps every tab of
/// `before` with another id, and has one tab more exactly when `before` had
/// none with that id.
pub open spec fn tab_put<D>(before: Seq<EventLogTab<D>>, after: Seq<EventLogTab<D>>, tab: EventLogTab<D>) -> bool {
    &&& after.len() == before.len() + (if no_tab(before, tab.id@) { 1int } else { 0int })
    &&& exists|i: int| #[trigger] is_first_tab(after, tab.id@, i) && after[i] == tab
    &&& forall|j: int| 0 <= j < before.len() && before[j].id@ != tab.id@ ==> after.contains(#[trigger] before[j])
}

/// An update of a tab puts it first among the tabs of its id (see
/// [`tab_put`]).
pub proof fn lemma_tab_put<D>(before: Seq<EventLogTab<D>>, after: Seq<EventLogTab<D>>, tab: EventLogTab<D>)
    requires
        tab_upserted(before, after, tab),
    ensures
        tab_put(before, after, tab),
{
    if no_tab(before, tab.id@) {
        let i = choose|i: int|
            0 <= i <= before.len() && after == before.insert(i, tab) && (tabs_sorted(before) ==> tabs_sorted(after));
        assert forall|j: int| 0 <= j < i implies after[j].id@ != tab.id@ by {
            assert(after[j] == before[j]);
        }
        assert(is_first_tab(after, tab.id@, i));
        assert forall|j: int| 0 <= j < before.len() && before[j].id@ != tab.id@ implies after.contains(
            #[trigger] before[j],
        ) by {
            if j < i {
                assert(after[j] == before[j]);
            } else {
                assert(after[j + 1] == before[j]);
            }
        }
    } else {
        let w = choose|j: int| 0 <= j < before.len() && before[j].id@ == tab.id@;
        lemma_first_tab_exists(before, tab.id@, w);
        let i = choose|i: int| #[trigger] is_first_tab(before, tab.id@, i);
        assert(after == before.update(i, tab));
        assert forall|j: int| 0 <= j < i implies after[j].id@ != tab.id@ by {
            assert(after[j] == before[j]);
        }
        assert(is_first_tab(after, tab.id@, i));
        assert forall|j: int| 0 <= j < before.len() && before[j].id@ != tab.id@ implies after.contains(
            #[trigger] before[j],
        ) by {
            assert(after[j] == before[j]);
        }
    }
}

/// Where the tab at `w` has the id, there is a first tab with it.
pub proof fn lemma_first_tab_exists<D>(s: Seq<EventLogTab<D>>, id: Seq<char>, w: int)
    requires
        0 <= w < s.len(),
        s[w].id@ == id,
    ensures
        exists|i: int| #[trigger] is_first_tab(s, id, i),
    decreases w,
{
    if forall|j: int| 0 <= j < w ==> s[j].id@ != id {
        assert(is_first_tab(s, id, w));
    } else {
        let v = choose|j: int| 0 <= j < w && s[j].id@ == id;
        lemma_first_tab_exists(s, id, v);
    }
}

proof fn lemma_tabs_without<D>(s: Seq<EventLogTab<D>>, id: Seq<char>)
    ensures
        forall|k: int| 0 <= k < tabs_without(s, id).len() ==> s.contains(#[trigger] tabs_without(s, id)[k]),
        tabs_sorted(s) ==> tabs_sorted(tabs_without(s, id)),
    decreases s.len(),
{
    if s.len() > 0 {
        let d = s.drop_last();
        lemma_tabs_without(d, id);
        let rest = tabs_without(d, id);
        assert forall|k: int| 0 <= k < tabs_without(s, id).len() implies s.contains(#[trigger] tabs_without(s, id)[k]) by {
            if k < rest.len() {
                let j = choose|j: int| 0 <= j < d.len() && d[j] == rest[k];
                assert(s[j] == d[j]);
            } else {
                assert(s[s.len() - 1] == s.last());
            }
        }
        if tabs_sorted(s) {
            assert(tabs_sorted(d)) by {
                assert forall|i: int, j: int| 0 <= i < j < d.len() implies d[i].start_time <= d[j].start_time by {
                    assert(d[i] == s[i] && d[j] == s[j]);
                }
            }
            let t = tabs_without(s, id);
            assert forall|i: int, j: int| 0 <= i < j < t.len() implies t[i].start_time <= t[j].start_time by {
                if j >= rest.len() {
                    let a = choose|a: int| 0 <= a < d.len() && d[a] == rest[i];
                    assert(s[a] == d[a]);
                    assert(s[a].start_time <= s[s.len() - 1].start_time);
                }
            }
        }
    }
}

/// Removes every tab with the given id. Tabs in order stay in order.
pub fn remove_tabs_by_id<D>(tabs: &mut Vec<EventLogTab<D>>, id: &String)
    ensures
        final(tabs)@ == tabs_without(old(tabs)@, id@),
        tabs_sorted(old(tabs)@) ==> tabs_sorted(final(tabs)@),
{
    let ghost s = tabs@;
    let mut rest: Vec<EventLogTab<D>> = Vec::new();
    std::mem::swap(tabs, &mut rest);
    let count = rest.len();
    let mut k: usize = 0;
    proof {
        assert(s.take(0) =~= Seq::<EventLogTab<D>>::empty());
        assert(s.skip(0) =~= s);
    }
    while rest.len() > 0
        invariant
            s.len() == count,
            k + rest@.len() == s.len(),
            rest@ == s.skip(k as int),
            tabs@ == tabs_without(s.take(k as int), id@),
        decreases rest@.len(),
    {
        let tab = rest.remove(0);
        proof {
            assert(tab == s[k as int]);
            assert(rest@ =~= s.skip(k + 1));
            assert(s.take(k + 1).drop_last() =~= s.take(k as int));
            assert(s.take(k + 1).last() == s[k as int]);
        }
        let same: bool = tab.id == *id;
        if !same {
            tabs.push(tab);
        }
        k = k + 1;
    }
    proof {
        assert(s.take(k as int) =~= s);
        lemma_tabs_without(s, id@);
    }
}

/// The tab an entry starting at `time` belongs to: the last tab of the run
/// of tabs, from the first, that start no later than `time`; `None` when
/// the first tab starts later (or there are no tabs).
pub fn tab_for_time<D>(tabs: &Vec<EventLogTab<D>>, time: i64) -> (tab: Option<usize>)
    ensures
        match tab {
            Some(i) => {
                &&& 0 <= i < tabs@.len()
                &&& forall|j: int| 0 <= j <= i ==> tabs@[j].start_time <= time
                &&& (i + 1 < tabs@.len() ==> tabs@[i + 1].start_time > time)
            },
            None => tabs@.len() == 0 || tabs@[0].start_time > time,
        },
{
    let mut i: usize = 0;
    while i < tabs.len() && time >= tabs[i].start_time
        invariant
            i <= tabs@.len(),
            forall|j: int| 0 <= j < i ==> tabs@[j].start_time <= time,
        decreases tabs@.len() - i,
    {
        i = i + 1;
    }
    if i == 0 {
        None
    } else {
        Some(i - 1)
    }
}


/// After removing every record with an id, none is left, and every other
/// record is kept.
pub proof fn law_remove_all_by_id<D>(s: Seq<Record<D>>, id: Seq<char>)
    ensures
        no_record(without_id(s, id), id),
        forall|i: int| 0 <= i < s.len() && s[i].id@ != id ==> without_id(s, id).contains(#[trigger] s[i]),
        forall|i: int| 0 <= i < without_id(s, id).len() ==> s.contains(#[trigger] without_id(s, id)[i]),
    decreases s.len(),
{
    if s.len() > 0 {
        let d = s.drop_last();
        law_remove_all_by_id(d, id);
        let w = without_id(s, id);
        let wd = without_id(d, id);
        assert forall|i: int| 0 <= i < w.len() implies w[i].id@ != id && s.contains(#[trigger] w[i]) by {
            if i < wd.len() {
                assert(w[i] == wd[i]);
                let j = choose|j: int| 0 <= j < d.len() && d[j] == wd[i];
                assert(s[j] == d[j]);
            } else {
                assert(s[s.len() - 1] == w[i]);
            }
        }
        assert forall|i: int| 0 <= i < s.len() && s[i].id@ != id implies w.contains(#[trigger] s[i]) by {
            if i < s.len() - 1 {
                assert(d[i] == s[i]);
                assert(wd.contains(d[i]));
                let j = choose|j: int| 0 <= j < wd.len() && wd[j] == d[i];
                assert(w[j] == wd[j]);
            } else {
                assert(w[w.len() - 1] == s[i]);
            }
        }
    }
}

/// After an upsert, the first record with the id is the new one.
pub proof fn law_upsert_then_found<D>(s: Seq<Record<D>>, r: Record<D>, i: int)
    requires
        is_first_record(s, r.id@, i) || (no_record(s, r.id@) && i == s.len()),
    ensures
        is_first_record(
            if no_record(s, r.id@) {
                s.push(r)
            } else {
                s.update(i, r)
            },
            r.id@,
            i,
        ),
        (if no_record(s, r.id@) {
            s.push(r)
        } else {
            s.update(i, r)
        })[i] == r,
{
    if !no_record(s, r.id@) {
        assert(!(no_record(s, r.id@) && i == s.len()));
    }
}

/// `after` holds `r` as the first record with its id, keeps every record of
/// `before` with another id where it was, and has one record more exactly
/// when `before` had none with that id.
pub open spec fn record_put<D>(before: Seq<Record<D>>, after: Seq<Record<D>>, r: Record<D>) -> bool {
    &&& after.len() == before.len() + (if no_record(before, r.id@) { 1int } else { 0int })
    &&& exists|i: int| #[trigger] is_first_record(after, r.id@, i) && after[i] == r
    &&& forall|j: int| 0 <= j < before.len() && before[j].id@ != r.id@ ==> after[j] == before[j]
}

/// `after` holds `a` as the first association of its two ids, keeps every
/// association of `before` of other ids where it was, and has one more
/// exactly when `before` had none of those ids.
pub open spec fn pair_put<D>(before: Seq<Association<D>>, after: Seq<Association<D>>, a: Association<D>) -> bool {
    &&& after.len() == before.len() + (if no_pair(before, a.first_id@, a.second_id@) { 1int } else { 0int })
    &&& exists|i: int| #[trigger] is_first_pair(after, a.first_id@, a.second_id@, i) && after[i] == a
    &&& forall|j: int|
        0 <= j < before.len() && !pairs(before[j], a.first_id@, a.second_id@) ==> after[j] == before[j]
}

/// `after` keeps `before` as it was and ends with `a` when `before` had no
/// association of its two ids; else it is `before`.
pub open spec fn pair_joined<D>(before: Seq<Association<D>>, after: Seq<Association<D>>, a: Association<D>) -> bool {
    &&& !no_pair(after, a.first_id@, a.second_id@)
    &&& after.len() == before.len() + (if no_pair(before, a.first_id@, a.second_id@) { 1int } else { 0int })
    &&& forall|j: int| 0 <= j < before.len() ==> after[j] == before[j]
    &&& no_pair(before, a.first_id@, a.second_id@) ==> after.last() == a
}

/// `after` is `before` with one association fewer, the first one of the two
/// ids, and everything else kept in order; `before` itself where it had none.
pub open spec fn pair_dropped<D>(before: Seq<Association<D>>, after: Seq<Association<D>>, first: Seq<char>, second: Seq<char>) -> bool {
    &&& no_pair(before, first, second) ==> after == before
    &&& !no_pair(before, first, second) ==> {
        &&& after.len() + 1 == before.len()
        &&& exists|i: int| {
            &&& #[trigger] is_first_pair(before, first, second, i)
            &&& forall|j: int| 0 <= j < i ==> after[j] == before[j]
            &&& forall|j: int| i <= j < after.len() ==> after[j] == before[j + 1]
        }
    }
}

/// `after` is `before` with one record fewer, the first one with the id,
/// and everything else kept in order; `before` itself where it had none.
pub open spec fn record_dropped<D>(before: Seq<Record<D>>, after: Seq<Record<D>>, id: Seq<char>) -> bool {
    &&& no_record(before, id) ==> after == before
    &&& !no_record(before, id) ==> {
        &&& after.len() + 1 == before.len()
        &&& exists|i: int| {
            &&& #[trigger] is_first_record(before, id, i)
            &&& forall|j: int| 0 <= j < i ==> after[j] == before[j]
            &&& forall|j: int| i <= j < after.len() ==> after[j] == before[j + 1]
        }
    }
}

/// Where some record has the id, there is a first one.
pub proof fn lemma_first_record_exists<D>(s: Seq<Record<D>>, id: Seq<char>)
    requires
        !no_record(s, id),
    ensures
        exists|i: int| #[trigger] is_first_record(s, id, i),
    decreases s.len(),
{
    let d = s.drop_last();
    let w = choose|j: int| 0 <= j < s.len() && s[j].id@ == id;
    if no_record(d, id) {
        if w < s.len() - 1 {
            assert(d[w] == s[w]);
        }
        assert forall|j: int| 0 <= j < s.len() - 1 implies s[j].id@ != id by {
            assert(d[j] == s[j]);
        }
        assert(is_first_record(s, id, s.len() - 1));
    } else {
        lemma_first_record_exists(d, id);
        let i = choose|i: int| #[trigger] is_first_record(d, id, i);
        assert forall|j: int| 0 <= j < i implies s[j].id@ != id by {
            assert(d[j] == s[j]);
        }
        assert(d[i] == s[i]);
        assert(is_first_record(s, id, i));
    }
}

/// Where some association is of the two ids, there is a first one.
pub proof fn lemma_first_pair_exists<D>(s: Seq<Association<D>>, first: Seq<char>, second: Seq<char>)
    requires
        !no_pair(s, first, second),
    ensures
        exists|i: int| #[trigger] is_first_pair(s, first, second, i),
    decreases s.len(),
{
    let d = s.drop_last();
    let w = choose|j: int| 0 <= j < s.len() && pairs(#[trigger] s[j], first, second);
    if no_pair(d, first, second) {
        if w < s.len() - 1 {
            assert(d[w] == s[w]);
        }
        assert forall|j: int| 0 <= j < s.len() - 1 implies !pairs(#[trigger] s[j], first, second) by {
            assert(d[j] == s[j]);
        }
        assert(is_first_pair(s, first, second, s.len() - 1));
    } else {
        lemma_first_pair_exists(d, first, second);
        let i = choose|i: int| #[trigger] is_first_pair(d, first, second, i);
        assert forall|j: int| 0 <= j < i implies !pairs(#[trigger] s[j], first, second) by {
            assert(d[j] == s[j]);
        }
        assert(is_first_pair(s, first, second, i));
    }
}

/// An upsert puts the record first among those of its id (see [`record_put`]).
pub proof fn lemma_record_put<D>(before: Seq<Record<D>>, after: Seq<Record<D>>, r: Record<D>)
    requires
        record_upserted(before, after, r),
    ensures
        record_put(before, after, r),
{
    if no_record(before, r.id@) {
        assert(is_first_record(after, r.id@, before.len() as int));
    } else {
        lemma_first_record_exists(before, r.id@);
        let i = choose|i: int| #[trigger] is_first_record(before, r.id@, i);
        assert(after == before.update(i, r));
        assert forall|j: int| 0 <= j < i implies after[j].id@ != r.id@ by {
            assert(after[j] == before[j]);
        }
        assert(is_first_record(after, r.id@, i));
    }
}

/// An upsert of an association puts it first among those of its ids.
pub proof fn lemma_pair_put<D>(before: Seq<Association<D>>, after: Seq<Association<D>>, a: Association<D>)
    requires
        association_upserted(before, after, a),
    ensures
        pair_put(before, after, a),
{
    if no_pair(before, a.first_id@, a.second_id@) {
        assert forall|j: int| 0 <= j < before.len() implies !pairs(#[trigger] after[j], a.first_id@, a.second_id@) by {
            assert(after[j] == before[j]);
        }
        assert(is_first_pair(after, a.first_id@, a.second_id@, before.len() as int));
    } else {
        lemma_first_pair_exists(before, a.first_id@, a.second_id@);
        let i = choose|i: int| #[trigger] is_first_pair(before, a.first_id@, a.second_id@, i);
        assert(after == before.update(i, a));
        assert forall|j: int| 0 <= j < i implies !pairs(#[trigger] after[j], a.first_id@, a.second_id@) by {
            assert(after[j] == before[j]);
        }
        assert(is_first_pair(after, a.first_id@, a.second_id@, i));
    }
}

/// An addition of an association adds it only where none of its ids was there.
pub proof fn lemma_pair_joined<D>(before: Seq<Association<D>>, after: Seq<Association<D>>, a: Association<D>)
    requires
        association_added(before, after, a),
    ensures
        pair_joined(before, after, a),
{
    if no_pair(before, a.first_id@, a.second_id@) {
        assert(pairs(after[before.len() as int], a.first_id@, a.second_id@));
    } else {
        let w = choose|j: int| 0 <= j < before.len() && pairs(#[trigger] before[j], a.first_id@, a.second_id@);
        assert(pairs(after[w], a.first_id@, a.second_id@));
    }
}

/// A removal of an association takes out the first of its ids.
pub proof fn lemma_pair_dropped<D>(before: Seq<Association<D>>, after: Seq<Association<D>>, first: Seq<char>, second: Seq<char>)
    requires
        association_removed(before, after, first, second),
    ensures
        pair_dropped(before, after, first, second),
{
    if !no_pair(before, first, second) {
        lemma_first_pair_exists(before, first, second);
        let i = choose|i: int| #[trigger] is_first_pair(before, first, second, i);
        assert(after == before.remove(i));
    }
}

/// A removal of a record takes out the first with its id.
pub proof fn lemma_record_dropped<D>(before: Seq<Record<D>>, after: Seq<Record<D>>, id: Seq<char>)
    requires
        record_removed(before, after, id),
    ensures
        record_dropped(before, after, id),
{
    if !no_record(before, id) {
        lemma_first_record_exists(before, id);
        let i = choose|i: int| #[trigger] is_first_record(before, id, i);
        assert(after == before.remove(i));
    }
}

/// An event the user can open, starting at `start_time` (milliseconds since
/// the Unix epoch); `data` is the rest of it.
#[derive(Clone, Debug)]
pub struct AvailableEvent<D> {
    pub id: String,
    pub start_time: i64,
    pub data: D,
}

/// `out` is `items` rearranged: item `i` of `out` is item `origin[i]` of
/// `items`, each taken once.
pub open spec fn rearranged<T>(items: Seq<T>, out: Seq<T>, origin: Seq<int>) -> bool {
    &&& out.len() == items.len()
    &&& origin.len() == items.len()
    &&& forall|i: int| 0 <= i < out.len() ==> 0 <= #[trigger] origin[i] < items.len() && out[i] == items[origin[i]]
    &&& forall|i: int, j: int| 0 <= i < origin.len() && 0 <= j < origin.len() && i != j ==> origin[i] != origin[j]
}

/// The events start from the latest to the earliest.
pub open spec fn newest_first<D>(s: Seq<AvailableEvent<D>>) -> bool {
    forall|i: int, j: int| 0 <= i < j < s.len() ==> s[i].start_time >= s[j].start_time
}

/// Orders the events the user can open from the latest start to the
/// earliest (in no fixed order among equal start times).
pub fn sort_newest_first<D>(events: Vec<AvailableEvent<D>>) -> (sorted: Vec<AvailableEvent<D>>)
    ensures
        newest_first(sorted@),
        exists|origin: Seq<int>| rearranged(events@, sorted@, origin),
{
    let ghost src = events@;
    let count = events.len();
    let mut rest = events;
    let mut sorted: Vec<AvailableEvent<D>> = Vec::new();
    let ghost mut origin: Seq<int> = Seq::empty();
    let mut k: usize = 0;
    while rest.len() > 0
        invariant
            src.len() == count,
            k + rest@.len() == src.len(),
            rest@ == src.skip(k as int),
            sorted@.len() == k,
            origin.len() == k,
            forall|i: int| 0 <= i < k ==> 0 <= #[trigger] origin[i] < k && sorted@[i] == src[origin[i]],
            forall|i: int, j: int| 0 <= i < k && 0 <= j < k && i != j ==> origin[i] != origin[j],
            newest_first(sorted@),
        decreases rest@.len(),
    {
        let item = rest.remove(0);
        proof {
            assert(item == src[k as int]);
            assert(rest@ =~= src.skip(k + 1));
        }
        let mut p: usize = 0;
        while p < sorted.len() && sorted[p].start_time >= item.start_time
            invariant
                p <= sorted@.len(),
                forall|i: int| 0 <= i < p ==> #[trigger] sorted@[i].start_time >= item.start_time,
            decreases sorted@.len() - p,
        {
            p = p + 1;
        }
        let ghost v = sorted@;
        let ghost o = origin;
        let ghost x = item;
        sorted.insert(p, item);
        proof {
            origin = o.insert(p as int, k as int);
            assert(sorted@ =~= v.insert(p as int, x));
            assert forall|i: int| 0 <= i < k + 1 implies 0 <= #[trigger] origin[i] < k + 1 && sorted@[i] == src[origin[i]] by {
                if i < p {
                    assert(origin[i] == o[i] && sorted@[i] == v[i]);
                } else if i > p {
                    assert(origin[i] == o[i - 1] && sorted@[i] == v[i - 1]);
                }
            }
            assert forall|i: int, j: int| 0 <= i < k + 1 && 0 <= j < k + 1 && i != j implies origin[i] != origin[j] by {
                if i != p && j != p {
                    let a = if i < p { i } else { i - 1 };
                    let b = if j < p { j } else { j - 1 };
                    assert(o[a] != o[b]);
                } else if i == p {
                    let b = if j < p { j } else { j - 1 };
                    assert(o[b] < k);
                } else {
                    let a = if i < p { i } else { i - 1 };
                    assert(o[a] < k);
                }
            }
            assert forall|i: int, j: int| 0 <= i < j < k + 1 implies sorted@[i].start_time >= sorted@[j].start_time by {
                if j == p {
                    assert(v[i].start_time >= x.start_time);
                } else if i == p {
                    assert(v[p as int].start_time < x.start_time);
                    assert(v[p as int].start_time >= v[j - 1].start_time);
                } else if i < p && j > p {
                    assert(v[i].start_time >= v[j - 1].start_time);
                } else if i > p {
                    assert(v[i - 1].start_time >= v[j - 1].start_time);
                }
            }
        }
        k = k + 1;
    }
    proof {
        assert(rearranged(src, sorted@, origin));
    }
    sorted
}

} // verus!
