use vstd::prelude::*;
use crate::event_log::EventLogEntry;

verus! {

/// An entry starting at `time` is past a tab starting at `tab`: it has a
/// start time, no earlier than the tab's. An entry without a start time
/// comes before every tab.
pub open spec fn passes(tab: i64, time: Option<i64>) -> bool {
    match time {
        Some(t) => tab <= t,
        None => false,
    }
}

/// Start times in log order: an absent one first, then by time.
pub open spec fn start_le(a: Option<i64>, b: Option<i64>) -> bool {
    match (a, b) {
        (None, _) => true,
        (Some(_), None) => false,
        (Some(x), Some(y)) => x <= y,
    }
}

/// Moves the tab cursor `p` past every tab, from `p` on, that an entry
/// starting at `time` is past.
pub open spec fn advance(tabs: Seq<i64>, p: nat, time: Option<i64>) -> nat
    decreases tabs.len() - p,
{
    if p < tabs.len() && passes(tabs[p as int], time) {
        advance(tabs, p + 1, time)
    } else {
        p
    }
}

/// The tab cursor after walking through the entries in order.
pub open spec fn cursor_after(tabs: Seq<i64>, entries: Seq<Option<i64>>) -> nat
    decreases entries.len(),
{
    if entries.len() == 0 {
        0
    } else {
        advance(tabs, cursor_after(tabs, entries.drop_last()), entries.last())
    }
}

/// The tab of the entry at `i`: the last tab the cursor has passed once it
/// reached that entry, if any.
pub open spec fn assigned_tab(tabs: Seq<i64>, entries: Seq<Option<i64>>, i: int) -> Option<nat> {
    let p = cursor_after(tabs, entries.take(i + 1));
    if p == 0 {
        None
    } else {
        Some((p - 1) as nat)
    }
}

proof fn lemma_advance_bounds(tabs: Seq<i64>, p: nat, time: Option<i64>)
    requires
        p <= tabs.len(),
    ensures
        p <= advance(tabs, p, time) <= tabs.len(),
        forall|j: int| p <= j < advance(tabs, p, time) ==> passes(tabs[j], time),
        advance(tabs, p, time) < tabs.len() ==> !passes(tabs[advance(tabs, p, time) as int], time),
    decreases tabs.len() - p,
{
    if p < tabs.len() && passes(tabs[p as int], time) {
        lemma_advance_bounds(tabs, p + 1, time);
    }
}

proof fn lemma_cursor_bounds(tabs: Seq<i64>, entries: Seq<Option<i64>>)
    ensures
        cursor_after(tabs, entries) <= tabs.len(),
    decreases entries.len(),
{
    if entries.len() > 0 {
        lemma_cursor_bounds(tabs, entries.drop_last());
        lemma_advance_bounds(tabs, cursor_after(tabs, entries.drop_last()), entries.last());
    }
}

fn passes_exec(tab: i64, time: Option<i64>) -> (past: bool)
    ensures
        past == passes(tab, time),
{
    match time {
        Some(t) => tab <= t,
        None => false,
    }
}

fn advance_exec(tabs: &Vec<i64>, p: usize, time: Option<i64>) -> (q: usize)
    requires
        p <= tabs@.len(),
    ensures
        q == advance(tabs@, p as nat, time),
{
    let mut q = p;
    while q < tabs.len() && passes_exec(tabs[q], time)
        invariant
            p <= q <= tabs@.len(),
            advance(tabs@, q as nat, time) == advance(tabs@, p as nat, time),
        decreases tabs@.len() - q,
    {
        q = q + 1;
    }
    q
}

/// The tabs start in order.
pub open spec fn tabs_in_order(tabs: Seq<i64>) -> bool {
    forall|a: int, b: int| 0 <= a < b < tabs.len() ==> tabs[a] <= tabs[b]
}

/// The entries start in log order (those without a start time first).
pub open spec fn entries_in_order(entries: Seq<Option<i64>>) -> bool {
    forall|a: int, b: int| 0 <= a < b < entries.len() ==> start_le(entries[a], entries[b])
}

/// `tab` is the last of the tabs (in order) that an entry starting at
/// `time` is past; `None` where it is past none.
pub open spec fn is_last_tab_passed(tabs: Seq<i64>, time: Option<i64>, tab: Option<nat>) -> bool {
    match tab {
        Some(t) => t < tabs.len() && passes(tabs[t as int], time) && (t + 1 < tabs.len() ==> !passes(
            tabs[t + 1 as int],
            time,
        )),
        None => tabs.len() == 0 || !passes(tabs[0], time),
    }
}

/// Assigns each entry to a tab by walking entries and tabs together, both
/// by start time: an entry goes to the last tab passed so far, and a tab is
/// passed when it starts no later than the entry at hand. Entries before
/// the first tab, and entries without a start time before any tab was
/// passed, get `None`. For tabs and entries in order, each entry goes to the
/// last tab that starts no later than it; for others, the walk's result is
/// stated by [`assigned_tab`].
pub fn assign_entries_to_tabs(tab_starts: &Vec<i64>, entry_starts: &Vec<Option<i64>>) -> (assigned: Vec<Option<usize>>)
    ensures
        assigned@.len() == entry_starts@.len(),
        tabs_in_order(tab_starts@) && entries_in_order(entry_starts@) ==> forall|i: int|
            0 <= i < entry_starts@.len() ==> is_last_tab_passed(
                tab_starts@,
                entry_starts@[i],
                match #[trigger] assigned@[i] {
                    Some(t) => Some(t as nat),
                    None => None,
                },
            ),
        forall|i: int|
            0 <= i < entry_starts@.len() ==> match #[trigger] assigned@[i] {
                Some(t) => assigned_tab(tab_starts@, entry_starts@, i) == Some(t as nat),
                None => assigned_tab(tab_starts@, entry_starts@, i) is None,
            },
{
    let mut assigned: Vec<Option<usize>> = Vec::new();
    let mut cursor: usize = 0;
    let mut i: usize = 0;
    proof {
        assert(entry_starts@.take(0) =~= Seq::<Option<i64>>::empty());
    }
    while i < entry_starts.len()
        invariant
            i <= entry_starts@.len(),
            assigned@.len() == i,
            cursor == cursor_after(tab_starts@, entry_starts@.take(i as int)),
            cursor <= tab_starts@.len(),
            forall|j: int|
                0 <= j < i ==> match #[trigger] assigned@[j] {
                    Some(t) => assigned_tab(tab_starts@, entry_starts@, j) == Some(t as nat),
                    None => assigned_tab(tab_starts@, entry_starts@, j) is None,
                },
        decreases entry_starts@.len() - i,
    {
        proof {
            assert(entry_starts@.take(i + 1).drop_last() =~= entry_starts@.take(i as int));
            lemma_advance_bounds(tab_starts@, cursor as nat, entry_starts@[i as int]);
        }
        cursor = advance_exec(tab_starts, cursor, entry_starts[i]);
        if cursor == 0 {
            assigned.push(None);
        } else {
            assigned.push(Some(cursor - 1));
        }
        i = i + 1;
    }
    proof {
        if tabs_in_order(tab_starts@) && entries_in_order(entry_starts@) {
            assert forall|j: int| 0 <= j < entry_starts@.len() implies is_last_tab_passed(
                tab_starts@,
                entry_starts@[j],
                match #[trigger] assigned@[j] {
                    Some(t) => Some(t as nat),
                    None => None,
                },
            ) by {
                law_sorted_assignment(tab_starts@, entry_starts@, j);
            }
        }
    }
    assigned
}

/// The indices, in order, of the entries assigned to `tab` that are kept by
/// the state filter (`keep`).
pub fn entries_in_tab(assigned: &Vec<Option<usize>>, keep: &Vec<bool>, tab: Option<usize>) -> (entries: Vec<usize>)
    requires
        keep@.len() == assigned@.len(),
    ensures
        forall|k: int| 0 <= k < entries@.len() ==> {
            &&& #[trigger] entries@[k] < assigned@.len()
            &&& assigned@[entries@[k] as int] == tab
            &&& keep@[entries@[k] as int]
        },
        forall|k: int, l: int| 0 <= k < l < entries@.len() ==> entries@[k] < entries@[l],
        forall|j: int| 0 <= j < assigned@.len() && assigned@[j] == tab && keep@[j] ==> entries@.contains(j as usize),
{
    let mut entries: Vec<usize> = Vec::new();
    let mut j: usize = 0;
    while j < assigned.len()
        invariant
            keep@.len() == assigned@.len(),
            j <= assigned@.len(),
            forall|k: int| 0 <= k < entries@.len() ==> {
                &&& #[trigger] entries@[k] < j
                &&& assigned@[entries@[k] as int] == tab
                &&& keep@[entries@[k] as int]
            },
            forall|k: int, l: int| 0 <= k < l < entries@.len() ==> entries@[k] < entries@[l],
            forall|m: int| 0 <= m < j && assigned@[m] == tab && keep@[m] ==> entries@.contains(m as usize),
        decreases assigned@.len() - j,
    {
        let same_tab = match (assigned[j], tab) {
            (Some(a), Some(b)) => a == b,
            (None, None) => true,
            _ => false,
        };
        if same_tab && keep[j] {
            let ghost before = entries@;
            entries.push(j);
            proof {
                assert(entries@[entries@.len() - 1] == j);
                assert forall|k: int| 0 <= k < entries@.len() - 1 implies entries@[k] == before[k] by {}
                assert forall|k: int, l: int| 0 <= k < l < entries@.len() implies entries@[k] < entries@[l] by {
                    if l < entries@.len() - 1 {
                        assert(before[k] < before[l]);
                    } else {
                        assert(before[k] < j);
                    }
                }
                assert forall|m: int| 0 <= m < j + 1 && assigned@[m] == tab && keep@[m] implies entries@.contains(
                    m as usize,
                ) by {
                    if m < j {
                        let k = choose|k: int| 0 <= k < before.len() && before[k] == m as usize;
                        assert(entries@[k] == m as usize);
                    } else {
                        assert(entries@[entries@.len() - 1] == m as usize);
                    }
                }
            }
        }
        j = j + 1;
    }
    entries
}

/// Walking sorted entries through sorted tabs puts each entry in the last
/// tab that starts no later than the entry (none before the first tab, and
/// none for an entry without a start time).
pub proof fn law_sorted_assignment(tabs: Seq<i64>, entries: Seq<Option<i64>>, i: int)
    requires
        forall|a: int, b: int| 0 <= a < b < tabs.len() ==> tabs[a] <= tabs[b],
        forall|a: int, b: int| 0 <= a < b < entries.len() ==> start_le(entries[a], entries[b]),
        0 <= i < entries.len(),
    ensures
        match assigned_tab(tabs, entries, i) {
            Some(t) => t < tabs.len() && passes(tabs[t as int], entries[i]) && (t + 1 < tabs.len() ==> !passes(
                tabs[t + 1 as int],
                entries[i],
            )),
            None => tabs.len() == 0 || !passes(tabs[0], entries[i]),
        },
{
    lemma_cursor_sorted(tabs, entries.take(i + 1));
    assert(entries.take(i + 1).last() == entries[i]);
}

/// For sorted inputs, the cursor stands after exactly the tabs that start no
/// later than the last entry.
proof fn lemma_cursor_sorted(tabs: Seq<i64>, entries: Seq<Option<i64>>)
    requires
        forall|a: int, b: int| 0 <= a < b < tabs.len() ==> tabs[a] <= tabs[b],
        forall|a: int, b: int| 0 <= a < b < entries.len() ==> start_le(entries[a], entries[b]),
        entries.len() > 0,
    ensures
        cursor_after(tabs, entries) <= tabs.len(),
        forall|j: int| 0 <= j < cursor_after(tabs, entries) ==> passes(tabs[j], entries.last()),
        cursor_after(tabs, entries) < tabs.len() ==> !passes(tabs[cursor_after(tabs, entries) as int], entries.last()),
    decreases entries.len(),
{
    let d = entries.drop_last();
    let p = cursor_after(tabs, d);
    lemma_cursor_bounds(tabs, d);
    lemma_advance_bounds(tabs, p, entries.last());
    if d.len() > 0 {
        lemma_cursor_sorted(tabs, d);
        assert(d.last() == entries[entries.len() - 2]);
        assert forall|j: int| 0 <= j < p implies passes(tabs[j], entries.last()) by {
            assert(passes(tabs[j], d.last()));
            assert(start_le(entries[entries.len() - 2], entries[entries.len() - 1]));
        }
    }
}

/// A state filter lets a state through when it selects no state at all or
/// selects that one.
pub open spec fn filter_passes(filter: Seq<u8>, state: u8) -> bool {
    filter.len() == 0 || filter.contains(state)
}

/// An empty state filter lets every state through; a filter that selects
/// states lets a state through exactly when one of its selected states is
/// that state.
pub proof fn law_filter_selects(filter: Seq<u8>, state: u8)
    ensures
        filter.len() == 0 ==> filter_passes(filter, state),
        filter.len() > 0 ==> (filter_passes(filter, state) <==> exists|i: int|
            0 <= i < filter.len() && #[trigger] filter[i] == state),
{
}

/// A row is shown exactly when there is an entry whose video edit state is
/// selected by the edit filter (or that filter is empty) and whose video
/// processing state is selected by the processing filter (or that filter is
/// empty).
pub proof fn law_row_shown(entry: Option<EventLogEntry>, edit_filter: Seq<u8>, processing_filter: Seq<u8>)
    ensures
        (match entry {
            Some(e) => filter_passes(edit_filter, e.details.video_edit_state) && filter_passes(
                processing_filter,
                e.details.video_processing_state,
            ),
            None => false,
        }) <==> (entry is Some && (edit_filter.len() == 0 || exists|i: int|
            0 <= i < edit_filter.len() && #[trigger] edit_filter[i] == entry->0.details.video_edit_state) && (
        processing_filter.len() == 0 || exists|i: int|
            0 <= i < processing_filter.len() && #[trigger] processing_filter[i]
                == entry->0.details.video_processing_state)),
{
}

fn filter_passes_exec(filter: &Vec<u8>, state: u8) -> (passes: bool)
    ensures
        passes == filter_passes(filter@, state),
{
    if filter.len() == 0 {
        return true;
    }
    let mut i: usize = 0;
    while i < filter.len()
        invariant
            i <= filter@.len(),
            forall|j: int| 0 <= j < i ==> filter@[j] != state,
        decreases filter@.len() - i,
    {
        if filter[i] == state {
            proof {
                assert(filter@[i as int] == state);
            }
            return true;
        }
        i = i + 1;
    }
    false
}

/// Whether a row of the log is shown: there is an entry, and both the video
/// edit state filter and the video processing state filter let its states
/// through.
pub fn row_is_visible(entry: &Option<EventLogEntry>, edit_filter: &Vec<u8>, processing_filter: &Vec<u8>) -> (visible: bool)
    ensures
        visible == match *entry {
            Some(e) => filter_passes(edit_filter@, e.details.video_edit_state) && filter_passes(
                processing_filter@,
                e.details.video_processing_state,
            ),
            None => false,
        },
{
    match entry {
        Some(e) => filter_passes_exec(edit_filter, e.details.video_edit_state) && filter_passes_exec(
            processing_filter,
            e.details.video_processing_state,
        ),
        None => false,
    }
}

/// A filter of the log view lets an entry's video state through (`None` is
/// an entry without one) when it selects nothing or selects that state.
pub open spec fn state_filter_passes(filter: Seq<Option<u8>>, state: Option<u8>) -> bool {
    filter.len() == 0 || filter.contains(state)
}

/// The log view's filter lets every state through when it selects none, and
/// else exactly the states it selects.
pub proof fn law_state_filter_selects(filter: Seq<Option<u8>>, state: Option<u8>)
    ensures
        filter.len() == 0 ==> state_filter_passes(filter, state),
        filter.len() > 0 ==> (state_filter_passes(filter, state) <==> exists|i: int|
            0 <= i < filter.len() && #[trigger] filter[i] == state),
{
}

/// Which entries the log view's video state filter keeps, given the
/// entries' video states in log order: the flags to hand to
/// [`entries_in_tab`].
pub fn kept_by_state_filter(states: &Vec<Option<u8>>, filter: &Vec<Option<u8>>) -> (keep: Vec<bool>)
    ensures
        keep@.len() == states@.len(),
        forall|i: int| 0 <= i < states@.len() ==> keep@[i] == state_filter_passes(filter@, #[trigger] states@[i]),
{
    let mut keep: Vec<bool> = Vec::new();
    let mut i: usize = 0;
    while i < states.len()
        invariant
            i <= states@.len(),
            keep@.len() == i,
            forall|j: int| 0 <= j < i ==> keep@[j] == state_filter_passes(filter@, #[trigger] states@[j]),
        decreases states@.len() - i,
    {
        let state = states[i];
        let mut passes = filter.len() == 0;
        let mut k: usize = 0;
        while k < filter.len() && !passes
            invariant
                k <= filter@.len(),
                passes ==> state_filter_passes(filter@, state),
                !passes ==> filter@.len() > 0 && forall|m: int| 0 <= m < k ==> filter@[m] != state,
            decreases filter@.len() - k,
        {
            let same = match (filter[k], state) {
                (Some(a), Some(b)) => a == b,
                (None, None) => true,
                _ => false,
            };
            if same {
                proof {
                    assert(filter@[k as int] == state);
                }
                passes = true;
            }
            k = k + 1;
        }
        keep.push(passes);
        i = i + 1;
    }
    keep
}

/// The indices, in order, of the entries assigned to `tab` whose video state
/// (`states`, in log order) the log view's filter lets through: the list the
/// view shows for that tab.
pub fn filtered_entries_in_tab(
    assigned: &Vec<Option<usize>>,
    states: &Vec<Option<u8>>,
    filter: &Vec<Option<u8>>,
    tab: Option<usize>,
) -> (entries: Vec<usize>)
    requires
        states@.len() == assigned@.len(),
    ensures
        forall|k: int| 0 <= k < entries@.len() ==> {
            &&& #[trigger] entries@[k] < assigned@.len()
            &&& assigned@[entries@[k] as int] == tab
            &&& state_filter_passes(filter@, states@[entries@[k] as int])
        },
        forall|k: int, l: int| 0 <= k < l < entries@.len() ==> entries@[k] < entries@[l],
        forall|j: int|
            0 <= j < assigned@.len() && assigned@[j] == tab && state_filter_passes(filter@, states@[j])
                ==> entries@.contains(j as usize),
{
    let keep = kept_by_state_filter(states, filter);
    let entries = entries_in_tab(assigned, &keep, tab);
    proof {
        assert forall|k: int| 0 <= k < entries@.len() implies state_filter_passes(
            filter@,
            states@[entries@[k] as int],
        ) by {
            assert(keep@[entries@[k] as int]);
        }
        assert forall|j: int|
            0 <= j < assigned@.len() && assigned@[j] == tab && state_filter_passes(filter@, states@[j]) implies entries@.contains(
            j as usize,
        ) by {
            assert(keep@[j] == state_filter_passes(filter@, states@[j]));
        }
    }
    entries
}

} // verus!
