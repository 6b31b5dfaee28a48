use vstd::prelude::*;
use crate::event_log::{entry_views, find_entry, EntryView, EventLogEntry};

verus! {

/// The index of the first entry of `log` with the id `id`, if any.
pub open spec fn first_index_with_id(log: Seq<EntryView>, id: Seq<char>) -> Option<int> {
    if exists|i: int| 0 <= i < log.len() && log[i].id == id {
        Some(choose|i: int| 0 <= i < log.len() && log[i].id == id && forall|j: int| 0 <= j < i ==> log[j].id != id)
    } else {
        None
    }
}

/// The parent of `e` in `log`: the first entry with the id that `e` names as
/// its parent. `None` when `e` has no parent or the log holds no such entry.
pub open spec fn parent_in(log: Seq<EntryView>, e: EntryView) -> Option<EntryView> {
    match e.parent {
        Some(p) => match first_index_with_id(log, p) {
            Some(i) => Some(log[i]),
            None => None,
        },
        None => None,
    }
}

/// The entry reached from `e` by going to the parent `n` times, stopping
/// where there is no parent to go to.
pub open spec fn ancestor(log: Seq<EntryView>, e: EntryView, n: nat) -> EntryView
    decreases n,
{
    if n == 0 {
        e
    } else {
        match parent_in(log, e) {
            Some(p) => ancestor(log, p, (n - 1) as nat),
            None => e,
        }
    }
}

/// Going to the parent `n` times from `e` reaches an entry without a parent
/// in the log: the chain of parents from `e` ends.
pub open spec fn reaches_top(log: Seq<EntryView>, e: EntryView, n: nat) -> bool {
    parent_in(log, ancestor(log, e, n)) is None
}

/// The top-level entry above `e`, where the chain of parents from `e` ends.
pub open spec fn top_level_entry(log: Seq<EntryView>, e: EntryView) -> EntryView {
    ancestor(log, e, choose|n: nat| reaches_top(log, e, n))
}

/// The time at which an entry being edited is placed among the tabs: the
/// entered start time for a new or a top-level entry, else the start time of
/// the top-level entry above it.
pub open spec fn insert_position(log: Seq<EntryView>, editing: Option<EntryView>, entered: Option<i64>) -> Option<i64> {
    match editing {
        None => entered,
        Some(e) => if e.parent is None {
            entered
        } else {
            top_level_entry(log, e).start_time
        },
    }
}

/// One more step up from the `n`th ancestor is the `n + 1`th.
proof fn lemma_ancestor_step(log: Seq<EntryView>, e: EntryView, n: nat)
    ensures
        ancestor(log, e, n + 1) == match parent_in(log, ancestor(log, e, n)) {
            Some(p) => p,
            None => ancestor(log, e, n),
        },
    decreases n,
{
    reveal_with_fuel(ancestor, 2);
    if n > 0 {
        match parent_in(log, e) {
            Some(p) => lemma_ancestor_step(log, p, (n - 1) as nat),
            None => {},
        }
    }
}

/// Once the top is reached, further steps stay there.
proof fn lemma_top_stays(log: Seq<EntryView>, e: EntryView, n: nat, m: nat)
    requires
        reaches_top(log, e, n),
        n <= m,
    ensures
        ancestor(log, e, m) == ancestor(log, e, n),
        reaches_top(log, e, m),
    decreases m - n,
{
    if n < m {
        lemma_ancestor_step(log, e, n);
        lemma_top_stays(log, e, n + 1, m);
    }
}

/// The first entry of `entries` with the id `id` is the one
/// [`first_index_with_id`] names.
proof fn lemma_first_index(entries: Seq<EventLogEntry>, id: Seq<char>, i: int)
    requires
        0 <= i < entries.len(),
        entries[i].id@ == id,
        forall|j: int| 0 <= j < i ==> entries[j].id@ != id,
    ensures
        first_index_with_id(entry_views(entries), id) == Some(i),
{
    let log = entry_views(entries);
    assert(log[i].id == id);
    let k = choose|k: int| 0 <= k < log.len() && log[k].id == id && forall|j: int| 0 <= j < k ==> log[j].id != id;
    assert(0 <= k < log.len() && log[k].id == id && forall|j: int| 0 <= j < k ==> log[j].id != id);
    if k < i {
        assert(entries[k].id@ == log[k].id);
    }
    if i < k {
        assert(log[i].id == id);
    }
}

/// The time at which the entry being edited is placed among the tabs of the
/// log: the entered start time when no entry is being edited or the edited
/// entry is top-level; else the start time of the top-level entry found by
/// following parents through the log until an entry without a parent there.
/// The chain of parents must end: on a cycle of parents there is no top.
pub fn insert_position_time(
    entries: &Vec<EventLogEntry>,
    editing: &Option<EventLogEntry>,
    entered_start_time: Option<i64>,
) -> (time: Option<i64>)
    requires
        match editing {
            Some(e) => exists|n: nat| reaches_top(entry_views(entries@), e@, n),
            None => true,
        },
    ensures
        time == insert_position(
            entry_views(entries@),
            match editing {
                Some(e) => Some(e@),
                None => None,
            },
            entered_start_time,
        ),
{
    let editing_entry = match editing {
        Some(e) => e,
        None => {
            return entered_start_time;
        },
    };
    if editing_entry.parent.is_none() {
        return entered_start_time;
    }
    let ghost log = entry_views(entries@);
    let ghost start = editing_entry@;
    let ghost top_steps: nat = choose|n: nat| reaches_top(log, start, n);
    let mut current: EventLogEntry = editing_entry.duplicate();
    let ghost mut steps: nat = 0;
    loop
        invariant
            log == entry_views(entries@),
            reaches_top(log, start, top_steps),
            current@ == ancestor(log, start, steps),
            steps <= top_steps,
        ensures
            current@ == ancestor(log, start, steps),
            reaches_top(log, start, steps),
        decreases top_steps - steps,
    {
        let parent_id = match &current.parent {
            Some(p) => p,
            None => {
                break;
            },
        };
        match find_entry(entries, parent_id) {
            Some(i) => {
                proof {
                    lemma_first_index(entries@, parent_id@, i as int);
                    lemma_ancestor_step(log, start, steps);
                    if steps == top_steps {
                        assert(parent_in(log, current@) is Some);
                    }
                }
                current = entries[i].duplicate();
                proof {
                    steps = steps + 1;
                }
            },
            None => {
                proof {
                    if first_index_with_id(log, parent_id@) is Some {
                        let k = choose|k: int| 0 <= k < log.len() && log[k].id == parent_id@;
                        assert(entries@[k].id@ == log[k].id);
                    }
                }
                break;
            },
        }
    }
    proof {
        let chosen = choose|n: nat| reaches_top(log, start, n);
        if steps <= chosen {
            lemma_top_stays(log, start, steps, chosen);
        } else {
            lemma_top_stays(log, start, chosen, steps);
        }
    }
    current.start_time
}

} // verus!
