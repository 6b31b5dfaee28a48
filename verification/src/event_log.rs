use vstd::prelude::*;
use crate::name_checks::{NamedItem, NamedView};

verus! {

/// When an entry ends.
#[derive(Clone, Copy, Debug, PartialEq, Eq, Structural)]
pub enum EndTime {
    /// No end time was entered yet.
    NotEntered,
    /// The entry has no end time.
    NoTime,
    /// The entry ends at this time.
    Time(i64),
}

/// The parts of an entry that the log does not order it by. Video states
/// are given by codes, one per state.
#[derive(Clone, Debug)]
pub struct EntryDetails {
    pub end_time: EndTime,
    /// The id of the entry's type, if it has one.
    pub entry_type: Option<String>,
    pub description: String,
    pub media_links: Vec<String>,
    pub submitter_or_winner: String,
    /// The entry's tags, by id and name.
    pub tags: Vec<NamedItem>,
    pub video_edit_state: u8,
    pub video_processing_state: u8,
    pub poster_moment: bool,
    pub notes: String,
    /// The id of the editor assigned to the entry, if any.
    pub editor: Option<String>,
    pub missing_giveaway_information: bool,
}

/// What an [`EntryDetails`] holds.
pub struct DetailsView {
    pub end_time: EndTime,
    pub entry_type: Option<Seq<char>>,
    pub description: Seq<char>,
    pub media_links: Seq<Seq<char>>,
    pub submitter_or_winner: Seq<char>,
    pub tags: Seq<NamedView>,
    pub video_edit_state: u8,
    pub video_processing_state: u8,
    pub poster_moment: bool,
    pub notes: Seq<char>,
    pub editor: Option<Seq<char>>,
    pub missing_giveaway_information: bool,
}

/// The characters of an optional string.
pub open spec fn text_option(s: Option<String>) -> Option<Seq<char>> {
    match s {
        Some(t) => Some(t@),
        None => None,
    }
}

/// The characters of each string, in order.
pub open spec fn string_views(s: Seq<String>) -> Seq<Seq<char>> {
    s.map_values(|x: String| x@)
}

/// The views of a sequence of named items.
pub open spec fn item_views(s: Seq<NamedItem>) -> Seq<NamedView> {
    s.map_values(|x: NamedItem| x@)
}

impl View for EntryDetails {
    type V = DetailsView;

    open spec fn view(&self) -> DetailsView {
        DetailsView {
            end_time: self.end_time,
            entry_type: text_option(self.entry_type),
            description: self.description@,
            media_links: string_views(self.media_links@),
            submitter_or_winner: self.submitter_or_winner@,
            tags: item_views(self.tags@),
            video_edit_state: self.video_edit_state,
            video_processing_state: self.video_processing_state,
            poster_moment: self.poster_moment,
            notes: self.notes@,
            editor: text_option(self.editor),
            missing_giveaway_information: self.missing_giveaway_information,
        }
    }
}

fn same_text_option(a: &Option<String>, b: &Option<String>) -> (same: bool)
    ensures
        same == (text_option(*a) == text_option(*b)),
{
    match (a, b) {
        (Some(x), Some(y)) => {
            let same: bool = *x == *y;
            same
        },
        (None, None) => true,
        _ => false,
    }
}

fn same_strings(a: &Vec<String>, b: &Vec<String>) -> (same: bool)
    ensures
        same == (string_views(a@) == string_views(b@)),
{
    if a.len() != b.len() {
        proof {
            assert(string_views(a@).len() != string_views(b@).len());
        }
        return false;
    }
    let mut i: usize = 0;
    while i < a.len()
        invariant
            a@.len() == b@.len(),
            i <= a@.len(),
            forall|j: int| 0 <= j < i ==> a@[j]@ == b@[j]@,
        decreases a@.len() - i,
    {
        let same: bool = a[i] == b[i];
        if !same {
            proof {
                assert(string_views(a@)[i as int] != string_views(b@)[i as int]);
            }
            return false;
        }
        i = i + 1;
    }
    proof {
        assert(string_views(a@) =~= string_views(b@));
    }
    true
}

fn same_items(a: &Vec<NamedItem>, b: &Vec<NamedItem>) -> (same: bool)
    ensures
        same == (item_views(a@) == item_views(b@)),
{
    if a.len() != b.len() {
        proof {
            assert(item_views(a@).len() != item_views(b@).len());
        }
        return false;
    }
    let mut i: usize = 0;
    while i < a.len()
        invariant
            a@.len() == b@.len(),
            i <= a@.len(),
            forall|j: int| 0 <= j < i ==> a@[j]@ == b@[j]@,
        decreases a@.len() - i,
    {
        let same_id: bool = a[i].id == b[i].id;
        let same_name: bool = a[i].name == b[i].name;
        if !(same_id && same_name) {
            proof {
                assert(item_views(a@)[i as int] != item_views(b@)[i as int]);
            }
            return false;
        }
        i = i + 1;
    }
    proof {
        assert(item_views(a@) =~= item_views(b@));
    }
    true
}

fn copy_strings(a: &Vec<String>) -> (copy: Vec<String>)
    ensures
        string_views(copy@) == string_views(a@),
{
    let mut copy: Vec<String> = Vec::new();
    let mut i: usize = 0;
    while i < a.len()
        invariant
            i <= a@.len(),
            copy@.len() == i,
            forall|j: int| 0 <= j < i ==> copy@[j]@ == a@[j]@,
        decreases a@.len() - i,
    {
        copy.push(a[i].clone());
        i = i + 1;
    }
    proof {
        assert(string_views(copy@) =~= string_views(a@));
    }
    copy
}

fn copy_items(a: &Vec<NamedItem>) -> (copy: Vec<NamedItem>)
    ensures
        item_views(copy@) == item_views(a@),
{
    let mut copy: Vec<NamedItem> = Vec::new();
    let mut i: usize = 0;
    while i < a.len()
        invariant
            i <= a@.len(),
            copy@.len() == i,
            forall|j: int| 0 <= j < i ==> copy@[j]@ == a@[j]@,
        decreases a@.len() - i,
    {
        copy.push(a[i].duplicate());
        i = i + 1;
    }
    proof {
        assert(item_views(copy@) =~= item_views(a@));
    }
    copy
}

fn copy_text_option(a: &Option<String>) -> (copy: Option<String>)
    ensures
        text_option(copy) == text_option(*a),
{
    match a {
        Some(t) => Some(t.clone()),
        None => None,
    }
}

impl Default for EntryDetails {
    /// Nothing filled in: no end time entered, no type, no links, tags,
    /// editor or notes, the first video states, and no flags.
    fn default() -> (d: Self)
        ensures
            d@.end_time == EndTime::NotEntered,
            d@.entry_type is None,
            d@.description == Seq::<char>::empty(),
            d@.media_links == Seq::<Seq<char>>::empty(),
            d@.submitter_or_winner == Seq::<char>::empty(),
            d@.tags == Seq::<NamedView>::empty(),
            d@.video_edit_state == 0,
            d@.video_processing_state == 0,
            !d@.poster_moment,
            d@.notes == Seq::<char>::empty(),
            d@.editor is None,
            !d@.missing_giveaway_information,
    {
        let d = EntryDetails {
            end_time: EndTime::NotEntered,
            entry_type: None,
            description: String::new(),
            media_links: Vec::new(),
            submitter_or_winner: String::new(),
            tags: Vec::new(),
            video_edit_state: 0,
            video_processing_state: 0,
            poster_moment: false,
            notes: String::new(),
            editor: None,
            missing_giveaway_information: false,
        };
        proof {
            assert(string_views(d.media_links@) =~= Seq::<Seq<char>>::empty());
            assert(item_views(d.tags@) =~= Seq::<NamedView>::empty());
        }
        d
    }
}

impl EntryDetails {
    /// Whether the two hold the same parts.
    pub fn same_as(&self, other: &EntryDetails) -> (same: bool)
        ensures
            same == (self@ == other@),
    {
        self.end_time == other.end_time && same_text_option(&self.entry_type, &other.entry_type)
            && self.description == other.description && same_strings(&self.media_links, &other.media_links)
            && self.submitter_or_winner == other.submitter_or_winner && same_items(&self.tags, &other.tags)
            && self.video_edit_state == other.video_edit_state
            && self.video_processing_state == other.video_processing_state
            && self.poster_moment == other.poster_moment && self.notes == other.notes
            && same_text_option(&self.editor, &other.editor)
            && self.missing_giveaway_information == other.missing_giveaway_information
    }

    /// A copy of these parts.
    pub fn duplicate(&self) -> (copy: EntryDetails)
        ensures
            copy@ == self@,
    {
        EntryDetails {
            end_time: self.end_time,
            entry_type: copy_text_option(&self.entry_type),
            description: self.description.clone(),
            media_links: copy_strings(&self.media_links),
            submitter_or_winner: self.submitter_or_winner.clone(),
            tags: copy_items(&self.tags),
            video_edit_state: self.video_edit_state,
            video_processing_state: self.video_processing_state,
            poster_moment: self.poster_moment,
            notes: self.notes.clone(),
            editor: copy_text_option(&self.editor),
            missing_giveaway_information: self.missing_giveaway_information,
        }
    }
}

/// An entry of an event log. Times are timestamps, in one unit throughout,
/// ordered as the instants are.
#[derive(Clone, Debug)]
pub struct EventLogEntry {
    pub id: String,
    /// The id of the entry this one is a child of, if any.
    pub parent: Option<String>,
    pub start_time: Option<i64>,
    pub manual_sort_key: Option<i32>,
    pub created_at: i64,
    pub details: EntryDetails,
}

/// What an [`EventLogEntry`] holds.
pub struct EntryView {
    pub id: Seq<char>,
    pub parent: Option<Seq<char>>,
    pub start_time: Option<i64>,
    pub manual_sort_key: Option<i32>,
    pub created_at: i64,
    pub details: DetailsView,
}

impl View for EventLogEntry {
    type V = EntryView;

    open spec fn view(&self) -> EntryView {
        EntryView {
            id: self.id@,
            parent: match self.parent {
                Some(p) => Some(p@),
                None => None,
            },
            start_time: self.start_time,
            manual_sort_key: self.manual_sort_key,
            created_at: self.created_at,
            details: self.details@,
        }
    }
}

/// The views of a sequence of entries.
pub open spec fn entry_views(s: Seq<EventLogEntry>) -> Seq<EntryView> {
    s.map_values(|e: EventLogEntry| e@)
}

/// Start times are ordered with an absent time first.
pub open spec fn start_less(a: Option<i64>, b: Option<i64>) -> bool {
    match (a, b) {
        (None, Some(_)) => true,
        (Some(x), Some(y)) => x < y,
        _ => false,
    }
}

/// Manual sort keys are ordered with every present key before an absent one.
pub open spec fn sort_key_less(a: Option<i32>, b: Option<i32>) -> bool {
    match (a, b) {
        (Some(_), None) => true,
        (Some(x), Some(y)) => x < y,
        _ => false,
    }
}

/// Two entries are at the same place in the log.
pub open spec fn same_position(a: EntryView, b: EntryView) -> bool {
    a.start_time == b.start_time && a.manual_sort_key == b.manual_sort_key && a.created_at == b.created_at
}

/// `a` comes strictly before `b` in the log: by start time, then by manual
/// sort key, then by creation time.
pub open spec fn position_less(a: EntryView, b: EntryView) -> bool {
    ||| start_less(a.start_time, b.start_time)
    ||| a.start_time == b.start_time && sort_key_less(a.manual_sort_key, b.manual_sort_key)
    ||| a.start_time == b.start_time && a.manual_sort_key == b.manual_sort_key && a.created_at < b.created_at
}

/// `a` comes before `b` in the log, or at the same place.
pub open spec fn position_le(a: EntryView, b: EntryView) -> bool {
    position_less(a, b) || same_position(a, b)
}

/// The entries are in log order.
pub open spec fn log_sorted(s: Seq<EntryView>) -> bool {
    forall|i: int, j: int| 0 <= i < j < s.len() ==> position_le(s[i], s[j])
}

/// The entries are in order of start time.
pub open spec fn sorted_by_start(s: Seq<EntryView>) -> bool {
    forall|i: int, j: int| 0 <= i < j < s.len() ==> !start_less(s[j].start_time, s[i].start_time)
}

/// `i` is the place after every entry at or before `e` and before every entry after it.
pub open spec fn is_insertion_point(s: Seq<EntryView>, e: EntryView, i: int) -> bool {
    &&& 0 <= i <= s.len()
    &&& forall|j: int| 0 <= j < i ==> position_le(#[trigger] s[j], e)
    &&& forall|j: int| i <= j < s.len() ==> position_less(e, #[trigger] s[j])
}

/// Any two places in the log compare one way or the other.
pub proof fn lemma_position_total(a: EntryView, b: EntryView)
    ensures
        position_le(a, b) || position_less(b, a),
        !(position_le(a, b) && position_less(b, a)),
{
}

/// The log order is transitive.
pub proof fn lemma_position_trans(a: EntryView, b: EntryView, c: EntryView)
    ensures
        position_le(a, b) && position_le(b, c) ==> position_le(a, c),
        position_le(a, b) && position_less(b, c) ==> position_less(a, c),
        position_less(a, b) && position_le(b, c) ==> position_less(a, c),
{
}

/// Log order implies order of start time.
pub proof fn lemma_sorted_by_start(s: Seq<EntryView>)
    requires
        log_sorted(s),
    ensures
        sorted_by_start(s),
{
    assert forall|i: int, j: int| 0 <= i < j < s.len() implies !start_less(s[j].start_time, s[i].start_time) by {
        assert(position_le(s[i], s[j]));
    }
}

fn start_less_exec(a: Option<i64>, b: Option<i64>) -> (less: bool)
    ensures
        less == start_less(a, b),
{
    match (a, b) {
        (None, Some(_)) => true,
        (Some(x), Some(y)) => x < y,
        _ => false,
    }
}

fn sort_key_less_exec(a: Option<i32>, b: Option<i32>) -> (less: bool)
    ensures
        less == sort_key_less(a, b),
{
    match (a, b) {
        (Some(_), None) => true,
        (Some(x), Some(y)) => x < y,
        _ => false,
    }
}

fn option_i64_eq(a: Option<i64>, b: Option<i64>) -> (eq: bool)
    ensures
        eq == (a == b),
{
    match (a, b) {
        (None, None) => true,
        (Some(x), Some(y)) => x == y,
        _ => false,
    }
}

fn option_i32_eq(a: Option<i32>, b: Option<i32>) -> (eq: bool)
    ensures
        eq == (a == b),
{
    match (a, b) {
        (None, None) => true,
        (Some(x), Some(y)) => x == y,
        _ => false,
    }
}

impl EventLogEntry {
    /// Whether the two entries are at the same place in the log.
    pub fn same_position_as(&self, other: &EventLogEntry) -> (same: bool)
        ensures
            same == same_position(self@, other@),
    {
        option_i64_eq(self.start_time, other.start_time) && option_i32_eq(self.manual_sort_key, other.manual_sort_key)
            && self.created_at == other.created_at
    }

    /// Whether this entry comes before `other` in the log, or at the same place.
    pub fn position_le(&self, other: &EventLogEntry) -> (le: bool)
        ensures
            le == position_le(self@, other@),
    {
        if start_less_exec(self.start_time, other.start_time) {
            return true;
        }
        if !option_i64_eq(self.start_time, other.start_time) {
            return false;
        }
        if sort_key_less_exec(self.manual_sort_key, other.manual_sort_key) {
            return true;
        }
        if !option_i32_eq(self.manual_sort_key, other.manual_sort_key) {
            return false;
        }
        self.created_at <= other.created_at
    }

    /// Whether this entry has the given id.
    pub fn has_id(&self, id: &String) -> (has: bool)
        ensures
            has == (self.id@ == id@),
    {
        let same: bool = self.id == *id;
        same
    }

    /// A copy of this entry.
    pub fn duplicate(&self) -> (copy: EventLogEntry)
        ensures
            copy@ == self@,
    {
        EventLogEntry {
            id: self.id.clone(),
            parent: match &self.parent {
                Some(p) => Some(p.clone()),
                None => None,
            },
            start_time: self.start_time,
            manual_sort_key: self.manual_sort_key,
            created_at: self.created_at,
            details: self.details.duplicate(),
        }
    }
}

/// The index at which to insert `entry` into the log `entries`: after every
/// entry at or before its place, before every entry after it. On any list the
/// index is found by halving the range, and the entry just before it is at or
/// before the new entry's place while the entry at it comes after.
pub fn entry_insertion_index(entries: &[EventLogEntry], entry: &EventLogEntry) -> (index: usize)
    ensures
        index <= entries@.len(),
        is_local_insertion_point(entry_views(entries@), entry@, index as int),
        log_sorted(entry_views(entries@)) ==> is_insertion_point(entry_views(entries@), entry@, index as int),
        sorted_by_start(entry_views(entries@)) ==> is_start_insertion_point(
            entry_views(entries@),
            entry@,
            index as int,
        ),
{
    let ghost s = entry_views(entries@);
    let mut low: usize = 0;
    let mut high: usize = entries.len();
    while low < high
        invariant
            s == entry_views(entries@),
            low <= high <= entries@.len(),
            0 < low ==> position_le(s[low - 1], entry@),
            high < s.len() ==> position_less(entry@, s[high as int]),
            log_sorted(s) ==> forall|j: int| 0 <= j < low ==> position_le(#[trigger] s[j], entry@),
            log_sorted(s) ==> forall|j: int| high <= j < s.len() ==> position_less(entry@, #[trigger] s[j]),
            sorted_by_start(s) ==> forall|j: int| 0 <= j < low ==> !start_less(entry.start_time, #[trigger] s[j].start_time),
            sorted_by_start(s) ==> forall|j: int| high <= j < s.len() ==> !start_less(#[trigger] s[j].start_time, entry.start_time),
        decreases high - low,
    {
        let mid = low + (high - low) / 2;
        if entries[mid].position_le(entry) {
            proof {
                if log_sorted(s) {
                    assert forall|j: int| 0 <= j < mid + 1 implies position_le(#[trigger] s[j], entry@) by {
                        if j < mid {
                            assert(position_le(s[j], s[mid as int]));
                            lemma_position_trans(s[j], s[mid as int], entry@);
                        }
                    }
                }
            }
            proof {
                if sorted_by_start(s) {
                    assert forall|j: int| 0 <= j < mid + 1 implies !start_less(entry.start_time, #[trigger] s[j].start_time) by {
                        if j < mid {
                            assert(!start_less(s[mid as int].start_time, s[j].start_time));
                        }
                    }
                }
            }
            low = mid + 1;
        } else {
            proof {
                lemma_position_total(s[mid as int], entry@);
                if log_sorted(s) {
                    assert forall|j: int| mid <= j < s.len() implies position_less(entry@, #[trigger] s[j]) by {
                        if j > mid {
                            assert(position_le(s[mid as int], s[j]));
                            lemma_position_trans(entry@, s[mid as int], s[j]);
                        }
                    }
                }
            }
            proof {
                if sorted_by_start(s) {
                    assert forall|j: int| mid <= j < s.len() implies !start_less(#[trigger] s[j].start_time, entry.start_time) by {
                        if j > mid {
                            assert(!start_less(s[j].start_time, s[mid as int].start_time));
                        }
                    }
                }
            }
            high = mid;
        }
    }
    low
}

/// The entry just before place `i` is at or before the place of `e`, and the
/// entry at `i` comes after it.
pub open spec fn is_local_insertion_point(s: Seq<EntryView>, e: EntryView, i: int) -> bool {
    &&& 0 <= i <= s.len()
    &&& 0 < i ==> position_le(s[i - 1], e)
    &&& i < s.len() ==> position_less(e, s[i])
}

/// `i` is a place for `e` among entries in order of start time: after every
/// entry starting no later, before every entry starting no earlier.
pub open spec fn is_start_insertion_point(s: Seq<EntryView>, e: EntryView, i: int) -> bool {
    &&& 0 <= i <= s.len()
    &&& forall|j: int| 0 <= j < i ==> !start_less(e.start_time, #[trigger] s[j].start_time)
    &&& forall|j: int| i <= j < s.len() ==> !start_less(#[trigger] s[j].start_time, e.start_time)
}

/// Inserting an entry at a place for its start time keeps entries in order
/// of start time.
pub proof fn lemma_insert_start_sorted(s: Seq<EntryView>, e: EntryView, i: int)
    requires
        sorted_by_start(s),
        is_start_insertion_point(s, e, i),
    ensures
        sorted_by_start(s.insert(i, e)),
{
    let t = s.insert(i, e);
    assert forall|a: int, b: int| 0 <= a < b < t.len() implies !start_less(t[b].start_time, t[a].start_time) by {
        if b < i {
            assert(t[a] == s[a] && t[b] == s[b]);
        } else if b == i {
            assert(t[a] == s[a]);
        } else if a == i {
            assert(t[b] == s[b - 1]);
        } else if a < i {
            assert(t[a] == s[a] && t[b] == s[b - 1]);
        } else {
            assert(t[a] == s[a - 1] && t[b] == s[b - 1]);
        }
    }
}

/// Removing an entry keeps entries in order of start time.
pub proof fn lemma_remove_start_sorted(s: Seq<EntryView>, i: int)
    requires
        sorted_by_start(s),
        0 <= i < s.len(),
    ensures
        sorted_by_start(s.remove(i)),
{
    let t = s.remove(i);
    assert forall|a: int, b: int| 0 <= a < b < t.len() implies !start_less(t[b].start_time, t[a].start_time) by {
        if b < i {
            assert(t[a] == s[a] && t[b] == s[b]);
        } else if a < i {
            assert(t[a] == s[a] && t[b] == s[b + 1]);
        } else {
            assert(t[a] == s[a + 1] && t[b] == s[b + 1]);
        }
    }
}


/// Inserting an entry at its insertion point keeps a log in order.
pub proof fn lemma_insert_sorted(s: Seq<EntryView>, e: EntryView, i: int)
    requires
        log_sorted(s),
        is_insertion_point(s, e, i),
    ensures
        log_sorted(s.insert(i, e)),
{
    let t = s.insert(i, e);
    assert forall|a: int, b: int| 0 <= a < b < t.len() implies position_le(t[a], t[b]) by {
        if b < i {
            assert(t[a] == s[a] && t[b] == s[b]);
        } else if b == i {
            assert(t[a] == s[a]);
        } else if a == i {
            assert(t[b] == s[b - 1]);
        } else if a < i {
            assert(t[a] == s[a] && t[b] == s[b - 1]);
        } else {
            assert(t[a] == s[a - 1] && t[b] == s[b - 1]);
        }
    }
}

/// Removing an entry keeps a log in order.
pub proof fn lemma_remove_sorted(s: Seq<EntryView>, i: int)
    requires
        log_sorted(s),
        0 <= i < s.len(),
    ensures
        log_sorted(s.remove(i)),
{
    let t = s.remove(i);
    assert forall|a: int, b: int| 0 <= a < b < t.len() implies position_le(t[a], t[b]) by {
        if b < i {
            assert(t[a] == s[a] && t[b] == s[b]);
        } else if a < i {
            assert(t[a] == s[a] && t[b] == s[b + 1]);
        } else {
            assert(t[a] == s[a + 1] && t[b] == s[b + 1]);
        }
    }
}

/// `i` is the first index of an entry with the given id.
pub open spec fn is_first_with_id(s: Seq<EventLogEntry>, id: Seq<char>, i: int) -> bool {
    &&& 0 <= i < s.len()
    &&& s[i].id@ == id
    &&& forall|j: int| 0 <= j < i ==> s[j].id@ != id
}

/// No entry has the given id.
pub open spec fn has_no_id(s: Seq<EventLogEntry>, id: Seq<char>) -> bool {
    forall|j: int| 0 <= j < s.len() ==> s[j].id@ != id
}

/// Where the entry at `w` has the id, there is a first entry with it.
pub proof fn lemma_first_with_id_exists(s: Seq<EventLogEntry>, id: Seq<char>, w: int)
    requires
        0 <= w < s.len(),
        s[w].id@ == id,
    ensures
        exists|i: int| #[trigger] is_first_with_id(s, id, i),
    decreases w,
{
    if forall|j: int| 0 <= j < w ==> s[j].id@ != id {
        assert(is_first_with_id(s, id, w));
    } else {
        let v = choose|j: int| 0 <= j < w && s[j].id@ == id;
        lemma_first_with_id_exists(s, id, v);
    }
}

/// Finds the first entry with the given id.
pub fn find_entry(entries: &Vec<EventLogEntry>, id: &String) -> (found: Option<usize>)
    ensures
        match found {
            Some(i) => is_first_with_id(entries@, id@, i as int),
            None => has_no_id(entries@, id@),
        },
{
    let mut i: usize = 0;
    while i < entries.len()
        invariant
            i <= entries@.len(),
            forall|j: int| 0 <= j < i ==> entries@[j].id@ != id@,
        decreases entries@.len() - i,
    {
        if entries[i].has_id(id) {
            return Some(i);
        }
        i = i + 1;
    }
    None
}

proof fn lemma_views_insert(s: Seq<EventLogEntry>, i: int, e: EventLogEntry)
    requires
        0 <= i <= s.len(),
    ensures
        entry_views(s.insert(i, e)) == entry_views(s).insert(i, e@),
{
    assert(entry_views(s.insert(i, e)) =~= entry_views(s).insert(i, e@));
}

proof fn lemma_views_remove(s: Seq<EventLogEntry>, i: int)
    requires
        0 <= i < s.len(),
    ensures
        entry_views(s.remove(i)) == entry_views(s).remove(i),
{
    assert(entry_views(s.remove(i)) =~= entry_views(s).remove(i));
}

/// `after` is the log `before` with the newly created `entry` added: at the
/// end when it starts no earlier than the last entry (or the log is empty),
/// else just after an entry at or before its place and just before one
/// after it: its insertion point on a log in order. A log in order stays in
/// order of start time, and stays fully in order unless the new entry starts
/// with the last one but belongs before it. A log in order of start time
/// alone stays so.
pub open spec fn entry_added(before: Seq<EventLogEntry>, after: Seq<EventLogEntry>, entry: EventLogEntry) -> bool {
    &&& (before.len() == 0 || !start_less(entry.start_time, before.last().start_time)) ==> after == before.push(entry)
    &&& (before.len() > 0 && start_less(entry.start_time, before.last().start_time)) ==> exists|i: int|
        0 <= i <= before.len() && after == before.insert(i, entry) && is_local_insertion_point(
            entry_views(before),
            entry@,
            i,
        ) && (log_sorted(entry_views(before)) ==> is_insertion_point(entry_views(before), entry@, i))
    &&& sorted_by_start(entry_views(before)) ==> sorted_by_start(entry_views(after))
    &&& log_sorted(entry_views(before)) && (before.len() == 0 || position_le(before.last()@, entry@) || start_less(
        entry.start_time,
        before.last().start_time,
    )) ==> log_sorted(entry_views(after))
}

/// `after` is the log `before` without its first entry with the id `id`
/// (unchanged where there is none). A log in order stays in order, and one
/// in order of start time stays so.
pub open spec fn entry_deleted(before: Seq<EventLogEntry>, after: Seq<EventLogEntry>, id: Seq<char>) -> bool {
    &&& has_no_id(before, id) ==> after == before
    &&& forall|i: int| is_first_with_id(before, id, i) ==> after == before.remove(i)
    &&& log_sorted(entry_views(before)) ==> log_sorted(entry_views(after))
    &&& sorted_by_start(entry_views(before)) ==> sorted_by_start(entry_views(after))
}

/// `after` is the log `before` with `entry` updated: the first entry with
/// its id is replaced where it stands when its place in the log is
/// unchanged, else removed and `entry` inserted in the rest just after an
/// entry at or before its place and just before one after it (its
/// insertion point on a log in order); unchanged where no entry has that
/// id. A log in order stays in order, and one in order of start time stays
/// so.
pub open spec fn entry_updated(before: Seq<EventLogEntry>, after: Seq<EventLogEntry>, entry: EventLogEntry) -> bool {
    &&& has_no_id(before, entry.id@) ==> after == before
    &&& forall|i: int|
        is_first_with_id(before, entry.id@, i) && same_position(before[i]@, entry@) ==> after == before.update(i, entry)
    &&& forall|i: int|
        is_first_with_id(before, entry.id@, i) && !same_position(before[i]@, entry@) ==> exists|j: int|
            0 <= j < before.len() && after == before.remove(i).insert(j, entry) && is_local_insertion_point(
                entry_views(before.remove(i)),
                entry@,
                j,
            ) && (log_sorted(entry_views(before.remove(i))) ==> is_insertion_point(
                entry_views(before.remove(i)),
                entry@,
                j,
            ))
    &&& log_sorted(entry_views(before)) ==> log_sorted(entry_views(after))
    &&& sorted_by_start(entry_views(before)) ==> sorted_by_start(entry_views(after))
}

/// Adds a newly created entry to the log (see [`entry_added`]).
pub fn add_new_log_entry(entries: &mut Vec<EventLogEntry>, entry: EventLogEntry)
    ensures
        entry_added(old(entries)@, final(entries)@, entry),
{
    let ghost s = entries@;
    let ghost v = entry_views(s);
    let len = entries.len();
    if len == 0 || !start_less_exec(entry.start_time, entries[len - 1].start_time) {
        entries.push(entry);
        proof {
            assert(entry_views(entries@) =~= v.push(entry@));
            if sorted_by_start(v) {
                let t = v.push(entry@);
                assert forall|a: int, b: int| 0 <= a < b < t.len() implies !start_less(
                    t[b].start_time,
                    t[a].start_time,
                ) by {
                    if b < v.len() {
                        assert(t[a] == v[a] && t[b] == v[b]);
                    } else if a < v.len() - 1 {
                        assert(!start_less(v[v.len() - 1].start_time, v[a].start_time));
                    }
                }
            }
            if log_sorted(v) {
                let t = v.push(entry@);
                assert forall|a: int, b: int| 0 <= a < b < t.len() implies !start_less(
                    t[b].start_time,
                    t[a].start_time,
                ) by {
                    if b < v.len() {
                        assert(position_le(v[a], v[b]));
                    } else if a < v.len() - 1 {
                        assert(position_le(v[a], v[v.len() - 1]));
                    }
                }
                if len == 0 || position_le(s.last()@, entry@) {
                    assert forall|a: int, b: int| 0 <= a < b < t.len() implies position_le(t[a], t[b]) by {
                        if b < v.len() {
                        } else if a < v.len() - 1 {
                            assert(position_le(v[a], v[v.len() - 1]));
                            lemma_position_trans(v[a], v[v.len() - 1], entry@);
                        }
                    }
                }
            }
        }
    } else {
        let index = entry_insertion_index(entries.as_slice(), &entry);
        entries.insert(index, entry);
        proof {
            lemma_views_insert(s, index as int, entry);
            if log_sorted(v) {
                lemma_insert_sorted(v, entry@, index as int);
                lemma_sorted_by_start(entry_views(entries@));
            }
            if sorted_by_start(v) {
                lemma_insert_start_sorted(v, entry@, index as int);
            }
        }
    }
}

/// Removes the first entry with the given id, if there is one (see
/// [`entry_deleted`]).
pub fn delete_log_entry(entries: &mut Vec<EventLogEntry>, id: &String)
    ensures
        entry_deleted(old(entries)@, final(entries)@, id@),
{
    let ghost s = entries@;
    match find_entry(entries, id) {
        Some(i) => {
            entries.remove(i);
            proof {
                lemma_views_remove(s, i as int);
                if log_sorted(entry_views(s)) {
                    lemma_remove_sorted(entry_views(s), i as int);
                }
                if sorted_by_start(entry_views(s)) {
                    lemma_remove_start_sorted(entry_views(s), i as int);
                }
                assert forall|j: int| is_first_with_id(s, id@, j) implies entries@ == s.remove(j) by {
                    if j < i {
                        assert(s[j].id@ != id@);
                    } else if j > i {
                        assert(s[i as int].id@ != id@);
                    }
                }
            }
        },
        None => {},
    }
}

/// Applies an update of an entry (see [`entry_updated`]).
pub fn update_log_entry(entries: &mut Vec<EventLogEntry>, entry: EventLogEntry)
    ensures
        entry_updated(old(entries)@, final(entries)@, entry),
{
    let ghost s = entries@;
    let ghost v = entry_views(s);
    match find_entry(entries, &entry.id) {
        Some(i) => {
            proof {
                assert forall|j: int| is_first_with_id(s, entry.id@, j) implies j == i by {
                    if j < i {
                        assert(s[j].id@ != entry.id@);
                    } else if j > i {
                        assert(s[i as int].id@ != entry.id@);
                    }
                }
            }
            if entries[i].same_position_as(&entry) {
                entries.remove(i);
                entries.insert(i, entry);
                proof {
                    assert(entries@ =~= s.update(i as int, entry));
                    let t = entry_views(entries@);
                    assert(t =~= v.update(i as int, entry@));
                    if sorted_by_start(v) {
                        assert forall|a: int, b: int| 0 <= a < b < t.len() implies !start_less(
                            t[b].start_time,
                            t[a].start_time,
                        ) by {
                            assert(!start_less(v[b].start_time, v[a].start_time));
                        }
                    }
                    if log_sorted(v) {
                        assert forall|a: int, b: int| 0 <= a < b < t.len() implies position_le(t[a], t[b]) by {
                            assert(position_le(v[a], v[b]));
                            if a == i {
                                lemma_position_trans(entry@, v[a], v[b]);
                            }
                            if b == i {
                                lemma_position_trans(v[a], v[b], entry@);
                            }
                        }
                    }
                }
            } else {
                entries.remove(i);
                let ghost r = entries@;
                proof {
                    lemma_views_remove(s, i as int);
                    if log_sorted(v) {
                        lemma_remove_sorted(v, i as int);
                    }
                    if sorted_by_start(v) {
                        lemma_remove_start_sorted(v, i as int);
                    }
                }
                let index = entry_insertion_index(entries.as_slice(), &entry);
                entries.insert(index, entry);
                proof {
                    lemma_views_insert(r, index as int, entry);
                    if log_sorted(v) {
                        lemma_insert_sorted(entry_views(r), entry@, index as int);
                    }
                    if sorted_by_start(v) {
                        lemma_insert_start_sorted(entry_views(r), entry@, index as int);
                    }
                    assert(0 <= index < s.len() && entries@ == s.remove(i as int).insert(index as int, entry));
                }
            }
        },
        None => {},
    }
}


/// Deleting a newly added entry undoes the addition: where no entry had its
/// id before, the added entry is the first with that id wherever it went,
/// and removing it gives back the log as it was.
pub proof fn law_delete_undoes_add(s: Seq<EventLogEntry>, e: EventLogEntry, i: int)
    requires
        has_no_id(s, e.id@),
        0 <= i <= s.len(),
    ensures
        is_first_with_id(s.insert(i, e), e.id@, i),
        s.insert(i, e).remove(i) == s,
{
    let t = s.insert(i, e);
    assert forall|j: int| 0 <= j < i implies t[j].id@ != e.id@ by {
        assert(t[j] == s[j]);
    }
    assert(t.remove(i) =~= s);
}

/// After an update is applied, the updated entry is in the log, and the log
/// holds as many entries as before.
pub proof fn law_update_keeps_entry(s: Seq<EventLogEntry>, t: Seq<EventLogEntry>, e: EventLogEntry, i: int, j: int)
    requires
        is_first_with_id(s, e.id@, i),
        t == s.update(i, e) || (0 <= j < s.len() && t == s.remove(i).insert(j, e)),
    ensures
        t.contains(e),
        t.len() == s.len(),
{
    if t == s.update(i, e) {
        assert(t[i] == e);
    } else {
        assert(t[j] == e);
    }
}

} // verus!
