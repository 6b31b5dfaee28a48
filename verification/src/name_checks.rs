use vstd::prelude::*;
use crate::text::{chars_of, lemma_text_less_trans, text_less, text_less_exec};

verus! {

/// Something listed by name in a form: its id and its name (or title).
#[derive(Clone, Debug)]
pub struct NamedItem {
    pub id: String,
    pub name: String,
}

/// `i` is the last item named `name`: an index built by collecting the
/// items in order keeps that one.
pub open spec fn is_last_with_name(items: Seq<NamedItem>, name: Seq<char>, i: int) -> bool {
    &&& 0 <= i < items.len()
    &&& items[i].name@ == name
    &&& forall|j: int| i < j < items.len() ==> items[j].name@ != name
}

/// `i` is the first item named `name`.
pub open spec fn is_first_with_name(items: Seq<NamedItem>, name: Seq<char>, i: int) -> bool {
    &&& 0 <= i < items.len()
    &&& items[i].name@ == name
    &&& forall|j: int| 0 <= j < i ==> items[j].name@ != name
}

/// No item is named `name`.
pub open spec fn has_no_name(items: Seq<NamedItem>, name: Seq<char>) -> bool {
    forall|j: int| 0 <= j < items.len() ==> items[j].name@ != name
}

/// Finds the item a name index of `items` gives for `name`: the last item
/// with that name.
pub fn find_last_by_name(items: &Vec<NamedItem>, name: &String) -> (found: Option<usize>)
    ensures
        match found {
            Some(i) => is_last_with_name(items@, name@, i as int),
            None => has_no_name(items@, name@),
        },
{
    let mut k: usize = items.len();
    while k > 0
        invariant
            k <= items@.len(),
            forall|j: int| k <= j < items@.len() ==> items@[j].name@ != name@,
        decreases k,
    {
        let same: bool = items[k - 1].name == *name;
        if same {
            return Some(k - 1);
        }
        k = k - 1;
    }
    None
}

/// The event a form selects by the name entered, and the error it shows:
/// the last event with that name and no error; no event and no error for
/// an empty name; or no event and "No event has that name".
pub fn select_by_name(events: &Vec<NamedItem>, entered: &String) -> (selection: (Option<usize>, Option<&'static str>))
    ensures
        match selection.0 {
            Some(i) => is_last_with_name(events@, entered@, i as int) && selection.1 is None,
            None => has_no_name(events@, entered@) && (if entered@.len() == 0 {
                selection.1 is None
            } else {
                selection.1 matches Some(m) && m@ == "No event has that name"@
            }),
        },
{
    let found = find_last_by_name(events, entered);
    match found {
        Some(i) => (Some(i), None),
        None => {
            let empty: bool = entered.as_str().is_empty();
            if empty {
                (None, None)
            } else {
                (None, Some("No event has that name"))
            }
        },
    }
}

/// Finds the first item with the name `name`.
pub fn find_first_by_name(items: &Vec<NamedItem>, name: &String) -> (found: Option<usize>)
    ensures
        match found {
            Some(i) => is_first_with_name(items@, name@, i as int),
            None => has_no_name(items@, name@),
        },
{
    let mut k: usize = 0;
    while k < items.len()
        invariant
            k <= items@.len(),
            forall|j: int| 0 <= j < k ==> items@[j].name@ != name@,
        decreases items@.len() - k,
    {
        let same: bool = items[k].name == *name;
        if same {
            return Some(k);
        }
        k = k + 1;
    }
    None
}

/// How an entered name fares against the names already in use.
#[derive(Clone, Copy, Debug, PartialEq, Eq, Structural)]
pub enum NameCheck {
    /// Nothing was entered.
    Empty,
    /// Another one already has this name.
    InUse,
    /// The name can be taken.
    Available,
}

/// The characters of each string, in order.
pub open spec fn string_views(s: Seq<String>) -> Seq<Seq<char>> {
    s.map_values(|x: String| x@)
}

/// The check of a name entered for something new: empty, or already among
/// the names in use, or available.
pub open spec fn new_name_check(name: Seq<char>, used: Seq<Seq<char>>) -> NameCheck {
    if name.len() == 0 {
        NameCheck::Empty
    } else if used.contains(name) {
        NameCheck::InUse
    } else {
        NameCheck::Available
    }
}

/// Checks a name entered for something new (an entry type, an event, a
/// tag) against the names in use.
pub fn check_new_name(name: &String, used: &Vec<String>) -> (check: NameCheck)
    ensures
        check == new_name_check(name@, string_views(used@)),
{
    if name.as_str().is_empty() {
        proof {
            assert(name@.len() == 0) by {
                assert(name@ =~= Seq::<char>::empty());
            }
        }
        return NameCheck::Empty;
    }
    let mut k: usize = 0;
    while k < used.len()
        invariant
            name@.len() != 0,
            k <= used@.len(),
            forall|j: int| 0 <= j < k ==> used@[j]@ != name@,
        decreases used@.len() - k,
    {
        let same: bool = used[k] == *name;
        if same {
            proof {
                assert(string_views(used@)[k as int] == name@);
            }
            return NameCheck::InUse;
        }
        k = k + 1;
    }
    proof {
        if string_views(used@).contains(name@) {
            let j = choose|j: int| 0 <= j < string_views(used@).len() && string_views(used@)[j] == name@;
            assert(used@[j]@ == name@);
        }
    }
    NameCheck::Available
}

/// The check of a title entered for the page with id `page_id`: empty, or
/// the title of another page, or available.
pub open spec fn title_check(title: Seq<char>, pages: Seq<NamedItem>, page_id: Seq<char>) -> NameCheck {
    if title.len() == 0 {
        NameCheck::Empty
    } else if exists|j: int| 0 <= j < pages.len() && pages[j].name@ == title && pages[j].id@ != page_id {
        NameCheck::InUse
    } else {
        NameCheck::Available
    }
}

/// Checks the title entered for an info page against the titles of the
/// other pages of the event.
pub fn check_page_title(title: &String, pages: &Vec<NamedItem>, page_id: &String) -> (check: NameCheck)
    ensures
        check == title_check(title@, pages@, page_id@),
{
    if title.as_str().is_empty() {
        proof {
            assert(title@ =~= Seq::<char>::empty());
        }
        return NameCheck::Empty;
    }
    let mut k: usize = 0;
    while k < pages.len()
        invariant
            title@.len() != 0,
            k <= pages@.len(),
            forall|j: int| 0 <= j < k ==> !(pages@[j].name@ == title@ && pages@[j].id@ != page_id@),
        decreases pages@.len() - k,
    {
        let same_title: bool = pages[k].name == *title;
        let same_page: bool = pages[k].id == *page_id;
        if same_title && !same_page {
            proof {
                assert(pages@[k as int].name@ == title@ && pages@[k as int].id@ != page_id@);
            }
            return NameCheck::InUse;
        }
        k = k + 1;
    }
    NameCheck::Available
}

/// What is wrong with a tag about to be added to an event, if anything.
#[derive(Clone, Copy, Debug, PartialEq, Eq, Structural)]
pub enum NewTagCheck {
    EmptyName,
    NameHasComma,
    DuplicateName,
    EmptyDescription,
    Valid,
}

/// The checks on a new tag, in the order they are made: a name, without
/// commas, not the name of another tag of the event, and a description.
pub open spec fn new_tag_check(name: Seq<char>, description: Seq<char>, tags: Seq<NamedItem>) -> NewTagCheck {
    if name.len() == 0 {
        NewTagCheck::EmptyName
    } else if name.contains(',') {
        NewTagCheck::NameHasComma
    } else if !has_no_name(tags, name) {
        NewTagCheck::DuplicateName
    } else if description.len() == 0 {
        NewTagCheck::EmptyDescription
    } else {
        NewTagCheck::Valid
    }
}

impl NewTagCheck {
    /// The message shown for the check, empty for a valid tag.
    pub fn message(&self) -> (message: &'static str)
        ensures
            message@ == new_tag_message(*self),
    {
        match self {
            NewTagCheck::EmptyName => "Tag name cannot be empty",
            NewTagCheck::NameHasComma => "Tag name cannot contain commas",
            NewTagCheck::DuplicateName => "Tag name cannot be the same as another tag",
            NewTagCheck::EmptyDescription => "Description cannot be empty",
            NewTagCheck::Valid => "",
        }
    }
}

/// The message of each check on a new tag.
pub open spec fn new_tag_message(check: NewTagCheck) -> Seq<char> {
    match check {
        NewTagCheck::EmptyName => "Tag name cannot be empty"@,
        NewTagCheck::NameHasComma => "Tag name cannot contain commas"@,
        NewTagCheck::DuplicateName => "Tag name cannot be the same as another tag"@,
        NewTagCheck::EmptyDescription => "Description cannot be empty"@,
        NewTagCheck::Valid => ""@,
    }
}

fn has_comma(s: &String) -> (found: bool)
    ensures
        found == s@.contains(','),
{
    let chars = chars_of(s.as_str());
    let mut k: usize = 0;
    while k < chars.len()
        invariant
            chars@ == s@,
            k <= chars@.len(),
            forall|j: int| 0 <= j < k ==> chars@[j] != ',',
        decreases chars@.len() - k,
    {
        if chars[k] == ',' {
            proof {
                assert(s@[k as int] == ',');
            }
            return true;
        }
        k = k + 1;
    }
    false
}

/// Checks a tag about to be added to an event against the event's tags.
pub fn check_new_event_tag(name: &String, description: &String, tags: &Vec<NamedItem>) -> (check: NewTagCheck)
    ensures
        check == new_tag_check(name@, description@, tags@),
{
    if name.as_str().is_empty() {
        proof {
            assert(name@ =~= Seq::<char>::empty());
        }
        return NewTagCheck::EmptyName;
    }
    if has_comma(name) {
        return NewTagCheck::NameHasComma;
    }
    if find_last_by_name(tags, name).is_some() {
        return NewTagCheck::DuplicateName;
    }
    if description.as_str().is_empty() {
        proof {
            assert(description@ =~= Seq::<char>::empty());
        }
        return NewTagCheck::EmptyDescription;
    }
    NewTagCheck::Valid
}

/// How the name entered to replace a tag with another fares.
#[derive(Clone, Copy, Debug, PartialEq, Eq, Structural)]
pub enum ReplacementCheck {
    /// Nothing was entered: no replacement, and no error to show.
    NotEntered,
    /// No tag has the name.
    Unknown,
    /// The name is that of the tag being replaced.
    SameTag,
    /// Replace with the tag at this index.
    Replace(usize),
}

/// The check of a replacement name for the tag with id `tag_id`, looking
/// the name up as the event's name index does (the last tag with it).
pub open spec fn replacement_check(entered: Seq<char>, tags: Seq<NamedItem>, tag_id: Seq<char>) -> ReplacementCheck {
    if entered.len() == 0 {
        ReplacementCheck::NotEntered
    } else if has_no_name(tags, entered) {
        ReplacementCheck::Unknown
    } else {
        let i = choose|i: int| is_last_with_name(tags, entered, i);
        if tags[i].id@ == tag_id {
            ReplacementCheck::SameTag
        } else {
            ReplacementCheck::Replace(i as usize)
        }
    }
}

/// The last item with a name is unique.
proof fn lemma_last_unique(items: Seq<NamedItem>, name: Seq<char>, i: int, k: int)
    requires
        is_last_with_name(items, name, i),
        is_last_with_name(items, name, k),
    ensures
        i == k,
{
}

impl ReplacementCheck {
    /// The message shown for the check, empty where there is no error.
    pub fn message(&self) -> (message: &'static str)
        ensures
            message@ == match *self {
                ReplacementCheck::Unknown => "Replacement tag must exist"@,
                ReplacementCheck::SameTag => "Cannot replace a tag with itself"@,
                _ => ""@,
            },
    {
        match self {
            ReplacementCheck::Unknown => "Replacement tag must exist",
            ReplacementCheck::SameTag => "Cannot replace a tag with itself",
            _ => "",
        }
    }
}

/// Checks the name entered to replace the tag with id `tag_id` by another
/// tag of the event.
pub fn check_tag_replacement(entered: &String, tags: &Vec<NamedItem>, tag_id: &String) -> (check: ReplacementCheck)
    ensures
        check == replacement_check(entered@, tags@, tag_id@),
{
    if entered.as_str().is_empty() {
        proof {
            assert(entered@ =~= Seq::<char>::empty());
        }
        return ReplacementCheck::NotEntered;
    }
    match find_last_by_name(tags, entered) {
        None => ReplacementCheck::Unknown,
        Some(i) => {
            proof {
                let k = choose|k: int| is_last_with_name(tags@, entered@, k);
                lemma_last_unique(tags@, entered@, i as int, k);
            }
            let same: bool = tags[i].id == *tag_id;
            if same {
                ReplacementCheck::SameTag
            } else {
                ReplacementCheck::Replace(i)
            }
        },
    }
}

/// What a [`NamedItem`] holds.
pub struct NamedView {
    pub id: Seq<char>,
    pub name: Seq<char>,
}

impl View for NamedItem {
    type V = NamedView;

    open spec fn view(&self) -> NamedView {
        NamedView { id: self.id@, name: self.name@ }
    }
}

/// The views of a sequence of named items.
pub open spec fn named_views(s: Seq<NamedItem>) -> Seq<NamedView> {
    s.map_values(|x: NamedItem| x@)
}

/// `out` is `items` stably sorted by name: item `i` of `out` is item
/// `origin[i]` of `items`, each item taken once, names in order, and items
/// of equal names in their order in `items`.
pub open spec fn stably_sorted_by_name(items: Seq<NamedView>, out: Seq<NamedView>, origin: Seq<int>) -> bool {
    &&& out.len() == items.len()
    &&& origin.len() == items.len()
    &&& forall|i: int| 0 <= i < out.len() ==> 0 <= #[trigger] origin[i] < items.len() && out[i] == items[origin[i]]
    &&& forall|i: int, j: int| 0 <= i < origin.len() && 0 <= j < origin.len() && i != j ==> origin[i] != origin[j]
    &&& forall|i: int, j: int| 0 <= i < j < out.len() ==> !text_less(out[j].name, out[i].name)
    &&& forall|i: int, j: int| 0 <= i < j < out.len() && out[i].name == out[j].name ==> origin[i] < origin[j]
}

/// No text comes strictly before itself.
proof fn lemma_text_irreflexive(a: Seq<char>)
    ensures
        !text_less(a, a),
    decreases a.len(),
{
    if a.len() > 0 {
        lemma_text_irreflexive(a.drop_first());
    }
}

impl NamedItem {
    /// A copy of this item.
    pub fn duplicate(&self) -> (copy: NamedItem)
        ensures
            copy@ == self@,
    {
        NamedItem { id: self.id.clone(), name: self.name.clone() }
    }
}

/// Sorts items by name, keeping items of equal names in their order (as a
/// stable sort on the names does).
pub fn sort_by_name(items: &Vec<NamedItem>) -> (sorted: Vec<NamedItem>)
    ensures
        exists|origin: Seq<int>| stably_sorted_by_name(named_views(items@), named_views(sorted@), origin),
{
    let ghost src = named_views(items@);
    let mut sorted: Vec<NamedItem> = Vec::new();
    let ghost mut origin: Seq<int> = Seq::empty();
    let mut k: usize = 0;
    while k < items.len()
        invariant
            src == named_views(items@),
            k <= items@.len(),
            sorted@.len() == k,
            origin.len() == k,
            forall|i: int| 0 <= i < k ==> 0 <= #[trigger] origin[i] < k && named_views(sorted@)[i] == src[origin[i]],
            forall|i: int, j: int| 0 <= i < k && 0 <= j < k && i != j ==> origin[i] != origin[j],
            forall|i: int, j: int| 0 <= i < j < k ==> !text_less(
                named_views(sorted@)[j].name,
                named_views(sorted@)[i].name,
            ),
            forall|i: int, j: int| 0 <= i < j < k && named_views(sorted@)[i].name == named_views(sorted@)[j].name
                ==> origin[i] < origin[j],
        decreases items@.len() - k,
    {
        let item = items[k].duplicate();
        let mut p: usize = 0;
        while p < sorted.len() && !text_less_exec(item.name.as_str(), sorted[p].name.as_str())
            invariant
                p <= sorted@.len(),
                forall|i: int| 0 <= i < p ==> !text_less(item@.name, #[trigger] sorted@[i]@.name),
            decreases sorted@.len() - p,
        {
            p = p + 1;
        }
        let ghost v = named_views(sorted@);
        let ghost x = item@;
        let ghost o = origin;
        proof {
            assert(x == src[k as int]);
            if p < v.len() {
                assert(text_less(x.name, v[p as int].name));
            }
            assert forall|i: int| 0 <= i < p implies !text_less(x.name, #[trigger] v[i].name) by {
                assert(v[i] == sorted@[i]@);
            }
        }
        sorted.insert(p, item);
        proof {
            origin = o.insert(p as int, k as int);
            let w = named_views(sorted@);
            assert(w =~= v.insert(p as int, x));
            assert forall|i: int| 0 <= i < k + 1 implies 0 <= #[trigger] origin[i] < k + 1 && w[i] == src[origin[i]] by {
                if i < p {
                    assert(origin[i] == o[i] && w[i] == v[i]);
                } else if i > p {
                    assert(origin[i] == o[i - 1] && w[i] == v[i - 1]);
                }
            }
            assert forall|i: int, j: int| 0 <= i < k + 1 && 0 <= j < k + 1 && i != j implies origin[i] != origin[j] by {
                if i != p && j != p {
                    let a = if i < p { i } else { i - 1 };
                    let b = if j < p { j } else { j - 1 };
                    assert(o[a] != o[b]);
                } else if i == p {
                    let b = if j < p { j } else { j - 1 };
                    assert(o[b] < k);
                } else {
                    let a = if i < p { i } else { i - 1 };
                    assert(o[a] < k);
                }
            }
            assert forall|i: int, j: int| 0 <= i < j < k + 1 implies !text_less(w[j].name, w[i].name) by {
                if i < p && j == p {
                    assert(!text_less(x.name, v[i].name));
                } else if i == p && j > p {
                    if text_less(w[j].name, x.name) {
                        lemma_text_less_trans(w[j].name, x.name, v[p as int].name);
                        if j - 1 == p {
                            lemma_text_irreflexive(v[p as int].name);
                        } else {
                            assert(!text_less(v[j - 1].name, v[p as int].name));
                        }
                    }
                } else if i < p && j > p {
                    assert(!text_less(v[j - 1].name, v[i].name));
                } else if i > p {
                    assert(!text_less(v[j - 1].name, v[i - 1].name));
                } else {
                    assert(!text_less(v[j].name, v[i].name));
                }
            }
            assert forall|i: int, j: int| 0 <= i < j < k + 1 && w[i].name == w[j].name implies origin[i] < origin[j] by {
                if i < p && j == p {
                    assert(o[i] < k);
                } else if i == p && j > p {
                    assert(text_less(x.name, v[p as int].name));
                    if j - 1 == p {
                        lemma_text_irreflexive(x.name);
                    } else {
                        assert(!text_less(v[j - 1].name, v[p as int].name));
                    }
                } else if i < p && j > p {
                    assert(o[i] < o[j - 1]);
                } else if i > p {
                    assert(o[i - 1] < o[j - 1]);
                } else {
                    assert(o[i] < o[j]);
                }
            }
        }
        k = k + 1;
    }
    proof {
        assert(stably_sorted_by_name(src, named_views(sorted@), origin));
    }
    sorted
}

} // verus!
