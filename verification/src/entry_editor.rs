use vstd::prelude::*;
use crate::event_log::{item_views, string_views, text_option, DetailsView, EndTime, EntryDetails, EntryView, EventLogEntry};
use crate::name_checks::{find_last_by_name, has_no_name, NamedItem, NamedView};

verus! {

/// A part of a log entry that the editor changed.
#[derive(Clone, Copy, Debug, PartialEq, Eq, Structural)]
pub enum EditedPart {
    StartTime,
    EndTime,
    EntryType,
    Description,
    MediaLinks,
    SubmitterOrWinner,
    Tags,
    VideoEditState,
    PosterMoment,
    Notes,
    Editor,
    MissingGiveawayInfo,
    SortKey,
    Parent,
}

/// The editor's values for each part of an entry.
pub struct EditorValues {
    pub start_time: Option<i64>,
    pub end_time: EndTime,
    pub entry_type: Option<String>,
    pub description: String,
    /// The media links as entered, empty ones included.
    pub media_links: Vec<String>,
    pub submitter_or_winner: String,
    /// The tags as entered, those with empty names included.
    pub tags: Vec<NamedItem>,
    pub video_edit_state: u8,
    pub poster_moment: bool,
    pub notes: String,
    pub editor: Option<String>,
    pub missing_giveaway_information: bool,
    pub manual_sort_key: Option<i32>,
    /// The id of the parent entry chosen in the editor, if any.
    pub parent: Option<String>,
}

/// The tags of `s` with a name, in order.
pub open spec fn named_tags(s: Seq<NamedView>) -> Seq<NamedView>
    decreases s.len(),
{
    if s.len() == 0 {
        Seq::empty()
    } else {
        let rest = named_tags(s.drop_last());
        if s.last().name.len() > 0 {
            rest.push(s.last())
        } else {
            rest
        }
    }
}

/// The parts other than order to save: `d` with each part the editor
/// changed taken from the editor's values (media links without the empty
/// ones, tags without those with empty names), and everything else kept.
pub open spec fn details_to_save(d: DetailsView, modified: Seq<EditedPart>, values: EditorValues) -> DetailsView {
    DetailsView {
        end_time: if modified.contains(EditedPart::EndTime) { values.end_time } else { d.end_time },
        entry_type: if modified.contains(EditedPart::EntryType) { text_option(values.entry_type) } else { d.entry_type },
        description: if modified.contains(EditedPart::Description) { values.description@ } else { d.description },
        media_links: if modified.contains(EditedPart::MediaLinks) {
            texts_where(string_views(values.media_links@), |t: Seq<char>| t.len() > 0)
        } else {
            d.media_links
        },
        submitter_or_winner: if modified.contains(EditedPart::SubmitterOrWinner) {
            values.submitter_or_winner@
        } else {
            d.submitter_or_winner
        },
        tags: if modified.contains(EditedPart::Tags) { named_tags(item_views(values.tags@)) } else { d.tags },
        video_edit_state: if modified.contains(EditedPart::VideoEditState) {
            values.video_edit_state
        } else {
            d.video_edit_state
        },
        poster_moment: if modified.contains(EditedPart::PosterMoment) { values.poster_moment } else { d.poster_moment },
        notes: if modified.contains(EditedPart::Notes) { values.notes@ } else { d.notes },
        editor: if modified.contains(EditedPart::Editor) { text_option(values.editor) } else { d.editor },
        missing_giveaway_information: if modified.contains(EditedPart::MissingGiveawayInfo) {
            values.missing_giveaway_information
        } else {
            d.missing_giveaway_information
        },
        ..d
    }
}

/// The entry to save: `entry` with each part the editor changed taken from
/// the editor's values (see [`details_to_save`] for the parts other than
/// order), and everything else kept.
pub open spec fn entry_to_save(entry: EntryView, modified: Seq<EditedPart>, values: EditorValues) -> EntryView {
    EntryView {
        start_time: if modified.contains(EditedPart::StartTime) { values.start_time } else { entry.start_time },
        manual_sort_key: if modified.contains(EditedPart::SortKey) { values.manual_sort_key } else { entry.manual_sort_key },
        parent: if modified.contains(EditedPart::Parent) { text_option(values.parent) } else { entry.parent },
        details: details_to_save(entry.details, modified, values),
        ..entry
    }
}

/// Saving the editor keeps the entry's id, creation time and video
/// processing state, whatever changed; and with no part changed it sends the
/// entry as it was.
pub proof fn law_save_changes_only_modified(entry: EntryView, modified: Seq<EditedPart>, values: EditorValues)
    ensures
        entry_to_save(entry, modified, values).id == entry.id,
        entry_to_save(entry, modified, values).created_at == entry.created_at,
        entry_to_save(entry, modified, values).details.video_processing_state
            == entry.details.video_processing_state,
        modified.len() == 0 ==> entry_to_save(entry, modified, values) == entry,
{
    if modified.len() == 0 {
        assert(forall|p: EditedPart| !modified.contains(p));
    }
}

/// Each part of the saved entry is the editor's value for that part when the
/// part is among the changed ones, and the entry's own value otherwise.
pub proof fn law_saved_parts(entry: EntryView, modified: Seq<EditedPart>, values: EditorValues)
    ensures
        modified.contains(EditedPart::StartTime) ==> entry_to_save(entry, modified, values).start_time == values.start_time,
        !modified.contains(EditedPart::StartTime) ==> entry_to_save(entry, modified, values).start_time == entry.start_time,
        modified.contains(EditedPart::SortKey) ==> entry_to_save(entry, modified, values).manual_sort_key == values.manual_sort_key,
        !modified.contains(EditedPart::SortKey) ==> entry_to_save(entry, modified, values).manual_sort_key == entry.manual_sort_key,
        modified.contains(EditedPart::Parent) ==> entry_to_save(entry, modified, values).parent == text_option(values.parent),
        !modified.contains(EditedPart::Parent) ==> entry_to_save(entry, modified, values).parent == entry.parent,
        modified.contains(EditedPart::EndTime) ==> entry_to_save(entry, modified, values).details.end_time == values.end_time,
        !modified.contains(EditedPart::EndTime) ==> entry_to_save(entry, modified, values).details.end_time == entry.details.end_time,
        modified.contains(EditedPart::EntryType) ==> entry_to_save(entry, modified, values).details.entry_type == text_option(values.entry_type),
        !modified.contains(EditedPart::EntryType) ==> entry_to_save(entry, modified, values).details.entry_type == entry.details.entry_type,
        modified.contains(EditedPart::Description) ==> entry_to_save(entry, modified, values).details.description == values.description@,
        !modified.contains(EditedPart::Description) ==> entry_to_save(entry, modified, values).details.description == entry.details.description,
        modified.contains(EditedPart::SubmitterOrWinner) ==> entry_to_save(entry, modified, values).details.submitter_or_winner == values.submitter_or_winner@,
        !modified.contains(EditedPart::SubmitterOrWinner) ==> entry_to_save(entry, modified, values).details.submitter_or_winner == entry.details.submitter_or_winner,
        modified.contains(EditedPart::VideoEditState) ==> entry_to_save(entry, modified, values).details.video_edit_state == values.video_edit_state,
        !modified.contains(EditedPart::VideoEditState) ==> entry_to_save(entry, modified, values).details.video_edit_state == entry.details.video_edit_state,
        modified.contains(EditedPart::PosterMoment) ==> entry_to_save(entry, modified, values).details.poster_moment == values.poster_moment,
        !modified.contains(EditedPart::PosterMoment) ==> entry_to_save(entry, modified, values).details.poster_moment == entry.details.poster_moment,
        modified.contains(EditedPart::Notes) ==> entry_to_save(entry, modified, values).details.notes == values.notes@,
        !modified.contains(EditedPart::Notes) ==> entry_to_save(entry, modified, values).details.notes == entry.details.notes,
        modified.contains(EditedPart::Editor) ==> entry_to_save(entry, modified, values).details.editor == text_option(values.editor),
        !modified.contains(EditedPart::Editor) ==> entry_to_save(entry, modified, values).details.editor == entry.details.editor,
        modified.contains(EditedPart::MissingGiveawayInfo) ==> entry_to_save(entry, modified, values).details.missing_giveaway_information == values.missing_giveaway_information,
        !modified.contains(EditedPart::MissingGiveawayInfo) ==> entry_to_save(entry, modified, values).details.missing_giveaway_information == entry.details.missing_giveaway_information,
        !modified.contains(EditedPart::MediaLinks) ==> entry_to_save(entry, modified, values).details.media_links
            == entry.details.media_links,
        !modified.contains(EditedPart::Tags) ==> entry_to_save(entry, modified, values).details.tags == entry.details.tags,
{
}

/// When the media links changed, the saved links are the non-empty links
/// entered: each saved link is non-empty and was entered, each non-empty
/// link entered is saved, and none is added.
pub proof fn law_saved_links(entry: EntryView, modified: Seq<EditedPart>, values: EditorValues)
    requires
        modified.contains(EditedPart::MediaLinks),
    ensures
        ({
            let saved = entry_to_save(entry, modified, values).details.media_links;
            let entered = string_views(values.media_links@);
            &&& saved.len() <= entered.len()
            &&& forall|k: int| 0 <= k < saved.len() ==> saved[k].len() > 0 && entered.contains(#[trigger] saved[k])
            &&& forall|j: int| 0 <= j < entered.len() && entered[j].len() > 0 ==> saved.contains(#[trigger] entered[j])
        }),
{
    lemma_nonempty_texts(string_views(values.media_links@));
}

/// When the tags changed, the saved tags are the named tags entered: each
/// saved tag has a name and was entered, each named tag entered is saved,
/// and none is added.
pub proof fn law_saved_tags(entry: EntryView, modified: Seq<EditedPart>, values: EditorValues)
    requires
        modified.contains(EditedPart::Tags),
    ensures
        ({
            let saved = entry_to_save(entry, modified, values).details.tags;
            let entered = item_views(values.tags@);
            &&& saved.len() <= entered.len()
            &&& forall|k: int| 0 <= k < saved.len() ==> saved[k].name.len() > 0 && entered.contains(#[trigger] saved[k])
            &&& forall|j: int| 0 <= j < entered.len() && entered[j].name.len() > 0 ==> saved.contains(#[trigger] entered[j])
        }),
{
    lemma_named_tags(item_views(values.tags@));
}

proof fn lemma_nonempty_texts(s: Seq<Seq<char>>)
    ensures
        ({
            let t = texts_where(s, |x: Seq<char>| x.len() > 0);
            &&& t.len() <= s.len()
            &&& forall|k: int| 0 <= k < t.len() ==> t[k].len() > 0 && s.contains(#[trigger] t[k])
            &&& forall|j: int| 0 <= j < s.len() && s[j].len() > 0 ==> t.contains(#[trigger] s[j])
        }),
    decreases s.len(),
{
    if s.len() > 0 {
        let f = |x: Seq<char>| x.len() > 0;
        let r = s.drop_last();
        lemma_nonempty_texts(r);
        let tr = texts_where(r, f);
        let t = texts_where(s, f);
        assert forall|k: int| 0 <= k < t.len() implies t[k].len() > 0 && s.contains(#[trigger] t[k]) by {
            if k < tr.len() {
                assert(t[k] == tr[k]);
                let m = choose|m: int| 0 <= m < r.len() && r[m] == tr[k];
                assert(s[m] == r[m]);
            } else {
                assert(t[k] == s.last());
                assert(s[s.len() - 1] == s.last());
            }
        }
        assert forall|j: int| 0 <= j < s.len() && s[j].len() > 0 implies t.contains(#[trigger] s[j]) by {
            if j < r.len() {
                assert(r[j] == s[j]);
                assert(tr.contains(r[j]));
                let m = choose|m: int| 0 <= m < tr.len() && tr[m] == r[j];
                assert(t[m] == tr[m]);
            } else {
                assert(t[t.len() - 1] == s.last());
            }
        }
    }
}

proof fn lemma_named_tags(s: Seq<NamedView>)
    ensures
        ({
            let t = named_tags(s);
            &&& t.len() <= s.len()
            &&& forall|k: int| 0 <= k < t.len() ==> t[k].name.len() > 0 && s.contains(#[trigger] t[k])
            &&& forall|j: int| 0 <= j < s.len() && s[j].name.len() > 0 ==> t.contains(#[trigger] s[j])
        }),
    decreases s.len(),
{
    if s.len() > 0 {
        let r = s.drop_last();
        lemma_named_tags(r);
        let tr = named_tags(r);
        let t = named_tags(s);
        assert forall|k: int| 0 <= k < t.len() implies t[k].name.len() > 0 && s.contains(#[trigger] t[k]) by {
            if k < tr.len() {
                assert(t[k] == tr[k]);
                let m = choose|m: int| 0 <= m < r.len() && r[m] == tr[k];
                assert(s[m] == r[m]);
            } else {
                assert(t[k] == s.last());
                assert(s[s.len() - 1] == s.last());
            }
        }
        assert forall|j: int| 0 <= j < s.len() && s[j].name.len() > 0 implies t.contains(#[trigger] s[j]) by {
            if j < r.len() {
                assert(r[j] == s[j]);
                assert(tr.contains(r[j]));
                let m = choose|m: int| 0 <= m < tr.len() && tr[m] == r[j];
                assert(t[m] == tr[m]);
            } else {
                assert(t[t.len() - 1] == s.last());
            }
        }
    }
}

fn has_part(modified: &Vec<EditedPart>, part: EditedPart) -> (found: bool)
    ensures
        found == modified@.contains(part),
{
    let mut i: usize = 0;
    while i < modified.len()
        invariant
            i <= modified@.len(),
            forall|j: int| 0 <= j < i ==> modified@[j] != part,
        decreases modified@.len() - i,
    {
        if modified[i] == part {
            proof {
                assert(modified@[i as int] == part);
            }
            return true;
        }
        i = i + 1;
    }
    false
}

/// The tags to save: those entered with a name.
pub fn tags_to_save(tags: &Vec<NamedItem>) -> (kept: Vec<NamedItem>)
    ensures
        item_views(kept@) == named_tags(item_views(tags@)),
{
    let mut kept: Vec<NamedItem> = Vec::new();
    let mut i: usize = 0;
    proof {
        assert(item_views(tags@).take(0) =~= Seq::<NamedView>::empty());
        assert(item_views(kept@) =~= Seq::<NamedView>::empty());
    }
    while i < tags.len()
        invariant
            i <= tags@.len(),
            item_views(kept@) == named_tags(item_views(tags@).take(i as int)),
        decreases tags@.len() - i,
    {
        let ghost before = kept@;
        proof {
            assert(item_views(tags@).take(i + 1).drop_last() =~= item_views(tags@).take(i as int));
            assert(item_views(tags@).take(i + 1).last() == tags@[i as int]@);
        }
        if !tags[i].name.as_str().is_empty() {
            kept.push(tags[i].duplicate());
            proof {
                assert(item_views(kept@) =~= item_views(before).push(tags@[i as int]@));
            }
        }
        i = i + 1;
    }
    proof {
        assert(item_views(tags@).take(i as int) =~= item_views(tags@));
    }
    kept
}

/// `new` where `take`, else `old`.
fn pick_text(take: bool, new: Option<String>, old: Option<String>) -> (chosen: Option<String>)
    ensures
        text_option(chosen) == (if take { text_option(new) } else { text_option(old) }),
{
    if take {
        new
    } else {
        old
    }
}

fn pick_string(take: bool, new: String, old: String) -> (chosen: String)
    ensures
        chosen@ == (if take { new@ } else { old@ }),
{
    if take {
        new
    } else {
        old
    }
}

fn edited_details(d: EntryDetails, modified: &Vec<EditedPart>, values: &EditorValues) -> (saved: EntryDetails)
    ensures
        saved@ == details_to_save(d@, modified@, *values),
{
    let ghost dv = d@;
    let links = links_to_save(&values.media_links);
    let tags = tags_to_save(&values.tags);
    let end_time = if has_part(modified, EditedPart::EndTime) { values.end_time } else { d.end_time };
    let entry_type = pick_text(has_part(modified, EditedPart::EntryType), copy_text(&values.entry_type), d.entry_type);
    let description = pick_string(has_part(modified, EditedPart::Description), values.description.clone(), d.description);
    let media_links = if has_part(modified, EditedPart::MediaLinks) { links } else { d.media_links };
    let submitter_or_winner = pick_string(
        has_part(modified, EditedPart::SubmitterOrWinner),
        values.submitter_or_winner.clone(),
        d.submitter_or_winner,
    );
    let tags = if has_part(modified, EditedPart::Tags) { tags } else { d.tags };
    let video_edit_state = if has_part(modified, EditedPart::VideoEditState) {
        values.video_edit_state
    } else {
        d.video_edit_state
    };
    let poster_moment = if has_part(modified, EditedPart::PosterMoment) { values.poster_moment } else { d.poster_moment };
    let notes = pick_string(has_part(modified, EditedPart::Notes), values.notes.clone(), d.notes);
    let editor = pick_text(has_part(modified, EditedPart::Editor), copy_text(&values.editor), d.editor);
    let missing = if has_part(modified, EditedPart::MissingGiveawayInfo) {
        values.missing_giveaway_information
    } else {
        d.missing_giveaway_information
    };
    let saved = EntryDetails {
        end_time,
        entry_type,
        description,
        media_links,
        submitter_or_winner,
        tags,
        video_edit_state,
        video_processing_state: d.video_processing_state,
        poster_moment,
        notes,
        editor,
        missing_giveaway_information: missing,
    };
    proof {
        assert(saved@ =~= details_to_save(dv, modified@, *values));
    }
    saved
}

fn copy_text(t: &Option<String>) -> (copy: Option<String>)
    ensures
        text_option(copy) == text_option(*t),
{
    match t {
        Some(x) => Some(x.clone()),
        None => None,
    }
}

/// Builds the entry that saving the editor sends: the entry being edited
/// with the parts the editor changed (see [`entry_to_save`]).
pub fn edited_entry(entry: EventLogEntry, modified: &Vec<EditedPart>, values: EditorValues) -> (saved: EventLogEntry)
    ensures
        saved@ == entry_to_save(entry@, modified@, values),
{
    let ghost e = entry@;
    let details = edited_details(entry.details, modified, &values);
    let parent = pick_text(has_part(modified, EditedPart::Parent), values.parent, entry.parent);
    let start_time = if has_part(modified, EditedPart::StartTime) { values.start_time } else { entry.start_time };
    let manual_sort_key = if has_part(modified, EditedPart::SortKey) {
        values.manual_sort_key
    } else {
        entry.manual_sort_key
    };
    let saved = EventLogEntry { id: entry.id, parent, start_time, manual_sort_key, created_at: entry.created_at, details };
    proof {
        assert(saved@ =~= entry_to_save(e, modified@, values));
    }
    saved
}

/// A saved edit of an entry, waiting to be sent: the entry as saved and the
/// parts that changed.
pub struct EntrySave {
    pub entry: EventLogEntry,
    pub modified: Vec<EditedPart>,
}

fn copy_parts(parts: &Vec<EditedPart>) -> (copy: Vec<EditedPart>)
    ensures
        copy@ == parts@,
{
    let mut copy: Vec<EditedPart> = Vec::new();
    let mut i: usize = 0;
    while i < parts.len()
        invariant
            i <= parts@.len(),
            copy@ == parts@.subrange(0, i as int),
        decreases parts@.len() - i,
    {
        copy.push(parts[i]);
        i = i + 1;
    }
    proof {
        assert(parts@.subrange(0, parts@.len() as int) =~= parts@);
    }
    copy
}

/// Saves the editor: where an entry is being edited, queues it with the
/// parts the editor changed (see [`entry_to_save`]) and those parts; then
/// the editor is closed.
pub fn save_edit(
    editing: &mut Option<EventLogEntry>,
    queue: &mut Vec<EntrySave>,
    modified: &Vec<EditedPart>,
    values: EditorValues,
)
    ensures
        *final(editing) is None,
        match *old(editing) {
            Some(e) => {
                &&& final(queue)@.len() == old(queue)@.len() + 1
                &&& final(queue)@.drop_last() == old(queue)@
                &&& final(queue)@.last().entry@ == entry_to_save(e@, modified@, values)
                &&& final(queue)@.last().modified@ == modified@
            },
            None => final(queue)@ == old(queue)@,
        },
{
    let current = editing.take();
    match current {
        Some(entry) => {
            let ghost before = queue@;
            let saved = edited_entry(entry, modified, values);
            queue.push(EntrySave { entry: saved, modified: copy_parts(modified) });
            proof {
                assert(queue@.drop_last() =~= before);
            }
        },
        None => {},
    }
}

/// The texts of `s` that pass `keep`, in order.
pub open spec fn texts_where(s: Seq<Seq<char>>, keep: spec_fn(Seq<char>) -> bool) -> Seq<Seq<char>>
    decreases s.len(),
{
    if s.len() == 0 {
        Seq::empty()
    } else {
        let rest = texts_where(s.drop_last(), keep);
        if keep(s.last()) {
            rest.push(s.last())
        } else {
            rest
        }
    }
}

/// The media links to save: those entered, without the empty ones.
pub fn links_to_save(links: &Vec<String>) -> (kept: Vec<String>)
    ensures
        string_views(kept@) == texts_where(string_views(links@), |t: Seq<char>| t.len() > 0),
{
    let ghost keep = |t: Seq<char>| t.len() > 0;
    let mut kept: Vec<String> = Vec::new();
    let mut i: usize = 0;
    proof {
        assert(string_views(links@).take(0) =~= Seq::<Seq<char>>::empty());
        assert(string_views(kept@) =~= Seq::<Seq<char>>::empty());
    }
    while i < links.len()
        invariant
            keep == (|t: Seq<char>| t.len() > 0),
            i <= links@.len(),
            string_views(kept@) == texts_where(string_views(links@).take(i as int), keep),
        decreases links@.len() - i,
    {
        let ghost before = kept@;
        proof {
            assert(string_views(links@).take(i + 1).drop_last() =~= string_views(links@).take(i as int));
            assert(string_views(links@).take(i + 1).last() == links@[i as int]@);
            assert(keep(links@[i as int]@) == (links@[i as int]@.len() > 0));
        }
        if !links[i].as_str().is_empty() {
            kept.push(links[i].clone());
            proof {
                assert(string_views(kept@) =~= string_views(before).push(links@[i as int]@));
            }
        }
        i = i + 1;
    }
    proof {
        assert(string_views(links@).take(i as int) =~= string_views(links@));
    }
    kept
}

/// The tag names entered in the editor that name no tag of the event yet
/// (empty names aside), in order: tags that must be created first.
pub fn new_tag_names(names: &Vec<String>, event_tags: &Vec<NamedItem>) -> (new_names: Vec<String>)
    ensures
        string_views(new_names@) == texts_where(string_views(names@), |t: Seq<char>| t.len() > 0 && has_no_name(event_tags@, t)),
{
    let ghost keep = |t: Seq<char>| t.len() > 0 && has_no_name(event_tags@, t);
    let mut new_names: Vec<String> = Vec::new();
    let mut i: usize = 0;
    proof {
        assert(string_views(names@).take(0) =~= Seq::<Seq<char>>::empty());
        assert(string_views(new_names@) =~= Seq::<Seq<char>>::empty());
    }
    while i < names.len()
        invariant
            keep == (|t: Seq<char>| t.len() > 0 && has_no_name(event_tags@, t)),
            i <= names@.len(),
            string_views(new_names@) == texts_where(string_views(names@).take(i as int), keep),
        decreases names@.len() - i,
    {
        let ghost before = new_names@;
        proof {
            assert(string_views(names@).take(i + 1).drop_last() =~= string_views(names@).take(i as int));
            assert(string_views(names@).take(i + 1).last() == names@[i as int]@);
            assert(keep(names@[i as int]@) == (names@[i as int]@.len() > 0 && has_no_name(event_tags@, names@[i as int]@)));
        }
        let found = find_last_by_name(event_tags, &names[i]);
        proof {
            if let Some(j) = found {
                assert(event_tags@[j as int].name@ == names@[i as int]@);
            }
        }
        if !names[i].as_str().is_empty() && found.is_none() {
            new_names.push(names[i].clone());
            proof {
                assert(string_views(new_names@) =~= string_views(before).push(names@[i as int]@));
            }
        }
        i = i + 1;
    }
    proof {
        assert(string_views(names@).take(i as int) =~= string_views(names@));
    }
    new_names
}

/// What the editor shows that blocks saving.
pub struct EditorState {
    pub start_time_error: bool,
    pub end_time_error: bool,
    pub entry_type_error: bool,
    pub editor_error: bool,
    /// The start time warning waits for confirmation.
    pub start_time_warning: bool,
}

/// Saving is disabled while a field shows an error, a tag entered does not
/// exist yet, or the start time warning waits for confirmation.
pub fn save_disabled(state: &EditorState, tag_names: &Vec<String>, event_tags: &Vec<NamedItem>) -> (disabled: bool)
    ensures
        disabled == (state.start_time_error || state.end_time_error || state.entry_type_error || state.editor_error
            || texts_where(string_views(tag_names@), |t: Seq<char>| t.len() > 0 && has_no_name(event_tags@, t)).len() > 0
            || state.start_time_warning),
{
    let new_names = new_tag_names(tag_names, event_tags);
    state.start_time_error || state.end_time_error || state.entry_type_error || state.editor_error
        || new_names.len() > 0 || state.start_time_warning
}

} // verus!
