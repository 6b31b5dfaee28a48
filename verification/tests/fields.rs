use stream_log_client::entry_editor::{
    edited_entry, links_to_save, new_tag_names, save_disabled, save_edit, EditedPart, EditorState, EditorValues,
    EntrySave,
};
use stream_log_client::event_log::{EndTime, EntryDetails, EventLogEntry};
use stream_log_client::name_checks::NamedItem;
use stream_log_client::tab_assignment::{kept_by_state_filter, row_is_visible};
use stream_log_client::entry_fields::{
    giveaway_info_control, read_end_time_input, read_sort_key, read_start_time_input, start_time_warning, start_time_warning_against,
    EndTimeInput, StartTimeInput,
};

#[test]
fn start_time_inputs() {
    assert!(matches!(read_start_time_input("", true), StartTimeInput::Cleared { refused: true }));
    assert!(matches!(read_start_time_input("", false), StartTimeInput::Cleared { refused: false }));
    assert!(matches!(read_start_time_input("1:30", true), StartTimeInput::Offset(90)));
    match read_start_time_input("130", false) {
        StartTimeInput::Invalid(message) => assert_eq!(message, "Invalid format"),
        _ => panic!("expected an invalid input"),
    }
}

#[test]
fn end_time_inputs() {
    assert!(matches!(read_end_time_input("", true), EndTimeInput::NotEntered));
    assert!(matches!(read_end_time_input("--", true), EndTimeInput::MissingRequired));
    assert!(matches!(read_end_time_input("-", false), EndTimeInput::NoTime));
    assert!(matches!(read_end_time_input("-0:10", false), EndTimeInput::Offset(-10)));
    match read_end_time_input("1:xx", false) {
        EndTimeInput::Invalid(message) => assert!(message.starts_with("Couldn't parse minutes: ")),
        _ => panic!("expected an invalid input"),
    }
}

#[test]
fn start_time_warning_at_one_hour() {
    assert!(!start_time_warning_against(0, 3_599_999));
    assert!(start_time_warning_against(0, 3_600_000));
    assert!(start_time_warning_against(3_600_000, 0));
    assert!(!start_time_warning_against(i64::MAX, i64::MAX - 5));
    assert!(start_time_warning_against(i64::MIN, i64::MAX));
    assert!(!start_time_warning(1000, Some(2000), 0));
    assert!(start_time_warning(0, None, 3_600_000));
}

#[test]
fn giveaway_toggle() {
    let c = giveaway_info_control("1:00", "someone", true, true, false);
    assert!(c.clear_mark && c.disable_toggle);
    let c = giveaway_info_control("--", "someone", true, true, false);
    assert!(!c.clear_mark && c.disable_toggle);
    let c = giveaway_info_control("--", "someone", true, true, true);
    assert!(!c.clear_mark && !c.disable_toggle);
    let c = giveaway_info_control("1:00", "", false, false, false);
    assert!(!c.clear_mark && !c.disable_toggle);
}

#[test]
fn sort_key_inputs() {
    assert_eq!(read_sort_key("12"), Some(12));
    assert_eq!(read_sort_key("-3"), Some(-3));
    assert_eq!(read_sort_key("+7"), Some(7));
    assert_eq!(read_sort_key(""), None);
    assert_eq!(read_sort_key("1.5"), None);
    assert_eq!(read_sort_key("2147483647"), Some(i32::MAX));
    assert_eq!(read_sort_key("2147483648"), None);
    assert_eq!(read_sort_key("-2147483648"), Some(i32::MIN));
    assert_eq!(read_sort_key(" 4"), None);
}

fn values() -> EditorValues {
    EditorValues {
        start_time: Some(60),
        end_time: EndTime::Time(120),
        entry_type: Some(String::from("type")),
        description: String::from("new description"),
        media_links: strings(&["", "link", ""]),
        submitter_or_winner: String::from("winner"),
        tags: vec![
            NamedItem { id: String::from("t1"), name: String::from("boss") },
            NamedItem { id: String::new(), name: String::new() },
        ],
        video_edit_state: 2,
        poster_moment: true,
        notes: String::from("notes"),
        editor: Some(String::from("ed")),
        missing_giveaway_information: true,
        manual_sort_key: None,
        parent: Some(String::from("p")),
    }
}

#[test]
fn saving_takes_the_changed_parts() {
    let entry = EventLogEntry {
        id: String::from("a"),
        parent: None,
        start_time: Some(5),
        manual_sort_key: Some(1),
        created_at: 7,
        details: Default::default(),
    };
    let modified = vec![EditedPart::StartTime, EditedPart::MediaLinks, EditedPart::Tags, EditedPart::Parent];
    let saved = edited_entry(entry, &modified, values());
    assert_eq!(saved.start_time, Some(60));
    assert_eq!(saved.manual_sort_key, Some(1));
    assert_eq!(saved.parent, Some(String::from("p")));
    assert_eq!(saved.created_at, 7);
    assert_eq!(saved.id, "a");
    assert_eq!(saved.details.media_links, strings(&["link"]));
    assert_eq!(saved.details.tags.len(), 1);
    assert_eq!(saved.details.tags[0].id, "t1");
    assert_eq!(saved.details.description, "");
    assert_eq!(saved.details.end_time, EndTime::NotEntered);
    assert!(!saved.details.poster_moment);
}

#[test]
fn saving_every_part() {
    let entry = EventLogEntry {
        id: String::from("a"),
        parent: Some(String::from("old")),
        start_time: Some(5),
        manual_sort_key: Some(1),
        created_at: 7,
        details: Default::default(),
    };
    let modified = vec![
        EditedPart::EndTime,
        EditedPart::EntryType,
        EditedPart::Description,
        EditedPart::SubmitterOrWinner,
        EditedPart::VideoEditState,
        EditedPart::PosterMoment,
        EditedPart::Notes,
        EditedPart::Editor,
        EditedPart::MissingGiveawayInfo,
        EditedPart::SortKey,
    ];
    let saved = edited_entry(entry, &modified, values());
    assert_eq!(saved.start_time, Some(5));
    assert_eq!(saved.parent, Some(String::from("old")));
    assert_eq!(saved.manual_sort_key, None);
    assert_eq!(saved.details.end_time, EndTime::Time(120));
    assert_eq!(saved.details.entry_type, Some(String::from("type")));
    assert_eq!(saved.details.description, "new description");
    assert_eq!(saved.details.submitter_or_winner, "winner");
    assert_eq!(saved.details.video_edit_state, 2);
    assert!(saved.details.poster_moment);
    assert_eq!(saved.details.notes, "notes");
    assert_eq!(saved.details.editor, Some(String::from("ed")));
    assert!(saved.details.missing_giveaway_information);
    assert!(saved.details.media_links.is_empty());
}

fn strings(list: &[&str]) -> Vec<String> {
    list.iter().map(|s| String::from(*s)).collect()
}

#[test]
fn empty_links_are_not_saved() {
    assert_eq!(links_to_save(&strings(&["a", "", "b", ""])), strings(&["a", "b"]));
    assert!(links_to_save(&vec![]).is_empty());
}

#[test]
fn unknown_tags_block_saving() {
    let tags = vec![NamedItem { id: String::from("t1"), name: String::from("boss") }];
    assert_eq!(new_tag_names(&strings(&["boss", "", "new", "new"]), &tags), strings(&["new", "new"]));
    let clear = EditorState {
        start_time_error: false,
        end_time_error: false,
        entry_type_error: false,
        editor_error: false,
        start_time_warning: false,
    };
    assert!(!save_disabled(&clear, &strings(&["boss", ""]), &tags));
    assert!(save_disabled(&clear, &strings(&["other"]), &tags));
    let warned = EditorState { start_time_warning: true, ..clear };
    assert!(save_disabled(&warned, &vec![], &tags));
    let errored = EditorState { editor_error: true, start_time_warning: false, ..warned };
    assert!(save_disabled(&errored, &vec![], &tags));
}

#[test]
fn rows_pass_the_state_filters() {
    let mut details: EntryDetails = Default::default();
    details.video_edit_state = 1;
    details.video_processing_state = 2;
    let entry = Some(EventLogEntry {
        id: String::from("a"),
        parent: None,
        start_time: None,
        manual_sort_key: None,
        created_at: 0,
        details,
    });
    assert!(!row_is_visible(&None, &vec![], &vec![]));
    assert!(row_is_visible(&entry, &vec![], &vec![]));
    assert!(row_is_visible(&entry, &vec![0, 1], &vec![2]));
    assert!(!row_is_visible(&entry, &vec![0], &vec![]));
    assert!(!row_is_visible(&entry, &vec![], &vec![3]));
}

#[test]
fn state_filter_flags() {
    let states = vec![None, Some(1), Some(2)];
    assert_eq!(kept_by_state_filter(&states, &vec![]), vec![true, true, true]);
    assert_eq!(kept_by_state_filter(&states, &vec![None, Some(2)]), vec![true, false, true]);
}

#[test]
fn field_errors_and_times() {
    let cleared = read_start_time_input("", true);
    assert_eq!(
        cleared.error_text(),
        Some(String::from("Start time cannot be cleared from an entry that already has one"))
    );
    assert_eq!(cleared.start_time(1_000), Some(None));
    let offset = read_start_time_input("1:30", false);
    assert_eq!(offset.error_text(), None);
    assert_eq!(offset.start_time(1_000), Some(Some(1_000 + 90 * 60_000)));
    let invalid = read_start_time_input("x", false);
    assert_eq!(invalid.error_text(), Some(String::from("Invalid format")));
    assert_eq!(invalid.start_time(1_000), None);

    let missing = read_end_time_input("--", true);
    assert_eq!(missing.error_text(), Some(String::from("The selected entry type requires an end time")));
    assert_eq!(missing.end_time(0), None);
    assert_eq!(read_end_time_input("--", false).end_time(0), Some(EndTime::NoTime));
    assert_eq!(read_end_time_input("", false).end_time(0), Some(EndTime::NotEntered));
    assert_eq!(read_end_time_input("-0:30", false).end_time(3_600_000), Some(EndTime::Time(1_800_000)));
}

#[test]
fn saving_queues_the_edit_and_closes_the_editor() {
    let entry = EventLogEntry {
        id: String::from("a"),
        parent: None,
        start_time: Some(5),
        manual_sort_key: None,
        created_at: 0,
        details: Default::default(),
    };
    let mut editing = Some(entry);
    let mut queue: Vec<EntrySave> = Vec::new();
    let modified = vec![EditedPart::Description];
    save_edit(&mut editing, &mut queue, &modified, values());
    assert!(editing.is_none());
    assert_eq!(queue.len(), 1);
    assert_eq!(queue[0].entry.id, "a");
    assert_eq!(queue[0].entry.details.description, "new description");
    assert_eq!(queue[0].entry.start_time, Some(5));
    assert_eq!(queue[0].modified, vec![EditedPart::Description]);

    save_edit(&mut editing, &mut queue, &modified, values());
    assert!(editing.is_none());
    assert_eq!(queue.len(), 1);
}

#[test]
fn saving_with_nothing_changed_sends_the_entry_as_it_was() {
    let mut details: EntryDetails = Default::default();
    details.description = String::from("kept");
    details.video_processing_state = 3;
    let entry = EventLogEntry {
        id: String::from("a"),
        parent: Some(String::from("q")),
        start_time: Some(5),
        manual_sort_key: Some(2),
        created_at: 9,
        details,
    };
    let saved = edited_entry(entry, &Vec::new(), values());
    assert_eq!(saved.id, "a");
    assert_eq!(saved.parent, Some(String::from("q")));
    assert_eq!(saved.start_time, Some(5));
    assert_eq!(saved.manual_sort_key, Some(2));
    assert_eq!(saved.created_at, 9);
    assert_eq!(saved.details.description, "kept");
    assert_eq!(saved.details.video_processing_state, 3);
    assert!(saved.details.tags.is_empty());
}
