use vstd::prelude::*;
use crate::event_log::EndTime;
use crate::duration::{duration_overflows, get_duration_from_formatted, is_first_colon, reads_as_duration};
use crate::text::chars_of;
use crate::std_parse::{parse_i64, parse_i64_spec};

verus! {

/// What the start time field of the entry editor holds.
pub enum StartTimeInput {
    /// The field is empty: the entry has no start time. `refused` when the
    /// entry being edited already has one, which cannot be cleared.
    Cleared { refused: bool },
    /// A start time this many minutes after the start of the event.
    Offset(i64),
    /// Not a duration; the message says why.
    Invalid(String),
}

/// Reads the start time field of the entry editor.
pub fn read_start_time_input(input: &str, entry_has_start_time: bool) -> (read: StartTimeInput)
    requires
        forall|colon: int| is_first_colon(input@, colon) ==> !duration_overflows(input@, colon),
    ensures
        input@.len() == 0 ==> read == (StartTimeInput::Cleared { refused: entry_has_start_time }),
        input@.len() > 0 ==> match read {
            StartTimeInput::Cleared { .. } => false,
            StartTimeInput::Offset(minutes) => reads_as_duration(input@, Ok(minutes)),
            StartTimeInput::Invalid(message) => reads_as_duration(input@, Err(message)),
        },
{
    if input.is_empty() {
        StartTimeInput::Cleared { refused: entry_has_start_time }
    } else {
        match get_duration_from_formatted(input) {
            Ok(minutes) => StartTimeInput::Offset(minutes),
            Err(message) => StartTimeInput::Invalid(message),
        }
    }
}

/// What the end time field of the entry editor holds.
pub enum EndTimeInput {
    /// The field is empty: no end time was entered yet.
    NotEntered,
    /// Only dashes: the entry has no end time.
    NoTime,
    /// Only dashes, but the entry type requires an end time.
    MissingRequired,
    /// An end time this many minutes after the start of the event.
    Offset(i64),
    /// Not a duration; the message says why.
    Invalid(String),
}

/// Every character is a dash.
pub open spec fn all_dashes(s: Seq<char>) -> bool {
    forall|i: int| 0 <= i < s.len() ==> s[i] == '-'
}

fn is_all_dashes(input: &str) -> (dashes: bool)
    ensures
        dashes == all_dashes(input@),
{
    let chars = chars_of(input);
    let mut i: usize = 0;
    while i < chars.len()
        invariant
            chars@ == input@,
            i <= chars@.len(),
            forall|j: int| 0 <= j < i ==> chars@[j] == '-',
        decreases chars@.len() - i,
    {
        if chars[i] != '-' {
            return false;
        }
        i = i + 1;
    }
    true
}

/// Reads the end time field of the entry editor.
pub fn read_end_time_input(input: &str, entry_type_requires_end_time: bool) -> (read: EndTimeInput)
    requires
        forall|colon: int| is_first_colon(input@, colon) ==> !duration_overflows(input@, colon),
    ensures
        input@.len() == 0 ==> read is NotEntered,
        input@.len() > 0 && all_dashes(input@) ==> read == (if entry_type_requires_end_time {
            EndTimeInput::MissingRequired
        } else {
            EndTimeInput::NoTime
        }),
        input@.len() > 0 && !all_dashes(input@) ==> match read {
            EndTimeInput::Offset(minutes) => reads_as_duration(input@, Ok(minutes)),
            EndTimeInput::Invalid(message) => reads_as_duration(input@, Err(message)),
            _ => false,
        },
{
    if input.is_empty() {
        EndTimeInput::NotEntered
    } else if is_all_dashes(input) {
        if entry_type_requires_end_time {
            EndTimeInput::MissingRequired
        } else {
            EndTimeInput::NoTime
        }
    } else {
        match get_duration_from_formatted(input) {
            Ok(minutes) => EndTimeInput::Offset(minutes),
            Err(message) => EndTimeInput::Invalid(message),
        }
    }
}

/// The time `minutes` minutes after `event_start`, both in milliseconds
/// since the Unix epoch.
pub open spec fn offset_time(event_start: i64, minutes: i64) -> int {
    event_start + minutes * 60_000
}

fn add_minutes(event_start: i64, minutes: i64) -> (time: i64)
    requires
        i64::MIN <= offset_time(event_start, minutes) <= i64::MAX,
    ensures
        time == offset_time(event_start, minutes),
{
    let t: i128 = event_start as i128 + (minutes as i128) * 60_000;
    t as i64
}

impl StartTimeInput {
    /// The error shown at the start time field, if any.
    pub fn error_text(&self) -> (text: Option<String>)
        ensures
            match *self {
                StartTimeInput::Cleared { refused: true } => text matches Some(t)
                    && t@ == "Start time cannot be cleared from an entry that already has one"@,
                StartTimeInput::Invalid(message) => text == Some(message),
                _ => text is None,
            },
    {
        match self {
            StartTimeInput::Cleared { refused } => {
                if *refused {
                    Some(String::from_str("Start time cannot be cleared from an entry that already has one"))
                } else {
                    None
                }
            },
            StartTimeInput::Invalid(message) => Some(message.clone()),
            StartTimeInput::Offset(_) => None,
        }
    }

    /// The start time the field sets, given the event's start: none for a
    /// cleared field, the offset after the event's start for a duration, and
    /// no change (`None`) for a text that is no duration.
    pub fn start_time(&self, event_start: i64) -> (value: Option<Option<i64>>)
        requires
            *self matches StartTimeInput::Offset(m) ==> i64::MIN <= offset_time(event_start, m) <= i64::MAX,
        ensures
            match *self {
                StartTimeInput::Cleared { .. } => value == Some(None::<i64>),
                StartTimeInput::Offset(m) => value == Some(Some(offset_time(event_start, m) as i64)),
                StartTimeInput::Invalid(_) => value is None,
            },
    {
        match self {
            StartTimeInput::Cleared { .. } => Some(None),
            StartTimeInput::Offset(m) => Some(Some(add_minutes(event_start, *m))),
            StartTimeInput::Invalid(_) => None,
        }
    }
}

impl EndTimeInput {
    /// The error shown at the end time field, if any.
    pub fn error_text(&self) -> (text: Option<String>)
        ensures
            match *self {
                EndTimeInput::MissingRequired => text matches Some(t) && t@
                    == "The selected entry type requires an end time"@,
                EndTimeInput::Invalid(message) => text == Some(message),
                _ => text is None,
            },
    {
        match self {
            EndTimeInput::MissingRequired => Some(String::from_str("The selected entry type requires an end time")),
            EndTimeInput::Invalid(message) => Some(message.clone()),
            _ => None,
        }
    }

    /// The end time the field sets, given the event's start; `None` where
    /// the field shows an error and the end time stays as it was.
    pub fn end_time(&self, event_start: i64) -> (value: Option<EndTime>)
        requires
            *self matches EndTimeInput::Offset(m) ==> i64::MIN <= offset_time(event_start, m) <= i64::MAX,
        ensures
            match *self {
                EndTimeInput::NotEntered => value == Some(EndTime::NotEntered),
                EndTimeInput::NoTime => value == Some(EndTime::NoTime),
                EndTimeInput::Offset(m) => value == Some(EndTime::Time(offset_time(event_start, m) as i64)),
                _ => value is None,
            },
    {
        match self {
            EndTimeInput::NotEntered => Some(EndTime::NotEntered),
            EndTimeInput::NoTime => Some(EndTime::NoTime),
            EndTimeInput::Offset(m) => Some(EndTime::Time(add_minutes(event_start, *m))),
            _ => None,
        }
    }
}

/// The whole minutes between two times given in milliseconds, without sign,
/// reach an hour.
pub open spec fn an_hour_apart(a: int, b: int) -> bool {
    let d = if a < b { b - a } else { a - b };
    d / 60_000 >= 60
}

/// An offset of no minutes is the event's start, and each further minute
/// is sixty thousand milliseconds later.
pub proof fn law_offset_minutes(event_start: i64, minutes: i64)
    requires
        minutes < i64::MAX,
    ensures
        offset_time(event_start, 0) == event_start,
        offset_time(event_start, (minutes + 1) as i64) == offset_time(event_start, minutes) + 60_000,
{
}

/// The warning comes exactly when the two times are an hour (3 600 000
/// milliseconds) or more apart, whichever comes first.
pub proof fn law_hour_warning(a: int, b: int)
    ensures
        an_hour_apart(a, b) <==> (a - b >= 3_600_000 || b - a >= 3_600_000),
        an_hour_apart(a, b) == an_hour_apart(b, a),
{
    let d = if a < b { b - a } else { a - b };
    assert(d >= 0);
    assert((d / 60_000 >= 60) <==> (d >= 3_600_000)) by (nonlinear_arith)
        requires
            d >= 0,
    {
    }
}

/// Whether a newly entered start time is far (an hour or more, in whole
/// minutes) from `base`; both in milliseconds since the Unix epoch.
pub fn start_time_warning_against(new_start_time: i64, base: i64) -> (warn: bool)
    ensures
        warn == an_hour_apart(new_start_time as int, base as int),
{
    let difference: i128 = if new_start_time < base {
        base as i128 - new_start_time as i128
    } else {
        new_start_time as i128 - base as i128
    };
    difference / 60_000 >= 60
}

/// Whether a newly entered start time is far from the start time the entry
/// had, or, for an entry without one, from the current time `now`.
pub fn start_time_warning(new_start_time: i64, previous_start_time: Option<i64>, now: i64) -> (warn: bool)
    ensures
        previous_start_time matches Some(base) ==> warn == an_hour_apart(new_start_time as int, base as int),
        previous_start_time is None ==> warn == an_hour_apart(new_start_time as int, now as int),
{
    let base = match previous_start_time {
        Some(base) => base,
        None => now,
    };
    start_time_warning_against(new_start_time, base)
}

/// How the "missing giveaway information" toggle of the entry editor is set.
pub struct GiveawayInfoControl {
    /// Clear the missing-information mark.
    pub clear_mark: bool,
    /// Disable the toggle.
    pub disable_toggle: bool,
}

/// Decides the "missing giveaway information" toggle: once an end time
/// (other than dashes) and a submitter or winner are entered, the mark is
/// cleared and the toggle disabled; an existing entry marked as missing the
/// information can only be unmarked by a supervisor; otherwise the toggle is
/// free.
pub fn giveaway_info_control(
    end_time_input: &str,
    submitter_or_winner: &str,
    editing_existing_entry: bool,
    entry_marked_missing_giveaway_info: bool,
    is_supervisor: bool,
) -> (control: GiveawayInfoControl)
    ensures
        control.clear_mark == (end_time_input@.len() > 0 && !all_dashes(end_time_input@)
            && submitter_or_winner@.len() > 0),
        control.disable_toggle == (control.clear_mark || (editing_existing_entry && entry_marked_missing_giveaway_info
            && !is_supervisor)),
{
    if !end_time_input.is_empty() && !is_all_dashes(end_time_input) && !submitter_or_winner.is_empty() {
        GiveawayInfoControl { clear_mark: true, disable_toggle: true }
    } else if editing_existing_entry && entry_marked_missing_giveaway_info && !is_supervisor {
        GiveawayInfoControl { clear_mark: false, disable_toggle: true }
    } else {
        GiveawayInfoControl { clear_mark: false, disable_toggle: false }
    }
}

/// The manual sort key a sort key field denotes: the integer it reads as
/// (an optional sign, then decimal digits), when that fits in an `i32`.
pub open spec fn sort_key_of(input: Seq<char>) -> Option<i32> {
    match parse_i64_spec(input) {
        Some(v) => if i32::MIN <= v <= i32::MAX {
            Some(v as i32)
        } else {
            None
        },
        None => None,
    }
}

/// Reads the manual sort key field of the entry editor: the key it holds,
/// or none where it holds no integer that fits a sort key.
pub fn read_sort_key(input: &str) -> (key: Option<i32>)
    ensures
        key == sort_key_of(input@),
{
    match parse_i64(input) {
        Ok(v) => {
            if i32::MIN as i64 <= v && v <= i32::MAX as i64 {
                Some(v as i32)
            } else {
                None
            }
        },
        Err(_) => None,
    }
}

} // verus!
