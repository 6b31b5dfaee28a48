use vstd::prelude::*;
use chrono::format::ParseError;
use chrono::NaiveDateTime;

verus! {

#[verifier::external_type_specification]
#[verifier::external_body]
pub struct ExParseError(ParseError);

/// An instant as seconds and nanoseconds since the Unix epoch, in UTC, as
/// chrono counts them (a leap second has nanoseconds of a second or more).
#[derive(Clone, Copy, Debug, PartialEq, Eq, Structural)]
pub struct UtcDateTime {
    pub seconds: i64,
    pub nanos: u32,
}

/// How a parse of a date-time string with a format came out.
pub enum TimeParseOutcome {
    /// The string matches the format and denotes this instant, taken as UTC.
    Parsed(UtcDateTime),
    /// The string ended before the format did.
    TooShort,
    /// Any other failure.
    Invalid,
}

/// How `chrono::NaiveDateTime::parse_from_str` fares on a string and a
/// format, with the date-time it gives taken as UTC.
pub uninterp spec fn naive_parse_outcome(value: Seq<char>, format: Seq<char>) -> TimeParseOutcome;

/// A failed parse: chrono's error, and whether its kind is `TooShort`.
pub struct TimeParseFailure {
    pub error: ParseError,
    pub too_short: bool,
}

/// Parses `value` with `format` through `chrono::NaiveDateTime::parse_from_str`,
/// giving the date-time taken as UTC as its `timestamp` and
/// `timestamp_subsec_nanos`. Claimed: the outcome (the instant, an error of
/// kind `TooShort`, or another error) is the one named by
/// [`naive_parse_outcome`] for the two strings, a function of them alone.
/// Which strings chrono accepts, and the instants they denote, are not
/// described.
#[verifier::external_body]
fn parse_naive_datetime(value: &str, format: &str) -> (parsed: Result<UtcDateTime, TimeParseFailure>)
    ensures
        match parsed {
            Ok(instant) => naive_parse_outcome(value@, format@) == TimeParseOutcome::Parsed(instant),
            Err(failure) => !(naive_parse_outcome(value@, format@) is Parsed) && (failure.too_short
                <==> naive_parse_outcome(value@, format@) is TooShort),
        },
{
    match NaiveDateTime::parse_from_str(value, format) {
        Ok(datetime) => Ok(UtcDateTime {
            seconds: datetime.and_utc().timestamp(),
            nanos: datetime.and_utc().timestamp_subsec_nanos(),
        }),
        Err(error) => Err(TimeParseFailure {
            too_short: error.kind() == chrono::format::ParseErrorKind::TooShort,
            error,
        }),
    }
}

/// The format of date-time fields, with seconds.
pub const ISO_DATETIME_FORMAT_STRING: &'static str = "%Y-%m-%dT%H:%M:%S";

/// The format of date-time fields where the browser left out the seconds.
pub const ISO_DATETIME_FORMAT_WITHOUT_SECONDS: &'static str = "%Y-%m-%dT%H:%M";

/// What reading a date-time field gives: the instant the full format reads;
/// where the value is too short for it, the instant the format without
/// seconds reads; `None` where neither reads one.
pub open spec fn time_field_instant(value: Seq<char>) -> Option<UtcDateTime> {
    match naive_parse_outcome(value, ISO_DATETIME_FORMAT_STRING@) {
        TimeParseOutcome::Parsed(instant) => Some(instant),
        TimeParseOutcome::TooShort => match naive_parse_outcome(value, ISO_DATETIME_FORMAT_WITHOUT_SECONDS@) {
            TimeParseOutcome::Parsed(instant) => Some(instant),
            _ => None,
        },
        TimeParseOutcome::Invalid => None,
    }
}

/// Parses the value of a date-time input field, taken as UTC. Browsers may
/// leave out the seconds, so where the full format finds the value too
/// short, the format without seconds is tried.
pub fn parse_time_field_value(value: &str) -> (parsed: Result<UtcDateTime, ParseError>)
    ensures
        match time_field_instant(value@) {
            Some(instant) => parsed == Ok::<UtcDateTime, ParseError>(instant),
            None => parsed is Err,
        },
{
    match parse_naive_datetime(value, ISO_DATETIME_FORMAT_STRING) {
        Ok(instant) => Ok(instant),
        Err(failure) => {
            if failure.too_short {
                match parse_naive_datetime(value, ISO_DATETIME_FORMAT_WITHOUT_SECONDS) {
                    Ok(instant) => Ok(instant),
                    Err(second_failure) => Err(second_failure.error),
                }
            } else {
                Err(failure.error)
            }
        },
    }
}

} // verus!
