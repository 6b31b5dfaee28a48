use stream_log_client::duration::{format_duration, get_duration_from_formatted, try_get_duration_from_formatted};

#[test]
fn formats_positive_duration() {
    assert_eq!(format_duration(0), "0:00");
    assert_eq!(format_duration(5), "0:05");
    assert_eq!(format_duration(65), "1:05");
    assert_eq!(format_duration(600 * 60 + 59), "600:59");
}

#[test]
fn formats_negative_duration() {
    assert_eq!(format_duration(-1), "-0:01");
    assert_eq!(format_duration(-61), "-1:01");
    assert_eq!(format_duration(-120), "-2:00");
}

#[test]
fn formats_extreme_durations() {
    assert_eq!(format_duration(i64::MAX), "153722867280912930:07");
    assert_eq!(format_duration(i64::MIN), "-153722867280912930:08");
}

#[test]
fn parses_durations() {
    assert_eq!(get_duration_from_formatted("1:05"), Ok(65));
    assert_eq!(get_duration_from_formatted("0:00"), Ok(0));
    assert_eq!(get_duration_from_formatted("-0:01"), Ok(-1));
    assert_eq!(get_duration_from_formatted("-1:30"), Ok(-90));
    assert_eq!(get_duration_from_formatted("2:75"), Ok(195));
    assert_eq!(get_duration_from_formatted("+1:05"), Ok(65));
    assert_eq!(get_duration_from_formatted("1:-5"), Ok(55));
}

#[test]
fn missing_colon_is_invalid_format() {
    assert_eq!(get_duration_from_formatted("105"), Err(String::from("Invalid format")));
    assert_eq!(get_duration_from_formatted(""), Err(String::from("Invalid format")));
}

#[test]
fn bad_numbers_name_the_part() {
    let err = get_duration_from_formatted("a:05").unwrap_err();
    assert!(err.starts_with("Couldn't parse hours: "));
    let err = get_duration_from_formatted(":05").unwrap_err();
    assert!(err.starts_with("Couldn't parse hours: "));
    let err = get_duration_from_formatted("1:5x").unwrap_err();
    assert!(err.starts_with("Couldn't parse minutes: "));
    let err = get_duration_from_formatted("1:05:00").unwrap_err();
    assert!(err.starts_with("Couldn't parse minutes: "));
}

#[test]
fn bad_numbers_carry_the_numbers_error_text() {
    let hours_error = "a".parse::<i64>().unwrap_err();
    assert_eq!(get_duration_from_formatted("a:5x"), Err(format!("Couldn't parse hours: {}", hours_error)));
    let minutes_error = "".parse::<i64>().unwrap_err();
    assert_eq!(get_duration_from_formatted("1:"), Err(format!("Couldn't parse minutes: {}", minutes_error)));
    assert_eq!(
        get_duration_from_formatted("1:99999999999999999999"),
        Err(String::from("Couldn't parse minutes: number too large to fit in target type"))
    );
}

#[test]
fn duration_round_trip() {
    for minutes in [0i64, 1, 59, 60, 61, -1, -59, -60, -61, 12345, -12345, i64::MAX, i64::MIN + 1, i64::MIN] {
        assert_eq!(get_duration_from_formatted(&format_duration(minutes)), Ok(minutes));
    }
}

#[test]
fn overflowing_duration_is_refused_by_checked_version() {
    assert_eq!(try_get_duration_from_formatted("9223372036854775807:00"), None);
    assert_eq!(try_get_duration_from_formatted("-1:-9223372036854775808"), None);
    assert_eq!(try_get_duration_from_formatted("1:05"), Some(Ok(65)));
    assert_eq!(try_get_duration_from_formatted("x"), Some(Err(String::from("Invalid format"))));
}
