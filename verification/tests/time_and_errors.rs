use stream_log_client::connection::ConnectionState;
use stream_log_client::error_data::{dismiss_error, ErrorData, EventId};
use stream_log_client::time_field::{parse_time_field_value, UtcDateTime};
use stream_log_client::server_errors::{connection_lost_error, subscription_failure_error, SubscriptionFailure};
use stream_log_client::subscription_type::SubscriptionType;

#[test]
fn time_field_with_seconds() {
    let parsed = parse_time_field_value("2024-03-05T10:20:30").unwrap();
    assert_eq!(parsed, UtcDateTime { seconds: 1_709_634_030, nanos: 0 });
}

#[test]
fn time_field_without_seconds() {
    let parsed = parse_time_field_value("2024-03-05T10:20").unwrap();
    assert_eq!(parsed, UtcDateTime { seconds: 1_709_634_000, nanos: 0 });
}

#[test]
fn time_field_invalid() {
    assert!(parse_time_field_value("2024-03-05").is_err());
    assert!(parse_time_field_value("not a time").is_err());
    assert!(parse_time_field_value("2024-13-05T10:20").is_err());
}

#[test]
fn error_data_constructors() {
    let e = ErrorData::new("Connection lost");
    assert_eq!(e.message(), "Connection lost");
    assert!(e.error().is_none());
    let e = ErrorData::new_with_error("Send failed", String::from("closed"));
    assert_eq!(e.error().unwrap(), "closed");
    let e = ErrorData::new_from_string(format!("Subscription to {:?} failed", 3));
    assert_eq!(e.message(), "Subscription to 3 failed");
}

#[test]
fn event_id_text() {
    assert_eq!(EventId::new(String::from("ev-1")).as_text(), "ev-1");
}

#[test]
fn connection_starts_connected() {
    assert_eq!(ConnectionState::default(), ConnectionState::Connected);
}

#[test]
fn subscription_failure_messages() {
    let e = subscription_failure_error(&SubscriptionType::AdminUsers, SubscriptionFailure::NotAllowed);
    assert_eq!(e.message(), "Subscription to AdminUsers failed; subscription not allowed");
    assert!(e.error().is_none());
    let e = subscription_failure_error(
        &SubscriptionType::EventLogData(String::from("ev\"1")),
        SubscriptionFailure::DatabaseError,
    );
    assert_eq!(e.message(), "Subscription to EventLogData(\"ev\\\"1\") failed; a database error occurred");
    let lost = connection_lost_error();
    assert_eq!(
        lost.message(),
        "The connection with the server has broken. If this wasn't expected, refresh the page."
    );
}

#[test]
fn subscription_debug_text_matches_debug() {
    for t in [
        SubscriptionType::EventLogData(String::from("a\nb")),
        SubscriptionType::AdminEventLogSections,
        SubscriptionType::TagList,
    ] {
        assert_eq!(t.debug_text(), format!("{:?}", t));
    }
}

#[test]
fn dismissing_removes_the_first_equal_error() {
    let mut errors = vec![
        ErrorData::new("a"),
        ErrorData::new_with_error("b", String::from("x")),
        ErrorData::new("a"),
    ];
    dismiss_error(&mut errors, &ErrorData::new("b"));
    assert_eq!(errors.len(), 3);
    dismiss_error(&mut errors, &ErrorData::new_with_error("b", String::from("x")));
    assert_eq!(errors.len(), 2);
    dismiss_error(&mut errors, &ErrorData::new("a"));
    assert_eq!(errors.len(), 1);
    assert_eq!(errors[0].message(), "a");
    assert!(ErrorData::new("a").same_as(&errors[0]));
}

#[test]
fn connection_notices() {
    assert_eq!(ConnectionState::Connected.notice(), None);
    assert_eq!(ConnectionState::Reconnecting.notice(), Some("Connection to server lost. Reconnecting..."));
    assert_eq!(ConnectionState::Lost.notice(), Some("Connection to server lost."));
}
