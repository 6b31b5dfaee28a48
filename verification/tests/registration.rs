use stream_log_client::color::RgbColor;
use stream_log_client::registration::{
    registration_answer_error, registration_request, should_check_username, username_has_error, username_too_long,
    RegistrationAnswer, UsernameCheck,
};

#[test]
fn username_length_counts_bytes() {
    assert!(!username_too_long(&String::from("abcd"), 4));
    assert!(username_too_long(&String::from("abcde"), 4));
    // Two characters, four bytes.
    assert!(username_too_long(&String::from("éé"), 3));
    assert!(!username_too_long(&String::from("éé"), 4));
}

#[test]
fn username_field_errors() {
    let check = Some(UsernameCheck { username: String::from("alice"), available: true });
    assert!(username_has_error(&check, &String::from("alice"), 20));
    assert!(!username_has_error(&check, &String::from("bob"), 20));
    let answered_free = Some(UsernameCheck { username: String::from("alice"), available: false });
    assert!(!username_has_error(&answered_free, &String::from("alice"), 20));
    assert!(username_has_error(&None, &String::new(), 20));
    assert!(username_has_error(&None, &String::from("a long name"), 5));
}

#[test]
fn username_checks_are_asked_for_usable_names() {
    assert!(should_check_username(&String::from("alice"), 20));
    assert!(!should_check_username(&String::new(), 20));
    assert!(!should_check_username(&String::from("alice"), 3));
}

#[test]
fn registration_requests() {
    let request = registration_request(&String::from("alice"), 20, &String::from("#7f7f7f")).unwrap();
    assert_eq!(request.name, "alice");
    assert!(request.color == RgbColor { r: 127, g: 127, b: 127 });
    assert!(registration_request(&String::new(), 20, &String::from("#7f7f7f")).is_none());
    assert!(registration_request(&String::from("alice"), 2, &String::from("#7f7f7f")).is_none());
    assert!(registration_request(&String::from("alice"), 20, &String::from("#7f7f")).is_none());
    assert!(registration_request(&String::from("alice"), 20, &String::from("#7g7f7f")).is_none());
}

#[test]
fn registration_answers() {
    assert!(registration_answer_error(&RegistrationAnswer::Success(5u8)).is_none());
    let e = registration_answer_error::<u8>(&RegistrationAnswer::NoUsernameSpecified).unwrap();
    assert_eq!(e.message(), "You didn't enter a username. Enter your registration data and try again.");
    assert!(e.error().is_none());
    let e = registration_answer_error::<u8>(&RegistrationAnswer::UsernameInUse).unwrap();
    assert_eq!(e.message(), "The username you entered is already in use. Select another one and try again.");
    let e = registration_answer_error::<u8>(&RegistrationAnswer::UsernameTooLong).unwrap();
    assert_eq!(e.message(), "The username you entered is too long. Select a shorter name and try again.");
}
