use vstd::prelude::*;
use crate::color::{color_from_rgb_str, read_color_text, ColorText, RgbColor};
use crate::error_data::ErrorData;

verus! {

/// The server's answer to whether a username can be taken.
pub struct UsernameCheck {
    pub username: String,
    pub available: bool,
}

/// The server's answer to a registration.
pub enum RegistrationAnswer<U> {
    /// The account was made; the new user.
    Success(U),
    NoUsernameSpecified,
    UsernameInUse,
    UsernameTooLong,
}

/// What the registration form sends: the chosen name and color.
pub struct RegistrationRequest {
    pub name: String,
    pub color: RgbColor,
}

/// The length of a text in bytes of UTF-8, as a `usize`.
pub open spec fn byte_len(s: Seq<char>) -> usize {
    vstd::utf8::encode_utf8(s).len() as usize
}

/// The form marks the username as in use when the last answer is about this
/// very name and carries the flag.
pub open spec fn flagged_in_use(check: Option<UsernameCheck>, username: Seq<char>) -> bool {
    match check {
        Some(c) => c.username@ == username && c.available,
        None => false,
    }
}

/// A username the form does not accept: empty, or longer than `limit`
/// bytes.
pub open spec fn unusable_username(username: Seq<char>, limit: usize) -> bool {
    username.len() == 0 || byte_len(username) > limit
}

/// Whether the username is longer than `limit` bytes.
pub fn username_too_long(username: &String, limit: usize) -> (too_long: bool)
    ensures
        too_long == (byte_len(username@) > limit),
{
    let length: usize = username.as_str().len();
    length > limit
}

/// Whether the username field shows an error: the name is flagged as in use
/// by the last check, is empty, or is too long.
pub fn username_has_error(check: &Option<UsernameCheck>, username: &String, limit: usize) -> (error: bool)
    ensures
        error == (flagged_in_use(*check, username@) || unusable_username(username@, limit)),
{
    let in_use = match check {
        Some(c) => {
            let same: bool = c.username == *username;
            same && c.available
        },
        None => false,
    };
    let empty: bool = username.as_str().is_empty();
    in_use || empty || username_too_long(username, limit)
}

/// Whether to ask the server if the username can be taken; where not, the
/// last answer is dropped.
pub fn should_check_username(username: &String, limit: usize) -> (check: bool)
    ensures
        check == !unusable_username(username@, limit),
{
    let empty: bool = username.as_str().is_empty();
    !empty && !username_too_long(username, limit)
}

/// What the form sends when submitted: nothing where the username is empty
/// or too long or the color text is not a color, else the name and the
/// color.
pub fn registration_request(username: &String, limit: usize, color_text: &String) -> (request: Option<
    RegistrationRequest,
>)
    ensures
        request is None <==> (unusable_username(username@, limit) || !(read_color_text(color_text@) is Color)),
        request matches Some(r) ==> r.name@ == username@ && read_color_text(color_text@) == ColorText::Color(
            r.color.r,
            r.color.g,
            r.color.b,
        ),
{
    let empty: bool = username.as_str().is_empty();
    if empty || username_too_long(username, limit) {
        return None;
    }
    match color_from_rgb_str(color_text.as_str()) {
        Ok(color) => Some(RegistrationRequest { name: username.clone(), color }),
        Err(_) => None,
    }
}

/// The error to show for the server's answer to a registration; none for
/// a success.
pub fn registration_answer_error<U>(answer: &RegistrationAnswer<U>) -> (error: Option<ErrorData>)
    ensures
        answer is Success <==> error is None,
        answer is NoUsernameSpecified ==> (error matches Some(e) && e@.error is None && e@.message
            == "You didn't enter a username. Enter your registration data and try again."@),
        answer is UsernameInUse ==> (error matches Some(e) && e@.error is None && e@.message
            == "The username you entered is already in use. Select another one and try again."@),
        answer is UsernameTooLong ==> (error matches Some(e) && e@.error is None && e@.message
            == "The username you entered is too long. Select a shorter name and try again."@),
{
    match answer {
        RegistrationAnswer::Success(_) => None,
        RegistrationAnswer::NoUsernameSpecified => Some(
            ErrorData::new("You didn't enter a username. Enter your registration data and try again."),
        ),
        RegistrationAnswer::UsernameInUse => Some(
            ErrorData::new("The username you entered is already in use. Select another one and try again."),
        ),
        RegistrationAnswer::UsernameTooLong => Some(
            ErrorData::new("The username you entered is too long. Select a shorter name and try again."),
        ),
    }
}

} // verus!
