use vstd::prelude::*;
use crate::text::{all_digits, digits_value};

verus! {

/// What std's `str::parse::<i64>` gives for a string: an optional `+` or
/// `-` followed by one or more decimal digits denotes its value, when that
/// fits in an `i64`; anything else is an error.
pub open spec fn parse_i64_spec(s: Seq<char>) -> Option<int> {
    let signed = s.len() > 0 && (s[0] == '-' || s[0] == '+');
    let body = if signed { s.skip(1) } else { s };
    let magnitude = digits_value(body);
    let value = if s.len() > 0 && s[0] == '-' { -magnitude } else { magnitude };
    if body.len() > 0 && all_digits(body) && i64::MIN <= value <= i64::MAX {
        Some(value)
    } else {
        None
    }
}

/// The text std's `Display` writes for the `ParseIntError` that
/// `str::parse::<i64>` gives on `s`.
pub uninterp spec fn i64_parse_error_text(s: Seq<char>) -> Seq<char>;

/// Parses a string with std's `str::parse::<i64>`, giving an error as the
/// text of its `Display`. Claimed, after std's documentation of
/// `i64::from_str_radix`: the result is the value [`parse_i64_spec`] gives;
/// where it gives none, the error text is [`i64_parse_error_text`] of the
/// string, a function of the string alone. Which error std reports, and its
/// wording, are not described.
#[verifier::external_body]
pub(crate) fn parse_i64(s: &str) -> (parsed: Result<i64, String>)
    ensures
        match parsed {
            Ok(v) => parse_i64_spec(s@) == Some(v as int),
            Err(text) => parse_i64_spec(s@) is None && text@ == i64_parse_error_text(s@),
        },
{
    match s.parse::<i64>() {
        Ok(v) => Ok(v),
        Err(error) => Err(error.to_string()),
    }
}

/// Whether `c` is a hexadecimal digit (either case).
pub open spec fn is_hex_digit(c: char) -> bool {
    ('0' <= c && c <= '9') || ('a' <= c && c <= 'f') || ('A' <= c && c <= 'F')
}

/// The value of a hexadecimal digit character.
pub open spec fn hex_digit_value(c: char) -> int {
    if '0' <= c && c <= '9' {
        c as int - '0' as int
    } else if 'a' <= c && c <= 'f' {
        c as int - 'a' as int + 10
    } else {
        c as int - 'A' as int + 10
    }
}

/// Every character of `s` is a hexadecimal digit.
pub open spec fn all_hex_digits(s: Seq<char>) -> bool {
    forall|i: int| 0 <= i < s.len() ==> is_hex_digit(#[trigger] s[i])
}

/// The value of a string of hexadecimal digits.
pub open spec fn hex_value(s: Seq<char>) -> int
    decreases s.len(),
{
    if s.len() == 0 {
        0
    } else {
        hex_value(s.drop_last()) * 16 + hex_digit_value(s.last())
    }
}

/// What std's `u8::from_str_radix(s, 16)` gives: an optional `+` followed
/// by one or more hexadecimal digits denotes its value, when that fits in a
/// `u8`; anything else is an error.
pub open spec fn parse_hex_u8_spec(s: Seq<char>) -> Option<int> {
    let body = if s.len() > 0 && s[0] == '+' { s.skip(1) } else { s };
    if body.len() > 0 && all_hex_digits(body) && hex_value(body) <= 255 {
        Some(hex_value(body))
    } else {
        None
    }
}

/// The text std's `Display` writes for the `ParseIntError` that
/// `u8::from_str_radix(s, 16)` gives on `s`.
pub uninterp spec fn hex_u8_parse_error_text(s: Seq<char>) -> Seq<char>;

/// Parses a string with std's `u8::from_str_radix(s, 16)`, giving an error
/// as the text of its `Display`. Claimed, after std's documentation of
/// `from_str_radix`: the result is the value [`parse_hex_u8_spec`] gives;
/// where it gives none, the error text is [`hex_u8_parse_error_text`] of the
/// string. Which error std reports, and its wording, are not described.
#[verifier::external_body]
pub(crate) fn parse_hex_u8(s: &str) -> (parsed: Result<u8, String>)
    ensures
        match parsed {
            Ok(v) => parse_hex_u8_spec(s@) == Some(v as int),
            Err(text) => parse_hex_u8_spec(s@) is None && text@ == hex_u8_parse_error_text(s@),
        },
{
    match u8::from_str_radix(s, 16) {
        Ok(v) => Ok(v),
        Err(error) => Err(error.to_string()),
    }
}

} // verus!
