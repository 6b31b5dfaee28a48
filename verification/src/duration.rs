use vstd::prelude::*;
use crate::std_parse::{i64_parse_error_text, parse_i64, parse_i64_spec};
use crate::text::{
    all_digits, chars_of, concat2, decimal, digit_char, digits_value, lemma_decimal, lemma_digit_char, push_decimal,
    slice_chars, string_from_chars,
};

verus! {

/// The text of a duration of `minutes` minutes as hours:minutes: a `-` when
/// negative, the whole hours, a colon, and the remaining minutes as two digits.
pub open spec fn formatted_duration(minutes: int) -> Seq<char> {
    let magnitude = if minutes < 0 { -minutes } else { minutes };
    let hours = (magnitude / 60) as nat;
    let rest = (magnitude % 60) as nat;
    (if minutes < 0 { seq!['-'] } else { Seq::<char>::empty() }) + decimal(hours) + seq![
        ':',
        digit_char(rest / 10),
        digit_char(rest % 10),
    ]
}

/// Formats a duration, given as its total number of whole minutes (chrono's
/// `TimeDelta::num_minutes`), as hours:minutes.
pub fn format_duration(total_minutes: i64) -> (formatted: String)
    ensures
        formatted@ == formatted_duration(total_minutes as int),
{
    let negative = total_minutes < 0;
    let magnitude: u64 = if negative {
        ((-(total_minutes + 1)) as u64) + 1
    } else {
        total_minutes as u64
    };
    let hours = magnitude / 60;
    let minutes = magnitude % 60;
    let mut chars: Vec<char> = Vec::new();
    if negative {
        chars.push('-');
    }
    let ghost sign = chars@;
    push_decimal(&mut chars, hours);
    chars.push(':');
    chars.push(crate::text::digit_to_char(minutes / 10));
    chars.push(crate::text::digit_to_char(minutes % 10));
    proof {
        assert(sign =~= (if total_minutes < 0 { seq!['-'] } else { Seq::<char>::empty() }));
        assert(chars@ =~= formatted_duration(total_minutes as int));
    }
    string_from_chars(&chars)
}

/// How the text of a duration reads, split at the colon at `colon`.
pub enum DurationText {
    /// The text before the colon is no number.
    BadHours,
    /// The text after the colon is no number.
    BadMinutes,
    /// The text denotes this many minutes.
    Minutes(int),
}

/// `colon` is the index of the first colon of `s`.
pub open spec fn is_first_colon(s: Seq<char>, colon: int) -> bool {
    &&& 0 <= colon < s.len()
    &&& s[colon] == ':'
    &&& forall|j: int| 0 <= j < colon ==> s[j] != ':'
}

/// Reads hours:minutes, split at `colon`. The hours are a signed number;
/// when they begin with `-` the minutes count negative too.
pub open spec fn duration_text(s: Seq<char>, colon: int) -> DurationText {
    let hours_text = s.take(colon);
    let minutes_text = s.skip(colon + 1);
    let negative = hours_text.len() > 0 && hours_text[0] == '-';
    match (parse_i64_spec(hours_text), parse_i64_spec(minutes_text)) {
        (None, _) => DurationText::BadHours,
        (Some(_), None) => DurationText::BadMinutes,
        (Some(hours), Some(minutes)) => DurationText::Minutes(
            hours * 60 + if negative { -minutes } else { minutes },
        ),
    }
}

/// The arithmetic on the numbers read leaves `i64`.
pub open spec fn duration_overflows(s: Seq<char>, colon: int) -> bool {
    let hours_text = s.take(colon);
    let minutes_text = s.skip(colon + 1);
    let negative = hours_text.len() > 0 && hours_text[0] == '-';
    match (parse_i64_spec(hours_text), parse_i64_spec(minutes_text)) {
        (Some(hours), Some(minutes)) => {
            let signed_minutes = if negative { -minutes } else { minutes };
            !(i64::MIN <= signed_minutes <= i64::MAX) || !(i64::MIN <= hours * 60 <= i64::MAX) || !(i64::MIN
                <= hours * 60 + signed_minutes <= i64::MAX)
        },
        _ => false,
    }
}

/// `result` is what reading the duration text `s` gives: "Invalid format"
/// without a colon; else, at the first colon, a message naming the number
/// that could not be read followed by std's text for its error, or the
/// number of minutes.
pub open spec fn reads_as_duration(s: Seq<char>, result: Result<i64, String>) -> bool {
    &&& !s.contains(':') ==> (result matches Err(message) && message@ == "Invalid format"@)
    &&& forall|colon: int|
        is_first_colon(s, colon) ==> match duration_text(s, colon) {
            DurationText::BadHours => result matches Err(message) && message@ == "Couldn't parse hours: "@
                + i64_parse_error_text(s.take(colon)),
            DurationText::BadMinutes => result matches Err(message) && message@ == "Couldn't parse minutes: "@
                + i64_parse_error_text(s.skip(colon + 1)),
            DurationText::Minutes(minutes) => result == Ok::<i64, String>(minutes as i64),
        }
}

/// A negative number text parses to a value of at most zero.
proof fn lemma_negative_text(s: Seq<char>)
    requires
        s.len() > 0,
        s[0] == '-',
        parse_i64_spec(s) is Some,
    ensures
        parse_i64_spec(s).unwrap() <= 0,
{
    lemma_digits_nonnegative(s.skip(1));
}

proof fn lemma_digits_nonnegative(s: Seq<char>)
    requires
        all_digits(s),
    ensures
        digits_value(s) >= 0,
    decreases s.len(),
{
    if s.len() > 0 {
        assert(all_digits(s.drop_last()));
        lemma_digits_nonnegative(s.drop_last());
        assert(crate::text::is_digit(s[s.len() - 1]));
    }
}

/// Parses a duration typed as hours:minutes into its total number of
/// minutes (for chrono's `TimeDelta::minutes`). On failure, returns a
/// message for the user who typed it: "Invalid format" without a colon,
/// else one that says which number could not be read.
pub fn get_duration_from_formatted(formatted_duration: &str) -> (duration: Result<i64, String>)
    requires
        forall|colon: int|
            is_first_colon(formatted_duration@, colon) ==> !duration_overflows(formatted_duration@, colon),
    ensures
        reads_as_duration(formatted_duration@, duration),
{
    let chars = chars_of(formatted_duration);
    let mut colon: usize = 0;
    while colon < chars.len() && chars[colon] != ':'
        invariant
            chars@ == formatted_duration@,
            colon <= chars@.len(),
            forall|j: int| 0 <= j < colon ==> chars@[j] != ':',
        decreases chars@.len() - colon,
    {
        colon = colon + 1;
    }
    if colon == chars.len() {
        proof {
            assert(!formatted_duration@.contains(':'));
            assert forall|c: int| !is_first_colon(formatted_duration@, c) by {}
        }
        return Err(String::from_str("Invalid format"));
    }
    let ghost s = formatted_duration@;
    proof {
        assert(is_first_colon(s, colon as int));
        assert forall|c: int| is_first_colon(s, c) implies c == colon by {
            if c < colon {
            } else if c > colon {
                assert(s[colon as int] == ':');
            }
        }
        assert(s.contains(':'));
    }
    let hours_chars = slice_chars(&chars, 0, colon);
    let minutes_chars = slice_chars(&chars, colon + 1, chars.len());
    proof {
        assert(hours_chars@ =~= s.take(colon as int));
        assert(minutes_chars@ =~= s.skip(colon + 1));
    }
    let is_negative = hours_chars.len() > 0 && hours_chars[0] == '-';
    let hours_text = string_from_chars(&hours_chars);
    let minutes_text = string_from_chars(&minutes_chars);
    let hours: i64 = match parse_i64(hours_text.as_str()) {
        Ok(hours) => hours,
        Err(error) => return Err(concat2("Couldn't parse hours: ", error.as_str())),
    };
    let mut minutes: i64 = match parse_i64(minutes_text.as_str()) {
        Ok(minutes) => minutes,
        Err(error) => return Err(concat2("Couldn't parse minutes: ", error.as_str())),
    };
    proof {
        assert(!duration_overflows(s, colon as int));
    }
    if is_negative {
        proof {
            lemma_negative_text(hours_chars@);
        }
        minutes = -minutes;
    }
    Ok(hours * 60 + minutes)
}

/// Like [`get_duration_from_formatted`], but gives `None` where reading the
/// numbers leaves `i64` (where the arithmetic would overflow).
pub fn try_get_duration_from_formatted(formatted_duration: &str) -> (duration: Option<Result<i64, String>>)
    ensures
        duration is None <==> exists|colon: int|
            is_first_colon(formatted_duration@, colon) && duration_overflows(formatted_duration@, colon),
        duration matches Some(d) ==> reads_as_duration(formatted_duration@, d),
{
    let chars = chars_of(formatted_duration);
    let mut colon: usize = 0;
    while colon < chars.len() && chars[colon] != ':'
        invariant
            chars@ == formatted_duration@,
            colon <= chars@.len(),
            forall|j: int| 0 <= j < colon ==> chars@[j] != ':',
        decreases chars@.len() - colon,
    {
        colon = colon + 1;
    }
    let ghost s = formatted_duration@;
    if colon < chars.len() {
        proof {
            assert(is_first_colon(s, colon as int));
            assert forall|c: int| is_first_colon(s, c) implies c == colon by {
                if c < colon {
                } else if c > colon {
                    assert(s[colon as int] == ':');
                }
            }
        }
        let hours_chars = slice_chars(&chars, 0, colon);
        let minutes_chars = slice_chars(&chars, colon + 1, chars.len());
        proof {
            assert(hours_chars@ =~= s.take(colon as int));
            assert(minutes_chars@ =~= s.skip(colon + 1));
        }
        let is_negative = hours_chars.len() > 0 && hours_chars[0] == '-';
        let hours_text = string_from_chars(&hours_chars);
        let minutes_text = string_from_chars(&minutes_chars);
        if let (Ok(hours), Ok(minutes)) = (parse_i64(hours_text.as_str()), parse_i64(minutes_text.as_str())) {
            let signed_minutes = if is_negative {
                if minutes == i64::MIN {
                    None
                } else {
                    Some(-minutes)
                }
            } else {
                Some(minutes)
            };
            let total = match signed_minutes {
                Some(m) => match hours.checked_mul(60) {
                    Some(h) => h.checked_add(m),
                    None => None,
                },
                None => None,
            };
            if total.is_none() {
                proof {
                    assert(duration_overflows(s, colon as int));
                }
                return None;
            }
        }
    } else {
        proof {
            assert forall|c: int| !is_first_colon(s, c) by {}
        }
    }
    Some(get_duration_from_formatted(formatted_duration))
}


/// Reading back a formatted duration gives the same number of minutes:
/// the text has a colon, the first colon splits it into hours and minutes
/// that read without overflow, and they add up to `minutes` again.
pub proof fn law_format_then_parse(minutes: i64)
    ensures
        formatted_duration(minutes as int).contains(':'),
        forall|colon: int|
            is_first_colon(formatted_duration(minutes as int), colon) ==> duration_text(
                formatted_duration(minutes as int),
                colon,
            ) == DurationText::Minutes(minutes as int) && !duration_overflows(formatted_duration(minutes as int), colon),
{
    let m = minutes as int;
    let f = formatted_duration(m);
    let magnitude = if m < 0 { -m } else { m };
    let hours = (magnitude / 60) as nat;
    let rest = (magnitude % 60) as nat;
    let sign = if m < 0 { seq!['-'] } else { Seq::<char>::empty() };
    let dec = decimal(hours);
    let tail = seq![':', digit_char(rest / 10), digit_char(rest % 10)];
    lemma_decimal(hours);
    lemma_digit_char(rest / 10);
    lemma_digit_char(rest % 10);
    let l: int = (sign.len() + dec.len()) as int;
    assert(f =~= sign + dec + tail);
    assert(f[l] == ':');
    assert forall|j: int| 0 <= j < l implies f[j] != ':' by {
        if j < sign.len() {
            assert(f[j] == '-');
        } else {
            assert(f[j] == dec[j - sign.len()]);
            if dec[j - sign.len()] == ':' {
                assert(dec.contains(':'));
            }
        }
    }
    assert(f.contains(':'));
    assert forall|colon: int| is_first_colon(f, colon) implies colon == l by {
        if colon > l {
            assert(f[l] == ':');
        }
    }
    assert(is_first_colon(f, l));
    let hours_text = f.take(l);
    let minutes_text = f.skip(l + 1);
    assert(hours_text =~= sign + dec);
    assert(minutes_text =~= seq![digit_char(rest / 10), digit_char(rest % 10)]);
    assert(magnitude == hours * 60 + rest) by (nonlinear_arith)
        requires
            hours == magnitude / 60,
            rest == magnitude % 60,
            magnitude >= 0,
    ;
    assert(hours <= 200_000_000_000_000_000) by (nonlinear_arith)
        requires
            hours == magnitude / 60,
            magnitude <= 9_223_372_036_854_775_808,
            magnitude >= 0,
    ;
    if m < 0 {
        assert(hours_text.skip(1) =~= dec);
        assert(parse_i64_spec(hours_text) == Some(-(hours as int)));
    } else {
        assert(hours_text =~= dec);
        assert(parse_i64_spec(hours_text) == Some(hours as int));
    }
    assert(rest < 60);
    assert((rest / 10) * 10 + rest % 10 == rest) by (nonlinear_arith);
    let two = seq![digit_char(rest / 10), digit_char(rest % 10)];
    assert(two.drop_last() =~= seq![digit_char(rest / 10)]);
    assert(seq![digit_char(rest / 10)].drop_last() =~= Seq::<char>::empty());
    assert(digits_value(Seq::<char>::empty()) == 0);
    assert(digits_value(seq![digit_char(rest / 10)]) == (rest / 10) as int);
    assert(digits_value(two) == rest as int);
    assert(all_digits(two));
    assert(parse_i64_spec(two) == Some(rest as int));
    assert(duration_text(f, l) == DurationText::Minutes(m));
}

/// The text of `hours` hours and `minutes` minutes as hours:minutes, with a
/// `-` in front when `negative`.
pub open spec fn duration_words(hours: nat, minutes: nat, negative: bool) -> Seq<char> {
    (if negative { seq!['-'] } else { Seq::<char>::empty() }) + decimal(hours) + seq![
        ':',
        digit_char(minutes / 10),
        digit_char(minutes % 10),
    ]
}

/// Reading a duration text in the form the formatting writes (whole hours
/// without leading zeros, two digits of minutes, a `-` only for a duration
/// that is not zero) and formatting what it reads gives the text back.
pub proof fn law_parse_then_format(hours: nat, minutes: nat, negative: bool)
    requires
        hours <= 2_000_000_000_000,
        minutes < 60,
        negative ==> hours > 0 || minutes > 0,
    ensures
        duration_words(hours, minutes, negative).contains(':'),
        forall|colon: int|
            is_first_colon(duration_words(hours, minutes, negative), colon) ==> match duration_text(
                duration_words(hours, minutes, negative),
                colon,
            ) {
                DurationText::Minutes(x) => formatted_duration(x) == duration_words(hours, minutes, negative)
                    && !duration_overflows(duration_words(hours, minutes, negative), colon),
                _ => false,
            },
{
    let magnitude: int = (hours * 60 + minutes) as int;
    let x: int = if negative { -magnitude } else { magnitude };
    assert(magnitude / 60 == hours && magnitude % 60 == minutes) by (nonlinear_arith)
        requires
            magnitude == hours * 60 + minutes,
            minutes < 60,
    ;
    assert(magnitude <= 120_000_000_000_059);
    assert(formatted_duration(x) =~= duration_words(hours, minutes, negative));
    law_format_then_parse(x as i64);
}

} // verus!
