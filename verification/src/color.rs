use vstd::prelude::*;
use crate::std_parse::{
    all_hex_digits, hex_digit_value, hex_u8_parse_error_text, hex_value, is_hex_digit, parse_hex_u8, parse_hex_u8_spec,
};
use crate::text::{chars_of, concat2, concat3, slice_chars, string_from_chars};

verus! {

/// A color with eight bits per channel.
#[derive(Clone, Copy, Debug, PartialEq, Eq, Structural)]
pub struct RgbColor {
    pub r: u8,
    pub g: u8,
    pub b: u8,
}

/// Why a color text could not be read.
#[derive(Debug)]
pub enum RgbColorError {
    /// The text is not six digits long (after an optional `#`).
    InvalidLength,
    /// A channel is no hexadecimal number: the first such channel's text,
    /// and std's text for its error.
    InvalidData { channel: String, error: String },
}

/// How a color text reads.
pub enum ColorText {
    InvalidLength,
    /// The text of the first channel that is no hexadecimal number.
    InvalidData(Seq<char>),
    Color(u8, u8, u8),
}

/// The six characters after an optional leading `#`.
pub open spec fn color_digits(s: Seq<char>) -> Seq<char> {
    if s.len() > 0 && s[0] == '#' {
        s.skip(1)
    } else {
        s
    }
}

/// Reads `#rrggbb` (the `#` optional): three channels of two characters,
/// each read as std reads a hexadecimal `u8`.
pub open spec fn read_color_text(s: Seq<char>) -> ColorText {
    let d = color_digits(s);
    if d.len() != 6 {
        ColorText::InvalidLength
    } else {
        match (
            parse_hex_u8_spec(d.subrange(0, 2)),
            parse_hex_u8_spec(d.subrange(2, 4)),
            parse_hex_u8_spec(d.subrange(4, 6)),
        ) {
            (Some(r), Some(g), Some(b)) => ColorText::Color(r as u8, g as u8, b as u8),
            (None, _, _) => ColorText::InvalidData(d.subrange(0, 2)),
            (Some(_), None, _) => ColorText::InvalidData(d.subrange(2, 4)),
            (Some(_), Some(_), None) => ColorText::InvalidData(d.subrange(4, 6)),
        }
    }
}

/// Converts a color from a `#abcdef` string.
pub fn color_from_rgb_str(color_str: &str) -> (color: Result<RgbColor, RgbColorError>)
    ensures
        read_color_text(color_str@) is InvalidLength <==> color matches Err(RgbColorError::InvalidLength),
        read_color_text(color_str@) matches ColorText::InvalidData(channel) ==> (color matches Err(
            RgbColorError::InvalidData { channel: c, error: e },
        ) && c@ == channel && e@ == hex_u8_parse_error_text(channel)),
        color matches Err(RgbColorError::InvalidData { .. }) ==> read_color_text(color_str@) is InvalidData,
        forall|r: u8, g: u8, b: u8|
            read_color_text(color_str@) == ColorText::Color(r, g, b) <==> color == Ok::<RgbColor, RgbColorError>(
                RgbColor { r, g, b },
            ),
{
    let chars = chars_of(color_str);
    let start: usize = if chars.len() > 0 && chars[0] == '#' {
        1
    } else {
        0
    };
    let ghost d = color_digits(color_str@);
    proof {
        assert(chars@.subrange(start as int, chars@.len() as int) =~= d);
    }
    if chars.len() - start != 6 {
        return Err(RgbColorError::InvalidLength);
    }
    let red_chars = slice_chars(&chars, start, start + 2);
    let green_chars = slice_chars(&chars, start + 2, start + 4);
    let blue_chars = slice_chars(&chars, start + 4, start + 6);
    proof {
        assert(red_chars@ =~= d.subrange(0, 2));
        assert(green_chars@ =~= d.subrange(2, 4));
        assert(blue_chars@ =~= d.subrange(4, 6));
    }
    let red_text = string_from_chars(&red_chars);
    let red = match parse_hex_u8(red_text.as_str()) {
        Ok(v) => v,
        Err(error) => return Err(RgbColorError::InvalidData { channel: red_text, error }),
    };
    let green_text = string_from_chars(&green_chars);
    let green = match parse_hex_u8(green_text.as_str()) {
        Ok(v) => v,
        Err(error) => return Err(RgbColorError::InvalidData { channel: green_text, error }),
    };
    let blue_text = string_from_chars(&blue_chars);
    let blue = match parse_hex_u8(blue_text.as_str()) {
        Ok(v) => v,
        Err(error) => return Err(RgbColorError::InvalidData { channel: blue_text, error }),
    };
    Ok(RgbColor { r: red, g: green, b: blue })
}

/// The lowercase hexadecimal digit for `d` (below sixteen).
pub open spec fn hex_char(d: nat) -> char {
    if d < 10 {
        ('0' as int + d) as char
    } else {
        ('a' as int + d - 10) as char
    }
}

/// `#` and the three channels as two lowercase hexadecimal digits each.
pub open spec fn rgb_text(color: RgbColor) -> Seq<char> {
    seq![
        '#',
        hex_char(color.r as nat / 16),
        hex_char(color.r as nat % 16),
        hex_char(color.g as nat / 16),
        hex_char(color.g as nat % 16),
        hex_char(color.b as nat / 16),
        hex_char(color.b as nat % 16),
    ]
}

fn hex_digit_to_char(d: u8) -> (c: char)
    requires
        d < 16,
    ensures
        c == hex_char(d as nat),
{
    if d == 0 {
        '0'
    } else if d == 1 {
        '1'
    } else if d == 2 {
        '2'
    } else if d == 3 {
        '3'
    } else if d == 4 {
        '4'
    } else if d == 5 {
        '5'
    } else if d == 6 {
        '6'
    } else if d == 7 {
        '7'
    } else if d == 8 {
        '8'
    } else if d == 9 {
        '9'
    } else if d == 10 {
        'a'
    } else if d == 11 {
        'b'
    } else if d == 12 {
        'c'
    } else if d == 13 {
        'd'
    } else if d == 14 {
        'e'
    } else {
        'f'
    }
}

/// Writes a color as `#rrggbb`, in lowercase hexadecimal.
pub fn rgb_str_from_color(color: RgbColor) -> (text: String)
    ensures
        text@ == rgb_text(color),
{
    let mut chars: Vec<char> = Vec::new();
    chars.push('#');
    chars.push(hex_digit_to_char(color.r / 16));
    chars.push(hex_digit_to_char(color.r % 16));
    chars.push(hex_digit_to_char(color.g / 16));
    chars.push(hex_digit_to_char(color.g % 16));
    chars.push(hex_digit_to_char(color.b / 16));
    chars.push(hex_digit_to_char(color.b % 16));
    proof {
        assert(chars@ =~= rgb_text(color));
    }
    string_from_chars(&chars)
}

/// The style of the entry type cell of a log row: the type's color as
/// background, with white text where `white_text` (the color contrasts more
/// with white) and black text otherwise; no style for a row without a type.
pub open spec fn type_cell_style(color: Option<RgbColor>, white_text: bool) -> Seq<char> {
    match color {
        Some(c) => "background: "@ + rgb_text(c) + "; color: "@ + (if white_text {
            "#ffffff"@
        } else {
            "#000000"@
        }),
        None => Seq::empty(),
    }
}

/// Builds the style of the entry type cell of a log row (see
/// [`type_cell_style`]); `white_text` is the contrast choice for the color.
pub fn type_cell_style_text(color: Option<RgbColor>, white_text: bool) -> (style: String)
    ensures
        style@ == type_cell_style(color, white_text),
{
    match color {
        Some(c) => {
            let background = rgb_str_from_color(c);
            let foreground = if white_text {
                "#ffffff"
            } else {
                "#000000"
            };
            let start = concat3("background: ", background.as_str(), "; color: ");
            concat2(start.as_str(), foreground)
        },
        None => String::new(),
    }
}

impl RgbColorError {
    /// The message describing the error.
    pub fn message(&self) -> (message: String)
        ensures
            self is InvalidLength ==> message@ == "color value is an invalid length"@,
            self matches RgbColorError::InvalidData { error, .. } ==> message@ == "could not parse color value: "@
                + error@,
    {
        match self {
            RgbColorError::InvalidLength => String::from_str("color value is an invalid length"),
            RgbColorError::InvalidData { error, .. } => concat2("could not parse color value: ", error.as_str()),
        }
    }
}

/// Two lowercase hexadecimal digits read back as their value.
proof fn lemma_hex_pair(v: u8)
    ensures
        parse_hex_u8_spec(seq![hex_char(v as nat / 16), hex_char(v as nat % 16)]) == Some(v as int),
{
    let hi = v as nat / 16;
    let lo = v as nat % 16;
    let s = seq![hex_char(hi), hex_char(lo)];
    assert(hi < 16 && lo < 16);
    assert(is_hex_digit(hex_char(hi)) && hex_digit_value(hex_char(hi)) == hi);
    assert(is_hex_digit(hex_char(lo)) && hex_digit_value(hex_char(lo)) == lo);
    assert(s[0] != '+');
    assert(all_hex_digits(s));
    assert(s.drop_last() =~= seq![hex_char(hi)]);
    assert(seq![hex_char(hi)].drop_last() =~= Seq::<char>::empty());
    assert(hex_value(Seq::<char>::empty()) == 0);
    assert(hex_value(seq![hex_char(hi)]) == hi);
    assert(hi * 16 + lo == v) by (nonlinear_arith)
        requires
            hi == v as nat / 16,
            lo == v as nat % 16,
    ;
    assert(hex_value(s) == v);
}

/// Reading back a written color gives the same color.
pub proof fn law_color_round_trip(color: RgbColor)
    ensures
        read_color_text(rgb_text(color)) == ColorText::Color(color.r, color.g, color.b),
{
    let t = rgb_text(color);
    let d = color_digits(t);
    assert(d =~= t.skip(1));
    lemma_hex_pair(color.r);
    lemma_hex_pair(color.g);
    lemma_hex_pair(color.b);
    assert(d.subrange(0, 2) =~= seq![hex_char(color.r as nat / 16), hex_char(color.r as nat % 16)]);
    assert(d.subrange(2, 4) =~= seq![hex_char(color.g as nat / 16), hex_char(color.g as nat % 16)]);
    assert(d.subrange(4, 6) =~= seq![hex_char(color.b as nat / 16), hex_char(color.b as nat % 16)]);
}

/// A lowercase hexadecimal digit.
pub open spec fn is_lower_hex(c: char) -> bool {
    ('0' <= c && c <= '9') || ('a' <= c && c <= 'f')
}

/// A lowercase hexadecimal digit reads as a value whose digit is itself.
proof fn lemma_lower_hex_digit(c: char)
    requires
        is_lower_hex(c),
    ensures
        is_hex_digit(c),
        0 <= hex_digit_value(c) < 16,
        hex_char(hex_digit_value(c) as nat) == c,
{
}

/// Two lowercase hexadecimal digits read as the byte they spell, whose
/// digits are themselves.
proof fn lemma_lower_hex_pair(a: char, b: char)
    requires
        is_lower_hex(a),
        is_lower_hex(b),
    ensures
        parse_hex_u8_spec(seq![a, b]) == Some(hex_digit_value(a) * 16 + hex_digit_value(b)),
        hex_char(((hex_digit_value(a) * 16 + hex_digit_value(b)) as nat) / 16) == a,
        hex_char(((hex_digit_value(a) * 16 + hex_digit_value(b)) as nat) % 16) == b,
{
    lemma_lower_hex_digit(a);
    lemma_lower_hex_digit(b);
    let p = seq![a, b];
    assert(p.drop_last() =~= seq![a]);
    assert(seq![a].drop_last() =~= Seq::<char>::empty());
    assert(seq![a].last() == a);
    assert(hex_value(Seq::<char>::empty()) == 0);
    assert(hex_value(seq![a]) == hex_digit_value(a));
    assert(p.last() == b);
    assert(hex_value(p) == hex_digit_value(a) * 16 + hex_digit_value(b));
    assert(all_hex_digits(p));
    let va = hex_digit_value(a);
    let vb = hex_digit_value(b);
    assert(((va * 16 + vb) as nat) / 16 == va && ((va * 16 + vb) as nat) % 16 == vb) by (nonlinear_arith)
        requires
            0 <= va < 16,
            0 <= vb < 16,
    ;
}

/// Reading a color text of `#` and six lowercase hexadecimal digits, then
/// writing the color read, gives the text back.
pub proof fn law_text_round_trip(s: Seq<char>)
    requires
        s.len() == 7,
        s[0] == '#',
        forall|i: int| 1 <= i < 7 ==> is_lower_hex(#[trigger] s[i]),
    ensures
        read_color_text(s) matches ColorText::Color(r, g, b) && rgb_text(RgbColor { r, g, b }) == s,
{
    let d = color_digits(s);
    assert(d =~= s.skip(1));
    assert(is_lower_hex(s[1]) && is_lower_hex(s[2]) && is_lower_hex(s[3]));
    assert(is_lower_hex(s[4]) && is_lower_hex(s[5]) && is_lower_hex(s[6]));
    lemma_lower_hex_pair(s[1], s[2]);
    lemma_lower_hex_pair(s[3], s[4]);
    lemma_lower_hex_pair(s[5], s[6]);
    assert(d.subrange(0, 2) =~= seq![s[1], s[2]]);
    assert(d.subrange(2, 4) =~= seq![s[3], s[4]]);
    assert(d.subrange(4, 6) =~= seq![s[5], s[6]]);
    let r = (hex_digit_value(s[1]) * 16 + hex_digit_value(s[2])) as u8;
    let g = (hex_digit_value(s[3]) * 16 + hex_digit_value(s[4])) as u8;
    let b = (hex_digit_value(s[5]) * 16 + hex_digit_value(s[6])) as u8;
    assert(read_color_text(s) == ColorText::Color(r, g, b));
    assert(rgb_text(RgbColor { r, g, b }) =~= s);
}

/// A character with an ASCII lowercase letter made uppercase.
pub open spec fn ascii_upper(c: char) -> char {
    if 'a' <= c && c <= 'z' {
        ((c as int) - 32) as char
    } else {
        c
    }
}

/// A text with its ASCII lowercase letters made uppercase.
pub open spec fn upper_text(s: Seq<char>) -> Seq<char> {
    s.map_values(|c: char| ascii_upper(c))
}

/// The color a reading gives, if any.
pub open spec fn color_read(t: ColorText) -> Option<(u8, u8, u8)> {
    match t {
        ColorText::Color(r, g, b) => Some((r, g, b)),
        _ => None,
    }
}

proof fn lemma_upper_hex_digit(c: char)
    ensures
        is_hex_digit(ascii_upper(c)) == is_hex_digit(c),
        is_hex_digit(c) ==> hex_digit_value(ascii_upper(c)) == hex_digit_value(c),
        ascii_upper(c) == '+' <==> c == '+',
        ascii_upper(c) == '#' <==> c == '#',
{
    if 'a' <= c && c <= 'z' {
        assert(((c as int) - 32) as char as int == (c as int) - 32);
    }
}

proof fn lemma_upper_hex_value(b: Seq<char>)
    requires
        all_hex_digits(b),
    ensures
        hex_value(upper_text(b)) == hex_value(b),
    decreases b.len(),
{
    if b.len() > 0 {
        let d = b.drop_last();
        assert(upper_text(b).drop_last() =~= upper_text(d));
        assert forall|i: int| 0 <= i < d.len() implies is_hex_digit(#[trigger] d[i]) by {
            assert(d[i] == b[i]);
        }
        lemma_upper_hex_value(d);
        assert(is_hex_digit(b[b.len() - 1]));
        lemma_upper_hex_digit(b.last());
        assert(upper_text(b).last() == ascii_upper(b.last()));
    }
}

/// Reading a channel ignores the case of its hexadecimal digits.
proof fn lemma_upper_channel(p: Seq<char>)
    ensures
        parse_hex_u8_spec(upper_text(p)) == parse_hex_u8_spec(p),
{
    let u = upper_text(p);
    if p.len() > 0 {
        lemma_upper_hex_digit(p[0]);
        assert(u[0] == ascii_upper(p[0]));
    }
    let body = if p.len() > 0 && p[0] == '+' { p.skip(1) } else { p };
    let ubody = if u.len() > 0 && u[0] == '+' { u.skip(1) } else { u };
    assert(ubody =~= upper_text(body));
    assert forall|i: int| 0 <= i < body.len() implies is_hex_digit(#[trigger] ubody[i]) == is_hex_digit(body[i]) by {
        lemma_upper_hex_digit(body[i]);
    }
    assert(all_hex_digits(ubody) == all_hex_digits(body)) by {
        if all_hex_digits(body) {
            assert forall|i: int| 0 <= i < ubody.len() implies is_hex_digit(#[trigger] ubody[i]) by {
                assert(is_hex_digit(body[i]));
            }
        }
        if all_hex_digits(ubody) {
            assert forall|i: int| 0 <= i < body.len() implies is_hex_digit(#[trigger] body[i]) by {
                assert(is_hex_digit(ubody[i]));
            }
        }
    }
    if all_hex_digits(body) {
        lemma_upper_hex_value(body);
    }
}

/// The `#` in front of a color text is optional, and the case of its
/// hexadecimal digits does not matter: the same color is read either way
/// (and the text is too long or too short either way alike).
pub proof fn law_color_text_forms(s: Seq<char>)
    requires
        s.len() == 0 || s[0] != '#',
    ensures
        read_color_text(seq!['#'] + s) == read_color_text(s),
        color_read(read_color_text(upper_text(s))) == color_read(read_color_text(s)),
        (read_color_text(upper_text(s)) is InvalidLength) == (read_color_text(s) is InvalidLength),
{
    assert(color_digits(seq!['#'] + s) =~= s);
    let u = upper_text(s);
    if s.len() > 0 {
        lemma_upper_hex_digit(s[0]);
        assert(u[0] == ascii_upper(s[0]));
    }
    assert(color_digits(u) == u);
    assert(color_digits(s) == s);
    if s.len() == 6 {
        assert(u.subrange(0, 2) =~= upper_text(s.subrange(0, 2)));
        assert(u.subrange(2, 4) =~= upper_text(s.subrange(2, 4)));
        assert(u.subrange(4, 6) =~= upper_text(s.subrange(4, 6)));
        lemma_upper_channel(s.subrange(0, 2));
        lemma_upper_channel(s.subrange(2, 4));
        lemma_upper_channel(s.subrange(4, 6));
    }
}

} // verus!
