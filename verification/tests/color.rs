use stream_log_client::color::{color_from_rgb_str, rgb_str_from_color, type_cell_style_text, RgbColor, RgbColorError};

#[test]
fn parses_color_with_hash() {
    let color = color_from_rgb_str("#ff8000").unwrap();
    assert_eq!(color, RgbColor { r: 255, g: 128, b: 0 });
}

#[test]
fn parses_color_without_hash_and_uppercase() {
    let color = color_from_rgb_str("0A0b10").unwrap();
    assert_eq!(color, RgbColor { r: 10, g: 11, b: 16 });
}

#[test]
fn channel_with_plus_sign_reads_as_std_reads_it() {
    let color = color_from_rgb_str("#+f0000").unwrap();
    assert_eq!(color, RgbColor { r: 15, g: 0, b: 0 });
}

#[test]
fn short_color_is_invalid_length() {
    assert!(matches!(color_from_rgb_str("#fff"), Err(RgbColorError::InvalidLength)));
    assert!(matches!(color_from_rgb_str(""), Err(RgbColorError::InvalidLength)));
    assert!(matches!(color_from_rgb_str("#"), Err(RgbColorError::InvalidLength)));
}

#[test]
fn long_color_is_invalid_length() {
    assert!(matches!(color_from_rgb_str("#1234567"), Err(RgbColorError::InvalidLength)));
    assert!(matches!(color_from_rgb_str("##123456"), Err(RgbColorError::InvalidLength)));
}

#[test]
fn non_hex_color_is_invalid_data() {
    assert!(matches!(color_from_rgb_str("#12345g"), Err(RgbColorError::InvalidData { .. })));
    assert!(matches!(color_from_rgb_str("#-10000"), Err(RgbColorError::InvalidData { .. })));
}

#[test]
fn error_messages() {
    assert_eq!(RgbColorError::InvalidLength.message(), "color value is an invalid length");
    let err = color_from_rgb_str("zz0000").unwrap_err();
    assert!(err.message().starts_with("could not parse color value: "));
    assert!(err.message().len() > "could not parse color value: ".len());
    match color_from_rgb_str("#12345g").unwrap_err() {
        RgbColorError::InvalidData { channel, error } => {
            assert_eq!(channel, "5g");
            assert_eq!(error, u8::from_str_radix("5g", 16).unwrap_err().to_string());
        },
        RgbColorError::InvalidLength => panic!("expected invalid data"),
    }
    assert_eq!(
        color_from_rgb_str("00zz00").unwrap_err().message(),
        "could not parse color value: invalid digit found in string"
    );
}

#[test]
fn formats_color_lowercase_padded() {
    assert_eq!(rgb_str_from_color(RgbColor { r: 255, g: 8, b: 171 }), "#ff08ab");
    assert_eq!(rgb_str_from_color(RgbColor { r: 0, g: 0, b: 0 }), "#000000");
}

#[test]
fn color_round_trip() {
    for (r, g, b) in [(0u8, 0u8, 0u8), (16, 16, 16), (255, 255, 255), (1, 127, 200)] {
        let color = RgbColor { r, g, b };
        assert_eq!(color_from_rgb_str(&rgb_str_from_color(color)).unwrap(), color);
    }
}

#[test]
fn type_cell_styles() {
    let color = RgbColor { r: 255, g: 8, b: 171 };
    assert_eq!(type_cell_style_text(Some(color), true), "background: #ff08ab; color: #ffffff");
    assert_eq!(type_cell_style_text(Some(color), false), "background: #ff08ab; color: #000000");
    assert_eq!(type_cell_style_text(None, true), "");
}

#[test]
fn text_round_trip_and_forms() {
    assert_eq!(rgb_str_from_color(color_from_rgb_str("#0a1bff").unwrap()), "#0a1bff");
    assert_eq!(color_from_rgb_str("0a1bff").unwrap(), color_from_rgb_str("#0A1BFF").unwrap());
}
