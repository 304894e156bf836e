use code_parsers::color::{InvalidDigit, Rgb, RgbError};

#[test]
fn every_color() {
    let colors = (0_u8..255).zip(0_u8..255).zip(0_u8..255);

    for ((r, g), b) in colors {
        let hex = format!("#{:02x}{:02x}{:02x}", r, g, b);
        let color: Rgb = Rgb::from_str(&hex).unwrap();
        assert_eq!(hex, color.to_string());
    }
}

#[test]
#[should_panic]
fn too_short() {
    let _: Rgb = Rgb::from_str("1234").unwrap();
}

#[test]
#[should_panic]
fn not_a_hex_code() {
    let _: Rgb = Rgb::from_str("?").unwrap();
}

#[test]
#[should_panic]
fn invalid_literals() {
    let _: Rgb = Rgb::from_str("?").unwrap();
}

#[test]
#[should_panic]
fn no_leading_hash() {
    let _: Rgb = Rgb::from_str("aabbcc").unwrap();
}

#[test]
#[should_panic]
fn out_of_bounds() {
    let _: Rgb = Rgb::from_str("00gg00").unwrap();
}

#[test]
fn every_channel_round_trips() {
    for v in 0_u16..256 {
        let v = v as u8;
        for c in [Rgb::new(v, 0, 0), Rgb::new(0, v, 0), Rgb::new(0, 0, v), Rgb::new(v, 255 - v, v / 2)] {
            let text = c.to_string();
            assert_eq!(text, format!("#{:02x}{:02x}{:02x}", c.r(), c.g(), c.b()));
            assert_eq!(Rgb::from_str(&text), Ok(c));
        }
    }
}

#[test]
fn channels_are_read_high_digit_first_red_first() {
    let c = Rgb::from_str("#12ab3F").unwrap();
    assert_eq!((c.r(), c.g(), c.b()), (0x12, 0xab, 0x3f));
    assert_eq!(c, Rgb::new(18, 171, 63));
}

#[test]
fn output_is_lowercase_and_zero_padded() {
    assert_eq!(Rgb::new(5, 0, 255).to_string(), "#0500ff");
    assert_eq!(Rgb::from_str("#ABCDEF").unwrap().to_string(), "#abcdef");
}

#[test]
fn canonical_text_round_trips() {
    for text in ["#000000", "#ffffff", "#0a1b2c", "#fedcba"] {
        assert_eq!(Rgb::from_str(text).unwrap().to_string(), text);
    }
}

#[test]
fn non_hex_digit_is_reported() {
    assert_eq!(
        Rgb::from_str("#gg0000"),
        Err(RgbError::HexParseError(InvalidDigit { index: 1, found: 'g' }))
    );
    assert_eq!(
        Rgb::from_str("#00gg00"),
        Err(RgbError::HexParseError(InvalidDigit { index: 3, found: 'g' }))
    );
    assert_eq!(
        Rgb::from_str("#+abcde"),
        Err(RgbError::HexParseError(InvalidDigit { index: 1, found: '+' }))
    );
}

#[test]
fn wrong_length_is_reported() {
    assert_eq!(Rgb::from_str("1234"), Err(RgbError::InputLengthError));
    assert_eq!(Rgb::from_str(""), Err(RgbError::InputLengthError));
    assert_eq!(Rgb::from_str("#1234567"), Err(RgbError::InputLengthError));
    assert_eq!(Rgb::from_str("#gg"), Err(RgbError::InputLengthError));
}

#[test]
fn missing_hash_is_reported() {
    assert_eq!(Rgb::from_str("aabbcc"), Err(RgbError::InputLengthError));
    assert_eq!(Rgb::from_str("aabbcc0"), Err(RgbError::MissingHashPrefix));
    assert_eq!(Rgb::from_str("0gg0000"), Err(RgbError::MissingHashPrefix));
}
