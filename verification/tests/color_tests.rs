use glyph::color::{from_str, parse, Color, Error};

#[test]
fn color_names_in_any_case() {
    assert_eq!(from_str("red"), Ok(Color::Red));
    assert_eq!(from_str("Light_Blue"), Ok(Color::LightBlue));
    assert_eq!(from_str("RESET"), Ok(Color::Reset));
    assert_eq!(from_str("white"), Ok(Color::White));
}

#[test]
fn color_hex_is_rgb() {
    assert_eq!(from_str("#ff0080"), Ok(Color::Rgb(255, 0, 128)));
    assert_eq!(from_str("#FFFFFF"), Ok(Color::Rgb(255, 255, 255)));
    assert_eq!(from_str("#000000"), Ok(Color::Rgb(0, 0, 0)));
}

#[test]
fn color_hex_pairs_may_carry_a_plus_sign() {
    assert_eq!(from_str("#+f+f+f"), Ok(Color::Rgb(15, 15, 15)));
}

#[test]
fn color_bad_hex_is_invalid_hex() {
    assert_eq!(from_str("#12345"), Err(Error::InvalidHex("#12345".to_string())));
    assert_eq!(from_str("#gg0000"), Err(Error::InvalidHex("#gg0000".to_string())));
    assert_eq!(from_str("#1234567"), Err(Error::InvalidHex("#1234567".to_string())));
}

#[test]
fn color_unknown_name_is_invalid_name() {
    assert_eq!(from_str("purple"), Err(Error::InvalidName("purple".to_string())));
    assert_eq!(from_str(""), Err(Error::InvalidName(String::new())));
}

#[test]
fn color_parse_refuses_hex_cut_inside_a_char() {
    assert_eq!(parse("#1é234"), None);
    assert_eq!(parse("#é1234"), Some(Err(Error::InvalidHex("#é1234".to_string()))));
    assert_eq!(parse("#ff0080"), Some(Ok(Color::Rgb(255, 0, 128))));
    assert_eq!(parse("blue"), Some(Ok(Color::Blue)));
}
