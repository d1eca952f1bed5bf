use escher_atlas::style::{BackgroundColor, Color, ContentColor, HexColorError, Rgba};

fn rgba(red: u8, green: u8, blue: u8, alpha: u8) -> Color {
    Color(Some(Rgba { red, green, blue, alpha }))
}

#[test]
fn six_and_three_digit_codes_are_opaque() {
    assert_eq!(Color::try_from("#7aa2f7"), Ok(rgba(0x7a, 0xa2, 0xf7, 255)));
    assert_eq!(Color::try_from("7aa2f7"), Ok(rgba(0x7a, 0xa2, 0xf7, 255)));
    assert_eq!(Color::try_from("#abc"), Ok(rgba(0xaa, 0xbb, 0xcc, 255)));
    assert_eq!(Color::try_from("#FFF"), Ok(rgba(255, 255, 255, 255)));
}

#[test]
fn eight_digit_codes_carry_alpha() {
    assert_eq!(Color::try_from("#11223344"), Ok(rgba(0x11, 0x22, 0x33, 0x44)));
    assert_eq!(Color::try_from("#555555ff"), Ok(rgba(0x55, 0x55, 0x55, 0xff)));
}

#[test]
fn other_lengths_and_digits_are_refused() {
    // Four digits go the opaque way, which takes only three or six.
    assert_eq!(Color::try_from("#abcd"), Err(HexColorError::RgbFormat));
    assert_eq!(Color::try_from("#1234567"), Err(HexColorError::RgbFormat));
    assert_eq!(Color::try_from(""), Err(HexColorError::RgbFormat));
    assert_eq!(Color::try_from("#zzzzzz"), Err(HexColorError::Digits));
    assert_eq!(Color::try_from("#12345g78"), Err(HexColorError::Digits));
}

#[test]
fn a_second_hash_is_dropped_by_the_parser_too() {
    assert_eq!(Color::try_from("##123456"), Ok(rgba(0x12, 0x34, 0x56, 255)));
    assert_eq!(Color::try_from("##1234567"), Err(HexColorError::RgbaFormat));
}

#[test]
fn a_plus_sign_reads_as_a_number_sign() {
    assert_eq!(Color::try_from("#+f+f+f"), Ok(rgba(15, 15, 15, 255)));
    assert_eq!(Color::try_from("#+ff"), Err(HexColorError::Digits));
}

#[test]
fn from_falls_back_to_no_color() {
    assert_eq!(Color::from("nope"), Color(None));
    assert_eq!(Color::default(), Color(None));
    assert_eq!(Color::from("#1a1b26"), rgba(0x1a, 0x1b, 0x26, 255));
    assert_eq!(Color::new(1, 2, 3, 4), rgba(1, 2, 3, 4));
}

#[test]
fn background_and_content_colors_read_the_same_codes() {
    assert_eq!(BackgroundColor::try_from("#1a1b26"), Ok(BackgroundColor(rgba(0x1a, 0x1b, 0x26, 255))));
    assert_eq!(ContentColor::try_from("#7aa2f7"), Ok(ContentColor(rgba(0x7a, 0xa2, 0xf7, 255))));
    assert_eq!(ContentColor::from("#565f89"), ContentColor(rgba(0x56, 0x5f, 0x89, 255)));
    assert_eq!(BackgroundColor::from("bag"), BackgroundColor(Color(None)));
    assert_eq!(BackgroundColor::new(9, 8, 7, 6), BackgroundColor(rgba(9, 8, 7, 6)));
    assert_eq!(ContentColor::new(9, 8, 7, 6), ContentColor(rgba(9, 8, 7, 6)));
    assert_eq!(ContentColor::try_from("#12"), Err(HexColorError::RgbFormat));
}
