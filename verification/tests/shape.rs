use escher_atlas::shape::{last_line, parse_hex_color};

#[test]
fn last_line_skips_progress_output() {
    let stdout = "Parsing scaffold description...\nCompiling to UXML/USS...\nDone.\n{\"uxml\":\"a\",\"uss\":\"b\"}";
    assert_eq!(last_line(stdout), r#"{"uxml":"a","uss":"b"}"#);
}

#[test]
fn last_line_handles_a_single_line() {
    assert_eq!(last_line("{}"), "{}");
}

#[test]
fn parses_the_actual_shape_demo_color() {
    assert_eq!(parse_hex_color("#7aa2f7"), Some((0x7a, 0xa2, 0xf7)));
}

#[test]
fn accepts_missing_leading_hash() {
    assert_eq!(parse_hex_color("7aa2f7"), Some((0x7a, 0xa2, 0xf7)));
}

#[test]
fn rejects_wrong_length() {
    assert_eq!(parse_hex_color("#fff"), None);
    assert_eq!(parse_hex_color("#7aa2f71"), None);
}

#[test]
fn rejects_non_hex_digits() {
    assert_eq!(parse_hex_color("#zzzzzz"), None);
}

#[test]
fn last_line_drops_trailing_line_break_and_carriage_return() {
    assert_eq!(last_line("progress\r\n{\"a\":1}\r\n"), "{\"a\":1}");
    assert_eq!(last_line("one\ntwo\n"), "two");
    assert_eq!(last_line(""), "");
    assert_eq!(last_line("\n"), "");
}

#[test]
fn parse_hex_color_drops_every_leading_hash_and_reads_upper_case() {
    assert_eq!(parse_hex_color("##7AA2F7"), Some((0x7a, 0xa2, 0xf7)));
    assert_eq!(parse_hex_color("000000"), Some((0, 0, 0)));
    assert_eq!(parse_hex_color("#ffffff"), Some((255, 255, 255)));
}

#[test]
fn parse_hex_color_accepts_a_plus_sign_like_from_str_radix() {
    assert_eq!(parse_hex_color("+a+b+c"), Some((0xa, 0xb, 0xc)));
    assert_eq!(parse_hex_color("-a0000"), None);
}

#[test]
fn parse_hex_color_rejects_non_ascii_text() {
    assert_eq!(parse_hex_color("#ééé"), None);
}
