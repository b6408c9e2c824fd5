use flight_radar::text::{ascii_alphanumeric, to_chars, whitespace};

#[test]
fn whitespace_is_what_the_standard_library_calls_whitespace() {
    for code in 0..=0x10FFFFu32 {
        if let Some(c) = char::from_u32(code) {
            assert_eq!(whitespace(c), c.is_whitespace(), "U+{:04X}", code);
        }
    }
}

#[test]
fn alphanumeric_is_what_the_standard_library_calls_ascii_alphanumeric() {
    for code in 0..=0x10FFFFu32 {
        if let Some(c) = char::from_u32(code) {
            assert_eq!(ascii_alphanumeric(c), c.is_ascii_alphanumeric(), "U+{:04X}", code);
        }
    }
}

#[test]
fn characters_come_out_in_order() {
    assert_eq!(to_chars("a\u{e9}\u{4e16}!"), vec!['a', '\u{e9}', '\u{4e16}', '!']);
    assert_eq!(to_chars(""), Vec::<char>::new());
}
