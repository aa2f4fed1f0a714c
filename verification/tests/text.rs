use tasklist::text::{char_is_space, chars_of, string_of, text_is_blank};

#[test]
fn chars_of_lists_the_characters() {
    assert_eq!(chars_of(""), Vec::<char>::new());
    assert_eq!(chars_of("aé\u{1F600}z"), vec!['a', 'é', '\u{1F600}', 'z']);
}

#[test]
fn string_of_joins_the_characters() {
    assert_eq!(string_of(&vec![]), "");
    assert_eq!(string_of(&vec!['a', 'é', '\u{1F600}', 'z']), "aé\u{1F600}z");
}

#[test]
fn white_space_is_what_unicode_says() {
    for code in 0u32..0x11_0000 {
        if let Some(c) = char::from_u32(code) {
            assert_eq!(char_is_space(c), c.is_whitespace(), "U+{:04X}", code);
        }
    }
}

#[test]
fn blank_texts() {
    assert!(text_is_blank(""));
    assert!(text_is_blank("   "));
    assert!(text_is_blank(" \t\r\n\u{b}\u{c}\u{85}\u{2028}"));
    assert!(!text_is_blank("a"));
    assert!(!text_is_blank("  a  "));
    assert!(!text_is_blank("   ."));
}
