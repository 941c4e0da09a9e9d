use compiler::text::{
    char_is_digit, char_is_hex_digit, char_is_space, char_is_word_part, char_is_word_start,
    char_width, first_char,
};

fn every_char() -> impl Iterator<Item = char> {
    (0..=0x10ffff_u32).filter_map(char::from_u32)
}

#[test]
fn width_is_the_encoded_length() {
    for c in every_char() {
        assert_eq!(char_width(c) as usize, c.len_utf8(), "{c:?}");
    }
    assert_eq!(char_width('a'), 1);
    assert_eq!(char_width('\u{7f}'), 1);
    assert_eq!(char_width('\u{80}'), 2);
    assert_eq!(char_width('\u{7ff}'), 2);
    assert_eq!(char_width('\u{800}'), 3);
    assert_eq!(char_width('\u{ffff}'), 3);
    assert_eq!(char_width('\u{10000}'), 4);
    assert_eq!(char_width('\u{10ffff}'), 4);
}

#[test]
fn whitespace_is_the_unicode_property() {
    for c in every_char() {
        assert_eq!(char_is_space(c), c.is_whitespace(), "{c:?}");
    }
    assert!(char_is_space(' '));
    assert!(char_is_space('\n'));
    assert!(char_is_space('\u{a0}'));
    assert!(char_is_space('\u{3000}'));
    assert!(!char_is_space('\u{200b}'));
    assert!(!char_is_space('\u{180e}'));
    assert!(!char_is_space('a'));
}

#[test]
fn character_classes() {
    for c in every_char() {
        assert_eq!(char_is_digit(c), c.is_ascii_digit(), "{c:?}");
        assert_eq!(char_is_hex_digit(c), c.is_ascii_hexdigit(), "{c:?}");
        assert_eq!(char_is_word_start(c), c.is_ascii_alphabetic() || c == '_', "{c:?}");
        assert_eq!(char_is_word_part(c), c.is_ascii_alphanumeric() || c == '_', "{c:?}");
    }
}

#[test]
fn first_character() {
    assert_eq!(first_char(""), None);
    assert_eq!(first_char("a"), Some('a'));
    assert_eq!(first_char("\u{e9}t\u{e9}"), Some('\u{e9}'));
    assert_eq!(first_char("\u{1f600}"), Some('\u{1f600}'));
}
