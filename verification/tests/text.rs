use lyrsync::log::{push_debug_line, push_debug_line2, push_debug_line3, push_line, push_line2};
use lyrsync::log::push_line3;
use lyrsync::text::{
    chars_of, find_part, in_class, is_ascii_punctuation, is_white_space, push_decimal,
    push_two_digits, same_text, stands_at, string_of, trim_end_of, trim_of, trim_start_of,
    CharClass,
};

#[test]
fn classes_agree_with_the_standard_library() {
    for code in 0..=0x10ffff_u32 {
        if let Some(c) = char::from_u32(code) {
            assert_eq!(is_white_space(c), c.is_whitespace());
            assert_eq!(is_ascii_punctuation(c), c.is_ascii_punctuation());
        }
    }
}

#[test]
fn classes_hold_their_characters() {
    assert!(in_class('7', CharClass::TrackNumber));
    assert!(in_class('.', CharClass::TrackNumber));
    assert!(in_class('-', CharClass::TrackNumber));
    assert!(in_class('_', CharClass::TrackNumber));
    assert!(in_class(' ', CharClass::TrackNumber));
    assert!(!in_class('a', CharClass::TrackNumber));
    assert!(!in_class('\u{661}', CharClass::TrackNumber));
    assert!(in_class('!', CharClass::Edge));
    assert!(!in_class('é', CharClass::Edge));
    assert!(!in_class('!', CharClass::Space));
}

#[test]
fn trimming() {
    let s = chars_of(" !a b! ");
    assert_eq!(string_of(trim_of(&s, CharClass::Edge)), "a b");
    assert_eq!(string_of(trim_of(&s, CharClass::Space)), "!a b!");
    assert_eq!(string_of(trim_start_of(&s, CharClass::Space)), "!a b! ");
    assert_eq!(string_of(trim_end_of(&s, CharClass::Space)), " !a b!");
    assert_eq!(string_of(trim_of(&chars_of(" \t"), CharClass::Space)), "");
}

#[test]
fn searching() {
    let s = chars_of("abcabc");
    assert_eq!(find_part(&s, &chars_of("bc")), Some(1));
    assert_eq!(find_part(&s, &chars_of("")), Some(0));
    assert_eq!(find_part(&s, &chars_of("cb")), None);
    assert_eq!(find_part(&s, &chars_of("abcabca")), None);
    assert!(stands_at(&s, &chars_of("abc"), 3));
    assert!(!stands_at(&s, &chars_of("abc"), 4));
    assert!(same_text("ä", "ä"));
    assert!(!same_text("a", "ab"));
    assert!(!same_text("a", "b"));
}

#[test]
fn decimal_numbers() {
    let mut out = String::from("n=");
    push_decimal(&mut out, 0);
    push_decimal(&mut out, 90210);
    push_decimal(&mut out, u64::MAX);
    assert_eq!(out, "n=09021018446744073709551615");
    let mut two = String::new();
    push_two_digits(&mut two, 0);
    push_two_digits(&mut two, 9);
    push_two_digits(&mut two, 10);
    push_two_digits(&mut two, 123);
    assert_eq!(two, "000910123");
}

#[test]
fn log_lines() {
    let mut log = String::from("x");
    push_line(&mut log, "a");
    push_line2(&mut log, "a", "b");
    push_line3(&mut log, "a", "b", "c");
    push_debug_line(&mut log, false, "d");
    push_debug_line(&mut log, true, "d");
    push_debug_line2(&mut log, false, "d", "e");
    push_debug_line2(&mut log, true, "d", "e");
    push_debug_line3(&mut log, false, "d", "e", "f");
    push_debug_line3(&mut log, true, "d", "e", "f");
    assert_eq!(log, "xa\nab\nabc\nd\nde\ndef\n");
}
