use sids::text::{check_term, count_occurrences, lower_byte, matches_at, word_byte};

#[test]
fn word_bytes() {
    assert!(word_byte(b'a'));
    assert!(word_byte(b'Z'));
    assert!(word_byte(b'0'));
    assert!(word_byte(0x80));
    assert!(word_byte(0xff));
    assert!(!word_byte(b' '));
    assert!(!word_byte(b'-'));
    assert!(!word_byte(b'_'));
    assert!(!word_byte(0));
}

#[test]
fn lower_casing() {
    assert_eq!(lower_byte(b'A'), b'a');
    assert_eq!(lower_byte(b'Z'), b'z');
    assert_eq!(lower_byte(b'a'), b'a');
    assert_eq!(lower_byte(b'@'), b'@');
    assert_eq!(lower_byte(b'['), b'[');
    assert_eq!(lower_byte(0xc9), 0xc9);
}

#[test]
fn terms_are_single_words() {
    assert!(check_term(b"apple"));
    assert!(check_term(b"R2D2"));
    assert!(check_term("caf\u{e9}".as_bytes()));
    assert!(!check_term(b""));
    assert!(!check_term(b"apple pie"));
    assert!(!check_term(b"a-b"));
}

#[test]
fn whole_words_only() {
    let text = b"apple pie, pineapple; Apple-apple apples";
    assert_eq!(count_occurrences(text, b"apple", false), 3);
    assert_eq!(count_occurrences(text, b"apple", true), 2);
    assert_eq!(count_occurrences(text, b"pie", true), 1);
    assert_eq!(count_occurrences(text, b"pine", true), 0);
    assert_eq!(count_occurrences(text, b"apples", true), 1);
    assert_eq!(count_occurrences(text, b"", true), 0);
    assert_eq!(count_occurrences(b"", b"apple", true), 0);
    assert_eq!(count_occurrences(b"apple", b"apple", true), 1);
}

#[test]
fn match_positions() {
    let text = b"an apple";
    assert!(matches_at(text, b"an", 0, true));
    assert!(matches_at(text, b"apple", 3, true));
    assert!(matches_at(text, b"APPLE", 3, false));
    assert!(!matches_at(text, b"APPLE", 3, true));
    assert!(!matches_at(text, b"pple", 4, true));
    assert!(!matches_at(text, b"app", 3, true));
    assert!(!matches_at(text, b"apple", 8, true));
    assert!(!matches_at(text, b"apples", 3, true));
}
