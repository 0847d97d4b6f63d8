use http_proxy::text::{chars_of, decimal_text, find_char, split_byte_words, split_on, split_words};

#[test]
fn pieces_between_separators() {
    assert_eq!(split_on("", ','), vec![""]);
    assert_eq!(split_on("a", ','), vec!["a"]);
    assert_eq!(split_on("a,,\u{e9}b,", ','), vec!["a", "", "\u{e9}b", ""]);
}

#[test]
fn words_between_white_space() {
    assert_eq!(split_words(" a\u{b}\u{2003}bc \u{e9} "), vec!["a", "bc", "\u{e9}"]);
    assert!(split_words(" \t").is_empty());
    assert_eq!(split_words("\u{200b}"), vec!["\u{200b}"]);
}

#[test]
fn every_white_space_character_separates_words() {
    for c in '\0'..=char::MAX {
        let text = format!("a{}b", c);
        assert_eq!(split_words(&text).len(), text.split_whitespace().count());
    }
}

#[test]
fn byte_words_between_ascii_white_space() {
    assert_eq!(split_byte_words(b" a\tbc\x0cd "), vec![&b"a"[..], &b"bc"[..], &b"d"[..]]);
    assert_eq!(split_byte_words(b"a\x0bb"), vec![&b"a\x0bb"[..]]);
}

#[test]
fn places_count_characters() {
    assert_eq!(find_char("\u{e9}:a:", ':'), Some(1));
    assert_eq!(find_char("abc", ':'), None);
    assert_eq!(chars_of("\u{e9}a"), vec!['\u{e9}', 'a']);
}

#[test]
fn decimal_notation() {
    for n in 0..=u16::MAX {
        assert_eq!(decimal_text(n), n.to_string());
    }
}
