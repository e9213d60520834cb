use kosmos::text::{find, parse_u32, pop_char, pop_chars, push_decimal_text};
use kosmos::words::{chars_of, split_once, split_whitespace};

#[test]
fn find_gives_the_first_occurrence() {
    assert_eq!(find(b"a&tid=1&tid=2", b"&tid"), Some(1));
    assert_eq!(find(b"abc", b"c"), Some(2));
    assert_eq!(find(b"abc", b"abc"), Some(0));
    assert_eq!(find(b"abc", b"abcd"), None);
    assert_eq!(find(b"abc", b"x"), None);
    assert_eq!(find(b"abc", b""), Some(0));
    assert_eq!(find(b"", b""), Some(0));
    assert_eq!(find(b"aab", b"ab"), Some(1));
    assert_eq!("a&tid=1&tid=2".find("&tid"), Some(1));
}

#[test]
fn numbers_are_an_optional_plus_and_digits() {
    assert_eq!(parse_u32(b"0"), Some(0));
    assert_eq!(parse_u32(b"007"), Some(7));
    assert_eq!(parse_u32(b"+42"), Some(42));
    assert_eq!(parse_u32(b"4294967295"), Some(4294967295));
    assert_eq!(parse_u32(b"4294967296"), None);
    assert_eq!(parse_u32(b"99999999999999999999999999"), None);
    assert_eq!(parse_u32(b""), None);
    assert_eq!(parse_u32(b"+"), None);
    assert_eq!(parse_u32(b"-1"), None);
    assert_eq!(parse_u32(b"++1"), None);
    assert_eq!(parse_u32(b"1 "), None);
    assert_eq!(parse_u32(b"1a"), None);
    for text in ["0", "007", "+42", "4294967295", "4294967296", "", "+", "-1", "++1", "1a"] {
        assert_eq!(parse_u32(text.as_bytes()), text.parse::<u32>().ok());
    }
}

#[test]
fn whole_characters_are_popped() {
    let mut bytes = "a雪b".as_bytes().to_vec();
    pop_char(&mut bytes);
    assert_eq!(bytes, "a雪".as_bytes());
    pop_char(&mut bytes);
    assert_eq!(bytes, b"a");
    pop_chars(&mut bytes, 3);
    assert!(bytes.is_empty());
    let mut bytes = "thread-1016638-1-1.html".as_bytes().to_vec();
    pop_chars(&mut bytes, 9);
    assert_eq!(bytes, b"thread-1016638");
    pop_chars(&mut bytes, 0);
    assert_eq!(bytes, b"thread-1016638");
}

#[test]
fn decimal_text_has_no_leading_zeros() {
    let mut out = String::from("n=");
    push_decimal_text(0, &mut out);
    push_decimal_text(4294967295, &mut out);
    push_decimal_text(1015421, &mut out);
    assert_eq!(out, "n=042949672951015421");
}

#[test]
fn words_are_parted_by_unicode_whitespace() {
    assert_eq!(split_whitespace("aoi keyword add test"), vec!["aoi", "keyword", "add", "test"]);
    assert_eq!(split_whitespace("  a \t\n b\u{3000}c\u{a0}d\u{2003}e  "), vec!["a", "b", "c", "d", "e"]);
    assert_eq!(split_whitespace(""), Vec::<String>::new());
    assert_eq!(split_whitespace(" \u{85}\u{1680}\u{2028}\u{2029}\u{202f}\u{205f}"), Vec::<String>::new());
    assert_eq!(split_whitespace("a\u{200b}b\u{feff}c"), vec!["a\u{200b}b\u{feff}c"]);
    for text in ["x  y", "\u{b}x\u{c}y\r", "雪風 D\u{2009}タイプ", "one"] {
        let expected: Vec<String> = text.split_whitespace().map(|w| w.to_owned()).collect();
        assert_eq!(split_whitespace(text), expected);
    }
}

#[test]
fn a_text_is_split_at_the_first_separator() {
    assert_eq!(split_once("a/b/c", '/'), Some(("a".to_owned(), "b/c".to_owned())));
    assert_eq!(split_once("/", '/'), Some((String::new(), String::new())));
    assert_eq!(split_once("abc", '/'), None);
    assert_eq!(split_once("", '/'), None);
    assert_eq!(split_once("雪 風", ' '), Some(("雪".to_owned(), "風".to_owned())));
    assert_eq!(chars_of("雪a"), vec!['雪', 'a']);
}
