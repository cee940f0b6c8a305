use kirk::text;
use kirk::textmap::TextMap;
use kirk::words::{single_quote, split_words, variable_name, LoneBackslash, SplitRules};

#[test]
fn white_space_is_that_of_the_language() {
    for code in 0..=0x10ffffu32 {
        if let Some(c) = char::from_u32(code) {
            assert_eq!(text::is_whitespace(c), c.is_whitespace(), "{code:x}");
        }
    }
}

#[test]
fn decimal_digits_are_those_of_the_pattern() {
    let class = regex::Regex::new(r"^\d$").unwrap();
    for c in ['0', '9', 'a', '-', ' ', '\u{7f}', '\u{660}', '\u{96f}', '\u{b2}', '\u{ff15}', 'é'] {
        assert_eq!(text::is_decimal_digit(c), class.is_match(&c.to_string()), "{c:?}");
    }
}

#[test]
fn trimming_is_that_of_the_language() {
    for s in ["", " ", " a ", "\ta b\n", "\u{3000}x\u{a0}", "plain"] {
        assert_eq!(text::trim(s), s.trim());
        assert_eq!(text::trim_end(s), s.trim_end());
        assert_eq!(text::is_blank(s), s.trim().is_empty());
        let twice = text::trim(&text::trim(s));
        assert_eq!(twice, text::trim(s));
    }
}

#[test]
fn lines_and_pieces_are_those_of_the_language() {
    for s in ["", "\n", "a", "a\n", "a\nb", "a\r\nb\r\n\r\nc", "\na\n\nb"] {
        assert_eq!(text::lines(s), s.lines().collect::<Vec<_>>());
        assert_eq!(text::split_on(s, '\n'), s.split('\n').collect::<Vec<_>>());
        assert_eq!(
            text::split_whitespace(s),
            s.split_whitespace().collect::<Vec<_>>()
        );
    }
}

#[test]
fn numbers_are_those_of_the_language() {
    for n in [0, 7, 10, 255, 4096, u64::MAX] {
        assert_eq!(text::decimal(n), n.to_string());
        assert_eq!(text::parse_unsigned(&text::decimal(n), u64::MAX), Some(n));
    }
    for n in [0, -1, 42, i64::MIN, i64::MAX] {
        assert_eq!(text::signed_decimal(n), n.to_string());
        assert_eq!(text::parse_signed(&text::signed_decimal(n)), Some(n));
    }
    for s in [
        "", "+", "-", "+5", "-5", "--5", "5x", " 5", "007", "18446744073709551616",
        "9223372036854775808", "-9223372036854775808", "-9223372036854775809", "٣",
    ] {
        assert_eq!(text::parse_unsigned(s, u64::MAX), s.parse::<u64>().ok(), "{s}");
        assert_eq!(
            text::parse_unsigned(s, 255),
            s.parse::<u8>().ok().map(u64::from),
            "{s}"
        );
        assert_eq!(text::parse_signed(s), s.parse::<i64>().ok(), "{s}");
    }
}

#[test]
fn searching_is_that_of_the_language() {
    for (hay, needle) in [("", ""), ("abc", ""), ("abcabc", "ca"), ("abc", "abcd"), ("äöü", "öü")] {
        assert_eq!(text::contains(hay, needle), hay.contains(needle));
        assert_eq!(text::starts_with(hay, needle), hay.starts_with(needle));
        assert_eq!(
            text::strip_prefix(hay, needle).as_deref(),
            hay.strip_prefix(needle)
        );
        assert_eq!(text::byte_count(hay), hay.len());
    }
    let parts = vec!["a".to_owned(), "b".to_owned()];
    assert_eq!(text::join(&parts, ", "), "a, b");
    assert_eq!(text::join(&Vec::new(), ", "), "");
}

#[test]
fn map_keeps_its_keys_in_order() {
    let mut map = TextMap::new();
    assert!(map.is_empty());
    for (key, value) in [("b", "2"), ("a", "1"), ("ab", "3"), ("b", "4"), ("Z", "5")] {
        map.insert(key, value);
    }
    let keys: Vec<&str> = (0..map.len()).map(|i| map.key_at(i)).collect();
    assert_eq!(keys, ["Z", "a", "ab", "b"]);
    assert_eq!(map.get("b"), Some("4"));
    assert_eq!(map.value_at(1), "1");
    assert!(map.contains_key("ab"));
    let copy = map.clone();
    map.remove("ab");
    map.remove("missing");
    assert_eq!(map.get("ab"), None);
    assert_eq!(map.len(), 3);
    assert_eq!(copy.len(), 4);
    assert_ne!(map, copy);
}

#[test]
fn quoted_text_is_one_word() {
    let rules = SplitRules { lone_backslash: LoneBackslash::OpensWord, refuse_syntax: false };
    for s in ["", "plain", "a b", "it's", "'", "a\\b\"c", "$(x); |", "\n", "ü 'x' \"y\""] {
        let words = split_words(&single_quote(s), rules).unwrap();
        assert_eq!(words, vec![s.to_owned()], "{s:?}");
    }
}

#[test]
fn variable_names() {
    for good in ["A", "_", "a1_B", "PATH"] {
        assert!(variable_name(good), "{good}");
    }
    for bad in ["", "1A", "A-B", "A B", "é", "A="] {
        assert!(!variable_name(bad), "{bad}");
    }
}
