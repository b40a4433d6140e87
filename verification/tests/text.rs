use web_rwkv::names::NameMap;
use web_rwkv::text::{find_char, parse_usize, remove_all, str_eq, strip_prefix, to_chars, to_decimal};

#[test]
fn numbers_are_written_and_read_back() {
    for n in [0, 7, 10, 409, usize::MAX] {
        let text = to_decimal(n);
        assert_eq!(text, n.to_string());
        assert_eq!(parse_usize(&to_chars(&text)), Some(n));
    }
}

#[test]
fn numbers_are_read_as_unsigned() {
    assert_eq!(parse_usize(&to_chars("+12")), Some(12));
    assert_eq!(parse_usize(&to_chars("007")), Some(7));
    for text in ["", "+", "-1", "1a", "++1", " 1", "99999999999999999999999"] {
        assert_eq!(parse_usize(&to_chars(text)), None);
        assert!(text.parse::<usize>().is_err());
    }
}

#[test]
fn prefixes_are_stripped() {
    assert_eq!(strip_prefix(&to_chars("blocks.3"), "blocks."), Some(vec!['3']));
    assert_eq!(strip_prefix(&to_chars("block"), "blocks."), None);
    assert_eq!(find_char(&to_chars("a.b"), '.'), 1);
    assert_eq!(find_char(&to_chars("ab"), '.'), 2);
}

#[test]
fn occurrences_are_removed_from_the_left() {
    assert_eq!(remove_all("abcabc", "bc"), "aa");
    assert_eq!(remove_all("aaa", "aa"), "a");
    assert!(str_eq("a\u{e9}", "a\u{e9}"));
    assert!(!str_eq("a", "ab"));
}

#[test]
fn names_have_the_last_value() {
    let mut map: NameMap<u32> = NameMap::new();
    map.insert("a".to_string(), 1);
    map.insert("b".to_string(), 2);
    map.insert("a".to_string(), 3);
    assert_eq!(map.len(), 2);
    assert_eq!(map.get("a"), Some(&3));
    assert_eq!(map.name_at(0), "a");
    assert_eq!(*map.value_at(1), 2);
    assert!(map.contains("b"));
    assert_eq!(map.remove("a"), Some(3));
    assert_eq!(map.remove("a"), None);
    assert!(!map.contains("a"));
    assert_eq!(map.get("b"), Some(&2));
}
