use miru::map::{place_of, Place, TextMap};
use miru::number::{decimal_text, parse_i64, push_decimal, signed_text};
use miru::text::{chars_of, contains, join, same, starts_with, text_of, trim_end};
use miru::time::{time_text, Timestamp};

#[test]
fn numbers_in_decimal() {
    assert_eq!(decimal_text(0), "0");
    assert_eq!(decimal_text(10), "10");
    assert_eq!(decimal_text(u64::MAX), u64::MAX.to_string());
    assert_eq!(signed_text(-1), "-1");
    assert_eq!(signed_text(i64::MIN), i64::MIN.to_string());
    assert_eq!(signed_text(i64::MAX), i64::MAX.to_string());
    let mut out = String::from("n=");
    push_decimal(&mut out, 907);
    assert_eq!(out, "n=907");
}

#[test]
fn numbers_are_read_as_the_standard_library_reads_them() {
    for text in [
        "", "+", "-", "0", "-0", "+7", "007", "12a", " 1", "1 ", "--1", "9223372036854775807",
        "9223372036854775808", "-9223372036854775808", "-9223372036854775809", "٣",
        "99999999999999999999999999",
    ] {
        assert_eq!(parse_i64(text), text.parse::<i64>().ok(), "{text}");
    }
}

#[test]
fn decimal_numbers_read_back() {
    for n in [i64::MIN, -10, -1, 0, 1, 9, 10, 99, 100, i64::MAX] {
        assert_eq!(parse_i64(&signed_text(n)), Some(n));
    }
}

#[test]
fn ends_are_trimmed() {
    assert_eq!(trim_end("http://x//", '/'), "http://x");
    assert_eq!(trim_end("//", '/'), "");
    assert_eq!(trim_end("/a", '/'), "/a");
    assert_eq!(trim_end(&trim_end("a//", '/'), '/'), "a");
}

#[test]
fn texts_are_compared_and_searched() {
    assert!(same("é", "é"));
    assert!(!same("a", "ab"));
    assert!(!same("ab", "aa"));
    assert!(starts_with("https://x", "https://"));
    assert!(!starts_with("http", "http://"));
    assert!(contains("abcabd", "abd"));
    assert!(contains("", ""));
    assert!(contains("a", ""));
    assert!(!contains("ab", "abc"));
    assert!(!contains("aaab", "aaaa"));
}

#[test]
fn texts_are_taken_apart_and_joined() {
    assert_eq!(chars_of("aé"), vec!['a', 'é']);
    assert_eq!(text_of(&vec!['é', 'a']), "éa");
    let items = vec!["a".to_string(), String::new(), "b".to_string()];
    assert_eq!(join(&items, ", "), "a, , b");
    assert_eq!(join(&vec![], ", "), "");
}

#[test]
fn places_follow_the_order_of_strings() {
    for a in ["", "a", "ab", "b", "é", "\u{10000}", "\u{ffff}"] {
        for b in ["", "a", "ab", "b", "é", "\u{10000}", "\u{ffff}"] {
            let expected = if a < b {
                Place::Before
            } else if a == b {
                Place::Same
            } else {
                Place::After
            };
            assert_eq!(place_of(a, b), expected, "{a} {b}");
        }
    }
}

#[test]
fn a_map_keeps_each_key_once_and_in_order() {
    let mut map: TextMap<u32> = TextMap::new();
    assert_eq!(map.len(), 0);
    assert_eq!(map.get("a"), None);
    for (key, value) in [("b", 1), ("a", 2), ("c", 3), ("b", 4)] {
        map.insert(key.to_string(), value);
    }
    let entries: Vec<(String, u32)> =
        (0..map.len()).map(|i| (map.key_at(i).clone(), *map.value_at(i))).collect();
    assert_eq!(
        entries,
        vec![("a".to_string(), 2), ("b".to_string(), 4), ("c".to_string(), 3)]
    );
    assert_eq!(map.get("b"), Some(&4));
    assert_eq!(map.get("a"), Some(&2));
    assert_eq!(map.get("d"), None);
}

#[test]
fn instants_in_words() {
    let at = |secs: i64, nanos: u32| time_text(Timestamp { secs, nanos });
    assert_eq!(at(0, 999_999_999), "1970-01-01T00:00:00Z");
    assert_eq!(at(253_402_300_799, 0), "9999-12-31T23:59:59Z");
    assert_eq!(at(-62_167_219_200, 0), "0000-01-01T00:00:00Z");
    assert_eq!(at(1_483_228_799, 1_000_000_000), "2016-12-31T23:59:60Z");
    assert_eq!(at(8_210_266_876_799, 0), "+262142-12-31T23:59:59Z");
    assert_eq!(at(-8_334_601_228_800, 0), "-262143-01-01T00:00:00Z");
}
