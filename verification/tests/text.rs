use celld_storage::numbers::{
    decimal, decimal_large, hex, parse_digits, parse_natural, signed_decimal, spells_integer,
};
use celld_storage::text::{
    chars_of, concat3, contains, cut, ends_with, eq_ignoring_case, find, find_char, is_before,
    rfind_char, same_text, starts_with, string_of, text_eq_ignoring_case, trim, trim_char,
    trim_end_char,
};
use celld_storage::text_map::TextMap;

fn c(s: &str) -> Vec<char> {
    s.chars().collect()
}

#[test]
fn texts_are_cut_and_joined() {
    assert_eq!(chars_of("aé"), ['a', 'é']);
    assert_eq!(string_of(&['a', 'é']), "aé");
    assert_eq!(cut(&c("hello"), 1, 3), c("el"));
    assert_eq!(concat3("a", "", "b"), "ab");
    assert!(same_text("é", "é"));
    assert!(!same_text("a", "A"));
}

#[test]
fn texts_are_searched() {
    assert_eq!(find(&c("abcabc"), &c("ca")), Some(2));
    assert_eq!(find(&c("abc"), &c("")), Some(0));
    assert_eq!(find(&c("abc"), &c("abcd")), None);
    assert!(contains(&c("abc"), &c("c")));
    assert_eq!(find_char(&c("a/b/"), '/'), Some(1));
    assert_eq!(rfind_char(&c("a/b/"), '/'), Some(3));
    assert!(starts_with(&c("abc"), &c("ab")));
    assert!(ends_with(&c("abc"), &c("bc")));
    assert!(!ends_with(&c("bc"), &c("abc")));
}

#[test]
fn ascii_case_is_ignored_and_no_other() {
    assert!(text_eq_ignoring_case("Sqlite_", "SQLITE_"));
    assert!(!eq_ignoring_case(&c("É"), &c("é")));
}

#[test]
fn texts_are_trimmed() {
    assert_eq!(trim(&c(" \t a b\u{3000}")), c("a b"));
    assert_eq!(trim_char(&c("\"a\""), '"'), c("a"));
    assert_eq!(trim_end_char(&c("a//"), '/'), c("a"));
}

#[test]
fn texts_are_ordered_by_their_characters() {
    assert!(is_before(&c("a"), &c("ab")));
    assert!(is_before(&c("Z"), &c("a")));
    assert!(is_before(&c("\u{ffff}"), &c("\u{10000}")));
    assert!(!is_before(&c("a"), &c("a")));
}

#[test]
fn numbers_are_written_and_read() {
    assert_eq!(decimal(0), "0");
    assert_eq!(decimal(u64::MAX), "18446744073709551615");
    assert_eq!(decimal_large(u128::MAX), "340282366920938463463374607431768211455");
    assert_eq!(signed_decimal(i64::MIN), "-9223372036854775808");
    assert_eq!(hex(255, 4), c("00ff"));
    assert_eq!(hex(0x12345, 4), c("12345"));
    assert_eq!(parse_digits(&c("ff"), 16, u64::MAX), Some(255));
    assert_eq!(parse_natural(&c("+7"), 10, u64::MAX), Some(7));
    assert_eq!(parse_natural(&c("-7"), 10, u64::MAX), None);
    assert_eq!(parse_natural(&c("18446744073709551616"), 10, u64::MAX), None);
    assert!(spells_integer(&c("-128"), 128, 127));
    assert!(!spells_integer(&c("128"), 128, 127));
}

#[test]
fn a_map_holds_one_value_for_each_text() {
    let mut map: TextMap<u8> = TextMap::new();
    assert!(map.is_empty());
    assert_eq!(map.insert("a", 1), None);
    assert_eq!(map.insert("a", 2), Some(1));
    assert_eq!(map.get("a"), Some(&2));
    assert_eq!(map.len(), 1);
    assert_eq!(map.key(0), "a");
    assert_eq!(map.remove("b"), None);
    assert_eq!(map.remove("a"), Some(2));
    assert!(!map.contains_key("a"));
}
