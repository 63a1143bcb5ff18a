use geopq::text::{
    add_ordered, add_text, cat7, contains, copy_texts, dec, ends_with, eq_ignore_ascii_case, in_order,
    join, list_has, remove_text, same, split, starts_with, strip_prefix, strip_suffix, take_chars, trim,
    trim_end, trim_prefixes, trim_start, trim_suffixes, trim_trailing,
};

fn list(v: &[&str]) -> Vec<String> {
    v.iter().map(|s| s.to_string()).collect()
}

#[test]
fn trimming_removes_unicode_white_space() {
    assert_eq!(trim(" \t\u{a0}a b\u{3000}\n"), "a b");
    assert_eq!(trim("   "), "");
    assert_eq!(trim_start("  x "), "x ");
    assert_eq!(trim_end("  x "), "  x");
}

#[test]
fn suffixes_and_prefixes_are_trimmed_as_often_as_they_occur() {
    assert_eq!(trim_suffixes("a.parquet.parquet", ".parquet"), "a");
    assert_eq!(trim_suffixes("a.parquet", ".csv"), "a.parquet");
    assert_eq!(trim_prefixes("s3://s3://b", "s3://"), "b");
    assert_eq!(trim_trailing("a///", '/'), "a");
    assert_eq!(trim_trailing("///", '/'), "");
    assert_eq!(strip_prefix("abc", "a"), Some("bc".to_string()));
    assert_eq!(strip_prefix("abc", "b"), None);
    assert_eq!(strip_suffix("abc", "c"), Some("ab".to_string()));
    assert_eq!(strip_suffix("abc", "b"), None);
}

#[test]
fn splitting_keeps_empty_parts_and_joining_undoes_it() {
    let parts = split("a//b/", '/');
    assert_eq!(parts, list(&["a", "", "b", ""]));
    assert_eq!(join(&parts, "/"), "a//b/");
    assert_eq!(split("", '/'), list(&[""]));
    assert_eq!(join(&Vec::new(), "/"), "");
}

#[test]
fn numbers_are_written_without_leading_zeros() {
    assert_eq!(dec(0), "0");
    assert_eq!(dec(1_000_203), "1000203");
    assert_eq!(dec(u64::MAX), u64::MAX.to_string());
}

#[test]
fn searching_is_by_characters() {
    assert!(contains("données", "né"));
    assert!(!contains("données", "ne"));
    assert!(contains("x", ""));
    assert!(starts_with("été", "ét"));
    assert!(ends_with("été", "té"));
    assert!(!starts_with("a", "ab"));
    assert!(same("a", "a") && !same("a", "A"));
    assert!(eq_ignore_ascii_case("GeoJSON", "geojson"));
    assert!(!eq_ignore_ascii_case("É", "é"));
    assert_eq!(take_chars("été", 2), "ét");
    assert_eq!(take_chars("été", 9), "été");
}

#[test]
fn texts_are_ordered_by_their_characters() {
    assert!(in_order("a", "b"));
    assert!(in_order("Z", "a"));
    assert!(in_order("a", "ab"));
    assert!(!in_order("b", "a"));
    let mut v = Vec::new();
    for s in ["pear", "apple", "pear", "fig"] {
        add_ordered(&mut v, s.to_string());
    }
    assert_eq!(v, list(&["apple", "fig", "pear"]));
}

#[test]
fn a_list_used_as_a_set_holds_each_text_once() {
    let mut v = list(&["a"]);
    add_text(&mut v, "b".to_string());
    add_text(&mut v, "a".to_string());
    assert_eq!(v, list(&["a", "b"]));
    assert!(list_has(&v, "b"));
    remove_text(&mut v, "a");
    assert_eq!(v, list(&["b"]));
    assert!(!list_has(&v, "a"));
    assert_eq!(copy_texts(&v), v);
}

#[test]
fn seven_texts_are_put_together_in_order() {
    assert_eq!(cat7("a", "b", "", "c", "d", "e", "f"), "abcdef");
}
