use json_objects_to_csv::engine::build_record;
use json_objects_to_csv::headers::HeaderSet;
use json_objects_to_csv::lex::{str_eq, str_le, str_lt};
use json_objects_to_csv::replace::replace_str;

#[test]
fn build_record_aligns_to_headers() {
    let headers = vec!["a".to_string(), "b".to_string()];
    let cells = vec![
        ("b".to_string(), "2".to_string()),
        ("b".to_string(), "3".to_string()),
    ];
    let row = build_record(&headers, &cells);
    assert_eq!(row, vec!["".to_string(), "3".to_string()]);
    assert_eq!(row.len(), headers.len());
}

#[test]
fn header_set_sorts_and_deduplicates() {
    let mut set = HeaderSet::new();
    for key in ["b", "a", "b", "c", "a"] {
        set.insert(key.to_string());
    }
    assert_eq!(set.keys, vec!["a".to_string(), "b".to_string(), "c".to_string()]);
    assert_eq!(set.len(), 3);
}

#[test]
fn replace_is_left_to_right_non_overlapping() {
    assert_eq!(replace_str("aaa", "aa", "b"), "ba");
    assert_eq!(replace_str("x.y.z", ".", "::"), "x::y::z");
    assert_eq!(replace_str("abc", "q", "z"), "abc");
    assert_eq!(replace_str("", ".", ","), "");
}

#[test]
fn lexicographic_order_on_strings() {
    assert!(str_lt("a", "ab"));
    assert!(str_lt("a.0", "a]b"));
    assert!(str_le("x", "x"));
    assert!(str_eq("x", "x"));
    assert!(!str_lt("b", "a"));
    assert!(str_lt("", "a"));
}
