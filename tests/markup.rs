use ra_ide::markup::{add_cursor, extract_ranges, extract_offset, extract_range, extract_range_or_offset, RangeOrOffset, CURSOR_MARKER};
use ra_ide::text::TextRange;

#[test]
fn extracts_offset_of_first_marker() {
    assert_eq!(extract_offset("a<|>b"), (1, "ab".to_string()));
    assert_eq!(extract_offset("<|>"), (0, String::new()));
    assert_eq!(extract_offset("ab<|>c<|>d"), (2, "abc<|>d".to_string()));
}

#[test]
fn offset_counts_bytes() {
    assert_eq!(extract_offset("é<|>x"), (2, "éx".to_string()));
}

#[test]
fn extracts_range_between_two_markers() {
    assert_eq!(extract_range("a<|>bc<|>d"), (TextRange::new(1, 3), "abcd".to_string()));
    assert_eq!(extract_range("<|><|>x"), (TextRange::new(0, 0), "x".to_string()));
}

#[test]
fn range_or_offset_by_marker_count() {
    assert_eq!(
        extract_range_or_offset("f<|>oo<|>"),
        (RangeOrOffset::Range(TextRange::new(1, 3)), "foo".to_string())
    );
    assert_eq!(extract_range_or_offset("fo<|>o"), (RangeOrOffset::Offset(2), "foo".to_string()));
}

#[test]
fn selection_as_range() {
    assert_eq!(TextRange::from(RangeOrOffset::Offset(4)), TextRange::new(4, 4));
    assert_eq!(TextRange::from(RangeOrOffset::Range(TextRange::new(1, 5))), TextRange::new(1, 5));
}

#[test]
fn inserts_cursor_at_offset() {
    assert_eq!(add_cursor("abc", 1), "a<|>bc");
    assert_eq!(add_cursor("abc", 3), "abc<|>");
    assert_eq!(add_cursor("éx", 2), "é<|>x");
    let (offset, text) = extract_offset(&add_cursor("hello", 2));
    assert_eq!((offset, text.as_str()), (2, "hello"));
    assert_eq!(CURSOR_MARKER, "<|>");
}

#[test]
fn extracts_tagged_ranges_sorted() {
    let (ranges, text) = extract_ranges("<x>ab<x>c</x></x>d<x>e</x>", "x");
    assert_eq!(text, "abcde");
    assert_eq!(ranges, vec![TextRange::new(0, 3), TextRange::new(2, 3), TextRange::new(4, 5)]);
}

#[test]
fn extract_ranges_without_tags() {
    assert_eq!(extract_ranges("plain", "t"), (vec![], "plain".to_string()));
    assert_eq!(extract_ranges("", "t"), (vec![], String::new()));
}

#[test]
fn extract_ranges_in_bytes() {
    let (ranges, text) = extract_ranges("é<f>ü</f>", "f");
    assert_eq!(text, "éü");
    assert_eq!(ranges, vec![TextRange::new(2, 4)]);
}
