use galopen::text::{same_text, starts_with, text_le};

#[test]
fn starts_with_reads_the_front_only() {
    assert!(starts_with("ja-JP", "ja"));
    assert!(!starts_with("en-ja", "ja"));
    assert!(!starts_with("j", "ja"));
}

#[test]
fn same_text_compares_whole_texts() {
    assert!(same_text("cancelled", "cancelled"));
    assert!(!same_text("cancelled", "canceled"));
    assert!(!same_text("cancelled", "cancelled "));
}

#[test]
fn text_le_is_dictionary_order() {
    assert!(text_le("", "a"));
    assert!(text_le("2024-01-01", "2024-01-01T10:00:00+00:00"));
    assert!(text_le("2024-01-01T09:00:00+00:00", "2024-01-01T10:00:00+00:00"));
    assert!(!text_le("2024-01-02", "2024-01-01T10:00:00+00:00"));
    assert!(text_le("abc", "abc"));
}
