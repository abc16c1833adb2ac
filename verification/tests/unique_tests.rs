use matrix_gotify_bridge::unique::{contains_text, dedup_strings};

fn v(items: &[&str]) -> Vec<String> {
    items.iter().map(|s| s.to_string()).collect()
}

#[test]
fn first_occurrences_are_kept_in_order() {
    assert_eq!(dedup_strings(&v(&["b", "a", "b", "c", "a"])), v(&["b", "a", "c"]));
    assert_eq!(dedup_strings(&v(&[])), v(&[]));
    assert_eq!(dedup_strings(&v(&["x", "y"])), v(&["x", "y"]));
}

#[test]
fn membership() {
    assert!(contains_text(&v(&["a", "b"]), &"b".to_string()));
    assert!(!contains_text(&v(&["a", "b"]), &"c".to_string()));
}
