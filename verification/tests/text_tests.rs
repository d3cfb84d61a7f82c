use cosmetic_share::text::{filter_allowed_characters, join_lines, load_entries};
use cosmetic_share::strcmp::{dedup_entries, sort_entries};

#[test]
fn disallowed_characters_are_stripped() {
    let filtered = filter_allowed_characters("Golden Hat\n; rm -rf".to_string());
    assert_eq!(filtered, "Golden Hat\n rm -rf");
}

#[test]
fn allowed_characters_survive_unchanged() {
    let kept = "Abc 019 '\"-#()\n";
    assert_eq!(filter_allowed_characters(kept.to_string()), kept);
}

#[test]
fn stored_record_is_filtered_on_a_line_basis() {
    let entries = load_entries("Golden Hat\n; rm -rf".to_string());
    assert_eq!(entries.len(), 2);
    assert_eq!(entries[0], "Golden Hat");
    assert_eq!(entries[1], " rm -rf");
}

#[test]
fn blank_lines_never_produce_entries() {
    let entries = load_entries("\n\nalpha\n\n\nbeta\n\n".to_string());
    assert_eq!(entries, vec!["alpha".to_string(), "beta".to_string()]);
    assert_eq!(load_entries("\n\n\n".to_string()).len(), 0);
    assert_eq!(load_entries(String::new()).len(), 0);
}

#[test]
fn lines_of_only_disallowed_characters_vanish() {
    let entries = load_entries("alpha\n;;;\nbeta".to_string());
    assert_eq!(entries, vec!["alpha".to_string(), "beta".to_string()]);
}

#[test]
fn joined_entries_read_back_unchanged() {
    let entries = vec!["alice".to_string(), "bob 2".to_string(), "carol-3".to_string()];
    let stored = join_lines(&entries);
    assert_eq!(stored, "alice\nbob 2\ncarol-3\n");
    assert_eq!(load_entries(stored), entries);
}

#[test]
fn sort_entries_orders_lexicographically() {
    let sorted = sort_entries(vec![
        "pear".to_string(),
        "apple".to_string(),
        "Banana".to_string(),
        "apple".to_string(),
    ]);
    assert_eq!(
        sorted,
        vec![
            "Banana".to_string(),
            "apple".to_string(),
            "apple".to_string(),
            "pear".to_string(),
        ]
    );
}

#[test]
fn dedup_entries_keeps_first_copies() {
    let deduped = dedup_entries(vec![
        "a".to_string(),
        "b".to_string(),
        "a".to_string(),
        "c".to_string(),
        "b".to_string(),
    ]);
    assert_eq!(deduped, vec!["a".to_string(), "b".to_string(), "c".to_string()]);
}
