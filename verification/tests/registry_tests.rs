use cosmetic_share::registry::Database;

fn empty_db() -> Database {
    Database::new(vec![
        String::new(),
        String::new(),
        String::new(),
        String::new(),
        String::new(),
        String::new(),
    ])
}

fn catalog_db() -> Database {
    Database::new(vec![
        "Golden Hat\nSilver Hat\nAncient Hat\n".to_string(),
        "Blue Top\n".to_string(),
        String::new(),
        String::new(),
        String::new(),
        String::new(),
    ])
}

#[test]
fn never_added_item_is_needed_by_nobody() {
    let db = empty_db();
    assert_eq!(db.who_needs("Golden Hat").len(), 0);
    assert!(!db.needs("alice", "Golden Hat"));
    assert!(!db.needs("", "Golden Hat"));
}

#[test]
fn add_then_needs_holds_and_is_idempotent() {
    let mut db = empty_db();
    db.add("Golden Hat", "alice");
    assert!(db.needs("alice", "Golden Hat"));
    assert!(!db.needs("bob", "Golden Hat"));
    db.add("Golden Hat", "alice");
    assert!(db.needs("alice", "Golden Hat"));
    assert_eq!(db.who_needs("Golden Hat").len(), 1);
}

#[test]
fn add_then_remove_restores_not_needed() {
    let mut db = empty_db();
    db.add("Golden Hat", "alice");
    db.remove("Golden Hat", "alice");
    assert!(!db.needs("alice", "Golden Hat"));
}

#[test]
fn remove_absent_pair_is_a_no_op() {
    let mut db = empty_db();
    db.add("Golden Hat", "alice");
    db.remove("Golden Hat", "bob");
    db.remove("Silver Hat", "alice");
    assert!(db.needs("alice", "Golden Hat"));
    assert!(!db.needs("bob", "Golden Hat"));
    assert_eq!(db.who_needs("Silver Hat").len(), 0);
}

#[test]
fn remove_keeps_other_users_of_same_item() {
    let mut db = empty_db();
    db.add("Golden Hat", "alice");
    db.add("Golden Hat", "bob");
    db.add("Golden Hat", "carol");
    db.remove("Golden Hat", "bob");
    assert!(db.needs("alice", "Golden Hat"));
    assert!(!db.needs("bob", "Golden Hat"));
    assert!(db.needs("carol", "Golden Hat"));
}

#[test]
fn forget_erases_one_user_everywhere_and_nobody_else() {
    let mut db = empty_db();
    db.add("Golden Hat", "alice");
    db.add("Silver Hat", "alice");
    db.add("Golden Hat", "bob");
    db.forget("alice");
    assert!(!db.needs("alice", "Golden Hat"));
    assert!(!db.needs("alice", "Silver Hat"));
    assert!(db.needs("bob", "Golden Hat"));
}

#[test]
fn forget_is_idempotent_after_partial_completion() {
    let mut db = empty_db();
    db.add("Golden Hat", "alice");
    db.add("Silver Hat", "alice");
    db.forget("alice");
    db.forget("alice");
    assert!(!db.needs("alice", "Golden Hat"));
    assert!(!db.needs("alice", "Silver Hat"));
}

#[test]
fn who_needs_lists_each_wanter_once() {
    let mut db = empty_db();
    db.add("Golden Hat", "alice");
    db.add("Golden Hat", "bob");
    let users = db.who_needs("Golden Hat");
    assert_eq!(users.len(), 2);
    assert!(users.iter().any(|u| u == "alice"));
    assert!(users.iter().any(|u| u == "bob"));
}

#[test]
fn needed_by_scans_the_catalog() {
    let mut db = catalog_db();
    db.add("Golden Hat", "alice");
    db.add("Blue Top", "alice");
    db.add("Silver Hat", "bob");
    let needed = db.needed_by("alice");
    assert_eq!(needed.len(), 2);
    assert!(needed.iter().any(|c| c == "Golden Hat"));
    assert!(needed.iter().any(|c| c == "Blue Top"));
    assert_eq!(db.needed_by("nobody").len(), 0);
}

#[test]
fn catalog_is_sorted_per_category() {
    let db = catalog_db();
    let hats = db.cosmetics_in_category(cosmetic_share::category::CosmeticCategory::Hat);
    assert_eq!(hats.len(), 3);
    assert_eq!(hats[0], "Ancient Hat");
    assert_eq!(hats[1], "Golden Hat");
    assert_eq!(hats[2], "Silver Hat");
    let tops = db.cosmetics_in_category(cosmetic_share::category::CosmeticCategory::Top);
    assert_eq!(tops.len(), 1);
    assert_eq!(tops[0], "Blue Top");
}

#[test]
fn catalog_sources_are_sanitized_on_load() {
    let db = Database::new(vec![
        "Golden; Hat\n\n\nPlain Hat\n".to_string(),
        String::new(),
        String::new(),
        String::new(),
        String::new(),
        String::new(),
    ]);
    let hats = db.cosmetics_in_category(cosmetic_share::category::CosmeticCategory::Hat);
    assert_eq!(hats.len(), 2);
    assert_eq!(hats[0], "Golden Hat");
    assert_eq!(hats[1], "Plain Hat");
}

#[test]
fn set_record_loads_sanitized_deduplicated_users() {
    let mut db = empty_db();
    db.add("Golden Hat", "carol");
    db.set_record("Golden Hat", "alice\nalice\n\n;bob\n".to_string());
    let users = db.who_needs("Golden Hat");
    assert_eq!(users.len(), 2);
    assert!(users.iter().any(|u| u == "alice"));
    assert!(users.iter().any(|u| u == "bob"));
    assert!(!db.needs("carol", "Golden Hat"));
}

#[test]
fn need_apply_reports_prior_state_and_records() {
    let mut db = empty_db();
    assert!(!db.need_apply("Golden Hat", "alice"));
    assert!(db.needs("alice", "Golden Hat"));
    assert!(db.need_apply("Golden Hat", "alice"));
    assert_eq!(db.who_needs("Golden Hat").len(), 1);
}

#[test]
fn unneed_apply_reports_whether_pair_existed() {
    let mut db = empty_db();
    db.add("Golden Hat", "alice");
    assert!(db.unneed_apply("Golden Hat", "alice"));
    assert!(!db.needs("alice", "Golden Hat"));
    assert!(!db.unneed_apply("Golden Hat", "alice"));
}
