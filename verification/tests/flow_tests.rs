use cosmetic_share::erasure::{erase_step, parse_erase_button, EraseEvent, EraseOutcome};
use cosmetic_share::negotiation::{
    begin_claim, claim_step, parse_claim_button, ClaimEvent, ClaimOutcome, ClaimStep,
};
use cosmetic_share::registry::Database;

fn db_with_wanters() -> Database {
    let mut db = Database::new(vec![
        String::new(),
        String::new(),
        String::new(),
        String::new(),
        String::new(),
        String::new(),
    ]);
    db.add("Golden Hat", "alice");
    db.add("Golden Hat", "bob");
    db
}

#[test]
fn announcement_snapshots_the_want_set() {
    let db = db_with_wanters();
    let session = begin_claim(&db, "finder".to_string(), "Golden Hat".to_string());
    assert_eq!(session.notified.len(), 2);
    assert!(session.notified.iter().any(|u| u == "alice"));
    assert!(session.notified.iter().any(|u| u == "bob"));
    assert_eq!(session.finder, "finder");
    assert_eq!(session.item, "Golden Hat");
}

#[test]
fn already_have_then_claim_ends_claimed_by_the_claimant() {
    let mut db = db_with_wanters();
    let session = begin_claim(&db, "finder".to_string(), "Golden Hat".to_string());
    let first = claim_step(&mut db, &session, ClaimEvent::AlreadyHave("alice".to_string()));
    assert_eq!(first, ClaimStep::Continue);
    assert!(!db.needs("alice", "Golden Hat"));
    assert!(db.needs("bob", "Golden Hat"));
    let second = claim_step(&mut db, &session, ClaimEvent::Claim("bob".to_string()));
    assert_eq!(second, ClaimStep::Finished(ClaimOutcome::Claimed("bob".to_string())));
    assert!(db.needs("bob", "Golden Hat"));
    assert!(!db.needs("alice", "Golden Hat"));
}

#[test]
fn only_the_finder_may_cancel() {
    let mut db = db_with_wanters();
    let session = begin_claim(&db, "finder".to_string(), "Golden Hat".to_string());
    let rejected = claim_step(&mut db, &session, ClaimEvent::Cancel("bob".to_string()));
    assert_eq!(rejected, ClaimStep::Unauthorized("bob".to_string()));
    assert!(db.needs("alice", "Golden Hat"));
    let ended = claim_step(&mut db, &session, ClaimEvent::Cancel("finder".to_string()));
    assert_eq!(ended, ClaimStep::Finished(ClaimOutcome::Cancelled));
}

#[test]
fn claiming_mutates_no_want_set() {
    let mut db = db_with_wanters();
    let session = begin_claim(&db, "finder".to_string(), "Golden Hat".to_string());
    let step = claim_step(&mut db, &session, ClaimEvent::Claim("carol".to_string()));
    assert_eq!(step, ClaimStep::Finished(ClaimOutcome::Claimed("carol".to_string())));
    assert!(db.needs("alice", "Golden Hat"));
    assert!(db.needs("bob", "Golden Hat"));
}

#[test]
fn negotiation_timeout_leaves_the_registry_unchanged() {
    let mut db = db_with_wanters();
    let session = begin_claim(&db, "finder".to_string(), "Golden Hat".to_string());
    let step = claim_step(&mut db, &session, ClaimEvent::Timeout);
    assert_eq!(step, ClaimStep::Finished(ClaimOutcome::TimedOut));
    assert!(db.needs("alice", "Golden Hat"));
    assert!(db.needs("bob", "Golden Hat"));
}

#[test]
fn malformed_negotiation_response_aborts_without_mutation() {
    let mut db = db_with_wanters();
    let session = begin_claim(&db, "finder".to_string(), "Golden Hat".to_string());
    let step = claim_step(&mut db, &session, ClaimEvent::Malformed);
    assert_eq!(step, ClaimStep::Finished(ClaimOutcome::Aborted));
    assert!(db.needs("alice", "Golden Hat"));
}

#[test]
fn claim_buttons_decode_to_their_events() {
    assert_eq!(
        parse_claim_button("claim", "u".to_string()),
        ClaimEvent::Claim("u".to_string())
    );
    assert_eq!(
        parse_claim_button("cancel", "u".to_string()),
        ClaimEvent::Cancel("u".to_string())
    );
    assert_eq!(
        parse_claim_button("have", "u".to_string()),
        ClaimEvent::AlreadyHave("u".to_string())
    );
    assert_eq!(parse_claim_button("other", "u".to_string()), ClaimEvent::Malformed);
}

#[test]
fn only_confirmation_erases_the_user() {
    let mut db = db_with_wanters();
    db.add("Silver Hat", "alice");
    assert_eq!(erase_step(&mut db, "alice", EraseEvent::Decline), EraseOutcome::Declined);
    assert!(db.needs("alice", "Golden Hat"));
    assert_eq!(erase_step(&mut db, "alice", EraseEvent::Timeout), EraseOutcome::TimedOut);
    assert!(db.needs("alice", "Silver Hat"));
    assert_eq!(erase_step(&mut db, "alice", EraseEvent::Malformed), EraseOutcome::Aborted);
    assert!(db.needs("alice", "Golden Hat"));
    assert_eq!(erase_step(&mut db, "alice", EraseEvent::Confirm), EraseOutcome::Confirmed);
    assert!(!db.needs("alice", "Golden Hat"));
    assert!(!db.needs("alice", "Silver Hat"));
    assert!(db.needs("bob", "Golden Hat"));
}

#[test]
fn erase_buttons_decode_to_their_events() {
    assert_eq!(parse_erase_button("yes"), EraseEvent::Confirm);
    assert_eq!(parse_erase_button("no"), EraseEvent::Decline);
    assert_eq!(parse_erase_button("maybe"), EraseEvent::Malformed);
}
