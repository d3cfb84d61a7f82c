use cosmetic_share::category::CosmeticCategory;
use cosmetic_share::selection::{
    resolve_category, CategoryEvent, SelectionEvent, SelectionOutcome, SelectionSession,
    SelectionStep,
};

fn items(n: usize) -> Vec<String> {
    (0..n).map(|i| format!("Item {:03}", i)).collect()
}

fn flattened(s: &SelectionSession) -> Vec<String> {
    let mut out = Vec::new();
    for page in &s.pages {
        for group in page {
            for item in group {
                out.push(item.clone());
            }
        }
    }
    out
}

#[test]
fn pagination_covers_every_item_exactly_once() {
    let catalog = items(137);
    let session = SelectionSession::new(catalog.clone());
    assert_eq!(flattened(&session), catalog);
}

#[test]
fn groups_and_pages_respect_platform_bounds() {
    let session = SelectionSession::new(items(137));
    assert_eq!(session.page_count(), 2);
    for p in 0..session.pages.len() {
        let groups = &session.pages[p];
        assert!(!groups.is_empty() && groups.len() <= 4);
        for g in groups {
            assert!(!g.is_empty() && g.len() <= 25);
        }
    }
}

#[test]
fn navigation_wraps_circularly() {
    let mut session = SelectionSession::new(items(137));
    assert_eq!(session.page_index(), 0);
    session.next_page();
    assert_eq!(session.page_index(), 1);
    session.next_page();
    assert_eq!(session.page_index(), 0);
    session.prev_page();
    assert_eq!(session.page_index(), 1);
    session.prev_page();
    assert_eq!(session.page_index(), 0);
}

#[test]
fn single_page_navigation_stays_on_page_zero() {
    let mut session = SelectionSession::new(items(3));
    assert_eq!(session.page_count(), 1);
    session.next_page();
    assert_eq!(session.page_index(), 0);
    session.prev_page();
    assert_eq!(session.page_index(), 0);
}

#[test]
fn navigation_never_changes_the_catalog_view() {
    let catalog = items(137);
    let mut session = SelectionSession::new(catalog.clone());
    let before = flattened(&session);
    session.next_page();
    session.prev_page();
    session.prev_page();
    assert_eq!(flattened(&session), before);
    assert_eq!(before, catalog);
}

#[test]
fn picking_an_item_resolves_whatever_the_page() {
    let mut session = SelectionSession::new(items(137));
    session.next_page();
    let step = session.handle_item_event(SelectionEvent::Picked("Item 001".to_string()));
    assert_eq!(
        step,
        SelectionStep::Finished(SelectionOutcome::Resolved("Item 001".to_string()))
    );
}

#[test]
fn timeout_and_malformed_end_the_item_stage() {
    let mut session = SelectionSession::new(items(9));
    assert_eq!(
        session.handle_item_event(SelectionEvent::Timeout),
        SelectionStep::Finished(SelectionOutcome::TimedOut)
    );
    let mut session = SelectionSession::new(items(9));
    assert_eq!(
        session.handle_item_event(SelectionEvent::Malformed),
        SelectionStep::Finished(SelectionOutcome::Cancelled)
    );
}

#[test]
fn page_events_continue_the_flow() {
    let mut session = SelectionSession::new(items(137));
    assert_eq!(session.handle_item_event(SelectionEvent::NextPage), SelectionStep::Continue);
    assert_eq!(session.page_index(), 1);
    assert_eq!(session.handle_item_event(SelectionEvent::PrevPage), SelectionStep::Continue);
    assert_eq!(session.page_index(), 0);
}

#[test]
fn category_identifiers_round_trip() {
    let all = CosmeticCategory::all();
    assert_eq!(all.len(), 6);
    for c in all {
        assert_eq!(CosmeticCategory::from_id(c.to_id()), Some(c));
    }
    assert_eq!(CosmeticCategory::from_id("6"), None);
    assert_eq!(CosmeticCategory::from_id("hat"), None);
    assert_eq!(CosmeticCategory::Hat.name(), "Hat");
    assert_eq!(CosmeticCategory::Accessory.name(), "Accessory");
}

#[test]
fn category_stage_resolves_only_known_identifiers() {
    assert_eq!(
        resolve_category(CategoryEvent::Chosen("2".to_string())),
        Some(CosmeticCategory::Bottom)
    );
    assert_eq!(resolve_category(CategoryEvent::Chosen("bogus".to_string())), None);
    assert_eq!(resolve_category(CategoryEvent::Timeout), None);
    assert_eq!(resolve_category(CategoryEvent::Malformed), None);
}
