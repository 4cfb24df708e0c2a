//! The session registry: upserts, removal, and pagination.

use motorhead::models::ValidationError;
use motorhead::registry::Registry;

#[test]
fn pagination_returns_ascending_insertion_order() {
    let mut registry = Registry::new();
    for i in 0..10 {
        registry.upsert(&format!("session-{}", i), 100 + i as i64);
    }
    let page = registry.list(1, 10).unwrap();
    assert_eq!(page.len(), 10);
    for i in 0..10 {
        assert_eq!(page[i], format!("session-{}", i));
    }
}

#[test]
fn pagination_pages_are_disjoint_slices() {
    let mut registry = Registry::new();
    for i in 0..7 {
        registry.upsert(&format!("s{}", i), i as i64);
    }
    let first = registry.list(1, 3).unwrap();
    let second = registry.list(2, 3).unwrap();
    let third = registry.list(3, 3).unwrap();
    assert_eq!(first, vec!["s0", "s1", "s2"]);
    assert_eq!(second, vec!["s3", "s4", "s5"]);
    assert_eq!(third, vec!["s6"]);
    let beyond = registry.list(4, 3).unwrap();
    assert!(beyond.is_empty());
}

#[test]
fn page_beyond_limit_is_rejected() {
    let mut registry = Registry::new();
    registry.upsert(&"one".to_string(), 1);
    let r = registry.list(101, 10);
    assert!(matches!(r, Err(ValidationError::PageTooLarge)));
    // Page 100 itself is still served.
    assert!(registry.list(100, 10).is_ok());
}

#[test]
fn upsert_refreshes_score_and_keeps_one_entry() {
    let mut registry = Registry::new();
    registry.upsert(&"a".to_string(), 1);
    registry.upsert(&"b".to_string(), 2);
    // Touch "a" again with a newer timestamp: it moves after "b".
    registry.upsert(&"a".to_string(), 3);
    let page = registry.list(1, 10).unwrap();
    assert_eq!(page, vec!["b", "a"]);
}

#[test]
fn membership_follows_appends_and_deletes() {
    let mut registry = Registry::new();
    let id = "the-session".to_string();
    assert!(!registry.contains(&id));
    registry.upsert(&id, 5);
    assert!(registry.contains(&id));
    registry.upsert(&id, 9);
    assert!(registry.contains(&id));
    registry.remove(&id);
    assert!(!registry.contains(&id));
    // Removing an absent id is harmless.
    registry.remove(&id);
    assert!(!registry.contains(&id));
}
