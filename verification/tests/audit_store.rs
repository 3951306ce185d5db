use orbs::audit::{AuditEvent, Comment, EventType};
use orbs::audit_store::AuditStore;
use orbs::id::OrbId;

#[test]
fn log_and_retrieve_events() {
    let mut store = AuditStore::new("events.jsonl");

    let orb_id = OrbId::from_raw("orb-abc");
    let event = AuditEvent::new(orb_id.clone(), EventType::Created, "alice", None);
    store.log_event(&event);

    let events = store.all_events();
    assert_eq!(events.len(), 1);
    assert_eq!(events[0].orb_id, orb_id);
    assert_eq!(events[0].event_type, EventType::Created);
}

#[test]
fn events_for_orb_filters_correctly() {
    let mut store = AuditStore::new("events.jsonl");

    let orb_a = OrbId::from_raw("orb-a");
    let orb_b = OrbId::from_raw("orb-b");

    store
        .log_event(&AuditEvent::new(
            orb_a.clone(),
            EventType::Created,
            "alice",
            None,
        ));
    store
        .log_event(&AuditEvent::new(
            orb_b.clone(),
            EventType::Created,
            "bob",
            None,
        ));
    store
        .log_event(&AuditEvent::new(
            orb_a.clone(),
            EventType::StatusChanged,
            "alice",
            Some("pending -> active".into()),
        ));

    let events_a = store.events_for_orb(&orb_a);
    assert_eq!(events_a.len(), 2);
    assert_eq!(events_a[0].event_type, EventType::Created);
    assert_eq!(events_a[1].event_type, EventType::StatusChanged);

    let events_b = store.events_for_orb(&orb_b);
    assert_eq!(events_b.len(), 1);
}

#[test]
fn audit_store_empty_store_returns_empty() {
    let store = AuditStore::new("events.jsonl");

    let events = store.all_events();
    assert!(events.is_empty());

    let orb_id = OrbId::from_raw("orb-xyz");
    let events = store.events_for_orb(&orb_id);
    assert!(events.is_empty());
}

#[test]
fn add_comment_stores_and_logs_event() {
    let mut store = AuditStore::new("events.jsonl");

    let orb_id = OrbId::from_raw("orb-abc");
    let comment = Comment::new(orb_id.clone(), "alice", "This looks good");
    store.add_comment(&comment);

    // Comment is stored
    let comments = store.comments_for_orb(&orb_id);
    assert_eq!(comments.len(), 1);
    assert_eq!(comments[0].author, "alice");
    assert_eq!(comments[0].body, "This looks good");

    // Audit event is also logged
    let events = store.events_for_orb(&orb_id);
    assert_eq!(events.len(), 1);
    assert_eq!(events[0].event_type, EventType::Commented);
    assert_eq!(events[0].details.as_deref(), Some("This looks good"));
}

#[test]
fn comments_for_orb_filters_correctly() {
    let mut store = AuditStore::new("events.jsonl");

    let orb_a = OrbId::from_raw("orb-a");
    let orb_b = OrbId::from_raw("orb-b");

    store
        .add_comment(&Comment::new(orb_a.clone(), "alice", "Comment on A"));
    store
        .add_comment(&Comment::new(orb_b.clone(), "bob", "Comment on B"));
    store
        .add_comment(&Comment::new(orb_a.clone(), "carol", "Another on A"));

    let comments_a = store.comments_for_orb(&orb_a);
    assert_eq!(comments_a.len(), 2);
    assert_eq!(comments_a[0].body, "Comment on A");
    assert_eq!(comments_a[1].body, "Another on A");

    let comments_b = store.comments_for_orb(&orb_b);
    assert_eq!(comments_b.len(), 1);
}

#[test]
fn empty_comments_returns_empty() {
    let store = AuditStore::new("events.jsonl");

    let orb_id = OrbId::from_raw("orb-xyz");
    let comments = store.comments_for_orb(&orb_id);
    assert!(comments.is_empty());
}

#[test]
fn multiple_event_types_for_same_orb() {
    let mut store = AuditStore::new("events.jsonl");
    let orb_id = OrbId::from_raw("orb-lifecycle");

    store
        .log_event(&AuditEvent::new(
            orb_id.clone(),
            EventType::Created,
            "system",
            None,
        ));
    store
        .log_event(&AuditEvent::new(
            orb_id.clone(),
            EventType::StatusChanged,
            "alice",
            Some("pending -> active".into()),
        ));
    store
        .log_event(&AuditEvent::new(
            orb_id.clone(),
            EventType::PriorityChanged,
            "bob",
            Some("3 -> 1".into()),
        ));
    store
        .log_event(&AuditEvent::new(
            orb_id.clone(),
            EventType::Deferred,
            "carol",
            None,
        ));

    let events = store.events_for_orb(&orb_id);
    assert_eq!(events.len(), 4);

    let all = store.all_events();
    assert_eq!(all.len(), 4);
}

#[test]
fn event_serde_round_trip_through_store() {
    let mut store = AuditStore::new("events.jsonl");

    let orb_id = OrbId::from_raw("orb-serde");
    let event = AuditEvent::new(
        orb_id.clone(),
        EventType::Tombstoned,
        "admin",
        Some("no longer needed".into()),
    );
    let original_id = event.id;
    store.log_event(&event);

    let loaded = store.all_events();
    assert_eq!(loaded[0].id, original_id);
    assert_eq!(loaded[0].event_type, EventType::Tombstoned);
    assert_eq!(loaded[0].details.as_deref(), Some("no longer needed"));
}

#[test]
fn comment_serde_round_trip_through_store() {
    let mut store = AuditStore::new("events.jsonl");

    let orb_id = OrbId::from_raw("orb-serde");
    let comment = Comment::new(orb_id.clone(), "tester", "Round trip test body");
    let original_id = comment.id;
    store.add_comment(&comment);

    let loaded = store.comments_for_orb(&orb_id);
    assert_eq!(loaded[0].id, original_id);
    assert_eq!(loaded[0].body, "Round trip test body");
}
