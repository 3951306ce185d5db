use orbs::audit::{
    log_assigned, log_confidence_recorded, log_creation, log_deferred, log_dep_added,
    log_dep_removed, log_phase_change, log_priority_change, log_status_change, log_tombstoned,
    log_undeferred, AuditEvent, Comment, EventType,
};
use orbs::audit_store::AuditStore;
use orbs::id::OrbId;
use orbs::orb::{OrbPhase, OrbStatus};

#[test]
fn audit_event_new_sets_fields() {
    let orb_id = OrbId::from_raw("orb-abc");
    let event = AuditEvent::new(
        orb_id.clone(),
        EventType::Created,
        "alice",
        Some("initial creation".into()),
    );
    assert_eq!(event.orb_id, orb_id);
    assert_eq!(event.event_type, EventType::Created);
    assert_eq!(event.actor, "alice");
    assert_eq!(event.details.as_deref(), Some("initial creation"));
}

#[test]
fn comment_new_sets_fields() {
    let orb_id = OrbId::from_raw("orb-abc");
    let comment = Comment::new(orb_id.clone(), "alice", "This looks good");
    assert_eq!(comment.orb_id, orb_id);
    assert_eq!(comment.author, "alice");
    assert_eq!(comment.body, "This looks good");
}

#[test]
fn log_creation_writes_event() {
    let mut store = AuditStore::new("events.jsonl");
    let orb_id = OrbId::from_raw("orb-test");

    log_creation(&mut store, &orb_id, "alice");

    let events = store.events_for_orb(&orb_id);
    assert_eq!(events.len(), 1);
    assert_eq!(events[0].event_type, EventType::Created);
    assert_eq!(events[0].actor, "alice");
}

#[test]
fn log_status_change_includes_details() {
    let mut store = AuditStore::new("events.jsonl");
    let orb_id = OrbId::from_raw("orb-test");

    log_status_change(
        &mut store,
        &orb_id,
        OrbStatus::Pending,
        OrbStatus::Active,
        "bob",
    );

    let events = store.events_for_orb(&orb_id);
    assert_eq!(events.len(), 1);
    assert_eq!(events[0].event_type, EventType::StatusChanged);
    let details = events[0].details.as_deref().unwrap();
    assert!(details.contains("pending"));
    assert!(details.contains("active"));
}

#[test]
fn log_phase_change_includes_details() {
    let mut store = AuditStore::new("events.jsonl");
    let orb_id = OrbId::from_raw("orb-test");

    log_phase_change(
        &mut store,
        &orb_id,
        OrbPhase::Pending,
        OrbPhase::Speccing,
        "carol",
    );

    let events = store.events_for_orb(&orb_id);
    assert_eq!(events.len(), 1);
    assert_eq!(events[0].event_type, EventType::PhaseChanged);
}

#[test]
fn log_priority_change_includes_values() {
    let mut store = AuditStore::new("events.jsonl");
    let orb_id = OrbId::from_raw("orb-test");

    log_priority_change(&mut store, &orb_id, 3, 1, "dave");

    let events = store.events_for_orb(&orb_id);
    assert_eq!(events[0].event_type, EventType::PriorityChanged);
    assert_eq!(events[0].details.as_deref(), Some("3 -> 1"));
}

#[test]
fn log_assigned_includes_assignee() {
    let mut store = AuditStore::new("events.jsonl");
    let orb_id = OrbId::from_raw("orb-test");

    log_assigned(&mut store, &orb_id, "eve", "admin");

    let events = store.events_for_orb(&orb_id);
    assert_eq!(events[0].event_type, EventType::Assigned);
    assert!(events[0].details.as_deref().unwrap().contains("eve"));
}

#[test]
fn log_dep_added_and_removed() {
    let mut store = AuditStore::new("events.jsonl");
    let orb_id = OrbId::from_raw("orb-a");
    let dep_id = OrbId::from_raw("orb-b");

    log_dep_added(&mut store, &orb_id, &dep_id, "system");
    log_dep_removed(&mut store, &orb_id, &dep_id, "system");

    let events = store.events_for_orb(&orb_id);
    assert_eq!(events.len(), 2);
    assert_eq!(events[0].event_type, EventType::DepAdded);
    assert_eq!(events[1].event_type, EventType::DepRemoved);
}

#[test]
fn log_deferred_and_undeferred() {
    let mut store = AuditStore::new("events.jsonl");
    let orb_id = OrbId::from_raw("orb-test");

    log_deferred(&mut store, &orb_id, "alice");
    log_undeferred(&mut store, &orb_id, "alice");

    let events = store.events_for_orb(&orb_id);
    assert_eq!(events.len(), 2);
    assert_eq!(events[0].event_type, EventType::Deferred);
    assert_eq!(events[1].event_type, EventType::Undeferred);
}

#[test]
fn log_tombstoned_with_reason() {
    let mut store = AuditStore::new("events.jsonl");
    let orb_id = OrbId::from_raw("orb-test");

    log_tombstoned(&mut store, &orb_id, Some("duplicate"), "admin");

    let events = store.events_for_orb(&orb_id);
    assert_eq!(events[0].event_type, EventType::Tombstoned);
    assert_eq!(events[0].details.as_deref(), Some("duplicate"));
}

#[test]
fn log_confidence_recorded_writes_event_with_value() {
    let mut store = AuditStore::new("events.jsonl");
    let orb_id = OrbId::from_raw("orb-conf");

    log_confidence_recorded(&mut store, &orb_id, &format!("{:.2}", 0.82f32), "worker");

    let events = store.events_for_orb(&orb_id);
    assert_eq!(events.len(), 1);
    assert_eq!(events[0].event_type, EventType::ConfidenceRecorded);
    assert_eq!(events[0].actor, "worker");
    assert_eq!(events[0].details.as_deref(), Some("0.82"));
}

#[test]
fn log_tombstoned_without_reason() {
    let mut store = AuditStore::new("events.jsonl");
    let orb_id = OrbId::from_raw("orb-test");

    log_tombstoned(&mut store, &orb_id, None, "admin");

    let events = store.events_for_orb(&orb_id);
    assert!(events[0].details.is_none());
}
