use orbs::id::OrbId;
use orbs::orb::{
    priority_name, status_transition_allowed, Orb, OrbPhase, OrbStatus, OrbType, ReviseScope,
    TransitionError, MAX_REVISIONS,
};
use orbs::task::TaskStatus;
use orbs::time::Timestamp;

fn now() -> Timestamp {
    let t = chrono::Utc::now();
    Timestamp::from_parts(t.timestamp(), t.timestamp_subsec_nanos()).unwrap()
}

#[test]
fn new_orb_is_pending_task() {
    let orb = Orb::new("Test orb", "Do something");
    assert_eq!(orb.status, Some(OrbStatus::Pending));
    assert_eq!(orb.orb_type, OrbType::Task);
    assert_eq!(orb.priority, 3);
    assert!(orb.result.is_none());
    assert!(orb.confidence.is_none());
    assert!(orb.parent_id.is_none());
    assert!(orb.id.as_str().starts_with("orb-"));
}

#[test]
fn new_orb_has_zero_revision_count() {
    let orb = Orb::new("t", "d");
    assert_eq!(orb.revision_count, 0);
}

#[test]
fn done_to_active_is_now_permitted_for_task() {
    let mut orb = Orb::new("t", "d");
    orb.set_status(OrbStatus::Active).unwrap();
    orb.set_status(OrbStatus::Done).unwrap();
    assert!(orb.set_status(OrbStatus::Active).is_ok());
}

#[test]
fn done_phase_to_refining_is_now_permitted_for_epic() {
    let mut orb = Orb::new("Epic", "d").with_type(OrbType::Epic);
    orb.phase = Some(OrbPhase::Executing);
    orb.set_phase(OrbPhase::Done).unwrap();
    assert!(orb.set_phase(OrbPhase::Refining).is_ok());
}

#[test]
fn done_phase_to_executing_is_now_permitted_for_epic() {
    let mut orb = Orb::new("Epic", "d").with_type(OrbType::Epic);
    orb.phase = Some(OrbPhase::Executing);
    orb.set_phase(OrbPhase::Done).unwrap();
    assert!(orb.set_phase(OrbPhase::Executing).is_ok());
}

#[test]
fn max_revisions_constant_is_3() {
    assert_eq!(MAX_REVISIONS, 3);
}

#[test]
fn try_begin_revision_task_execution_returns_to_active() {
    let mut orb = Orb::new("t", "d");
    orb.set_status(OrbStatus::Active).unwrap();
    orb.set_status(OrbStatus::Done).unwrap();
    orb.closed_at = Some(now());

    orb.try_begin_revision(ReviseScope::Execution).unwrap();
    assert_eq!(orb.status, Some(OrbStatus::Active));
    assert_eq!(orb.revision_count, 1);
    assert!(orb.closed_at.is_none(), "closed_at cleared on re-entry");
}

#[test]
fn try_begin_revision_task_decomposition_also_returns_to_active() {
    // Tasks have no Refining phase — both scopes flow to Active.
    let mut orb = Orb::new("t", "d");
    orb.set_status(OrbStatus::Active).unwrap();
    orb.set_status(OrbStatus::Done).unwrap();
    orb.try_begin_revision(ReviseScope::Decomposition).unwrap();
    assert_eq!(orb.status, Some(OrbStatus::Active));
}

#[test]
fn try_begin_revision_phase_orb_execution_goes_to_executing() {
    let mut orb = Orb::new("e", "d").with_type(OrbType::Epic);
    orb.phase = Some(OrbPhase::Executing);
    orb.set_phase(OrbPhase::Done).unwrap();
    orb.try_begin_revision(ReviseScope::Execution).unwrap();
    assert_eq!(orb.phase, Some(OrbPhase::Executing));
    assert_eq!(orb.revision_count, 1);
}

#[test]
fn try_begin_revision_phase_orb_decomposition_goes_to_refining() {
    let mut orb = Orb::new("e", "d").with_type(OrbType::Epic);
    orb.phase = Some(OrbPhase::Executing);
    orb.set_phase(OrbPhase::Done).unwrap();
    orb.try_begin_revision(ReviseScope::Decomposition).unwrap();
    assert_eq!(orb.phase, Some(OrbPhase::Refining));
}

#[test]
fn try_begin_revision_errors_when_cap_reached() {
    let mut orb = Orb::new("t", "d");
    orb.set_status(OrbStatus::Active).unwrap();
    orb.set_status(OrbStatus::Done).unwrap();
    orb.revision_count = MAX_REVISIONS;
    let err = orb.try_begin_revision(ReviseScope::Execution).unwrap_err();
    assert!(matches!(
        err,
        TransitionError::RevisionCapExceeded { count: 3, cap: 3 }
    ));
    // Orb should not have transitioned.
    assert_eq!(orb.status, Some(OrbStatus::Done));
}

#[test]
fn try_begin_revision_increments_each_call() {
    let mut orb = Orb::new("t", "d");
    orb.set_status(OrbStatus::Active).unwrap();
    for i in 1..=3 {
        orb.set_status(OrbStatus::Done).unwrap();
        orb.try_begin_revision(ReviseScope::Execution).unwrap();
        assert_eq!(orb.revision_count, i);
    }
    // Fourth attempt hits the cap.
    orb.set_status(OrbStatus::Done).unwrap();
    assert!(orb.try_begin_revision(ReviseScope::Execution).is_err());
}

#[test]
fn with_type_epic_uses_phase() {
    let orb = Orb::new("Epic", "big thing").with_type(OrbType::Epic);
    assert_eq!(orb.orb_type, OrbType::Epic);
    assert_eq!(orb.phase, Some(OrbPhase::Pending));
    assert_eq!(orb.status, None);
}

#[test]
fn orb_priority_clamped() {
    let orb = Orb::new("Test", "test").with_priority(0);
    assert_eq!(orb.priority, 1);
    let orb = Orb::new("Test", "test").with_priority(10);
    assert_eq!(orb.priority, 5);
}

#[test]
fn priority_display_names() {
    assert_eq!(priority_name(1), "Critical");
    assert_eq!(priority_name(2), "High");
    assert_eq!(priority_name(3), "Medium");
    assert_eq!(priority_name(4), "Low");
    assert_eq!(priority_name(5), "Backlog");
}

#[test]
fn effective_status_maps_correctly() {
    let mut orb = Orb::new("Test", "test");
    assert_eq!(orb.effective_status(), TaskStatus::Pending);

    orb.set_status(OrbStatus::Active).unwrap();
    assert_eq!(orb.effective_status(), TaskStatus::Active);

    orb.set_status(OrbStatus::Done).unwrap();
    assert_eq!(orb.effective_status(), TaskStatus::Done);
}

#[test]
fn effective_status_for_phase_types() {
    let mut orb = Orb::new("Epic", "big").with_type(OrbType::Epic);
    assert_eq!(orb.effective_status(), TaskStatus::Pending);

    orb.set_phase(OrbPhase::Speccing).unwrap();
    assert_eq!(orb.effective_status(), TaskStatus::Active);

    // Speccing -> Waiting is not direct; have to go through the pipeline.
    // For this test we just want to verify effective_status mapping.
    orb.set_phase(OrbPhase::Decomposing).unwrap();
    orb.set_phase(OrbPhase::Refining).unwrap();
    orb.set_phase(OrbPhase::Review).unwrap();
    orb.set_phase(OrbPhase::Waiting).unwrap();
    assert_eq!(orb.effective_status(), TaskStatus::Pending);

    orb.set_phase(OrbPhase::Executing).unwrap();
    orb.set_phase(OrbPhase::Done).unwrap();
    assert_eq!(orb.effective_status(), TaskStatus::Done);
}

#[test]
fn defer_from_pending() {
    let mut orb = Orb::new("Test", "test");
    assert!(orb.can_defer());
    assert!(orb.defer());
    assert_eq!(orb.status, Some(OrbStatus::Deferred));
}

#[test]
fn defer_from_active_fails() {
    let mut orb = Orb::new("Test", "test");
    orb.set_status(OrbStatus::Active).unwrap();
    assert!(!orb.can_defer());
    assert!(!orb.defer());
    assert_eq!(orb.status, Some(OrbStatus::Active));
}

#[test]
fn defer_epic_from_waiting() {
    let mut orb = Orb::new("Epic", "big").with_type(OrbType::Epic);
    // Walk through the pipeline to reach Waiting.
    orb.set_phase(OrbPhase::Speccing).unwrap();
    orb.set_phase(OrbPhase::Decomposing).unwrap();
    orb.set_phase(OrbPhase::Refining).unwrap();
    orb.set_phase(OrbPhase::Review).unwrap();
    orb.set_phase(OrbPhase::Waiting).unwrap();
    assert!(orb.can_defer());
    assert!(orb.defer());
    assert_eq!(orb.phase, Some(OrbPhase::Deferred));
}

#[test]
fn undefer_restores_pending() {
    let mut orb = Orb::new("Test", "test");
    orb.defer();
    orb.undefer();
    assert_eq!(orb.status, Some(OrbStatus::Pending));
}

#[test]
fn undefer_epic_with_parent_restores_waiting() {
    let mut orb = Orb::new("Feature", "sub").with_type(OrbType::Feature);
    orb.parent_id = Some(OrbId::from_raw("orb-parent"));
    orb.phase = Some(OrbPhase::Waiting); // test setup
    orb.defer();
    orb.undefer();
    assert_eq!(orb.phase, Some(OrbPhase::Waiting));
}

#[test]
fn tombstone_sets_deleted_at() {
    let mut orb = Orb::new("Test", "test");
    assert!(!orb.is_tombstoned());
    orb.tombstone(Some("duplicate".into()));
    assert!(orb.is_tombstoned());
    assert!(orb.deleted_at.is_some());
    assert_eq!(orb.delete_reason.as_deref(), Some("duplicate"));
    assert_eq!(orb.status, Some(OrbStatus::Tombstone));
}

#[test]
fn closed_at_set_on_terminal_status() {
    let mut orb = Orb::new("Test", "test");
    assert!(orb.closed_at.is_none());
    orb.set_status(OrbStatus::Active).unwrap();
    orb.set_status(OrbStatus::Done).unwrap();
    assert!(orb.closed_at.is_some());
}

#[test]
fn is_terminal_status() {
    assert!(OrbStatus::Done.is_terminal());
    assert!(OrbStatus::Failed.is_terminal());
    assert!(OrbStatus::Cancelled.is_terminal());
    assert!(OrbStatus::Tombstone.is_terminal());
    assert!(!OrbStatus::Pending.is_terminal());
    assert!(!OrbStatus::Active.is_terminal());
    assert!(!OrbStatus::Review.is_terminal());
    assert!(!OrbStatus::Draft.is_terminal());
    assert!(!OrbStatus::Deferred.is_terminal());
}

#[test]
fn is_terminal_phase() {
    assert!(OrbPhase::Done.is_terminal());
    assert!(OrbPhase::Failed.is_terminal());
    assert!(OrbPhase::Cancelled.is_terminal());
    assert!(OrbPhase::Tombstone.is_terminal());
    assert!(!OrbPhase::Refining.is_terminal());
    assert!(!OrbPhase::Executing.is_terminal());
}

#[test]
fn happy_path_status_transitions_succeed() {
    let mut orb = Orb::new("Test", "test"); // starts Pending
    orb.set_status(OrbStatus::Active).unwrap();
    orb.set_status(OrbStatus::Review).unwrap();
    orb.set_status(OrbStatus::Done).unwrap();
}

#[test]
fn invalid_status_transition_done_to_pending_errors() {
    let mut orb = Orb::new("Test", "test");
    orb.set_status(OrbStatus::Active).unwrap();
    orb.set_status(OrbStatus::Done).unwrap();
    let err = orb.set_status(OrbStatus::Pending).unwrap_err();
    assert!(matches!(
        err,
        TransitionError::InvalidStatus {
            from: OrbStatus::Done,
            to: OrbStatus::Pending
        }
    ));
    // Orb state unchanged.
    assert_eq!(orb.status, Some(OrbStatus::Done));
}

#[test]
fn invalid_status_transition_pending_to_done_errors() {
    // Must go through Active first; can't skip from Pending.
    let mut orb = Orb::new("Test", "test");
    let err = orb.set_status(OrbStatus::Done).unwrap_err();
    assert!(matches!(err, TransitionError::InvalidStatus { .. }));
}

#[test]
fn status_review_to_active_is_allowed_revise() {
    let mut orb = Orb::new("Test", "test");
    orb.set_status(OrbStatus::Active).unwrap();
    orb.set_status(OrbStatus::Review).unwrap();
    orb.set_status(OrbStatus::Active).unwrap();
    assert_eq!(orb.status, Some(OrbStatus::Active));
}

#[test]
fn tombstone_reachable_from_any_status() {
    for start in [
        OrbStatus::Draft,
        OrbStatus::Pending,
        OrbStatus::Active,
        OrbStatus::Review,
        OrbStatus::Done,
        OrbStatus::Failed,
        OrbStatus::Cancelled,
        OrbStatus::Deferred,
    ] {
        assert!(
            status_transition_allowed(Some(start), OrbStatus::Tombstone),
            "Tombstone should be reachable from {start:?}"
        );
    }
}

#[test]
fn cancel_reachable_only_from_non_terminal_status() {
    for non_terminal in [
        OrbStatus::Draft,
        OrbStatus::Pending,
        OrbStatus::Active,
        OrbStatus::Review,
    ] {
        assert!(status_transition_allowed(
            Some(non_terminal),
            OrbStatus::Cancelled
        ));
    }
    for terminal in [OrbStatus::Done, OrbStatus::Failed, OrbStatus::Cancelled] {
        assert!(
            !status_transition_allowed(Some(terminal), OrbStatus::Cancelled)
                // self-transition is allowed (Cancelled -> Cancelled is a no-op);
                // others should reject.
                || terminal == OrbStatus::Cancelled
        );
    }
}

#[test]
fn status_from_none_only_draft_allowed() {
    for s in [
        OrbStatus::Pending,
        OrbStatus::Active,
        OrbStatus::Review,
        OrbStatus::Done,
    ] {
        assert!(
            !status_transition_allowed(None, s),
            "None -> {s:?} should be rejected"
        );
    }
    assert!(status_transition_allowed(None, OrbStatus::Draft));
    // Tombstone admin override still works even from None.
    assert!(status_transition_allowed(None, OrbStatus::Tombstone));
}

#[test]
fn set_status_on_none_orb_returns_status_not_set() {
    // Manually construct an orb with status = None (not the normal path).
    let mut orb = Orb::new("Test", "test");
    orb.status = None;
    let err = orb.set_status(OrbStatus::Active).unwrap_err();
    assert!(matches!(
        err,
        TransitionError::StatusNotSet {
            to: OrbStatus::Active
        }
    ));
}

#[test]
fn happy_path_phase_pipeline() {
    let mut orb = Orb::new("Epic", "big").with_type(OrbType::Epic);
    // Starts Pending.
    orb.set_phase(OrbPhase::Speccing).unwrap();
    orb.set_phase(OrbPhase::Decomposing).unwrap();
    orb.set_phase(OrbPhase::Refining).unwrap();
    // Self-loop allowed for additional refinement rounds.
    orb.set_phase(OrbPhase::Refining).unwrap();
    orb.set_phase(OrbPhase::Review).unwrap();
    orb.set_phase(OrbPhase::Waiting).unwrap();
    orb.set_phase(OrbPhase::Executing).unwrap();
    orb.set_phase(OrbPhase::Done).unwrap();
}

#[test]
fn phase_waiting_reevaluating_round_trip() {
    let mut orb = Orb::new("Epic", "big").with_type(OrbType::Epic);
    orb.set_phase(OrbPhase::Speccing).unwrap();
    orb.set_phase(OrbPhase::Decomposing).unwrap();
    orb.set_phase(OrbPhase::Refining).unwrap();
    orb.set_phase(OrbPhase::Review).unwrap();
    orb.set_phase(OrbPhase::Waiting).unwrap();
    orb.set_phase(OrbPhase::Reevaluating).unwrap();
    orb.set_phase(OrbPhase::Waiting).unwrap();
}

#[test]
fn invalid_phase_transition_speccing_to_executing_errors() {
    let mut orb = Orb::new("Epic", "big").with_type(OrbType::Epic);
    orb.set_phase(OrbPhase::Speccing).unwrap();
    let err = orb.set_phase(OrbPhase::Executing).unwrap_err();
    assert!(matches!(err, TransitionError::InvalidPhase { .. }));
}

#[test]
fn phase_failed_reachable_from_any_non_terminal() {
    let mut orb = Orb::new("Epic", "big").with_type(OrbType::Epic);
    orb.set_phase(OrbPhase::Speccing).unwrap();
    orb.set_phase(OrbPhase::Failed).unwrap();
    assert_eq!(orb.phase, Some(OrbPhase::Failed));
    // No transitions out of Failed except Tombstone.
    let err = orb.set_phase(OrbPhase::Pending).unwrap_err();
    assert!(matches!(err, TransitionError::InvalidPhase { .. }));
    // But Tombstone works.
    orb.set_phase(OrbPhase::Tombstone).unwrap();
}

#[test]
fn content_hash_computed() {
    let mut orb = Orb::new("Test", "description");
    orb.update_content_hash();
    assert!(orb.content_hash.is_some());

    let hash1 = orb.content_hash.clone();
    orb.description = "changed".into();
    orb.update_content_hash();
    assert_ne!(orb.content_hash, hash1);
}

#[test]
fn content_hash_stable_on_metadata_change() {
    let mut orb = Orb::new("Test", "description");
    orb.update_content_hash();
    let hash1 = orb.content_hash.clone();

    // Metadata change — should NOT affect content hash
    orb.updated_at = now();
    orb.update_content_hash();
    assert_eq!(orb.content_hash, hash1);
}

#[test]
fn with_parent_sets_root_id() {
    let parent_id = OrbId::from_raw("orb-parent");
    let orb = Orb::new("Child", "sub task").with_parent(parent_id.clone(), None);
    assert_eq!(orb.parent_id, Some(parent_id.clone()));
    assert_eq!(orb.root_id, Some(parent_id));
}

#[test]
fn with_parent_preserves_explicit_root() {
    let parent_id = OrbId::from_raw("orb-parent");
    let root_id = OrbId::from_raw("orb-root");
    let orb =
        Orb::new("Child", "sub task").with_parent(parent_id.clone(), Some(root_id.clone()));
    assert_eq!(orb.parent_id, Some(parent_id));
    assert_eq!(orb.root_id, Some(root_id));
}
