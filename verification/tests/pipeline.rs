use orbs::dep::{DepEdge, EdgeType};
use orbs::id::OrbId;
use orbs::orb::{Orb, OrbStatus, OrbType};
use orbs::orb_store::OrbStore;
use orbs::pipeline::{
    archive_path, compact, compact_at, create_pipeline, create_pipeline_over,
    find_available_snapshot_dir, find_latest, pipeline_dir_name, plan_recovery, recover_pipeline,
    resolve_store, snapshot, snapshot_at, Archived, Files, PipelineDir, PipelineError, Recovery,
    SnapshotInfo,
};
use orbs::time::Timestamp;

fn ts(rfc: &str) -> Timestamp {
    let t = chrono::DateTime::parse_from_rfc3339(rfc).unwrap();
    Timestamp::from_parts(t.timestamp(), t.timestamp_subsec_nanos()).unwrap()
}

fn dir_name(pipeline: &PipelineDir) -> String {
    pipeline.root().rsplit('/').next().unwrap().to_string()
}

fn empty_files() -> Files {
    Files { orbs: Some(vec![]), deps: Some(vec![]), events: Some(vec![]) }
}

fn no_files() -> Files {
    Files { orbs: None, deps: None, events: None }
}

#[test]
fn create_pipeline_creates_directory_structure() {
    let orb = Orb::new("Test feature", "A test feature").with_type(OrbType::Feature);

    let pipeline = create_pipeline("/base", &orb);

    assert!(pipeline.root().starts_with("/base/pipelines/feature-"));
    assert!(pipeline.orb_store().load_all().is_empty());
    assert!(pipeline.dep_store().all_edges().is_empty());
    assert!(pipeline.files().orbs.is_some());
    assert!(pipeline.files().deps.is_some());
    assert!(pipeline.files().events.is_some());
    assert!(pipeline.snapshots().is_empty());
    assert!(pipeline.history().is_empty());
    assert!(!pipeline.is_locked());
}

#[test]
fn create_pipeline_dir_name_format() {
    let orb = Orb::new("My epic", "An epic thing").with_type(OrbType::Epic);

    let pipeline = create_pipeline("/base", &orb);

    let dir_name = dir_name(&pipeline);
    assert!(
        dir_name.starts_with("epic-"),
        "Expected dir name starting with 'epic-', got: {dir_name}"
    );
}

#[test]
fn create_pipeline_task_type() {
    let orb = Orb::new("Fix bug", "Fix the thing");

    let pipeline = create_pipeline("/base", &orb);

    let dir_name = dir_name(&pipeline);
    assert!(
        dir_name.starts_with("task-"),
        "Expected dir name starting with 'task-', got: {dir_name}"
    );
}

#[test]
fn create_pipeline_is_idempotent() {
    let orb = Orb::new("Idempotent", "Should work twice");

    let p1 = create_pipeline("/base", &orb);
    let p2 = create_pipeline("/base", &orb);

    assert_eq!(p1.root(), p2.root());
}

#[test]
fn snapshot_copies_current_state() {
    let orb = Orb::new("Snapshot test", "Test snapshotting");
    let mut pipeline = create_pipeline("/base", &orb);
    pipeline.append_orb(&orb);

    let snap_dir = snapshot(&mut pipeline, "decomposition").unwrap();

    assert_eq!(pipeline.snapshots().len(), 1);
    let snap = &pipeline.snapshots()[0];
    assert_eq!(snap.path, snap_dir);
    let orbs = snap.files.orbs.as_ref().unwrap();
    assert_eq!(orbs.len(), 1);
    assert_eq!(orbs[0].id, orb.id);
    assert!(snap.files.deps.as_ref().unwrap().is_empty());
    assert!(snap.files.events.as_ref().unwrap().is_empty());
}

#[test]
fn snapshot_handles_duplicate_names() {
    let orb = Orb::new("Dupe snap", "Test duplicate snapshots");
    let mut pipeline = create_pipeline("/base", &orb);

    let snap1 = snapshot(&mut pipeline, "refinement").unwrap();
    let snap2 = snapshot(&mut pipeline, "refinement").unwrap();
    let snap3 = snapshot(&mut pipeline, "refinement").unwrap();

    assert!(snap1.ends_with("/refinement"));
    assert!(snap2.ends_with("/refinement-1"));
    assert!(snap3.ends_with("/refinement-2"));
}

#[test]
fn compact_deduplicates_orbs() {
    let mut orb = Orb::new("Compact me", "Test compaction");
    let mut pipeline = create_pipeline("/base", &orb);

    pipeline.append_orb(&orb);
    orb.set_status(OrbStatus::Active).unwrap();
    pipeline.append_orb(&orb);
    orb.set_status(OrbStatus::Done).unwrap();
    orb.result = Some("done".into());
    pipeline.append_orb(&orb);

    compact(&mut pipeline);

    let orbs = pipeline.orb_store().load_all();
    assert_eq!(orbs.len(), 1);
    assert_eq!(orbs[0].result.as_deref(), Some("done"));

    // One record is left in the file.
    assert_eq!(pipeline.files().orbs.as_ref().unwrap().len(), 1);
}

#[test]
fn compact_archives_to_history() {
    let orb = Orb::new("Archive me", "Test archiving");
    let mut pipeline = create_pipeline("/base", &orb);
    pipeline.append_orb(&orb);

    compact(&mut pipeline);

    assert!(!pipeline.history().is_empty(), "Expected history entries after compaction");
    let start = format!("{}/orbs-", pipeline.history_dir());
    let has_orbs_archive = pipeline.history().iter().any(|a| match a {
        Archived::Orbs { path, .. } => path.starts_with(&start),
        _ => false,
    });
    assert!(has_orbs_archive, "Expected orbs archive in history");
}

#[test]
fn compact_removes_dead_deps() {
    let orb = Orb::new("Dep compact", "Test dep compaction");
    let mut pipeline = create_pipeline("/base", &orb);

    let edge_active =
        DepEdge::new(OrbId::from_raw("orb-a"), OrbId::from_raw("orb-b"), EdgeType::Blocks);
    let mut edge_removed =
        DepEdge::new(OrbId::from_raw("orb-c"), OrbId::from_raw("orb-d"), EdgeType::DependsOn);
    edge_removed.remove();
    pipeline.append_dep(&edge_active);
    pipeline.append_dep(&edge_removed);

    compact(&mut pipeline);
    snapshot(&mut pipeline, "after").unwrap();

    let remaining = pipeline.snapshots()[0].files.deps.as_ref().unwrap();
    assert_eq!(remaining.len(), 1);
    assert_eq!(remaining[0].from, OrbId::from_raw("orb-a"));
    assert!(!remaining[0].is_removed());
}

#[test]
fn compact_removes_lock() {
    let orb = Orb::new("Lock test", "Test lock removal");
    let mut pipeline = create_pipeline("/base", &orb);
    pipeline.append_orb(&orb);

    compact(&mut pipeline);

    assert!(!pipeline.is_locked(), "Lock should be removed after compaction");
}

#[test]
fn resolve_store_finds_orb_in_pipeline() {
    let orb = Orb::new("Pipeline orb", "Lives in pipeline");
    let mut pipeline = create_pipeline("/base", &orb);
    pipeline.append_orb(&orb);

    let canonical = OrbStore::new("/base/orbs.jsonl");
    let stores = vec![OrbStore::new("/base/pipelines/other/orbs.jsonl"), pipeline.orb_store()];
    let resolved = resolve_store(&canonical, &stores, &orb.id);
    let found = resolved.load_by_id(&orb.id);
    assert!(found.is_some());
    assert_eq!(found.unwrap().title, "Pipeline orb");
    assert_eq!(resolved.path(), pipeline.orbs_path());
}

#[test]
fn resolve_store_falls_back_to_canonical() {
    let orb = Orb::new("Canonical orb", "Lives in canonical store");

    let mut canonical = OrbStore::new("/base/orbs.jsonl");
    canonical.append(&orb);

    let pipelines = Vec::new();
    let resolved = resolve_store(&canonical, &pipelines, &orb.id);
    let found = resolved.load_by_id(&orb.id);
    assert!(found.is_some());
    assert_eq!(found.unwrap().title, "Canonical orb");
}

#[test]
fn resolve_store_returns_canonical_when_no_pipelines() {
    let id = OrbId::from_raw("orb-nonexistent");
    let canonical = OrbStore::new("/base/orbs.jsonl");

    let pipelines = Vec::new();
    let resolved = resolve_store(&canonical, &pipelines, &id);
    assert_eq!(resolved.path(), "/base/orbs.jsonl");
}

#[test]
fn recover_noop_when_no_lock() {
    let orb = Orb::new("No lock", "No recovery needed");
    let mut pipeline = create_pipeline("/base", &orb);

    let recovered = recover_pipeline(&mut pipeline);
    assert!(!recovered);
}

#[test]
fn recover_restores_from_snapshot() {
    let orb = Orb::new("Recover me", "Test recovery");
    let mut pipeline = create_pipeline("/base", &orb);

    pipeline.append_orb(&orb);
    snapshot(&mut pipeline, "pre-crash").unwrap();

    // The file is lost and a lock is left.
    pipeline.set_files(empty_files());
    pipeline.write_lock(ts("2025-01-01T00:00:00Z"));
    assert!(pipeline.is_locked());

    let recovered = recover_pipeline(&mut pipeline);
    assert!(recovered);
    assert!(!pipeline.is_locked());

    let restored = pipeline.orb_store().load_all();
    assert_eq!(restored.len(), 1);
    assert_eq!(restored[0].id, orb.id);
}

#[test]
fn recover_removes_stale_lock_without_snapshots() {
    let orb = Orb::new("Stale lock", "Lock but no snapshots");
    let mut pipeline = create_pipeline("/base", &orb);

    pipeline.write_lock(ts("2025-01-01T00:00:00Z"));
    assert!(pipeline.is_locked());

    let recovered = recover_pipeline(&mut pipeline);
    assert!(recovered);
    assert!(!pipeline.is_locked());
}

#[test]
fn recover_uses_latest_snapshot() {
    let mut orb = Orb::new("Multi snap", "Multiple snapshots");
    let mut pipeline = create_pipeline("/base", &orb);

    pipeline.append_orb(&orb);
    snapshot_at(&mut pipeline, "early", ts("2025-01-01T00:00:00Z")).unwrap();

    orb.set_status(OrbStatus::Active).unwrap();
    orb.result = Some("active state".into());
    pipeline.set_files(empty_files());
    pipeline.append_orb(&orb);
    snapshot_at(&mut pipeline, "later", ts("2025-01-01T00:00:00.050Z")).unwrap();

    pipeline.set_files(empty_files());
    pipeline.write_lock(ts("2025-01-01T00:00:01Z"));

    let recovered = recover_pipeline(&mut pipeline);
    assert!(recovered);

    let restored = pipeline.orb_store().load_all();
    assert_eq!(restored.len(), 1);
    assert_eq!(restored[0].result.as_deref(), Some("active state"));
}

#[test]
fn lock_file_during_compact() {
    let orb = Orb::new("Lock during compact", "Verify lock behavior");
    let mut pipeline = create_pipeline("/base", &orb);
    pipeline.append_orb(&orb);

    assert!(!pipeline.is_locked());
    compact(&mut pipeline);
    assert!(!pipeline.is_locked());
}

#[test]
fn compact_empty_pipeline() {
    let orb = Orb::new("Empty pipeline", "Nothing to compact");
    let mut pipeline = create_pipeline("/base", &orb);

    compact(&mut pipeline);
    assert!(pipeline.orb_store().load_all().is_empty());
}

#[test]
fn pipeline_dir_paths_are_correct() {
    let orb = Orb::new("Paths test", "Check all paths");
    let pipeline = create_pipeline("/base", &orb);
    let root = pipeline.root().to_string();

    assert_eq!(pipeline.orbs_path(), format!("{root}/orbs.jsonl"));
    assert_eq!(pipeline.deps_path(), format!("{root}/deps.jsonl"));
    assert_eq!(pipeline.events_path(), format!("{root}/events.jsonl"));
    assert_eq!(pipeline.snapshots_dir(), format!("{root}/snapshots"));
    assert_eq!(pipeline.history_dir(), format!("{root}/history"));
    assert_eq!(pipeline.lock_path(), format!("{root}/.lock"));
}

#[test]
fn custom_orb_type_pipeline_name() {
    let orb = Orb::new("Research", "Research task").with_type(OrbType::Custom("research".into()));
    let pipeline = create_pipeline("/base", &orb);

    let dir_name = dir_name(&pipeline);
    assert!(
        dir_name.starts_with("research-"),
        "Expected dir name starting with 'research-', got: {dir_name}"
    );
}

#[test]
fn pipeline_name_uses_eight_characters() {
    let mut orb = Orb::new("t", "d").with_type(OrbType::Epic);
    orb.id = OrbId::from_raw("orb-k4f");
    assert_eq!(pipeline_dir_name(&orb), "epic-k4f");
    orb.id = OrbId::from_raw("orb-abcdefgh");
    assert_eq!(pipeline_dir_name(&orb), "epic-abcdefgh");
    orb.id = OrbId::from_raw("orb-abcdefghi");
    assert_eq!(pipeline_dir_name(&orb), "epic-abcdefgh");
    orb.id = OrbId::from_raw("abcdefghijk");
    assert_eq!(pipeline_dir_name(&orb), "epic-abcdefgh");
    orb.id = OrbId::from_raw("orb-äöüäöüäöü");
    assert_eq!(pipeline_dir_name(&orb), "epic-äöüäöüäö");
}

#[test]
fn compaction_keeps_all_logs_in_history() {
    let orb = Orb::new("All logs", "d");
    let edge = DepEdge::new(OrbId::from_raw("orb-a"), OrbId::from_raw("orb-b"), EdgeType::Blocks);
    let mut pipeline = create_pipeline("/base", &orb);
    pipeline.set_files(Files {
        orbs: Some(vec![orb.clone(), orb]),
        deps: Some(vec![edge]),
        events: Some(b"not even JSON".to_vec()),
    });

    compact_at(&mut pipeline, ts("2026-05-21T12:34:56Z"));

    let root = pipeline.root().to_string();
    assert_eq!(pipeline.history().len(), 3);
    match &pipeline.history()[0] {
        Archived::Orbs { path, orbs } => {
            assert_eq!(*path, format!("{root}/history/orbs-20260521123456.jsonl"));
            assert_eq!(orbs.len(), 2);
        }
        other => panic!("expected orbs, got {other:?}"),
    }
    match &pipeline.history()[1] {
        Archived::Deps { path, deps } => {
            assert_eq!(*path, format!("{root}/history/deps-20260521123456.jsonl"));
            assert_eq!(deps.len(), 1);
        }
        other => panic!("expected deps, got {other:?}"),
    }
    match &pipeline.history()[2] {
        Archived::Events { path, events } => {
            assert_eq!(*path, format!("{root}/history/events-20260521123456.jsonl"));
            assert_eq!(events, b"not even JSON");
        }
        other => panic!("expected events, got {other:?}"),
    }
    assert_eq!(pipeline.files().events.as_deref(), Some(&b"not even JSON"[..]));

    // A second compaction at the same second takes the place of the first in the history.
    compact_at(&mut pipeline, ts("2026-05-21T12:34:56.5Z"));
    let files: Vec<&str> = pipeline.history().iter().map(|a| a.file()).collect();
    assert_eq!(
        files,
        vec![
            archive_path(&root, "orbs-", "20260521123456"),
            archive_path(&root, "deps-", "20260521123456"),
            archive_path(&root, "events-", "20260521123456"),
        ]
    );
    assert!(matches!(&pipeline.history()[0], Archived::Orbs { orbs, .. } if orbs.len() == 1));
}

#[test]
fn missing_files_stay_away() {
    let orb = Orb::new("Missing", "d");
    let mut pipeline = create_pipeline("/base", &orb);
    let files = Files { orbs: Some(vec![orb.clone()]), ..no_files() };
    pipeline.set_files(files);
    snapshot_at(&mut pipeline, "one", ts("2025-01-01T00:00:00Z")).unwrap();

    compact_at(&mut pipeline, ts("2025-01-02T00:00:00Z"));
    assert_eq!(pipeline.history().len(), 1);
    assert!(pipeline.files().deps.is_none());
    assert!(pipeline.files().events.is_none());
    assert!(pipeline.dep_store().all_edges().is_empty());

    // Recovery leaves a file alone that the snapshot lacks.
    pipeline.set_files(Files { events: Some(vec![7]), ..no_files() });
    pipeline.write_lock(ts("2025-01-03T00:00:00Z"));
    assert!(recover_pipeline(&mut pipeline));
    assert_eq!(pipeline.files().orbs.as_ref().unwrap().len(), 1);
    assert!(pipeline.files().deps.is_none());
    assert_eq!(pipeline.files().events, Some(vec![7]));
}

#[test]
fn creating_again_keeps_what_is_there() {
    let orb = Orb::new("Again", "d");
    let mut first = create_pipeline("/base", &orb);
    let root = first.root().to_string();
    first.append_orb(&orb);
    snapshot(&mut first, "early").unwrap();
    first.set_files(Files { orbs: Some(vec![orb.clone()]), ..no_files() });

    let again = create_pipeline_over("/base", &orb, Some(first));
    assert_eq!(again.root(), root);
    assert_eq!(again.orb_store().load_all().len(), 1);
    assert_eq!(again.files().deps.as_ref().map(Vec::len), Some(0));
    assert_eq!(again.files().events, Some(vec![]));
    assert_eq!(again.snapshots().len(), 1);

    let fresh = create_pipeline_over("/base", &orb, None);
    assert_eq!(fresh.root(), root);
    assert_eq!(fresh.files().orbs.as_ref().map(Vec::len), Some(0));
}

#[test]
fn recovery_is_planned_by_time_and_files() {
    let info = |t: &str, deps: bool| SnapshotInfo {
        taken_at: ts(t),
        orbs: true,
        deps,
        events: !deps,
    };
    let shots = vec![
        info("2025-01-01T00:00:00Z", true),
        info("2025-01-03T00:00:00Z", false),
        info("2025-01-02T00:00:00Z", true),
    ];
    assert_eq!(plan_recovery(false, &shots), Recovery::NotNeeded);
    assert_eq!(plan_recovery(true, &vec![]), Recovery::Unlock);
    assert_eq!(
        plan_recovery(true, &shots),
        Recovery::Restore { snapshot: 1, orbs: true, deps: false, events: true }
    );
}

#[test]
fn snapshot_names_run_out() {
    let mut taken = vec!["/s/draft".to_string()];
    for i in 1..999 {
        taken.push(format!("/s/draft-{i}"));
    }
    assert_eq!(find_available_snapshot_dir("/s", "draft", &taken).unwrap(), "/s/draft-999");
    taken.push("/s/draft-999".to_string());
    let err = find_available_snapshot_dir("/s", "draft", &taken).unwrap_err();
    assert_eq!(err.message(), "too many snapshots for phase draft");
    assert!(matches!(err, PipelineError::TooManySnapshots { phase } if phase == "draft"));
}

#[test]
fn latest_time_is_first_of_equals() {
    let a = ts("2026-01-01T00:00:00Z");
    let b = ts("2026-01-02T00:00:00Z");
    assert_eq!(find_latest(&vec![]), None);
    assert_eq!(find_latest(&vec![a, b, b, a]), Some(1));
}

#[test]
fn pipeline_from_parts_keeps_its_lock() {
    let orb = Orb::new("Parts", "d");
    let mut pipeline = PipelineDir::from_parts(
        "/base/pipelines/task-x",
        Files { orbs: Some(vec![orb]), ..no_files() },
        vec![],
        vec![],
        Some("2025-01-01T00:00:00Z".to_string()),
    );
    assert!(pipeline.is_locked());
    assert!(recover_pipeline(&mut pipeline));
    assert_eq!(pipeline.orb_store().load_all().len(), 1);
}
