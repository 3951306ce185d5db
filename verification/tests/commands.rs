use orbs::commands::{
    cmd_create, cmd_create_at, cmd_delete, cmd_dep_add, cmd_dep_rm, cmd_deps, cmd_ids_from_query,
    cmd_list, cmd_tree, cmd_update, cmd_update_at, load_orb, Changes, CommandError, EdgeError, Query,
};
use orbs::dep::EdgeType;
use orbs::dep_store::{DepError, DepStore};
use orbs::id::OrbId;
use orbs::names::{parse_orb_type, NameError};
use orbs::orb::{Orb, OrbPhase, OrbStatus, OrbType, TransitionError};
use orbs::orb_store::OrbStore;
use orbs::render::{
    added_line, answer_lines, detail_lines, edge_lines, init_lines, list_lines, removed_line,
    summary_lines, tree_lines,
};
use orbs::time::Timestamp;
use orbs::tree::can_build_tree;

fn ts(rfc: &str) -> Timestamp {
    let t = chrono::DateTime::parse_from_rfc3339(rfc).unwrap();
    Timestamp::from_parts(t.timestamp(), t.timestamp_subsec_nanos()).unwrap()
}

fn create(store: &mut OrbStore, title: &str, parent: Option<&str>, labels: &[&str]) -> String {
    let labels = labels.iter().map(|l| l.to_string()).collect();
    let orb = cmd_create(store, title, title, OrbType::Task, 3, parent, None, false, &labels);
    orb.id.as_str().to_string()
}

fn joined(lines: &[String]) -> String {
    lines.join("\n")
}

#[test]
fn init_creates_local_store_files() {
    let lines = init_lines(".orbs");
    assert_eq!(
        lines,
        vec![
            "Initialized .orbs",
            "  .orbs/orbs.jsonl",
            "  .orbs/deps.jsonl",
            "  .orbs/events.jsonl",
        ]
    );
}

#[test]
fn create_list_show_update_delete_round_trip() {
    let mut store = OrbStore::new(".orbs/orbs.jsonl");

    let orb = cmd_create(
        &mut store,
        "Write README",
        "Document the package",
        parse_orb_type("docs"),
        2,
        None,
        None,
        false,
        &vec!["docs".to_string()],
    );
    let id = orb.id.as_str().to_string();

    let listed = cmd_list(&store, None, None, false, &vec!["docs".to_string()]).unwrap();
    let text = joined(&list_lines(&listed));
    assert!(text.contains("Write README"));
    assert!(text.contains("[docs]"));

    let shown = load_orb(&store, &id).unwrap();
    assert!(joined(&detail_lines(&shown, None)).contains("Description: Document the package"));

    let changes = Changes {
        priority: Some(1),
        add_labels: vec!["release".to_string()],
        ..Default::default()
    };
    let updated = cmd_update(&mut store, &id, &changes).unwrap();
    assert_eq!(updated.id.as_str(), id);

    let listed = cmd_list(&store, None, None, false, &vec!["release".to_string()]).unwrap();
    assert!(joined(&list_lines(&listed)).contains("p1 Write README"));

    let deleted = cmd_delete(&mut store, &id, Some("done elsewhere".to_string())).unwrap();
    assert_eq!(deleted.delete_reason.as_deref(), Some("done elsewhere"));

    let listed = cmd_list(&store, None, None, false, &vec![]).unwrap();
    assert!(joined(&list_lines(&listed)).contains("No orbs"));

    let listed = cmd_list(&store, None, None, true, &vec![]).unwrap();
    assert!(joined(&list_lines(&listed)).contains("Write README"));
}

#[test]
fn deps_ready_waiting_pipeline_and_tree_work() {
    let mut store = OrbStore::new(".orbs/orbs.jsonl");
    let mut deps = DepStore::new(".orbs/deps.jsonl");

    let blocker = create(&mut store, "Set up schema", None, &[]);
    let blocked = create(&mut store, "Build UI", Some(&blocker), &["frontend"]);

    let added = cmd_dep_add(&mut deps, &blocker, &blocked, "blocks").unwrap();
    let line = added_line(&blocker, added, &blocked);
    assert_eq!(line, format!("Added {blocker} -blocks-> {blocked}"));

    let waiting = cmd_ids_from_query(&store, &deps, Query::Waiting);
    assert!(joined(&answer_lines(&store, &waiting)).contains("Build UI"));

    let ready = cmd_ids_from_query(&store, &deps, Query::Ready);
    let text = joined(&answer_lines(&store, &ready));
    assert!(text.contains("Set up schema"));
    assert!(!text.contains("Build UI"));

    let pipeline = cmd_ids_from_query(&store, &deps, Query::Pipeline);
    let lines = answer_lines(&store, &pipeline);
    assert_eq!(
        lines,
        vec![format!("{blocker} Set up schema"), format!("{blocked} Build UI")]
    );

    assert!(can_build_tree(&store, &OrbId::from_raw(&blocker)));
    let tree = cmd_tree(Some(&store), &blocker).unwrap();
    assert_eq!(
        tree_lines(&tree),
        vec![
            format!("{blocker} [pending] Set up schema"),
            format!("  {blocked} [pending] Build UI"),
        ]
    );

    let edges = cmd_deps(&deps, &blocked);
    assert!(joined(&edge_lines(&edges)).contains("blocks"));
}

#[test]
fn create_sets_all_fields() {
    let mut store = OrbStore::new("orbs.jsonl");
    let orb = cmd_create_at(
        &mut store,
        "Epic",
        "Big",
        OrbType::Epic,
        9,
        Some("orb-p"),
        Some("orb-r"),
        true,
        &vec![" a, b ,,a".to_string(), "c".to_string()],
        ts("2026-05-21T12:00:00Z"),
    );
    assert_eq!(orb.priority, 5);
    assert_eq!(orb.parent_id, Some(OrbId::from_raw("orb-p")));
    assert_eq!(orb.root_id, Some(OrbId::from_raw("orb-r")));
    assert_eq!(orb.phase, Some(OrbPhase::Draft));
    assert_eq!(orb.status, None);
    assert_eq!(orb.labels, vec!["a", "b", "c"]);
    assert_eq!(orb.created_at, ts("2026-05-21T12:00:00Z"));
    let mut copy = orb.clone();
    copy.update_content_hash();
    assert_eq!(copy.content_hash, orb.content_hash);

    // Without a parent there is no root.
    let orb =
        cmd_create(&mut store, "T", "T", OrbType::Task, 3, None, Some("orb-r"), false, &vec![]);
    assert_eq!(orb.root_id, None);
    assert_eq!(orb.status, Some(OrbStatus::Pending));
    assert_eq!(store.load_all().len(), 2);
}

#[test]
fn update_refuses_what_cannot_be() {
    let mut store = OrbStore::new("orbs.jsonl");
    let id = create(&mut store, "T", None, &[]);
    let before = store.load_all_including_tombstoned().len();

    let both = Changes { defer: true, undefer: true, ..Default::default() };
    let err = cmd_update(&mut store, &id, &both).unwrap_err();
    assert_eq!(err.message(), "--defer and --undefer cannot be used together");
    assert!(matches!(err, CommandError::DeferAndUndefer));

    let err = cmd_update(&mut store, "orb-none", &Changes::default()).unwrap_err();
    assert_eq!(err.message(), "orb not found: orb-none");
    assert!(err.cause().is_none());

    let done = Changes { status: Some("Done".to_string()), ..Default::default() };
    let err = cmd_update(&mut store, &id, &done).unwrap_err();
    assert_eq!(err.message(), "failed to set status to Done");
    assert!(err.cause().is_some());
    assert!(matches!(
        err,
        CommandError::StatusRefused {
            error: TransitionError::InvalidStatus { from: OrbStatus::Pending, to: OrbStatus::Done },
            ..
        }
    ));

    let odd = Changes { status: Some("Speccing".to_string()), ..Default::default() };
    let err = cmd_update(&mut store, &id, &odd).unwrap_err();
    assert_eq!(err.message(), "unknown status: speccing");
    assert!(matches!(err, CommandError::Name(NameError::UnknownStatus(_))));

    let active =
        Changes { status: Some("active".to_string()), defer: true, ..Default::default() };
    let err = cmd_update(&mut store, &id, &active).unwrap_err();
    assert_eq!(err.message(), "orb cannot be deferred from active");

    // Nothing was written.
    assert_eq!(store.load_all_including_tombstoned().len(), before);
    assert_eq!(load_orb(&store, &id).unwrap().status, Some(OrbStatus::Pending));
}

#[test]
fn update_of_phase_orbs() {
    let mut store = OrbStore::new("orbs.jsonl");
    let orb = cmd_create(&mut store, "E", "E", OrbType::Epic, 3, None, None, false, &vec![]);
    let id = orb.id.as_str().to_string();

    let bad = Changes { status: Some("executing".to_string()), ..Default::default() };
    let err = cmd_update(&mut store, &id, &bad).unwrap_err();
    assert_eq!(err.message(), "failed to set phase to executing");
    let unknown = Changes { status: Some("ACTIVE".to_string()), ..Default::default() };
    let err = cmd_update(&mut store, &id, &unknown).unwrap_err();
    assert_eq!(err.message(), "unknown phase: active");

    let good = Changes { status: Some("Speccing".to_string()), ..Default::default() };
    let orb = cmd_update(&mut store, &id, &good).unwrap();
    assert_eq!(orb.phase, Some(OrbPhase::Speccing));
}

#[test]
fn update_changes_text_labels_and_deferral() {
    let mut store = OrbStore::new("orbs.jsonl");
    let id = create(&mut store, "T", None, &["old", "stay"]);
    let at = ts("2030-01-01T00:00:00Z");
    let changes = Changes {
        title: Some("New".to_string()),
        description: Some("Text".to_string()),
        priority: Some(0),
        defer: true,
        add_labels: vec!["new,stay".to_string()],
        remove_labels: vec!["old".to_string()],
        ..Default::default()
    };
    let orb = cmd_update_at(&mut store, &id, &changes, at).unwrap();
    assert_eq!(orb.title, "New");
    assert_eq!(orb.description, "Text");
    assert_eq!(orb.priority, 1);
    assert_eq!(orb.status, Some(OrbStatus::Deferred));
    assert_eq!(orb.labels, vec!["stay", "new"]);
    assert_eq!(orb.updated_at, at);
    assert_eq!(load_orb(&store, &id).unwrap().title, "New");

    let changes = Changes {
        undefer: true,
        set_labels: Some(" x , y,x".to_string()),
        ..Default::default()
    };
    let orb = cmd_update(&mut store, &id, &changes).unwrap();
    assert_eq!(orb.status, Some(OrbStatus::Pending));
    assert_eq!(orb.labels, vec!["x", "y"]);
}

#[test]
fn list_filters() {
    let mut store = OrbStore::new("orbs.jsonl");
    let task = create(&mut store, "Task", None, &["a"]);
    let epic =
        cmd_create(&mut store, "Epic", "Epic", OrbType::Epic, 3, None, None, false, &vec![]);
    let speccing = Changes { status: Some("speccing".to_string()), ..Default::default() };
    cmd_update(&mut store, epic.id.as_str(), &speccing).unwrap();
    let defer = Changes { defer: true, ..Default::default() };
    let late = create(&mut store, "Late", None, &["b"]);
    cmd_update(&mut store, &late, &defer).unwrap();

    let titles = |t: Option<&str>, s: Option<&str>, l: &[&str]| -> Vec<String> {
        let labels = l.iter().map(|x| x.to_string()).collect();
        let orbs: Vec<Orb> = cmd_list(&store, t, s, false, &labels).unwrap();
        orbs.iter().map(|o| o.title.clone()).collect()
    };
    assert_eq!(titles(None, None, &[]), vec!["Task", "Epic", "Late"]);
    assert_eq!(titles(Some("EPIC"), None, &[]), vec!["Epic"]);
    assert_eq!(titles(None, Some("speccing"), &[]), vec!["Epic"]);
    assert_eq!(titles(None, Some("deferred"), &[]), vec!["Late"]);
    // By effective status.
    assert_eq!(titles(None, Some("active"), &[]), vec!["Epic"]);
    assert_eq!(titles(None, Some("pending"), &[]), vec!["Task", "Late"]);
    assert_eq!(titles(None, None, &["b, a"]), vec!["Task", "Late"]);
    assert_eq!(titles(Some("task"), Some("pending"), &["b"]), vec!["Late"]);
    assert!(titles(None, Some("failed"), &[]).is_empty());

    let err = cmd_list(&store, None, Some("Nope"), false, &vec![]).unwrap_err();
    assert_eq!(err.message(), "unknown phase: nope");

    let listed = cmd_list(&store, None, None, false, &vec!["a".to_string()]).unwrap();
    assert_eq!(list_lines(&listed), vec![format!("{task} [task] pending p3 Task")]);
}

#[test]
fn edges_are_added_and_removed_by_name() {
    let mut deps = DepStore::new("deps.jsonl");
    let err = cmd_dep_add(&mut deps, "a", "b", "Wants").unwrap_err();
    match err {
        EdgeError::Name(e) => assert_eq!(e.message(), "unknown edge type: wants"),
        other => panic!("unexpected {other:?}"),
    }
    assert_eq!(cmd_dep_add(&mut deps, "a", "b", "Depends-On").unwrap(), EdgeType::DependsOn);
    match cmd_dep_add(&mut deps, "a", "b", "blocks").unwrap_err() {
        EdgeError::Refused(DepError::CycleDetected { cycle }) => assert!(cycle.len() >= 2),
        other => panic!("unexpected {other:?}"),
    }
    assert_eq!(edge_lines(&deps.all_edges()), vec!["a -depends_on-> b"]);
    assert_eq!(edge_lines(&cmd_deps(&deps, "a")), vec!["a -depends_on-> b"]);
    assert_eq!(edge_lines(&cmd_deps(&deps, "c")), vec!["No deps"]);

    let removed = cmd_dep_rm(&mut deps, "a", "b", "depends_on").unwrap();
    assert_eq!(removed_line("a", removed, "b"), "Removed a -depends_on-> b");
    let removed = cmd_dep_rm(&mut deps, "a", "b", "depends_on").unwrap();
    assert_eq!(removed_line("a", removed, "b"), "No matching edge");
    assert!(cmd_dep_rm(&mut deps, "a", "b", "").is_err());
}

#[test]
fn tree_of_missing_orb() {
    let store = OrbStore::new("orbs.jsonl");
    let err = cmd_tree(Some(&store), "orb-x").unwrap_err();
    assert_eq!(err.message(), "orb not found: orb-x");
}

#[test]
fn summary_and_detail_are_complete() {
    let at = ts("2026-05-21T12:00:00Z");
    let mut orb = Orb::new_at("Title", "Text", at);
    orb.id = OrbId::from_raw("orb-k4f");
    orb.labels = vec!["a".to_string(), "b".to_string()];
    assert_eq!(
        summary_lines(&orb),
        vec![
            "  title:    Title",
            "  type:     task",
            "  state:    pending",
            "  priority: 3 (Medium)",
            "  labels:   a, b",
        ]
    );
    orb.parent_id = Some(OrbId::from_raw("orb-p"));
    orb.root_id = Some(OrbId::from_raw("orb-r"));
    orb.closed_at = Some(ts("2026-05-22T00:00:00.5Z"));
    orb.result = Some("fine".to_string());
    orb.tombstone_at(Some("gone".to_string()), ts("2026-05-23T00:00:00Z"));
    assert_eq!(
        detail_lines(&orb, Some("0.75")),
        vec![
            "Orb:         orb-k4f",
            "Title:       Title",
            "Description: Text",
            "Type:        task",
            "State:       tombstone",
            "Priority:    3 (Medium)",
            "Labels:      a, b",
            "Parent:      orb-p",
            "Root:        orb-r",
            "Created:     2026-05-21 12:00:00 UTC",
            "Updated:     2026-05-23 00:00:00 UTC",
            "Closed:      2026-05-22 00:00:00.500 UTC",
            "Result:      fine",
            "Confidence:  0.75",
            "Deleted:     yes",
            "Reason:      gone",
        ]
    );
}

#[test]
fn answers_without_orbs() {
    let store = OrbStore::new("orbs.jsonl");
    assert_eq!(answer_lines(&store, &vec![]), vec!["No orbs"]);
    assert_eq!(answer_lines(&store, &vec![OrbId::from_raw("orb-x")]), vec!["orb-x"]);
}
