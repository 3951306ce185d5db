use orbs::audit::{AuditEvent, Comment, EventType};
use orbs::audit_store::AuditStore;
use orbs::commands::{cmd_create, cmd_tree, cmd_update, load_orb, Changes};
use orbs::dep::{DepEdge, EdgeType};
use orbs::dep_store::{DepError, DepStore};
use orbs::id::OrbId;
use orbs::orb::{
    phase_transition_allowed, status_transition_allowed, Orb, OrbPhase, OrbStatus, OrbType,
    ReviseScope,
};
use orbs::orb_store::OrbStore;
use orbs::pipeline::{compact_as, create_pipeline, Archived};
use orbs::render::dated_lines;
use orbs::session::{
    CloseReason, Session, SessionEvent, SessionId, SessionInit, SessionStatus, SessionUsage, TurnId,
};
use orbs::session_store::{plan_move, HeaderLine, SessionStore, Transcript};
use orbs::time::Timestamp;
use orbs::tree::{
    build_full_timeline_of, build_orb_tree, build_orb_tree_of, can_build_tree, critical_path_of,
    flatten, leaves,
};
use orbs::uuid::Uuid;

const STATUSES: [OrbStatus; 9] = [
    OrbStatus::Draft,
    OrbStatus::Pending,
    OrbStatus::Active,
    OrbStatus::Review,
    OrbStatus::Done,
    OrbStatus::Failed,
    OrbStatus::Cancelled,
    OrbStatus::Deferred,
    OrbStatus::Tombstone,
];

const PHASES: [OrbPhase; 14] = [
    OrbPhase::Draft,
    OrbPhase::Pending,
    OrbPhase::Speccing,
    OrbPhase::Decomposing,
    OrbPhase::Refining,
    OrbPhase::Review,
    OrbPhase::Waiting,
    OrbPhase::Executing,
    OrbPhase::Reevaluating,
    OrbPhase::Done,
    OrbPhase::Failed,
    OrbPhase::Cancelled,
    OrbPhase::Deferred,
    OrbPhase::Tombstone,
];

fn ts(rfc: &str) -> Timestamp {
    let t = chrono::DateTime::parse_from_rfc3339(rfc).unwrap();
    Timestamp::from_parts(t.timestamp(), t.timestamp_subsec_nanos()).unwrap()
}

fn orb(id: &str, created_at: &str) -> Orb {
    let mut orb = Orb::new_at(id, "d", ts(created_at));
    orb.id = OrbId::from_raw(id);
    orb
}

fn edge(from: &str, to: &str, edge_type: EdgeType) -> DepEdge {
    DepEdge::new(OrbId::from_raw(from), OrbId::from_raw(to), edge_type)
}

#[test]
fn every_state_can_be_tombstoned() {
    for s in STATUSES {
        assert!(status_transition_allowed(Some(s), OrbStatus::Tombstone));
    }
    for p in PHASES {
        assert!(phase_transition_allowed(Some(p), OrbPhase::Tombstone));
    }
}

#[test]
fn failed_and_cancelled_have_no_way_out() {
    for from in [OrbStatus::Failed, OrbStatus::Cancelled] {
        for to in STATUSES {
            let allowed = to == from || to == OrbStatus::Tombstone;
            assert_eq!(status_transition_allowed(Some(from), to), allowed, "{from:?} {to:?}");
        }
    }
    for from in [OrbPhase::Failed, OrbPhase::Cancelled] {
        for to in PHASES {
            let allowed = to == from || to == OrbPhase::Tombstone;
            assert_eq!(phase_transition_allowed(Some(from), to), allowed, "{from:?} {to:?}");
        }
    }
}

#[test]
fn first_states() {
    for s in STATUSES {
        let allowed = s == OrbStatus::Draft || s == OrbStatus::Tombstone;
        assert_eq!(status_transition_allowed(None, s), allowed);
    }
    for p in PHASES {
        let allowed = p == OrbPhase::Draft || p == OrbPhase::Tombstone;
        assert_eq!(phase_transition_allowed(None, p), allowed);
    }
}

#[test]
fn defer_and_back() {
    for status in STATUSES {
        let mut orb = Orb::new("t", "d");
        orb.status = Some(status);
        if orb.can_defer() {
            assert!(status_transition_allowed(Some(status), OrbStatus::Deferred));
            assert!(orb.defer());
            assert!(!orb.can_defer());
            orb.undefer();
            assert_eq!(orb.status, Some(OrbStatus::Pending));
        } else {
            assert!(!orb.defer());
            assert_eq!(orb.status, Some(status));
        }
    }
}

#[test]
fn operations_keep_the_lifecycle_field() {
    let mut epic = Orb::new("t", "d").with_type(OrbType::Feature);
    epic.defer();
    epic.undefer();
    epic.set_phase(OrbPhase::Speccing).unwrap();
    epic.phase = Some(OrbPhase::Done);
    epic.try_begin_revision(ReviseScope::Decomposition).unwrap();
    epic.tombstone(None);
    assert_eq!(epic.status, None);
    assert_eq!(epic.phase, Some(OrbPhase::Tombstone));
}

#[test]
fn hash_depends_on_content_alone() {
    let mut a = Orb::new_at("t", "d", ts("2026-01-01T00:00:00Z"));
    let mut b = Orb::new_at("t", "d", ts("2027-01-01T00:00:00Z"));
    b.labels = vec!["x".to_string()];
    b.tombstone(Some("r".to_string()));
    a.update_content_hash();
    b.update_content_hash();
    assert_eq!(a.content_hash, b.content_hash);
    b.scope = vec!["s".to_string()];
    b.update_content_hash();
    assert_ne!(a.content_hash, b.content_hash);
}

#[test]
fn reading_a_log_back() {
    let mut store = OrbStore::new("orbs.jsonl");
    let late = orb("orb-late", "2026-01-02T00:00:00Z");
    let early = orb("orb-early", "2026-01-01T00:00:00Z");
    let mut same = orb("orb-same", "2026-01-02T00:00:00Z");
    store.append(&late);
    store.append(&early);
    store.append(&same);
    same.title = "newer".to_string();
    store.update(&same);
    let titles: Vec<String> = store.load_all().iter().map(|o| o.title.clone()).collect();
    assert_eq!(titles, vec!["orb-early", "orb-late", "newer"]);
    assert_eq!(store.existing_ids(), vec!["orb-early", "orb-late", "orb-same"]);

    // What was read back reads back the same.
    let again = OrbStore::from_log("orbs.jsonl", store.load_all_including_tombstoned());
    let ids: Vec<String> = again.load_all().iter().map(|o| o.title.clone()).collect();
    assert_eq!(ids, titles);
}

#[test]
fn refused_edges_leave_no_trace() {
    let mut store = DepStore::new("deps.jsonl");
    store.add_edge(edge("a", "b", EdgeType::Blocks)).unwrap();
    store.add_edge(edge("c", "b", EdgeType::DependsOn)).unwrap();
    match store.add_edge(edge("c", "a", EdgeType::Blocks)).unwrap_err() {
        DepError::CycleDetected { cycle } => {
            let ids: Vec<&str> = cycle.iter().map(|id| id.as_str()).collect();
            assert_eq!(ids, vec!["c", "a", "b", "c"]);
        }
        other => panic!("unexpected {other:?}"),
    }
    assert_eq!(store.all_edges().len(), 2);
    assert_eq!(store.last_record().unwrap().from.as_str(), "c");

    // Without the edge that would close the cycle it can be added.
    assert!(store.remove_edge(&OrbId::from_raw("a"), &OrbId::from_raw("b"), EdgeType::Blocks));
    assert!(store.add_edge(edge("c", "a", EdgeType::Blocks)).is_ok());
    assert_eq!(DepError::Io("gone".to_string()).message(), "io error: gone");
}

#[test]
fn open_orbs_are_ready_or_waiting() {
    let mut store = DepStore::new("deps.jsonl");
    store.add_edge(edge("a", "b", EdgeType::Blocks)).unwrap();
    store.add_edge(edge("x", "a", EdgeType::Blocks)).unwrap();
    let mut done = orb("d", "2026-01-01T00:00:00Z");
    done.status = Some(OrbStatus::Done);
    let orbs =
        vec![orb("a", "2026-01-01T00:00:00Z"), orb("b", "2026-01-01T00:00:00Z"), done];
    let ready = store.ready(&orbs);
    let waiting = store.waiting(&orbs);
    // A blocker that is not among the orbs does not block.
    assert_eq!(ready, vec![OrbId::from_raw("a")]);
    assert_eq!(waiting, vec![OrbId::from_raw("b")]);
}

#[test]
fn pipeline_prefers_urgent_orbs() {
    let mut store = DepStore::new("deps.jsonl");
    store.add_edge(edge("slow", "critical", EdgeType::Blocks)).unwrap();
    let mut orbs = vec![
        orb("medium", "2026-01-01T00:00:00Z"),
        orb("slow", "2026-01-01T00:00:00Z"),
        orb("critical", "2026-01-01T00:00:00Z"),
    ];
    orbs[1].priority = 5;
    orbs[2].priority = 1;
    let order: Vec<String> =
        store.pipeline(&orbs).iter().map(|id| id.as_str().to_string()).collect();
    assert_eq!(order, vec!["slow", "medium", "critical"]);
}

#[test]
fn pipeline_goes_level_by_level() {
    let mut store = DepStore::new("deps.jsonl");
    store.add_edge(edge("orb-a", "orb-c", EdgeType::Blocks)).unwrap();
    store.add_edge(edge("orb-b", "orb-d", EdgeType::Blocks)).unwrap();
    let given = |id: &str, priority: u8| {
        let mut o = orb(id, "2026-01-01T00:00:00Z");
        o.priority = priority;
        o
    };
    let orbs =
        vec![given("orb-a", 1), given("orb-b", 2), given("orb-c", 5), given("orb-d", 2)];
    let ids = |orbs: &[Orb]| -> Vec<String> {
        store.pipeline(orbs).iter().map(|id| id.as_str().to_string()).collect()
    };
    assert_eq!(ids(&orbs), vec!["orb-a", "orb-b", "orb-d", "orb-c"]);

    // An urgent orb two levels up waits for the level below it.
    let mut deep = orbs;
    deep.push(given("orb-e", 5));
    let mut chain = DepStore::new("deps.jsonl");
    chain.add_edge(edge("orb-a", "orb-c", EdgeType::Blocks)).unwrap();
    chain.add_edge(edge("orb-d", "orb-c", EdgeType::DependsOn)).unwrap();
    chain.add_edge(edge("orb-b", "orb-e", EdgeType::Blocks)).unwrap();
    let order: Vec<String> =
        chain.pipeline(&deep).iter().map(|id| id.as_str().to_string()).collect();
    assert_eq!(order, vec!["orb-a", "orb-b", "orb-c", "orb-e", "orb-d"]);
}

#[test]
fn stores_that_cannot_be_read() {
    let mut store = OrbStore::new("orbs.jsonl");
    store.append(&orb("a", "2026-01-01T00:00:00Z"));
    let deps = DepStore::new("deps.jsonl");
    let id = OrbId::from_raw("a");
    assert!(build_orb_tree_of(None, &id).is_none());
    let tree = build_orb_tree_of(Some(&store), &id).unwrap();
    assert!(critical_path_of(&tree, None).is_empty());
    assert_eq!(critical_path_of(&tree, Some(&deps)).len(), 1);
    assert!(build_full_timeline_of(None, Some(&deps), &id).is_none());
    assert!(build_full_timeline_of(Some(&store), None, &id).is_none());
    assert_eq!(build_full_timeline_of(Some(&store), Some(&deps), &id).unwrap().total_orbs, 1);
    assert_eq!(cmd_tree(None, "a").unwrap_err().message(), "orb not found: a");
}

#[test]
fn pipeline_ends_with_cycles() {
    let log = vec![edge("a", "b", EdgeType::Blocks), edge("b", "a", EdgeType::Blocks)];
    let store = DepStore::from_log("deps.jsonl", log);
    let orbs = vec![
        orb("a", "2026-01-01T00:00:00Z"),
        orb("b", "2026-01-01T00:00:00Z"),
        orb("c", "2026-01-01T00:00:00Z"),
    ];
    let order = store.pipeline(&orbs);
    assert_eq!(order.len(), 3);
    assert_eq!(order[0].as_str(), "c");
}

#[test]
fn trees_need_no_way_back() {
    let mut store = OrbStore::new("orbs.jsonl");
    let mut a = orb("a", "2026-01-01T00:00:00Z");
    let mut b = orb("b", "2026-01-01T00:00:00Z");
    b.parent_id = Some(a.id.clone());
    store.append(&a);
    store.append(&b);
    assert!(can_build_tree(&store, &a.id));
    let tree = build_orb_tree(&store, &a.id).unwrap();
    let all: Vec<&str> = flatten(&tree).iter().map(|o| o.id.as_str()).collect();
    assert_eq!(all, vec!["a", "b"]);
    let ends: Vec<&str> = leaves(&tree).iter().map(|o| o.id.as_str()).collect();
    assert_eq!(ends, vec!["b"]);

    a.parent_id = Some(b.id.clone());
    store.update(&a);
    assert!(!can_build_tree(&store, &a.id));
    assert!(can_build_tree(&store, &OrbId::from_raw("c")));
}

#[test]
fn audit_records_are_chronological() {
    let id = OrbId::from_raw("orb-a");
    let at = |actor: &str, t: &str| {
        AuditEvent::new_at(Uuid::new_v4(), id.clone(), EventType::Created, actor, None, ts(t))
    };
    let mut store = AuditStore::new("events.jsonl");
    store.log_event(&at("b", "2026-01-02T00:00:00Z"));
    store.log_event(&at("c", "2026-01-02T00:00:00Z"));
    store.log_event(&at("a", "2026-01-01T00:00:00Z"));
    let actors: Vec<String> = store.all_events().iter().map(|e| e.actor.clone()).collect();
    assert_eq!(actors, vec!["a", "b", "c"]);
    let actors: Vec<String> = store.events_for_orb(&id).iter().map(|e| e.actor.clone()).collect();
    assert_eq!(actors, vec!["a", "b", "c"]);
    assert_eq!(store.last_event().unwrap().actor, "a");

    let comment = |body: &str, t: &str| {
        Comment::new_at(Uuid::new_v4(), id.clone(), "x", body, ts(t))
    };
    store.add_comment(&comment("second", "2026-01-02T00:00:00Z"));
    store.add_comment(&comment("first", "2026-01-01T00:00:00Z"));
    let bodies: Vec<String> = store.comments_for_orb(&id).iter().map(|c| c.body.clone()).collect();
    assert_eq!(bodies, vec!["first", "second"]);
}

fn init(id: &str) -> SessionInit {
    SessionInit {
        id: SessionId::from_raw(id),
        created_at: ts("2026-01-01T00:00:00Z"),
        model: "m".into(),
        system_prompt: None,
        cwd: None,
        linked_orb: None,
    }
}

#[test]
fn sessions_fold_their_events() {
    let turn = TurnId::from_raw("turn-1");
    let usage = SessionUsage { prompt_tokens: 1, completion_tokens: 2, total_tokens: u32::MAX };
    let change = |to: SessionStatus, reason: Option<CloseReason>| SessionEvent::StatusChanged {
        to,
        reason,
        at: ts("2026-01-02T00:00:00Z"),
    };
    let mut s = Session::from_init(init("session-a"));
    s.apply(&SessionEvent::UserMessage {
        turn_id: turn.clone(),
        content: "hi".into(),
        at: ts("2026-01-02T00:00:00Z"),
    });
    s.apply(&SessionEvent::Usage { turn_id: turn.clone(), usage });
    s.apply(&SessionEvent::Usage { turn_id: turn.clone(), usage });
    s.apply(&SessionEvent::AssistantDelta { turn_id: turn, chunk: "x".into() });
    s.apply(&change(SessionStatus::Closed, Some(CloseReason::IdleTimeout)));
    s.apply(&change(SessionStatus::Active, None));
    assert_eq!(s.turn_count, 1);
    assert_eq!(s.total_usage.prompt_tokens, 2);
    assert_eq!(s.total_usage.total_tokens, u32::MAX);
    assert_eq!(s.status, SessionStatus::Active);
    assert_eq!(s.close_reason, Some(CloseReason::IdleTimeout));
}

#[test]
fn foreign_headers_are_seen() {
    let mut store = SessionStore::new("/s");
    store.create(&init("session-a"), "{}").unwrap();
    assert!(store.headers_are_own());
    let transcript =
        Transcript { header: HeaderLine::Init(init("session-b")), lines: vec![], byte_size: 3 };
    assert!(store.adopt(&SessionId::from_raw("session-c"), transcript));
    assert!(!store.headers_are_own());
    let (session, _) = store.load(&SessionId::from_raw("session-c")).unwrap();
    assert_eq!(session.init.id.as_str(), "session-b");
}

#[test]
fn empty_update_changes_nothing() {
    let mut store = OrbStore::new("orbs.jsonl");
    let labels = vec!["a".to_string(), "b".to_string()];
    let made =
        cmd_create(&mut store, "t", "d", OrbType::Chore, 2, None, None, false, &labels);
    let after = cmd_update(&mut store, made.id.as_str(), &Changes::default()).unwrap();
    assert_eq!(after.content_hash, made.content_hash);
    assert_eq!(after.labels, made.labels);
    assert_eq!(after.updated_at, made.updated_at);
    assert_eq!(load_orb(&store, made.id.as_str()).unwrap().title, "t");
}

#[test]
fn compaction_under_a_stamp() {
    let mut one = orb("orb-one", "2026-01-01T00:00:00Z");
    let mut pipeline = create_pipeline("/base", &one);
    let root = pipeline.root().to_string();
    pipeline.append_orb(&one);
    one.title = "newer".to_string();
    pipeline.append_orb(&one);
    pipeline.lock_with("held".to_string());
    assert!(pipeline.is_locked());
    let before: Vec<String> =
        pipeline.orb_store().load_all().iter().map(|o| o.title.clone()).collect();

    compact_as(&mut pipeline, "S");

    assert!(!pipeline.is_locked());
    let after: Vec<String> =
        pipeline.orb_store().load_all().iter().map(|o| o.title.clone()).collect();
    assert_eq!(before, vec!["newer"]);
    assert_eq!(after, before);
    let archived: Vec<(String, usize)> = pipeline
        .history()
        .iter()
        .map(|a| match a {
            Archived::Orbs { path, orbs } => (path.clone(), orbs.len()),
            Archived::Deps { path, deps } => (path.clone(), deps.len()),
            Archived::Events { path, events } => (path.clone(), events.len()),
        })
        .collect();
    assert_eq!(
        archived,
        vec![
            (format!("{root}/history/orbs-S.jsonl"), 2),
            (format!("{root}/history/deps-S.jsonl"), 0),
            (format!("{root}/history/events-S.jsonl"), 0),
        ]
    );
}

#[test]
fn moves_into_the_archive() {
    let m = plan_move("/s", &SessionId::from_raw("session-a"), "2026-03");
    assert_eq!(m.id.as_str(), "session-a");
    assert_eq!(m.from, "/s/session-a.jsonl");
    assert_eq!(m.to, "/s/archive/2026-03/session-a.jsonl");
}

#[test]
fn details_with_given_times() {
    let mut shown = orb("orb-a", "2026-01-01T00:00:00Z");
    shown.labels = vec!["x".to_string(), "y".to_string()];
    shown.tombstone(Some("twice".to_string()));
    let lines = dated_lines(&shown, "then", "now", Some("later"), Some("0.50"));
    assert_eq!(
        lines,
        vec![
            "Orb:         orb-a",
            "Title:       orb-a",
            "Description: d",
            "Type:        task",
            "State:       tombstone",
            "Priority:    3 (Medium)",
            "Labels:      x, y",
            "Created:     then",
            "Updated:     now",
            "Closed:      later",
            "Confidence:  0.50",
            "Deleted:     yes",
            "Reason:      twice",
        ]
    );
}
