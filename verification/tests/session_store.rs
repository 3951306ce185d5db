use orbs::id::OrbId;
use orbs::session::{
    CloseReason, SessionEvent, SessionId, SessionInit, SessionStatus, SessionUsage, ToolOutcome,
    TurnId,
};
use orbs::session_store::{
    read_meta, session_of_file, split_transcript, EventLine, HeaderLine, RawLine,
    SessionRetentionConfig, SessionStore, SessionStoreError, Transcript, DEFAULT_MAX_FILE_BYTES,
    DEFAULT_ROTATE_AFTER_DAYS,
};
use orbs::time::Timestamp;

fn ts(rfc: &str) -> Timestamp {
    let t = chrono::DateTime::parse_from_rfc3339(rfc).unwrap();
    Timestamp::from_parts(t.timestamp(), t.timestamp_subsec_nanos()).unwrap()
}

fn now() -> Timestamp {
    ts("2026-05-21T12:00:00Z")
}

fn init_at(id: &str, created_at: Timestamp) -> SessionInit {
    SessionInit {
        id: SessionId::from_raw(id),
        created_at,
        model: "m".into(),
        system_prompt: None,
        cwd: None,
        linked_orb: None,
    }
}

fn fixture_init(id: &str) -> SessionInit {
    SessionInit {
        id: SessionId::from_raw(id),
        created_at: now(),
        model: "openrouter/free".into(),
        system_prompt: None,
        cwd: None,
        linked_orb: None,
    }
}

/// The line for a record in the file.
fn line<T: std::fmt::Debug>(record: &T) -> String {
    format!("{record:?}")
}

fn create(store: &mut SessionStore, init: &SessionInit) -> Result<(), SessionStoreError> {
    store.create(init, &line(init))
}

fn append(
    store: &mut SessionStore,
    id: &SessionId,
    event: &SessionEvent,
) -> Result<(), SessionStoreError> {
    store.append_event(id, event, &line(event))
}

fn close(
    store: &mut SessionStore,
    id: &SessionId,
    at: Timestamp,
) -> Result<(), SessionStoreError> {
    store.close(id, CloseReason::UserExit, at, "{\"type\":\"status_changed\"}")
}

#[test]
fn create_writes_header_line() {
    let mut store = SessionStore::new("/sessions");
    let init = fixture_init("session-a");
    store.create(&init, "{\"id\":\"session-a\"}").unwrap();
    assert_eq!(store.session_path(&init.id), "/sessions/session-a.jsonl");
    let metas = store.list();
    assert_eq!(metas.len(), 1);
    assert_eq!(metas[0].init, init);
    // The header and the end of its line.
    assert_eq!(metas[0].byte_size, 19);
}

#[test]
fn create_refuses_duplicate() {
    let mut store = SessionStore::new("/sessions");
    let init = fixture_init("session-dup");
    create(&mut store, &init).unwrap();
    let err = create(&mut store, &init).unwrap_err();
    assert_eq!(
        err.message(),
        "session session-dup already exists at /sessions/session-dup.jsonl"
    );
    assert!(matches!(err, SessionStoreError::AlreadyExists { .. }));
}

#[test]
fn append_event_then_load_round_trips() {
    let mut store = SessionStore::new("/sessions");
    let init = fixture_init("session-rt");
    create(&mut store, &init).unwrap();

    let t1 = TurnId::from_raw("turn-1");
    let events = vec![
        SessionEvent::UserMessage {
            turn_id: t1.clone(),
            content: "hi".into(),
            at: now(),
        },
        SessionEvent::AssistantDelta {
            turn_id: t1.clone(),
            chunk: "he".into(),
        },
        SessionEvent::AssistantDelta {
            turn_id: t1.clone(),
            chunk: "llo".into(),
        },
        SessionEvent::AssistantMessage {
            turn_id: t1.clone(),
            content: "hello".into(),
            at: now(),
        },
        SessionEvent::Usage {
            turn_id: t1,
            usage: SessionUsage {
                prompt_tokens: 5,
                completion_tokens: 3,
                total_tokens: 8,
            },
        },
    ];
    for ev in &events {
        append(&mut store, &init.id, ev).unwrap();
    }

    let (snapshot, loaded) = store.load(&init.id).unwrap();
    assert_eq!(loaded, events);
    assert_eq!(snapshot.turn_count, 1);
    assert_eq!(snapshot.total_usage.total_tokens, 8);
    assert_eq!(snapshot.status, SessionStatus::Active);
}

#[test]
fn append_event_on_missing_session_errors() {
    let mut store = SessionStore::new("/sessions");
    let err = append(
        &mut store,
        &SessionId::from_raw("session-ghost"),
        &SessionEvent::UserMessage {
            turn_id: TurnId::new(),
            content: "no".into(),
            at: now(),
        },
    )
    .unwrap_err();
    assert!(matches!(err, SessionStoreError::NotFound { .. }));
}

#[test]
fn close_then_append_is_refused() {
    let mut store = SessionStore::new("/sessions");
    let init = fixture_init("session-cl");
    create(&mut store, &init).unwrap();
    close(&mut store, &init.id, now()).unwrap();

    let err = append(
        &mut store,
        &init.id,
        &SessionEvent::UserMessage {
            turn_id: TurnId::new(),
            content: "after close".into(),
            at: now(),
        },
    )
    .unwrap_err();
    assert!(matches!(err, SessionStoreError::Closed { .. }));

    let (snapshot, _) = store.load(&init.id).unwrap();
    assert_eq!(snapshot.status, SessionStatus::Closed);
    assert_eq!(snapshot.close_reason, Some(CloseReason::UserExit));
}

#[test]
fn size_cap_blocks_append() {
    let mut store = SessionStore::new("/sessions").with_retention(SessionRetentionConfig {
        rotate_after_days: 30,
        max_file_bytes: 256, // tiny cap so the next append trips it
    });
    let init = fixture_init("session-cap");
    create(&mut store, &init).unwrap();
    // Fill until we get the SizeCapExceeded error.
    let mut got_cap_err = false;
    for i in 0..50 {
        let res = append(
            &mut store,
            &init.id,
            &SessionEvent::UserMessage {
                turn_id: TurnId::from_raw(&format!("turn-{i}")),
                content: "padding-content-to-fill-the-cap".into(),
                at: now(),
            },
        );
        if let Err(SessionStoreError::SizeCapExceeded { .. }) = res {
            got_cap_err = true;
            break;
        }
        res.unwrap();
    }
    assert!(got_cap_err, "expected SizeCapExceeded within 50 appends");
}

#[test]
fn list_returns_metadata_sorted_by_created_at_desc() {
    let mut store = SessionStore::new("/sessions");

    let older = init_at("session-old", ts("2026-05-01T00:00:00Z"));
    let newer = init_at("session-new", ts("2026-05-20T00:00:00Z"));
    create(&mut store, &older).unwrap();
    create(&mut store, &newer).unwrap();

    let metas = store.list();
    assert_eq!(metas.len(), 2);
    assert_eq!(metas[0].init.id.as_str(), "session-new");
    assert_eq!(metas[1].init.id.as_str(), "session-old");
}

#[test]
fn list_ignores_non_jsonl_files_and_subdirs() {
    let mut store = SessionStore::new("/sessions");
    for name in ["session-real.jsonl", "README.md", "archive"] {
        if let Some(id) = session_of_file(name) {
            let header = HeaderLine::Init(fixture_init(id.as_str()));
            assert!(store.adopt(&id, Transcript { header, lines: vec![], byte_size: 9 }));
        }
    }
    let metas = store.list();
    assert_eq!(metas.len(), 1);
    assert_eq!(metas[0].init.id.as_str(), "session-real");
}

#[test]
fn list_skips_malformed_headers() {
    let mut store = SessionStore::new("/sessions");
    create(&mut store, &fixture_init("session-real")).unwrap();
    let other = Transcript {
        header: HeaderLine::Malformed("expected value".into()),
        lines: vec![],
        byte_size: 9,
    };
    assert!(store.adopt(&SessionId::from_raw("session-other"), other));
    let metas = store.list();
    assert_eq!(metas.len(), 1);
    assert_eq!(metas[0].init.id.as_str(), "session-real");
}

#[test]
fn sessions_of_files() {
    let id = |name: &str| session_of_file(name).map(|id| id.as_str().to_string());
    assert_eq!(id("session-a.jsonl").as_deref(), Some("session-a"));
    assert_eq!(id("a.b.jsonl").as_deref(), Some("a.b"));
    assert_eq!(id(".a.jsonl").as_deref(), Some(".a"));
    assert_eq!(id(".jsonl"), None);
    assert_eq!(id("jsonl"), None);
    assert_eq!(id("a.JSONL"), None);
    assert_eq!(id("a.jsonl.bak"), None);
}

#[test]
fn transcripts_have_a_header_and_events() {
    let text = |s: &str| RawLine::Text(s.to_string());
    let (header, events) = split_transcript(&vec![]);
    assert!(header.is_none() && events.is_empty());
    let lines =
        vec![text("  "), text("a"), text(" \t"), RawLine::Unreadable("bad".into()), text("b")];
    let (header, events) = split_transcript(&lines);
    assert!(matches!(header, Some(RawLine::Text(t)) if t == "  "));
    assert_eq!(events.len(), 3);
    assert!(matches!(&events[0], RawLine::Text(t) if t == "a"));
    assert!(matches!(&events[1], RawLine::Unreadable(t) if t == "bad"));
    assert!(matches!(&events[2], RawLine::Text(t) if t == "b"));
}

#[test]
fn rotate_moves_only_closed_sessions_older_than_threshold() {
    let mut store = SessionStore::new("/sessions").with_retention(SessionRetentionConfig {
        rotate_after_days: 30,
        max_file_bytes: DEFAULT_MAX_FILE_BYTES,
    });
    let created = ts("2026-01-01T00:00:00Z");
    let old_closed = init_at("session-old-closed", created);
    let old_active = init_at("session-old-active", created);
    let recent_closed = init_at("session-recent-closed", ts("2026-05-15T00:00:00Z"));

    create(&mut store, &old_closed).unwrap();
    create(&mut store, &old_active).unwrap();
    create(&mut store, &recent_closed).unwrap();
    close(&mut store, &old_closed.id, created).unwrap();
    close(&mut store, &recent_closed.id, ts("2026-05-20T00:00:00Z")).unwrap();

    let now = ts("2026-05-21T00:00:00Z");
    let plan = store.rotation_plan(now);
    let moved = store.rotate(now);
    assert_eq!(moved.len(), 1);
    assert_eq!(moved[0].as_str(), "session-old-closed");

    assert!(!store.contains(&old_closed.id));
    assert!(store.contains(&old_active.id));
    assert!(store.contains(&recent_closed.id));

    assert_eq!(plan.len(), 1);
    assert_eq!(plan[0].from, "/sessions/session-old-closed.jsonl");
    assert_eq!(plan[0].to, "/sessions/archive/2026-01/session-old-closed.jsonl");
}

#[test]
fn load_errors_on_missing_session() {
    let store = SessionStore::new("/sessions");
    let err = store
        .load(&SessionId::from_raw("session-nope"))
        .unwrap_err();
    assert!(matches!(err, SessionStoreError::NotFound { .. }));
}

#[test]
fn load_errors_on_corrupt_header() {
    let mut store = SessionStore::new("/sessions");
    let id = SessionId::from_raw("session-bad");
    let transcript = Transcript {
        header: HeaderLine::Malformed("key must be a string".into()),
        lines: vec![],
        byte_size: 11,
    };
    assert!(store.adopt(&id, transcript));
    let err = store.load(&id).unwrap_err();
    assert!(matches!(err, SessionStoreError::Serde { .. }));
}

#[test]
fn tool_end_event_round_trips_through_store() {
    let mut store = SessionStore::new("/sessions");
    let init = fixture_init("session-tool");
    create(&mut store, &init).unwrap();
    let ev = SessionEvent::ToolEnd {
        turn_id: TurnId::from_raw("turn-1"),
        name: "bash".into(),
        outcome: ToolOutcome::Failure {
            message: "exit 1".into(),
        },
    };
    append(&mut store, &init.id, &ev).unwrap();
    let (_, events) = store.load(&init.id).unwrap();
    assert_eq!(events, vec![ev]);
}

#[test]
fn multi_turn_session_round_trips_through_disk() {
    let mut store = SessionStore::new("/sessions");

    let init = SessionInit {
        id: SessionId::from_raw("session-multi"),
        created_at: ts("2026-05-21T12:00:00Z"),
        model: "openrouter/free".into(),
        system_prompt: Some("be terse".into()),
        cwd: Some("/tmp/proj".into()),
        linked_orb: Some(OrbId::from_raw("orb-abc")),
    };
    create(&mut store, &init).unwrap();

    let mut args = serde_json::Map::new();
    args.insert("cmd".to_string(), serde_json::Value::String("ls".to_string()));

    // First turn: user asks, assistant answers, tool call, usage.
    let t1 = TurnId::from_raw("turn-aaaa1111");
    let turn1 = [
        SessionEvent::UserMessage {
            turn_id: t1.clone(),
            content: "list files".into(),
            at: ts("2026-05-21T12:00:05Z"),
        },
        SessionEvent::ToolStart {
            turn_id: t1.clone(),
            name: "bash".into(),
            args: serde_json::Value::Object(args),
        },
        SessionEvent::ToolEnd {
            turn_id: t1.clone(),
            name: "bash".into(),
            outcome: ToolOutcome::Success {
                summary: "exit 0".into(),
            },
        },
        SessionEvent::AssistantMessage {
            turn_id: t1.clone(),
            content: "README, src/".into(),
            at: ts("2026-05-21T12:00:08Z"),
        },
        SessionEvent::Usage {
            turn_id: t1,
            usage: SessionUsage {
                prompt_tokens: 120,
                completion_tokens: 40,
                total_tokens: 160,
            },
        },
    ];

    // Second turn: user spawns an orb mid-conversation.
    let t2 = TurnId::from_raw("turn-bbbb2222");
    let turn2 = [
        SessionEvent::UserMessage {
            turn_id: t2.clone(),
            content: "/spawn refactor the cli".into(),
            at: ts("2026-05-21T12:01:00Z"),
        },
        SessionEvent::OrbSpawned {
            turn_id: t2.clone(),
            orb_id: OrbId::from_raw("orb-xyz"),
        },
        SessionEvent::AssistantMessage {
            turn_id: t2.clone(),
            content: "queued orb-xyz".into(),
            at: ts("2026-05-21T12:01:01Z"),
        },
        SessionEvent::Usage {
            turn_id: t2,
            usage: SessionUsage {
                prompt_tokens: 30,
                completion_tokens: 8,
                total_tokens: 38,
            },
        },
    ];

    for ev in turn1.iter().chain(turn2.iter()) {
        append(&mut store, &init.id, ev).unwrap();
    }

    close(&mut store, &init.id, ts("2026-05-21T12:02:00Z")).unwrap();

    let (snapshot, events) = store.load(&init.id).unwrap();
    assert_eq!(snapshot.init, init);
    assert_eq!(snapshot.status, SessionStatus::Closed);
    assert_eq!(snapshot.turn_count, 2, "two user messages = two turns");
    assert_eq!(snapshot.total_usage.prompt_tokens, 150);
    assert_eq!(snapshot.total_usage.completion_tokens, 48);
    assert_eq!(snapshot.total_usage.total_tokens, 198);
    assert_eq!(snapshot.close_reason, Some(CloseReason::UserExit));
    assert_eq!(snapshot.closed_at, Some(ts("2026-05-21T12:02:00Z")));

    let expected_event_count = turn1.len() + turn2.len() + 1; // +1 for the close StatusChanged event
    assert_eq!(events.len(), expected_event_count);
    let original_appends: Vec<_> = turn1.iter().chain(turn2.iter()).collect();
    for (i, original) in original_appends.iter().enumerate() {
        assert_eq!(&&events[i], original, "event {i} order preserved");
    }
    match events.last().unwrap() {
        SessionEvent::StatusChanged { to, reason, .. } => {
            assert_eq!(*to, SessionStatus::Closed);
            assert_eq!(*reason, Some(CloseReason::UserExit));
        }
        other => panic!("expected StatusChanged last, got {other:?}"),
    }
}

#[test]
fn list_then_reload_each_session_matches_writes() {
    let mut store = SessionStore::new("/sessions");

    let mut ids = Vec::new();
    for i in 0..3 {
        let start = ts("2026-05-21T12:00:00Z");
        let init = SessionInit {
            id: SessionId::from_raw(&format!("session-{i}")),
            created_at: Timestamp::from_parts(start.secs() + i, 0).unwrap(),
            model: "m".into(),
            system_prompt: None,
            cwd: None,
            linked_orb: None,
        };
        create(&mut store, &init).unwrap();
        ids.push(init.id.clone());

        append(
            &mut store,
            &init.id,
            &SessionEvent::UserMessage {
                turn_id: TurnId::new(),
                content: format!("msg {i}"),
                at: ts("2026-05-21T12:00:00Z"),
            },
        )
        .unwrap();
    }

    let metas = store.list();
    assert_eq!(metas.len(), 3);
    for meta in &metas {
        let (snapshot, events) = store.load(&meta.init.id).unwrap();
        assert_eq!(snapshot.init.id, meta.init.id);
        assert_eq!(events.len(), 1);
        assert_eq!(snapshot.turn_count, 1);
    }
    assert_eq!(metas[0].init.id, ids[2]);
}

#[test]
fn rotation_with_custom_retention_archives_old_closed_session() {
    let mut store = SessionStore::new("/sessions").with_retention(SessionRetentionConfig {
        rotate_after_days: 7,
        max_file_bytes: 1024 * 1024,
    });

    let init = init_at("session-archive-me", ts("2026-04-01T00:00:00Z"));
    create(&mut store, &init).unwrap();
    close(&mut store, &init.id, ts("2026-04-01T01:00:00Z")).unwrap();

    let plan = store.rotation_plan(ts("2026-05-21T00:00:00Z"));
    let moved = store.rotate(ts("2026-05-21T00:00:00Z"));
    assert_eq!(moved.len(), 1);
    assert!(!store.contains(&init.id));
    assert_eq!(plan[0].to, "/sessions/archive/2026-04/session-archive-me.jsonl");
}

#[test]
fn retention_defaults() {
    let store = SessionStore::new("/sessions");
    assert_eq!(store.root(), "/sessions");
    assert_eq!(store.retention(), SessionRetentionConfig::default());
    assert_eq!(store.retention().rotate_after_days, DEFAULT_ROTATE_AFTER_DAYS);
    assert_eq!(DEFAULT_ROTATE_AFTER_DAYS, 30);
    assert_eq!(DEFAULT_MAX_FILE_BYTES, 512 * 1024 * 1024);
}

#[test]
fn transcript_faults_are_reported() {
    let id = SessionId::from_raw("session-f");
    let cases = vec![
        (HeaderLine::Missing, vec![]),
        (HeaderLine::Unreadable("bad utf-8".into()), vec![]),
        (HeaderLine::Init(fixture_init("session-f")), vec![EventLine::Unreadable("eof".into())]),
        (HeaderLine::Init(fixture_init("session-f")), vec![EventLine::Malformed("oops".into())]),
    ];
    let mut messages = Vec::new();
    for (header, lines) in cases {
        let mut store = SessionStore::new("/s");
        assert!(store.adopt(&id, Transcript { header, lines, byte_size: 0 }));
        messages.push(store.load(&id).unwrap_err());
    }
    assert!(matches!(&messages[0], SessionStoreError::EmptyTranscript { id } if id == "session-f"));
    assert!(matches!(&messages[1], SessionStoreError::Io { source, .. } if source == "bad utf-8"));
    assert!(matches!(&messages[2], SessionStoreError::Io { path, .. } if path == "/s/session-f.jsonl"));
    assert!(matches!(&messages[3], SessionStoreError::Serde { source, .. } if source == "oops"));
}

#[test]
fn meta_has_last_status_and_time() {
    let transcript = Transcript {
        header: HeaderLine::Init(fixture_init("session-m")),
        lines: vec![
            EventLine::Event(SessionEvent::StatusChanged {
                to: SessionStatus::Idle,
                reason: None,
                at: ts("2026-05-21T13:00:00Z"),
            }),
            EventLine::Malformed("oops".into()),
            EventLine::Event(SessionEvent::AssistantDelta {
                turn_id: TurnId::from_raw("turn-1"),
                chunk: "x".into(),
            }),
        ],
        byte_size: 77,
    };
    let meta = read_meta(&transcript).unwrap();
    assert_eq!(meta.status, SessionStatus::Idle);
    assert_eq!(meta.last_event_at, Some(ts("2026-05-21T13:00:00Z")));
    assert_eq!(meta.byte_size, 77);
}
