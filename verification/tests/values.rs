use orbs::audit::{log_assigned, log_phase_change, log_status_change, EventType};
use orbs::audit_store::AuditStore;
use orbs::dep::EdgeType;
use orbs::digits::{decimal_text, encode_base36};
use orbs::id::{compute_hash, content_hash, OrbId};
use orbs::jsonl::{is_blank_line, line_of, read_records, write_records};
use orbs::labels::{normalize_labels, split_csv, trim};
use orbs::names::{
    edge_type_label, effective_matches, lifecycle_label, lifecycle_matches, orb_type_label,
    parse_edge_type, parse_lifecycle_filter, parse_orb_type, parse_phase, parse_status, to_lower,
    LifecycleFilter, NameError,
};
use orbs::orb::{Orb, OrbPhase, OrbStatus, OrbType, ReviseScope, TransitionError};
use orbs::paths::{join_path, parent_dir};
use orbs::session::{SessionId, TurnId};
use orbs::sha256::sha256_of;
use orbs::task::TaskStatus;
use orbs::time::Timestamp;
use orbs::trace::{detect_inter_group_gaps, TraceGap, TraceSpan};
use orbs::uuid::Uuid;

fn ts(rfc: &str) -> Timestamp {
    let t = chrono::DateTime::parse_from_rfc3339(rfc).unwrap();
    Timestamp::from_parts(t.timestamp(), t.timestamp_subsec_nanos()).unwrap()
}

fn hex(bytes: &[u8]) -> String {
    bytes.iter().map(|b| format!("{b:02x}")).collect()
}

#[test]
fn sha256_known_digests() {
    assert_eq!(
        hex(&sha256_of(b"abc")),
        "ba7816bf8f01cfea414140de5dae2223b00361a396177a9cb410ff61f20015ad"
    );
    assert_eq!(
        hex(&sha256_of(b"")),
        "e3b0c44298fc1c149afbf4c8996fb92427ae41e4649b934ca495991b7852b855"
    );
    assert_eq!(
        hex(&sha256_of(&[b'a'; 1000])),
        "41edece42d63e8d9bf515a9ba6932e1c20cbc9f5a5d134645adb5db1b9737ea3"
    );
}

#[test]
fn base36_known_texts() {
    assert_eq!(encode_base36(&[1, 0], 4), "0074");
    assert_eq!(encode_base36(&[], 3), "000");
    assert_eq!(encode_base36(&[255, 255, 255, 255], 7), "1z141z3");
    assert_eq!(encode_base36(&[1, 0], 0), "");
}

#[test]
fn generated_ids_are_known() {
    let none = Vec::<String>::new();
    assert_eq!(OrbId::generate("title", "desc", "user", 1234567890, &none).as_str(), "orb-tht");

    let mut taken = vec!["orb-6dg".to_string()];
    assert_eq!(OrbId::generate("title", "desc", "user", 1000, &taken).as_str(), "orb-joi");
    for nonce in 0..10 {
        let hash = compute_hash("title", "desc", "user", 1000, nonce);
        taken.push(format!("orb-{}", encode_base36(&hash, 3)));
    }
    assert_eq!(OrbId::generate("title", "desc", "user", 1000, &taken).as_str(), "orb-l6dg");

    for length in 3..=8 {
        for nonce in 0..10 {
            let hash = compute_hash("title", "desc", "user", 1000, nonce);
            taken.push(format!("orb-{}", encode_base36(&hash, length)));
        }
    }
    assert_eq!(
        OrbId::generate("title", "desc", "user", 1000, &taken).as_str(),
        "orb-frhmo4apy5bpl6dg"
    );
}

#[test]
fn content_hashes_are_known() {
    assert_eq!(content_hash("Task", "description", None, None, "task", &[], 3), "tmaye2wrm9cz");
    let scope = vec!["a".to_string(), "b".to_string()];
    assert_eq!(
        content_hash("Tä", "d", Some("design"), Some("done"), "epic", &scope, 1),
        "wk96rseh4udl"
    );
    let mut orb = Orb::new("Task", "description");
    orb.update_content_hash();
    assert_eq!(orb.content_hash.as_deref(), Some("tmaye2wrm9cz"));
}

#[test]
fn decimal_known_texts() {
    assert_eq!(decimal_text(0), "0");
    assert_eq!(decimal_text(1_234_567_890), "1234567890");
    assert_eq!(decimal_text(u128::MAX), "340282366920938463463374607431768211455");
}

#[test]
fn child_then_parent() {
    let id = OrbId::from_raw("orb-k4f");
    let nested = id.child(1).child(30);
    assert_eq!(nested.as_str(), "orb-k4f.1.30");
    assert_eq!(nested.parent_id(), Some(id.child(1)));
    assert_eq!(nested.parent_id().unwrap().parent_id(), Some(id));
}

#[test]
fn new_orb_id_is_generated_from_its_time() {
    let at = ts("2026-05-21T12:00:00.000000007Z");
    let orb = Orb::new_at("title", "desc", at);
    let nanos = at.nanos_since_epoch();
    assert_eq!(nanos, 1_779_364_800_000_000_007);
    assert_eq!(orb.id, OrbId::generate("title", "desc", "system", nanos, &Vec::new()));
    assert_eq!(orb.created_at, at);
    assert_eq!(orb.updated_at, at);
}

#[test]
fn time_texts() {
    let t = ts("2026-05-21T12:34:56.789Z");
    assert_eq!(t.year_month(), "2026-05");
    assert_eq!(t.compact_text(), "20260521123456");
    assert_eq!(t.rfc3339_text(), "2026-05-21T12:34:56.789+00:00");
    assert_eq!(t.text(), "2026-05-21 12:34:56.789 UTC");
    assert_eq!(t.secs(), 1_779_366_896);
    assert_eq!(t.subsec_nanos(), 789_000_000);
    assert!(Timestamp::from_parts(0, 2_000_000_000).is_none());
    assert!(Timestamp::from_parts(i64::MAX, 0).is_none());
}

#[test]
fn time_differences() {
    let a = ts("2026-05-21T00:00:00.000Z");
    let b = ts("2026-05-22T00:00:00.0019Z");
    assert!(a.is_before(&b));
    assert!(!b.is_before(&a));
    assert!(!a.is_before(&a));
    assert_eq!(b.millis_since(&a), 86_400_001);
    assert_eq!(a.millis_since(&b), -86_400_001);
    assert!(b.days_passed_since(&a, 1));
    assert!(!b.days_passed_since(&a, 2));
    assert!(!a.days_passed_since(&b, 0));
    // Before the epoch the count goes on from the top of 64 bits; out of range it is 0.
    let before = ts("1969-12-31T23:59:59Z");
    assert_eq!(before.nanos_since_epoch(), (1u128 << 64) - 1_000_000_000);
    let far = ts("2262-04-12T00:00:00Z");
    assert_eq!(far.nanos_since_epoch(), 0);
}

#[test]
fn uuid_texts() {
    let a = Uuid::new_v4();
    let b = Uuid::new_v4();
    assert_ne!(a, b);
    let text = a.simple_text();
    assert_eq!(text.len(), 32);
    assert!(text.chars().all(|c| c.is_ascii_hexdigit() && !c.is_ascii_uppercase()));
    assert_eq!(text.as_bytes()[12], b'4');
    assert_eq!(a.short_text(), text[..8]);
    assert_eq!(SessionId::from_uuid(a).as_str(), format!("session-{}", &text[..8]));
    assert_eq!(TurnId::from_uuid(a).as_str(), format!("turn-{}", &text[..8]));
}

#[test]
fn logged_details_are_quoted() {
    let mut store = AuditStore::new("dir/events.jsonl");
    assert_eq!(store.events_path(), "dir/events.jsonl");
    assert_eq!(store.comments_path(), "dir/comments.jsonl");
    assert_eq!(AuditStore::new("data/.").comments_path(), "comments.jsonl");
    let id = OrbId::from_raw("orb-a");
    log_status_change(&mut store, &id, OrbStatus::Pending, OrbStatus::Active, "bob");
    log_phase_change(&mut store, &id, OrbPhase::Waiting, OrbPhase::Executing, "bob");
    log_assigned(&mut store, &id, "eve", "bob");
    let events = store.all_events();
    assert_eq!(events[0].details.as_deref(), Some("\"pending\" -> \"active\""));
    assert_eq!(events[1].details.as_deref(), Some("\"waiting\" -> \"executing\""));
    assert_eq!(events[2].event_type, EventType::Assigned);
    assert_eq!(events[2].actor, "bob");
}

#[test]
fn labels_are_split_and_trimmed() {
    assert_eq!(split_csv("a,,b "), vec!["a", "", "b "]);
    assert_eq!(split_csv(""), vec![""]);
    assert_eq!(trim("\u{a0}\t a b \n"), "a b");
    assert_eq!(trim(" \u{3000}"), "");
    let given = vec!["b, a".to_string(), "".to_string(), " a,c,b".to_string()];
    let labels = normalize_labels(&given);
    assert_eq!(labels, vec!["b", "a", "c"]);
    assert_eq!(normalize_labels(&labels), labels);
}

#[test]
fn names_ignore_ascii_case() {
    assert_eq!(to_lower("ÄBc-Z"), "Äbc-z");
    assert_eq!(parse_orb_type("EPIC"), OrbType::Epic);
    assert_eq!(parse_orb_type("Research"), OrbType::Custom("research".to_string()));
    assert_eq!(parse_status("Canceled"), Ok(OrbStatus::Cancelled));
    assert_eq!(parse_phase("re-Evaluating"), Ok(OrbPhase::Reevaluating));
    assert_eq!(parse_phase("active"), Err(NameError::UnknownPhase("active".to_string())));
    assert_eq!(
        parse_status("Waiting"),
        Err(NameError::UnknownStatus("waiting".to_string()))
    );
    assert_eq!(
        parse_edge_type("X"),
        Err(NameError::UnknownEdgeType("x".to_string()))
    );
    assert_eq!(
        parse_lifecycle_filter("review"),
        Ok(LifecycleFilter::Status(OrbStatus::Review))
    );
    assert_eq!(
        parse_lifecycle_filter("waiting"),
        Ok(LifecycleFilter::Phase(OrbPhase::Waiting))
    );
}

#[test]
fn shown_names_are_names() {
    for t in [
        EdgeType::Blocks,
        EdgeType::DependsOn,
        EdgeType::Parent,
        EdgeType::Child,
        EdgeType::Related,
        EdgeType::Duplicates,
        EdgeType::Follows,
    ] {
        assert_eq!(parse_edge_type(edge_type_label(t)), Ok(t));
    }
    for s in ["epic", "feature", "task", "bug", "chore", "docs", "research"] {
        assert_eq!(orb_type_label(&parse_orb_type(s)), s);
    }
    let mut orb = Orb::new("t", "d");
    for status in [OrbStatus::Draft, OrbStatus::Review, OrbStatus::Tombstone] {
        orb.status = Some(status);
        assert_eq!(parse_status(lifecycle_label(&orb)), Ok(status));
    }
    orb.status = None;
    assert_eq!(lifecycle_label(&orb), "unknown");
    orb.phase = Some(OrbPhase::Speccing);
    assert_eq!(lifecycle_label(&orb), "speccing");
}

#[test]
fn lifecycle_filters() {
    let mut epic = Orb::new("t", "d").with_type(OrbType::Epic);
    let done = LifecycleFilter::Status(OrbStatus::Done);
    let active = LifecycleFilter::Status(OrbStatus::Active);
    epic.phase = Some(OrbPhase::Done);
    assert!(lifecycle_matches(&epic, done));
    assert!(effective_matches(&epic, done));
    epic.phase = Some(OrbPhase::Executing);
    assert!(!lifecycle_matches(&epic, active));
    assert!(effective_matches(&epic, active));
    assert!(lifecycle_matches(&epic, LifecycleFilter::Phase(OrbPhase::Executing)));
    assert!(!effective_matches(&epic, LifecycleFilter::Phase(OrbPhase::Executing)));
    assert!(!effective_matches(&epic, LifecycleFilter::Status(OrbStatus::Draft)));
}

#[test]
fn records_are_lines() {
    let text = "{\"a\":1}\n\n  \t\r\n{\"b\":2}\r\n{\"c\":3}";
    let records = read_records(text);
    assert_eq!(records, vec!["{\"a\":1}", "{\"b\":2}", "{\"c\":3}"]);
    let written = write_records(&records);
    assert_eq!(written, "{\"a\":1}\n{\"b\":2}\n{\"c\":3}\n");
    assert_eq!(read_records(&written), records);
    let more = format!("{written}{}", line_of("{\"d\":4}"));
    assert_eq!(read_records(&more).last().unwrap(), "{\"d\":4}");

    assert!(is_blank_line(" \t\u{3000}"));
    assert!(!is_blank_line(" x "));
}

#[test]
fn paths_are_joined_and_cut() {
    assert_eq!(join_path("a", "b"), "a/b");
    assert_eq!(join_path("a/", "b"), "a/b");
    assert_eq!(join_path("", "b"), "b");
    assert_eq!(join_path("a", "/b"), "/b");
    assert_eq!(parent_dir("a/b/c").as_deref(), Some("a/b"));
    assert_eq!(parent_dir("c").as_deref(), Some(""));
    assert_eq!(parent_dir("/"), None);
    for path in [
        "", ".", "./.", "./a", "./a/b", "a/.", "a/./b", "a//b/.", "a/b/", ".hidden", "..", "../a",
        "/.", "/a", "//a", "///", "/a/./.", "/./a", "a/..", "a/.b", "./", "a/b/./", "x/./.",
    ] {
        let expected = std::path::Path::new(path).parent().map(|p| p.to_str().unwrap());
        assert_eq!(parent_dir(path).as_deref(), expected, "{path}");
    }
}

fn span(order: u32, dispatched: Option<&str>, completed: Option<&str>) -> TraceSpan {
    TraceSpan {
        task_id: Uuid::new_v4(),
        title: "span".to_string(),
        order,
        status: TaskStatus::Done,
        dispatched_at: dispatched.map(ts),
        completed_at: completed.map(ts),
        wall_clock_ms: None,
        model_latency_ms: None,
        tool_latency_ms: None,
        total_latency_ms: None,
        overhead_ms: None,
        retries: 0,
        gaps: vec![],
    }
}

#[test]
fn gaps_between_order_groups() {
    let spans = vec![
        span(2, Some("2026-05-21T12:00:10Z"), Some("2026-05-21T12:00:20Z")),
        span(0, Some("2026-05-21T12:00:00Z"), Some("2026-05-21T12:00:05Z")),
        span(2, Some("2026-05-21T12:00:07.250Z"), None),
        span(0, None, Some("2026-05-21T12:00:04Z")),
        span(5, Some("2026-05-21T12:00:20Z"), None),
        span(7, Some("2026-05-21T13:00:00Z"), None),
    ];
    assert_eq!(
        detect_inter_group_gaps(&spans),
        vec![TraceGap::InterGroupGap { from_order: 0, to_order: 2, gap_ms: 2250 }]
    );
    assert!(detect_inter_group_gaps(&[]).is_empty());
}

#[test]
fn transition_errors_have_texts() {
    let mut orb = Orb::new("t", "d");
    let err = orb.set_status(OrbStatus::Done).unwrap_err();
    assert!(err.message().contains("Pending"));
    assert!(err.message().contains("Done"));
    orb.status = None;
    let err = orb.set_status(OrbStatus::Done).unwrap_err();
    assert!(matches!(err, TransitionError::StatusNotSet { to: OrbStatus::Done }));
    let err = orb.set_phase(OrbPhase::Done).unwrap_err();
    assert!(matches!(err, TransitionError::PhaseNotSet { to: OrbPhase::Done }));
}

#[test]
fn only_done_orbs_are_revised() {
    let mut orb = Orb::new("t", "d");
    let err = orb.try_begin_revision(ReviseScope::Execution).unwrap_err();
    assert_eq!(
        err,
        TransitionError::InvalidStatus { from: OrbStatus::Pending, to: OrbStatus::Active }
    );
    assert_eq!(orb.status, Some(OrbStatus::Pending));
    assert_eq!(orb.revision_count, 0);

    let mut epic = Orb::new("t", "d").with_type(OrbType::Epic);
    epic.phase = Some(OrbPhase::Review);
    let err = epic.try_begin_revision(ReviseScope::Decomposition).unwrap_err();
    assert_eq!(
        err,
        TransitionError::InvalidPhase { from: OrbPhase::Review, to: OrbPhase::Refining }
    );
    epic.phase = None;
    let err = epic.try_begin_revision(ReviseScope::Execution).unwrap_err();
    assert_eq!(err, TransitionError::PhaseNotSet { to: OrbPhase::Executing });
    orb.status = None;
    let err = orb.try_begin_revision(ReviseScope::Execution).unwrap_err();
    assert_eq!(err, TransitionError::StatusNotSet { to: OrbStatus::Active });
}
