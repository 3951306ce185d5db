use orbs::session::{
    CloseReason, Session, SessionEvent, SessionId, SessionInit, SessionStatus, SessionUsage, TurnId,
};
use orbs::time::Timestamp;

fn ts(rfc: &str) -> Timestamp {
    let t = chrono::DateTime::parse_from_rfc3339(rfc).unwrap();
    Timestamp::from_parts(t.timestamp(), t.timestamp_subsec_nanos()).unwrap()
}

fn now() -> Timestamp {
    ts("2026-05-21T12:00:00Z")
}

#[test]
fn session_id_is_unique_and_prefixed() {
    let a = SessionId::new();
    let b = SessionId::new();
    assert_ne!(a, b);
    assert!(a.as_str().starts_with("session-"));
    assert!(b.as_str().starts_with("session-"));
}

#[test]
fn turn_id_is_unique_and_prefixed() {
    let a = TurnId::new();
    let b = TurnId::new();
    assert_ne!(a, b);
    assert!(a.as_str().starts_with("turn-"));
}

#[test]
fn session_apply_user_message_increments_turn_count() {
    let init = SessionInit {
        id: SessionId::new(),
        created_at: now(),
        model: "m".into(),
        system_prompt: None,
        cwd: None,
        linked_orb: None,
    };
    let mut s = Session::from_init(init);
    assert_eq!(s.turn_count, 0);
    s.apply(&SessionEvent::UserMessage {
        turn_id: TurnId::new(),
        content: "hi".into(),
        at: now(),
    });
    assert_eq!(s.turn_count, 1);
}

#[test]
fn session_usage_addition_via_add_operator() {
    let a = SessionUsage {
        prompt_tokens: 1,
        completion_tokens: 2,
        total_tokens: 3,
    };
    let b = SessionUsage {
        prompt_tokens: 10,
        completion_tokens: 20,
        total_tokens: 30,
    };
    let sum = a + b;
    assert_eq!(sum.prompt_tokens, 11);
    assert_eq!(sum.completion_tokens, 22);
    assert_eq!(sum.total_tokens, 33);
}

#[test]
fn session_apply_usage_accumulates() {
    let init = SessionInit {
        id: SessionId::new(),
        created_at: now(),
        model: "m".into(),
        system_prompt: None,
        cwd: None,
        linked_orb: None,
    };
    let mut s = Session::from_init(init);
    s.apply(&SessionEvent::Usage {
        turn_id: TurnId::new(),
        usage: SessionUsage {
            prompt_tokens: 10,
            completion_tokens: 20,
            total_tokens: 30,
        },
    });
    s.apply(&SessionEvent::Usage {
        turn_id: TurnId::new(),
        usage: SessionUsage {
            prompt_tokens: 5,
            completion_tokens: 7,
            total_tokens: 12,
        },
    });
    assert_eq!(s.total_usage.prompt_tokens, 15);
    assert_eq!(s.total_usage.completion_tokens, 27);
    assert_eq!(s.total_usage.total_tokens, 42);
}

#[test]
fn session_apply_status_changed_to_closed_records_close_metadata() {
    let init = SessionInit {
        id: SessionId::new(),
        created_at: now(),
        model: "m".into(),
        system_prompt: None,
        cwd: None,
        linked_orb: None,
    };
    let mut s = Session::from_init(init);
    let at = now();
    s.apply(&SessionEvent::StatusChanged {
        to: SessionStatus::Closed,
        reason: Some(CloseReason::UserExit),
        at,
    });
    assert_eq!(s.status, SessionStatus::Closed);
    assert_eq!(s.closed_at, Some(at));
    assert_eq!(s.close_reason, Some(CloseReason::UserExit));
}

#[test]
fn session_apply_status_changed_to_idle_does_not_record_close_metadata() {
    let init = SessionInit {
        id: SessionId::new(),
        created_at: now(),
        model: "m".into(),
        system_prompt: None,
        cwd: None,
        linked_orb: None,
    };
    let mut s = Session::from_init(init);
    s.apply(&SessionEvent::StatusChanged {
        to: SessionStatus::Idle,
        reason: None,
        at: now(),
    });
    assert_eq!(s.status, SessionStatus::Idle);
    assert!(s.closed_at.is_none());
}

#[test]
fn session_usage_add_saturates() {
    let big = SessionUsage {
        prompt_tokens: u32::MAX,
        completion_tokens: 0,
        total_tokens: 0,
    };
    let one = SessionUsage {
        prompt_tokens: 1,
        completion_tokens: 0,
        total_tokens: 0,
    };
    assert_eq!((big + one).prompt_tokens, u32::MAX);
}
