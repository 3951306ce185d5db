//! Conversation sessions.

use vstd::prelude::*;

use crate::id::OrbId;
use crate::text::str_eq;
use crate::time::Timestamp;
use crate::uuid::{hex_text, is_random, Uuid};

verus! {

/// JSON values, which sessions carry without looking into them.
#[verifier::external_type_specification]
#[verifier::external_body]
pub struct ExValue(serde_json::Value);

/// A copy of a JSON value, from its `Clone`.
#[verifier::external_body]
fn clone_value(v: &serde_json::Value) -> (r: serde_json::Value)
    ensures
        r == *v,
{
    v.clone()
}

/// Identifier for a long-lived conversation session.
///
/// Format: `session-<8 hex chars>`. Random (UUID-derived); not content-addressed since
/// sessions are not deduplicated by content.
#[derive(Debug, Eq, Hash)]
pub struct SessionId(String);

/// Identifier for a single user turn within a session.
///
/// Format: `turn-<8 hex chars>`. Unique across sessions; carried on every event that belongs
/// to the turn (assistant message, tool calls, usage).
#[derive(Debug, Eq, Hash)]
pub struct TurnId(String);

impl View for SessionId {
    type V = Seq<char>;

    closed spec fn view(&self) -> Seq<char> {
        self.0@
    }
}

impl View for TurnId {
    type V = Seq<char>;

    closed spec fn view(&self) -> Seq<char> {
        self.0@
    }
}

impl PartialEq for SessionId {
    fn eq(&self, other: &SessionId) -> (r: bool) {
        str_eq(self.0.as_str(), other.0.as_str())
    }
}

impl vstd::std_specs::cmp::PartialEqSpecImpl for SessionId {
    open spec fn obeys_eq_spec() -> bool {
        true
    }

    open spec fn eq_spec(&self, other: &SessionId) -> bool {
        self@ == other@
    }
}

impl PartialEq for TurnId {
    fn eq(&self, other: &TurnId) -> (r: bool) {
        str_eq(self.0.as_str(), other.0.as_str())
    }
}

impl vstd::std_specs::cmp::PartialEqSpecImpl for TurnId {
    open spec fn obeys_eq_spec() -> bool {
        true
    }

    open spec fn eq_spec(&self, other: &TurnId) -> bool {
        self@ == other@
    }
}

impl Clone for SessionId {
    fn clone(&self) -> (r: SessionId)
        ensures
            r == *self,
    {
        SessionId(self.0.clone())
    }
}

impl Clone for TurnId {
    fn clone(&self) -> (r: TurnId)
        ensures
            r == *self,
    {
        TurnId(self.0.clone())
    }
}

/// Whether the text is the prefix and the first eight digits of a random identifier.
pub open spec fn is_random_id(text: Seq<char>, prefix: Seq<char>) -> bool {
    exists|bits: u128| #[trigger]
        is_random(bits) && text == prefix + hex_text(bits as nat, 32).take(8)
}

impl SessionId {
    /// Generates a new random session id.
    pub fn new() -> (id: SessionId)
        ensures
            is_random_id(id@, "session-"@),
    {
        SessionId::from_uuid(Uuid::new_v4())
    }

    /// The session id made from a UUID.
    pub fn from_uuid(uuid: Uuid) -> (id: SessionId)
        ensures
            id@ == "session-"@ + hex_text(uuid.bits as nat, 32).take(8),
    {
        let mut s = String::new();
        s.append("session-");
        let short = uuid.short_text();
        s.append(short.as_str());
        assert(s@ =~= "session-"@ + hex_text(uuid.bits as nat, 32).take(8));
        SessionId(s)
    }

    /// Wraps a raw id string.
    pub fn from_raw(s: &str) -> (id: SessionId)
        ensures
            id@ == s@,
    {
        SessionId(s.to_owned())
    }

    /// Returns the string representation.
    pub fn as_str(&self) -> (s: &str)
        ensures
            s@ == self@,
    {
        self.0.as_str()
    }
}

impl Default for SessionId {
    fn default() -> (id: SessionId)
        ensures
            is_random_id(id@, "session-"@),
    {
        SessionId::new()
    }
}

impl TurnId {
    /// Generates a new random turn id.
    pub fn new() -> (id: TurnId)
        ensures
            is_random_id(id@, "turn-"@),
    {
        TurnId::from_uuid(Uuid::new_v4())
    }

    /// The turn id made from a UUID.
    pub fn from_uuid(uuid: Uuid) -> (id: TurnId)
        ensures
            id@ == "turn-"@ + hex_text(uuid.bits as nat, 32).take(8),
    {
        let mut s = String::new();
        s.append("turn-");
        let short = uuid.short_text();
        s.append(short.as_str());
        assert(s@ =~= "turn-"@ + hex_text(uuid.bits as nat, 32).take(8));
        TurnId(s)
    }

    /// Wraps a raw id string.
    pub fn from_raw(s: &str) -> (id: TurnId)
        ensures
            id@ == s@,
    {
        TurnId(s.to_owned())
    }

    /// Returns the string representation.
    pub fn as_str(&self) -> (s: &str)
        ensures
            s@ == self@,
    {
        self.0.as_str()
    }
}

impl Default for TurnId {
    fn default() -> (id: TurnId)
        ensures
            is_random_id(id@, "turn-"@),
    {
        TurnId::new()
    }
}

/// Lifecycle state of a conversation session.
#[derive(Debug, Clone, Copy, PartialEq, Eq, Structural)]
pub enum SessionStatus {
    /// Worker is alive and routing turns.
    Active,
    /// Worker has been detached after idle timeout; transcript intact, can rehydrate.
    Idle,
    /// Terminal state: no further events accepted.
    Closed,
}

/// Reason a session was closed.
#[derive(Debug, PartialEq, Eq)]
pub enum CloseReason {
    /// User exited via `/exit` or Ctrl-D.
    UserExit,
    /// Worker crashed and could not be restarted.
    WorkerCrash { detail: String },
    /// Idle timeout exceeded the configured ceiling and session was finalized.
    IdleTimeout,
    /// Size cap exceeded; session can no longer be appended to.
    SizeCapExceeded,
    /// Catch-all for other reasons (admin close, test, etc.).
    Other { detail: String },
}

impl Clone for CloseReason {
    fn clone(&self) -> (r: CloseReason)
        ensures
            r == *self,
    {
        match self {
            CloseReason::UserExit => CloseReason::UserExit,
            CloseReason::WorkerCrash { detail } => CloseReason::WorkerCrash {
                detail: detail.clone(),
            },
            CloseReason::IdleTimeout => CloseReason::IdleTimeout,
            CloseReason::SizeCapExceeded => CloseReason::SizeCapExceeded,
            CloseReason::Other { detail } => CloseReason::Other { detail: detail.clone() },
        }
    }
}

/// Token usage snapshot.
#[derive(Debug, Clone, Copy, PartialEq, Eq, Structural)]
pub struct SessionUsage {
    pub prompt_tokens: u32,
    pub completion_tokens: u32,
    pub total_tokens: u32,
}

impl Default for SessionUsage {
    fn default() -> (r: SessionUsage)
        ensures
            r == (SessionUsage { prompt_tokens: 0, completion_tokens: 0, total_tokens: 0 }),
    {
        SessionUsage { prompt_tokens: 0, completion_tokens: 0, total_tokens: 0 }
    }
}

/// The sum of two counts, or the largest count where the sum is larger.
pub open spec fn capped_sum(a: u32, b: u32) -> u32 {
    if a + b > u32::MAX {
        u32::MAX
    } else {
        (a + b) as u32
    }
}

/// The sum of two usages, each count capped.
pub open spec fn usage_sum(a: SessionUsage, b: SessionUsage) -> SessionUsage {
    SessionUsage {
        prompt_tokens: capped_sum(a.prompt_tokens, b.prompt_tokens),
        completion_tokens: capped_sum(a.completion_tokens, b.completion_tokens),
        total_tokens: capped_sum(a.total_tokens, b.total_tokens),
    }
}

impl std::ops::Add for SessionUsage {
    type Output = SessionUsage;

    fn add(self, other: SessionUsage) -> (r: SessionUsage) {
        SessionUsage {
            prompt_tokens: self.prompt_tokens.saturating_add(other.prompt_tokens),
            completion_tokens: self.completion_tokens.saturating_add(other.completion_tokens),
            total_tokens: self.total_tokens.saturating_add(other.total_tokens),
        }
    }
}

impl vstd::std_specs::ops::AddSpecImpl for SessionUsage {
    open spec fn obeys_add_spec() -> bool {
        true
    }

    open spec fn add_req(self, other: SessionUsage) -> bool {
        true
    }

    open spec fn add_spec(self, other: SessionUsage) -> SessionUsage {
        usage_sum(self, other)
    }
}

/// Outcome of a tool call invoked during a turn.
#[derive(Debug, PartialEq, Eq)]
pub enum ToolOutcome {
    /// The call went through.
    Success { summary: String },
    /// The call failed.
    Failure { message: String },
}

impl Clone for ToolOutcome {
    fn clone(&self) -> (r: ToolOutcome)
        ensures
            r == *self,
    {
        match self {
            ToolOutcome::Success { summary } => ToolOutcome::Success { summary: summary.clone() },
            ToolOutcome::Failure { message } => ToolOutcome::Failure { message: message.clone() },
        }
    }
}

/// Header line of a session transcript. Written once at create time.
#[derive(Debug, PartialEq, Eq)]
pub struct SessionInit {
    pub id: SessionId,
    pub created_at: Timestamp,
    pub model: String,
    pub system_prompt: Option<String>,
    pub cwd: Option<String>,
    pub linked_orb: Option<OrbId>,
}

impl Clone for SessionInit {
    fn clone(&self) -> (r: SessionInit)
        ensures
            r == *self,
    {
        SessionInit {
            id: self.id.clone(),
            created_at: self.created_at,
            model: self.model.clone(),
            system_prompt: match &self.system_prompt {
                Some(s) => Some(s.clone()),
                None => None,
            },
            cwd: match &self.cwd {
                Some(s) => Some(s.clone()),
                None => None,
            },
            linked_orb: match &self.linked_orb {
                Some(id) => Some(id.clone()),
                None => None,
            },
        }
    }
}

/// One event in a session transcript.
#[allow(inconsistent_fields)]
#[derive(Debug, PartialEq, Eq)]
pub enum SessionEvent {
    UserMessage { turn_id: TurnId, content: String, at: Timestamp },
    AssistantDelta { turn_id: TurnId, chunk: String },
    AssistantMessage { turn_id: TurnId, content: String, at: Timestamp },
    ToolStart { turn_id: TurnId, name: String, args: serde_json::Value },
    ToolEnd { turn_id: TurnId, name: String, outcome: ToolOutcome },
    Usage { turn_id: TurnId, usage: SessionUsage },
    OrbSpawned { turn_id: TurnId, orb_id: OrbId },
    OrbResult { turn_id: TurnId, orb_id: OrbId, summary: String },
    Error { turn_id: Option<TurnId>, message: String, at: Timestamp },
    Cancelled { turn_id: TurnId, at: Timestamp },
    /// The worker was restarted mid-session. The transcript continues; subsequent turns run
    /// against a fresh worker.
    ContextReset { turn_id: TurnId, reason: String, at: Timestamp },
    StatusChanged { to: SessionStatus, reason: Option<CloseReason>, at: Timestamp },
}

impl Clone for SessionEvent {
    fn clone(&self) -> (r: SessionEvent)
        ensures
            r == *self,
    {
        match self {
            SessionEvent::UserMessage { turn_id, content, at } => SessionEvent::UserMessage {
                turn_id: turn_id.clone(),
                content: content.clone(),
                at: *at,
            },
            SessionEvent::AssistantDelta { turn_id, chunk } => SessionEvent::AssistantDelta {
                turn_id: turn_id.clone(),
                chunk: chunk.clone(),
            },
            SessionEvent::AssistantMessage { turn_id, content, at } =>
                SessionEvent::AssistantMessage {
                turn_id: turn_id.clone(),
                content: content.clone(),
                at: *at,
            },
            SessionEvent::ToolStart { turn_id, name, args } => SessionEvent::ToolStart {
                turn_id: turn_id.clone(),
                name: name.clone(),
                args: clone_value(args),
            },
            SessionEvent::ToolEnd { turn_id, name, outcome } => SessionEvent::ToolEnd {
                turn_id: turn_id.clone(),
                name: name.clone(),
                outcome: outcome.clone(),
            },
            SessionEvent::Usage { turn_id, usage } => SessionEvent::Usage {
                turn_id: turn_id.clone(),
                usage: *usage,
            },
            SessionEvent::OrbSpawned { turn_id, orb_id } => SessionEvent::OrbSpawned {
                turn_id: turn_id.clone(),
                orb_id: orb_id.clone(),
            },
            SessionEvent::OrbResult { turn_id, orb_id, summary } => SessionEvent::OrbResult {
                turn_id: turn_id.clone(),
                orb_id: orb_id.clone(),
                summary: summary.clone(),
            },
            SessionEvent::Error { turn_id, message, at } => SessionEvent::Error {
                turn_id: match turn_id {
                    Some(id) => Some(id.clone()),
                    None => None,
                },
                message: message.clone(),
                at: *at,
            },
            SessionEvent::Cancelled { turn_id, at } => SessionEvent::Cancelled {
                turn_id: turn_id.clone(),
                at: *at,
            },
            SessionEvent::ContextReset { turn_id, reason, at } => SessionEvent::ContextReset {
                turn_id: turn_id.clone(),
                reason: reason.clone(),
                at: *at,
            },
            SessionEvent::StatusChanged { to, reason, at } => SessionEvent::StatusChanged {
                to: *to,
                reason: match reason {
                    Some(r) => Some(r.clone()),
                    None => None,
                },
                at: *at,
            },
        }
    }
}

/// In-memory snapshot of a session reconstructed from its transcript.
#[derive(Debug, PartialEq, Eq)]
pub struct Session {
    pub init: SessionInit,
    pub status: SessionStatus,
    pub turn_count: u32,
    pub total_usage: SessionUsage,
    pub closed_at: Option<Timestamp>,
    pub close_reason: Option<CloseReason>,
}

/// A session without events.
pub open spec fn fresh_session(init: SessionInit) -> Session {
    Session {
        init,
        status: SessionStatus::Active,
        turn_count: 0,
        total_usage: SessionUsage { prompt_tokens: 0, completion_tokens: 0, total_tokens: 0 },
        closed_at: None,
        close_reason: None,
    }
}

/// The session after one more event.
pub open spec fn after_event(s: Session, event: SessionEvent) -> Session {
    match event {
        SessionEvent::UserMessage { .. } => Session {
            turn_count: capped_sum(s.turn_count, 1),
            ..s
        },
        SessionEvent::Usage { usage, .. } => Session {
            total_usage: usage_sum(s.total_usage, usage),
            ..s
        },
        SessionEvent::StatusChanged { to, reason, at } => if to is Closed {
            Session { status: to, closed_at: Some(at), close_reason: reason, ..s }
        } else {
            Session { status: to, ..s }
        },
        _ => s,
    }
}

/// The session after all events of a transcript.
pub open spec fn folded(init: SessionInit, events: Seq<SessionEvent>) -> Session
    decreases events.len(),
{
    if events.len() == 0 {
        fresh_session(init)
    } else {
        after_event(folded(init, events.drop_last()), events.last())
    }
}

impl Session {
    /// Builds a fresh `Session` from an init header (no events yet).
    pub fn from_init(init: SessionInit) -> (s: Session)
        ensures
            s == fresh_session(init),
    {
        Session {
            init,
            status: SessionStatus::Active,
            turn_count: 0,
            total_usage: SessionUsage::default(),
            closed_at: None,
            close_reason: None,
        }
    }

    /// Folds an event into the session snapshot.
    pub fn apply(&mut self, event: &SessionEvent)
        ensures
            *final(self) == after_event(*old(self), *event),
    {
        match event {
            SessionEvent::UserMessage { .. } => {
                self.turn_count = self.turn_count.saturating_add(1);
            },
            SessionEvent::Usage { usage, .. } => {
                self.total_usage = self.total_usage + *usage;
            },
            SessionEvent::StatusChanged { to, reason, at } => {
                self.status = *to;
                if matches!(to, SessionStatus::Closed) {
                    self.closed_at = Some(*at);
                    self.close_reason = match reason {
                        Some(r) => Some(r.clone()),
                        None => None,
                    };
                }
            },
            _ => {},
        }
    }
}

/// The number of user messages among the events.
pub open spec fn user_messages(events: Seq<SessionEvent>) -> nat
    decreases events.len(),
{
    if events.len() == 0 {
        0
    } else {
        user_messages(events.drop_last()) + if events.last() is UserMessage {
            1nat
        } else {
            0nat
        }
    }
}

/// The number of turns is the number of user messages, up to the largest count.
pub proof fn law_turns_are_user_messages(init: SessionInit, events: Seq<SessionEvent>)
    ensures
        folded(init, events).turn_count == if user_messages(events) > u32::MAX {
            u32::MAX as int
        } else {
            user_messages(events) as int
        },
        folded(init, events).init == init,
    decreases events.len(),
{
    if events.len() > 0 {
        law_turns_are_user_messages(init, events.drop_last());
    }
}

/// The status of a session is the one that was last changed to, and a session that was never
/// changed is active.
pub proof fn law_status_is_last_change(init: SessionInit, events: Seq<SessionEvent>, i: int)
    ensures
        (forall|j: int| 0 <= j < events.len() ==> !(#[trigger] events[j] is StatusChanged))
            ==> folded(init, events).status is Active && folded(init, events).closed_at is None,
        0 <= i < events.len() && events[i] is StatusChanged && (forall|j: int|
            i < j < events.len() ==> !(#[trigger] events[j] is StatusChanged)) ==> folded(
            init,
            events,
        ).status == events[i]->to,
    decreases events.len(),
{
    if events.len() > 0 {
        let before = events.drop_last();
        law_status_is_last_change(init, before, i);
        assert(forall|j: int| 0 <= j < before.len() ==> before[j] == #[trigger] events[j]);
        assert(events.last() == events[events.len() - 1]);
    }
}

/// Adding usage is commutative, and a usage of nothing changes nothing.
pub proof fn law_usage_sum(a: SessionUsage, b: SessionUsage, c: SessionUsage)
    ensures
        usage_sum(a, b) == usage_sum(b, a),
        usage_sum(usage_sum(a, b), c) == usage_sum(a, usage_sum(b, c)),
        usage_sum(
            a,
            (SessionUsage { prompt_tokens: 0, completion_tokens: 0, total_tokens: 0 }),
        ) == a,
{
}

/// A session without events is active, has no turns and no usage, and is not closed.
pub proof fn law_fresh_session(init: SessionInit)
    ensures
        ({
            let s = fresh_session(init);
            &&& s.init == init && s.status == SessionStatus::Active && s.turn_count == 0
            &&& s.total_usage.prompt_tokens == 0 && s.total_usage.completion_tokens == 0
            &&& s.total_usage.total_tokens == 0
            &&& s.closed_at is None && s.close_reason is None
        }),
{
}

/// Counts of tokens add up one by one, and stop at the largest count.
pub proof fn law_usage_adds_up(a: SessionUsage, b: SessionUsage)
    ensures
        a.prompt_tokens + b.prompt_tokens <= 0xffff_ffff ==> usage_sum(a, b).prompt_tokens
            == a.prompt_tokens + b.prompt_tokens,
        a.prompt_tokens + b.prompt_tokens > 0xffff_ffff ==> usage_sum(a, b).prompt_tokens
            == 0xffff_ffff,
        a.completion_tokens + b.completion_tokens <= 0xffff_ffff ==> usage_sum(
            a,
            b,
        ).completion_tokens == a.completion_tokens + b.completion_tokens,
        a.completion_tokens + b.completion_tokens > 0xffff_ffff ==> usage_sum(
            a,
            b,
        ).completion_tokens == 0xffff_ffff,
        a.total_tokens + b.total_tokens <= 0xffff_ffff ==> usage_sum(a, b).total_tokens
            == a.total_tokens + b.total_tokens,
        a.total_tokens + b.total_tokens > 0xffff_ffff ==> usage_sum(a, b).total_tokens
            == 0xffff_ffff,
{
}

/// What one event does to a session: a user message is one more turn, usage adds to the total, a
/// change of status sets the status and, where it closes the session, when and why, and all
/// other events change nothing. No event changes the header.
pub proof fn law_after_event(s: Session, event: SessionEvent)
    ensures
        after_event(s, event).init == s.init,
        event is UserMessage ==> after_event(s, event) == (Session {
            turn_count: if s.turn_count < 0xffff_ffff {
                (s.turn_count + 1) as u32
            } else {
                s.turn_count
            },
            ..s
        }),
        event matches SessionEvent::Usage { usage, .. } ==> after_event(s, event) == (Session {
            total_usage: usage_sum(s.total_usage, usage),
            ..s
        }),
        event matches SessionEvent::StatusChanged { to, reason, at } ==> after_event(s, event)
            == if to == SessionStatus::Closed {
            Session { status: to, closed_at: Some(at), close_reason: reason, ..s }
        } else {
            Session { status: to, ..s }
        },
        event is AssistantDelta || event is AssistantMessage || event is ToolStart || event
            is ToolEnd || event is OrbSpawned || event is OrbResult || event is Error || event
            is Cancelled || event is ContextReset ==> after_event(s, event) == s,
{
}

/// Events are folded one after the other: those of one part of a transcript, and then those of
/// the next.
pub proof fn law_folded_in_order(init: SessionInit, events: Seq<SessionEvent>, event: SessionEvent)
    ensures
        folded(init, Seq::empty()) == fresh_session(init),
        folded(init, events.push(event)) == after_event(folded(init, events), event),
{
    assert(events.push(event).drop_last() =~= events);
}

/// A random identifier is its prefix and eight digits in base 16.
pub proof fn law_random_id(text: Seq<char>, prefix: Seq<char>, i: int)
    requires
        is_random_id(text, prefix),
        prefix.len() <= i < text.len(),
    ensures
        text.len() == prefix.len() + 8,
        text.take(prefix.len() as int) == prefix,
        '0' <= text[i] <= '9' || 'a' <= text[i] <= 'f',
{
    let bits = choose|bits: u128| #[trigger]
        is_random(bits) && text == prefix + hex_text(bits as nat, 32).take(8);
    let hex = hex_text(bits as nat, 32);
    crate::uuid::lemma_hex_len(bits as nat, 32);
    assert(text.take(prefix.len() as int) =~= prefix);
    assert(text[i] == hex[i - prefix.len()]);
    crate::uuid::law_hex_digits(bits as nat, 32, i - prefix.len());
}

} // verus!
