//! The store of conversation sessions.

use vstd::prelude::*;
use vstd::utf8::encode_utf8;

use crate::digits::{decimal, decimal_text};
use crate::lists::{in_order, lemma_filter, lemma_filter_map_step};
use crate::jsonl::{is_blank, is_blank_line};
use crate::log::views;
use crate::paths::{join_path, joined_path};
use crate::session::{
    folded, CloseReason, Session, SessionEvent, SessionId, SessionInit, SessionStatus,
};
use crate::text::{chars_of, str_eq, text_of};
use crate::time::{earlier, elapsed_nanos, formatted, Timestamp};

verus! {

/// Default per-session file size ceiling: 512 MiB. Sized to comfortably hold any practical
/// conversation; the cap exists to catch runaway loops, not to paginate normal use.
pub const DEFAULT_MAX_FILE_BYTES: u64 = 536_870_912;

/// Default age (days) after which a closed session is archived.
pub const DEFAULT_ROTATE_AFTER_DAYS: u32 = 30;

/// Errors of a session store.
#[derive(Debug)]
pub enum SessionStoreError {
    AlreadyExists { id: String, path: String },
    NotFound { id: String },
    Closed { id: String },
    SizeCapExceeded { id: String, current: u64, cap: u64 },
    EmptyTranscript { id: String },
    MissingHeader { id: String },
    Io { path: String, source: String },
    Serde { id: String, source: String },
}

/// What a [`SessionStoreError`] holds.
pub enum SessionStoreErrorView {
    AlreadyExists { id: Seq<char>, path: Seq<char> },
    NotFound { id: Seq<char> },
    Closed { id: Seq<char> },
    SizeCapExceeded { id: Seq<char>, current: u64, cap: u64 },
    EmptyTranscript { id: Seq<char> },
    MissingHeader { id: Seq<char> },
    Io { path: Seq<char>, source: Seq<char> },
    Serde { id: Seq<char>, source: Seq<char> },
}

impl View for SessionStoreError {
    type V = SessionStoreErrorView;

    open spec fn view(&self) -> SessionStoreErrorView {
        match self {
            SessionStoreError::AlreadyExists { id, path } => SessionStoreErrorView::AlreadyExists {
                id: id@,
                path: path@,
            },
            SessionStoreError::NotFound { id } => SessionStoreErrorView::NotFound { id: id@ },
            SessionStoreError::Closed { id } => SessionStoreErrorView::Closed { id: id@ },
            SessionStoreError::SizeCapExceeded { id, current, cap } =>
                SessionStoreErrorView::SizeCapExceeded { id: id@, current: *current, cap: *cap },
            SessionStoreError::EmptyTranscript { id } => SessionStoreErrorView::EmptyTranscript {
                id: id@,
            },
            SessionStoreError::MissingHeader { id } => SessionStoreErrorView::MissingHeader {
                id: id@,
            },
            SessionStoreError::Io { path, source } => SessionStoreErrorView::Io {
                path: path@,
                source: source@,
            },
            SessionStoreError::Serde { id, source } => SessionStoreErrorView::Serde {
                id: id@,
                source: source@,
            },
        }
    }
}

/// The text of an error.
pub open spec fn error_text(e: SessionStoreErrorView) -> Seq<char> {
    match e {
        SessionStoreErrorView::AlreadyExists { id, path } => "session "@ + id
            + " already exists at "@ + path,
        SessionStoreErrorView::NotFound { id } => "session "@ + id + " not found"@,
        SessionStoreErrorView::Closed { id } => "session "@ + id
            + " is closed; no further events accepted"@,
        SessionStoreErrorView::SizeCapExceeded { id, current, cap } => "session "@ + id
            + " would exceed configured size cap ("@ + decimal(cap as nat)
            + " bytes) after append (current "@ + decimal(current as nat) + " bytes)"@,
        SessionStoreErrorView::EmptyTranscript { id } => "transcript for session "@ + id
            + " is empty"@,
        SessionStoreErrorView::MissingHeader { id } => "transcript for session "@ + id
            + " has no init header"@,
        SessionStoreErrorView::Io { path, source } => "io error on "@ + path + ": "@ + source,
        SessionStoreErrorView::Serde { id, source } => "serde error in session "@ + id + ": "@
            + source,
    }
}

impl SessionStoreError {
    /// The text of the error.
    pub fn message(&self) -> (s: String)
        ensures
            s@ == error_text(self@),
    {
        let mut s = String::new();
        match self {
            SessionStoreError::AlreadyExists { id, path } => {
                s.append("session ");
                s.append(id.as_str());
                s.append(" already exists at ");
                s.append(path.as_str());
            },
            SessionStoreError::NotFound { id } => {
                s.append("session ");
                s.append(id.as_str());
                s.append(" not found");
            },
            SessionStoreError::Closed { id } => {
                s.append("session ");
                s.append(id.as_str());
                s.append(" is closed; no further events accepted");
            },
            SessionStoreError::SizeCapExceeded { id, current, cap } => {
                s.append("session ");
                s.append(id.as_str());
                s.append(" would exceed configured size cap (");
                let n = decimal_text(*cap as u128);
                s.append(n.as_str());
                s.append(" bytes) after append (current ");
                let n = decimal_text(*current as u128);
                s.append(n.as_str());
                s.append(" bytes)");
            },
            SessionStoreError::EmptyTranscript { id } => {
                s.append("transcript for session ");
                s.append(id.as_str());
                s.append(" is empty");
            },
            SessionStoreError::MissingHeader { id } => {
                s.append("transcript for session ");
                s.append(id.as_str());
                s.append(" has no init header");
            },
            SessionStoreError::Io { path, source } => {
                s.append("io error on ");
                s.append(path.as_str());
                s.append(": ");
                s.append(source.as_str());
            },
            SessionStoreError::Serde { id, source } => {
                s.append("serde error in session ");
                s.append(id.as_str());
                s.append(": ");
                s.append(source.as_str());
            },
        }
        assert(s@ =~= error_text(self@));
        s
    }
}

/// Retention/size policy for sessions in a store.
#[derive(Debug, Clone, Copy, PartialEq, Eq, Structural)]
pub struct SessionRetentionConfig {
    pub rotate_after_days: u32,
    pub max_file_bytes: u64,
}

impl Default for SessionRetentionConfig {
    fn default() -> (r: SessionRetentionConfig)
        ensures
            r.rotate_after_days == DEFAULT_ROTATE_AFTER_DAYS,
            r.max_file_bytes == DEFAULT_MAX_FILE_BYTES,
    {
        SessionRetentionConfig {
            rotate_after_days: DEFAULT_ROTATE_AFTER_DAYS,
            max_file_bytes: DEFAULT_MAX_FILE_BYTES,
        }
    }
}

/// Lightweight metadata of a session, as listed.
#[derive(Debug)]
pub struct SessionMeta {
    pub init: SessionInit,
    pub status: SessionStatus,
    pub last_event_at: Option<Timestamp>,
    pub byte_size: u64,
}

impl Clone for SessionMeta {
    fn clone(&self) -> (r: SessionMeta)
        ensures
            r == *self,
    {
        SessionMeta {
            init: self.init.clone(),
            status: self.status,
            last_event_at: self.last_event_at,
            byte_size: self.byte_size,
        }
    }
}

/// A line of a file, as read.
#[derive(Debug)]
pub enum RawLine {
    /// The text of the line, without its end.
    Text(String),
    /// The line could not be read, and why.
    Unreadable(String),
}

/// What a [`RawLine`] holds.
pub enum RawLineView {
    Text(Seq<char>),
    Unreadable(Seq<char>),
}

impl View for RawLine {
    type V = RawLineView;

    open spec fn view(&self) -> RawLineView {
        match self {
            RawLine::Text(text) => RawLineView::Text(text@),
            RawLine::Unreadable(why) => RawLineView::Unreadable(why@),
        }
    }
}

impl RawLineView {
    /// Whether the line counts: all do but those that hold nothing but white space.
    pub open spec fn counts(self) -> bool {
        self matches RawLineView::Text(text) ==> !is_blank(text)
    }
}

/// A copy of a line.
fn copy_line(line: &RawLine) -> (r: RawLine)
    ensures
        r@ == line@,
{
    match line {
        RawLine::Text(text) => RawLine::Text(text.clone()),
        RawLine::Unreadable(why) => RawLine::Unreadable(why.clone()),
    }
}

/// Whether the line counts.
fn line_counts(line: &RawLine) -> (r: bool)
    ensures
        r == line@.counts(),
{
    match line {
        RawLine::Text(text) => !is_blank_line(text.as_str()),
        RawLine::Unreadable(_) => true,
    }
}

/// The parts of a transcript: its first line, which is the header, and those of the lines
/// after it that count, which are events.
pub fn split_transcript(lines: &Vec<RawLine>) -> (r: (Option<RawLine>, Vec<RawLine>))
    ensures
        match r.0 {
            Some(header) => lines@.len() > 0 && header@ == lines@[0]@ && views(r.1@) == views(
                lines@,
            ).skip(1).filter(|l: RawLineView| l.counts()),
            None => lines@.len() == 0 && r.1@.len() == 0,
        },
{
    let mut events: Vec<RawLine> = Vec::new();
    if lines.len() == 0 {
        return (None, events);
    }
    let ghost rest = views(lines@).skip(1);
    let ghost pred = |l: RawLineView| l.counts();
    let mut i: usize = 1;
    proof {
        reveal(Seq::filter);
        assert(views(events@) =~= rest.take(0).filter(pred));
    }
    while i < lines.len()
        invariant
            1 <= i <= lines@.len(),
            rest == views(lines@).skip(1),
            pred == |l: RawLineView| l.counts(),
            views(events@) == rest.take(i - 1).filter(pred),
        decreases lines@.len() - i,
    {
        let ghost before = views(events@);
        if line_counts(&lines[i]) {
            events.push(copy_line(&lines[i]));
            assert(views(events@) =~= before.push(lines@[i as int]@));
        }
        proof {
            reveal(Seq::filter);
            assert(rest.take(i as int).drop_last() =~= rest.take(i - 1));
            assert(rest.take(i as int).last() == lines@[i as int]@);
        }
        i += 1;
    }
    assert(rest.take(i - 1) =~= rest);
    (Some(copy_line(&lines[0])), events)
}

/// The identifier of the session whose transcript is in a file of the given name: what stands
/// before `.jsonl`. Files with other names hold no session.
pub open spec fn session_of(name: Seq<char>) -> Option<Seq<char>> {
    if name.len() > 6 && name.skip(name.len() - 6) == ".jsonl"@ {
        Some(name.take(name.len() - 6))
    } else {
        None
    }
}

/// The session whose transcript is in a file of the given name, if it is one of a session.
pub fn session_of_file(name: &str) -> (r: Option<SessionId>)
    ensures
        match r {
            Some(id) => session_of(name@) == Some(id@),
            None => session_of(name@) is None,
        },
{
    let v = chars_of(name);
    let len: usize = v.len();
    if len <= 6 {
        return None;
    }
    let end = text_of(&v, len - 6, len);
    assert(end@ =~= name@.skip(len - 6));
    if !str_eq(end.as_str(), ".jsonl") {
        return None;
    }
    let id = text_of(&v, 0, len - 6);
    assert(id@ =~= name@.take(len - 6));
    Some(SessionId::from_raw(id.as_str()))
}

/// The file of a session is that session's: the name that a session is stored under gives its
/// identifier back, unless the identifier is empty.
pub proof fn law_session_of_file(id: Seq<char>)
    requires
        id.len() > 0,
    ensures
        session_of(id + ".jsonl"@) == Some(id),
{
    reveal_strlit(".jsonl");
    let name = id + ".jsonl"@;
    assert(name.skip(name.len() - 6) =~= ".jsonl"@);
    assert(name.take(name.len() - 6) =~= id);
}

/// The first line of a transcript, as read.
#[derive(Debug)]
pub enum HeaderLine {
    /// The transcript has no lines.
    Missing,
    /// The line could not be read, and why.
    Unreadable(String),
    /// The line is not a header, and why.
    Malformed(String),
    /// The header.
    Init(SessionInit),
}

/// A line of a transcript after the first, as read. Blank lines are left out.
#[derive(Debug)]
pub enum EventLine {
    /// The line could not be read, and why.
    Unreadable(String),
    /// The line is not an event, and why.
    Malformed(String),
    /// An event.
    Event(SessionEvent),
}

/// A session transcript: its header, its other lines, and its size in bytes.
#[derive(Debug)]
pub struct Transcript {
    pub header: HeaderLine,
    pub lines: Vec<EventLine>,
    pub byte_size: u64,
}

/// What a [`Transcript`] holds.
#[verifier::ext_equal]
pub struct TranscriptView {
    pub header: HeaderLine,
    pub lines: Seq<EventLine>,
    pub byte_size: u64,
}

impl View for Transcript {
    type V = TranscriptView;

    open spec fn view(&self) -> TranscriptView {
        TranscriptView { header: self.header, lines: self.lines@, byte_size: self.byte_size }
    }
}

/// The place of the first line among the first `n` that is not an event.
pub open spec fn first_fault(lines: Seq<EventLine>, n: nat) -> Option<int>
    decreases n,
{
    if n == 0 {
        None
    } else {
        match first_fault(lines, (n - 1) as nat) {
            Some(i) => Some(i),
            None => if lines[n - 1] is Event {
                None
            } else {
                Some(n - 1)
            },
        }
    }
}

/// The events of the lines, where all are events.
pub open spec fn events_of(lines: Seq<EventLine>) -> Seq<SessionEvent> {
    Seq::new(lines.len(), |i: int| lines[i]->Event_0)
}

impl TranscriptView {
    /// The error that loading the transcript of session `id` at `path` ends in, if it does.
    pub open spec fn fault(self, id: Seq<char>, path: Seq<char>) -> Option<SessionStoreErrorView> {
        match self.header {
            HeaderLine::Missing => Some(SessionStoreErrorView::EmptyTranscript { id }),
            HeaderLine::Unreadable(why) => Some(
                SessionStoreErrorView::Io { path, source: why@ },
            ),
            HeaderLine::Malformed(why) => Some(
                SessionStoreErrorView::Serde { id, source: why@ },
            ),
            HeaderLine::Init(_) => match first_fault(self.lines, self.lines.len()) {
                Some(i) => match self.lines[i] {
                    EventLine::Unreadable(why) => Some(
                        SessionStoreErrorView::Io { path, source: why@ },
                    ),
                    EventLine::Malformed(why) => Some(
                        SessionStoreErrorView::Serde { id, source: why@ },
                    ),
                    EventLine::Event(_) => None,
                },
                None => None,
            },
        }
    }

    /// The session that the transcript tells of, where loading it ends in no error.
    pub open spec fn session(self) -> Session {
        folded(self.header->Init_0, events_of(self.lines))
    }

    /// The status that the last readable change of status changed to among the first `n`
    /// lines, or active.
    pub open spec fn last_status(self, n: nat) -> SessionStatus
        decreases n,
    {
        if n == 0 {
            SessionStatus::Active
        } else {
            match self.lines[n - 1] {
                EventLine::Event(SessionEvent::StatusChanged { to, .. }) => to,
                _ => self.last_status((n - 1) as nat),
            }
        }
    }

    /// The time of the last readable event with a time among the first `n` lines.
    pub open spec fn last_time(self, n: nat) -> Option<Timestamp>
        decreases n,
    {
        if n == 0 {
            None
        } else {
            match self.lines[n - 1] {
                EventLine::Event(e) => match event_time(e) {
                    Some(t) => Some(t),
                    None => self.last_time((n - 1) as nat),
                },
                _ => self.last_time((n - 1) as nat),
            }
        }
    }

    /// The metadata of the transcript, where it has a header.
    pub open spec fn meta(self) -> Option<SessionMeta> {
        match self.header {
            HeaderLine::Init(init) => Some(
                SessionMeta {
                    init,
                    status: self.last_status(self.lines.len()),
                    last_event_at: self.last_time(self.lines.len()),
                    byte_size: self.byte_size,
                },
            ),
            _ => None,
        }
    }

    /// The transcript with one more event, written as a line of `len` bytes.
    pub open spec fn with_event(self, event: SessionEvent, len: nat) -> TranscriptView {
        TranscriptView {
            lines: self.lines.push(EventLine::Event(event)),
            byte_size: grown(self.byte_size, len),
            ..self
        }
    }
}

/// The size of a file after `len` more bytes, up to the largest size.
pub open spec fn grown(size: u64, len: nat) -> u64 {
    if size + len > u64::MAX {
        u64::MAX
    } else {
        (size + len) as u64
    }
}

/// The time of an event, where it has one.
pub open spec fn event_time(e: SessionEvent) -> Option<Timestamp> {
    match e {
        SessionEvent::UserMessage { at, .. } => Some(at),
        SessionEvent::AssistantMessage { at, .. } => Some(at),
        SessionEvent::Error { at, .. } => Some(at),
        SessionEvent::Cancelled { at, .. } => Some(at),
        SessionEvent::ContextReset { at, .. } => Some(at),
        SessionEvent::StatusChanged { at, .. } => Some(at),
        _ => None,
    }
}

/// The time of an event, where it has one.
pub fn event_timestamp(event: &SessionEvent) -> (t: Option<Timestamp>)
    ensures
        t == event_time(*event),
{
    match event {
        SessionEvent::UserMessage { at, .. }
        | SessionEvent::AssistantMessage { at, .. }
        | SessionEvent::Error { at, .. }
        | SessionEvent::Cancelled { at, .. }
        | SessionEvent::ContextReset { at, .. }
        | SessionEvent::StatusChanged { at, .. } => Some(*at),
        SessionEvent::AssistantDelta { .. }
        | SessionEvent::ToolStart { .. }
        | SessionEvent::ToolEnd { .. }
        | SessionEvent::Usage { .. }
        | SessionEvent::OrbSpawned { .. }
        | SessionEvent::OrbResult { .. } => None,
    }
}

/// Lines that are all events have no fault.
proof fn lemma_no_fault(lines: Seq<EventLine>, n: nat)
    requires
        n <= lines.len(),
    ensures
        first_fault(lines, n) is None <==> forall|i: int|
            0 <= i < n ==> (#[trigger] lines[i]) is Event,
        first_fault(lines, n) matches Some(i) ==> 0 <= i < n && !(lines[i] is Event),
    decreases n,
{
    if n > 0 {
        lemma_no_fault(lines, (n - 1) as nat);
    }
}

/// A fault among the first lines is the first fault of all.
proof fn lemma_fault_stays(lines: Seq<EventLine>, n: nat, m: nat)
    requires
        n <= m <= lines.len(),
        first_fault(lines, n) is Some,
    ensures
        first_fault(lines, m) == first_fault(lines, n),
    decreases m,
{
    if n < m {
        lemma_fault_stays(lines, n, (m - 1) as nat);
    }
}

/// Reads a transcript back: the session header and all events in order, and the session
/// snapshot that folding the events gives.
///
/// # Errors
///
/// `EmptyTranscript` if the transcript has no lines; `Serde` on a malformed line; `Io` on a
/// line that could not be read.
pub fn replay(id: &SessionId, path: &str, t: &Transcript) -> (r: Result<
    (Session, Vec<SessionEvent>),
    SessionStoreError,
>)
    ensures
        match r {
            Ok((session, events)) => t@.fault(id@, path@) is None && t.header is Init && session
                == t@.session() && events@ == events_of(t@.lines),
            Err(e) => t@.fault(id@, path@) == Some(e@),
        },
{
    let init = match &t.header {
        HeaderLine::Missing => {
            return Err(SessionStoreError::EmptyTranscript { id: id.as_str().to_owned() });
        },
        HeaderLine::Unreadable(why) => {
            return Err(
                SessionStoreError::Io { path: path.to_owned(), source: why.clone() },
            );
        },
        HeaderLine::Malformed(why) => {
            return Err(
                SessionStoreError::Serde { id: id.as_str().to_owned(), source: why.clone() },
            );
        },
        HeaderLine::Init(init) => init.clone(),
    };
    let ghost lines = t.lines@;
    let mut session = Session::from_init(init);
    let mut events: Vec<SessionEvent> = Vec::new();
    let mut i: usize = 0;
    while i < t.lines.len()
        invariant
            i <= lines.len(),
            lines == t.lines@,
            t.header == HeaderLine::Init(init),
            events@.len() == i,
            forall|j: int|
                0 <= j < i ==> lines[j] == EventLine::Event(#[trigger] events@[j]),
            session == folded(init, events@),
            first_fault(lines, i as nat) is None,
        decreases lines.len() - i,
    {
        match &t.lines[i] {
            EventLine::Unreadable(why) => {
                proof {
                    lemma_fault_stays(lines, (i + 1) as nat, lines.len());
                }
                return Err(
                    SessionStoreError::Io { path: path.to_owned(), source: why.clone() },
                );
            },
            EventLine::Malformed(why) => {
                proof {
                    lemma_fault_stays(lines, (i + 1) as nat, lines.len());
                }
                return Err(
                    SessionStoreError::Serde { id: id.as_str().to_owned(), source: why.clone() },
                );
            },
            EventLine::Event(event) => {
                let ghost before = events@;
                session.apply(event);
                events.push(event.clone());
                assert(events@.drop_last() =~= before);
            },
        }
        i += 1;
    }
    assert(events@ =~= events_of(lines));
    Ok((session, events))
}

/// The metadata of a transcript. Lines that are no events are passed over.
pub fn read_meta(t: &Transcript) -> (r: Option<SessionMeta>)
    ensures
        r == t@.meta(),
{
    let init = match &t.header {
        HeaderLine::Init(init) => init.clone(),
        _ => {
            return None;
        },
    };
    let mut status = SessionStatus::Active;
    let mut last_event_at: Option<Timestamp> = None;
    let mut i: usize = 0;
    while i < t.lines.len()
        invariant
            i <= t.lines@.len(),
            status == t@.last_status(i as nat),
            last_event_at == t@.last_time(i as nat),
        decreases t.lines@.len() - i,
    {
        if let EventLine::Event(event) = &t.lines[i] {
            if let Some(at) = event_timestamp(event) {
                last_event_at = Some(at);
            }
            if let SessionEvent::StatusChanged { to, .. } = event {
                status = *to;
            }
        }
        i += 1;
    }
    Some(SessionMeta { init, status, last_event_at, byte_size: t.byte_size })
}

/// The number of bytes that a line takes up in a file, its end included.
pub open spec fn line_bytes(line: Seq<char>) -> nat {
    encode_utf8(line).len() + 1
}

/// The size of a file after one more line, up to the largest size.
fn grown_by_line(size: u64, line: &str) -> (r: u64)
    ensures
        r == grown(size, line_bytes(line@)),
{
    let bytes = line.as_bytes();
    let len: usize = bytes.len();
    size.saturating_add(len as u64).saturating_add(1)
}

/// The error that stops an event from being appended to a transcript as the given line, if
/// there is one: that of loading the transcript, or the session is closed, or the file would
/// grow beyond the cap.
pub open spec fn append_fault(
    t: TranscriptView,
    id: Seq<char>,
    path: Seq<char>,
    line: Seq<char>,
    cap: u64,
) -> Option<SessionStoreErrorView> {
    if t.fault(id, path) is Some {
        t.fault(id, path)
    } else if t.session().status is Closed {
        Some(SessionStoreErrorView::Closed { id })
    } else if grown(t.byte_size, line_bytes(line)) > cap {
        Some(SessionStoreErrorView::SizeCapExceeded { id, current: t.byte_size, cap })
    } else {
        None
    }
}

/// Checks that an event may be appended to a transcript as the given line.
///
/// # Errors
///
/// Those of [`replay`]; `Closed` if the session is in `Closed` status; `SizeCapExceeded` if the
/// projected file size would exceed the cap.
pub fn check_append(id: &SessionId, path: &str, t: &Transcript, line: &str, cap: u64) -> (r: Result<
    (),
    SessionStoreError,
>)
    ensures
        match r {
            Ok(()) => append_fault(t@, id@, path@, line@, cap) is None,
            Err(e) => append_fault(t@, id@, path@, line@, cap) == Some(e@),
        },
{
    let session = match replay(id, path, t) {
        Ok((session, _)) => session,
        Err(e) => {
            return Err(e);
        },
    };
    if matches!(session.status, SessionStatus::Closed) {
        return Err(SessionStoreError::Closed { id: id.as_str().to_owned() });
    }
    let projected: u64 = grown_by_line(t.byte_size, line);
    if projected > cap {
        return Err(
            SessionStoreError::SizeCapExceeded {
                id: id.as_str().to_owned(),
                current: t.byte_size,
                cap,
            },
        );
    }
    Ok(())
}

/// Whether the sessions that were created last come first.
pub open spec fn newest_first(metas: Seq<SessionMeta>) -> bool {
    forall|a: int, b: int|
        0 <= a < b < metas.len() ==> !earlier(
            (#[trigger] metas[a]).init.created_at,
            (#[trigger] metas[b]).init.created_at,
        )
}

/// Sorts metadata so that the sessions that were created last come first.
pub fn sort_newest_first(metas: &Vec<SessionMeta>) -> (r: Vec<SessionMeta>)
    ensures
        newest_first(r@),
        r@.to_multiset() == metas@.to_multiset(),
{
    let mut r: Vec<SessionMeta> = Vec::new();
    let mut n: usize = 0;
    assert(metas@.take(0) =~= r@);
    while n < metas.len()
        invariant
            n <= metas@.len(),
            newest_first(r@),
            r@.to_multiset() == metas@.take(n as int).to_multiset(),
        decreases metas@.len() - n,
    {
        let x = metas[n].clone();
        let ghost before = r@;
        let mut at: usize = r.len();
        while at > 0 && r[at - 1].init.created_at.is_before(&x.init.created_at)
            invariant
                at <= r@.len(),
                r@ == before,
                forall|j: int|
                    at <= j < before.len() ==> earlier(
                        (#[trigger] before[j]).init.created_at,
                        x.init.created_at,
                    ),
            decreases at,
        {
            at -= 1;
        }
        proof {
            lemma_insert_newest(before, at as int, x);
            vstd::seq_lib::to_multiset_insert(before, at as int, x);
            vstd::seq_lib::to_multiset_build(metas@.take(n as int), x);
            assert(metas@.take(n + 1) =~= metas@.take(n as int).push(x));
        }
        r.insert(at, x);
        n += 1;
    }
    assert(metas@.take(n as int) =~= metas@);
    r
}

/// One more session in its place keeps the order.
proof fn lemma_insert_newest(s: Seq<SessionMeta>, at: int, x: SessionMeta)
    requires
        newest_first(s),
        0 <= at <= s.len(),
        at > 0 ==> !earlier(s[at - 1].init.created_at, x.init.created_at),
        forall|j: int|
            at <= j < s.len() ==> earlier((#[trigger] s[j]).init.created_at, x.init.created_at),
    ensures
        newest_first(s.insert(at, x)),
{
    let t = s.insert(at, x);
    assert forall|a: int, b: int| 0 <= a < b < t.len() implies !earlier(
        (#[trigger] t[a]).init.created_at,
        (#[trigger] t[b]).init.created_at,
    ) by {
        let c = if a < at {
            a
        } else {
            a - 1
        };
        let d = if b < at {
            b
        } else {
            b - 1
        };
        if a == at {
            assert(t[b] == s[d]);
        } else if b == at {
            assert(t[a] == s[c]);
            if a < at - 1 {
                assert(!earlier(s[a].init.created_at, s[at - 1].init.created_at));
            }
        } else {
            assert(t[a] == s[c] && t[b] == s[d]);
        }
    }
}

/// The time from which the age of a session counts: its last event, or its creation.
pub open spec fn age_anchor(meta: SessionMeta) -> Timestamp {
    match meta.last_event_at {
        Some(t) => t,
        None => meta.init.created_at,
    }
}

/// Whether a session is to be archived: it is closed, and at least the given number of days
/// have passed since its last event.
pub open spec fn is_due(meta: SessionMeta, now: Timestamp, days: u32) -> bool {
    meta.status is Closed && elapsed_nanos(now, age_anchor(meta)) >= days * 86_400 * 1_000_000_000
}

/// The path of the live transcript of a session.
pub open spec fn live_path(root: Seq<char>, id: Seq<char>) -> Seq<char> {
    joined_path(root, id + ".jsonl"@)
}

/// The path of an archived transcript: by year and month of the last event.
pub open spec fn archive_path(root: Seq<char>, id: Seq<char>, month: Seq<char>) -> Seq<char> {
    joined_path(joined_path(joined_path(root, "archive"@), month), id + ".jsonl"@)
}

/// A transcript to be moved into the archive.
#[derive(Debug)]
pub struct ArchiveMove {
    pub id: SessionId,
    pub from: String,
    pub to: String,
}

/// What an [`ArchiveMove`] holds.
pub struct ArchiveMoveView {
    pub id: Seq<char>,
    pub from: Seq<char>,
    pub to: Seq<char>,
}

impl View for ArchiveMove {
    type V = ArchiveMoveView;

    open spec fn view(&self) -> ArchiveMoveView {
        ArchiveMoveView { id: self.id@, from: self.from@, to: self.to@ }
    }
}

/// The move of a session into the archive of a month.
pub open spec fn archive_move(root: Seq<char>, id: Seq<char>, month: Seq<char>) -> ArchiveMoveView {
    ArchiveMoveView { id, from: live_path(root, id), to: archive_path(root, id, month) }
}

/// The move of a session into the archive of the month of its last event.
pub open spec fn move_of(root: Seq<char>, meta: SessionMeta) -> ArchiveMoveView {
    let t = age_anchor(meta)@;
    archive_move(root, meta.init.id@, formatted(t.secs, t.nanos, "%Y-%m"@))
}

/// The moves of the sessions that are due.
pub open spec fn moves_due(metas: Seq<SessionMeta>, root: Seq<char>, now: Timestamp, days: u32) -> Seq<
    ArchiveMoveView,
> {
    metas.filter(|m: SessionMeta| is_due(m, now, days)).map_values(
        |m: SessionMeta| move_of(root, m),
    )
}

/// The name of the file of a session.
fn file_name(id: &SessionId) -> (name: String)
    ensures
        name@ == id@ + ".jsonl"@,
{
    let mut name = id.as_str().to_owned();
    name.append(".jsonl");
    name
}

/// The move of a session into the archive of a month.
pub fn plan_move(root: &str, id: &SessionId, month: &str) -> (m: ArchiveMove)
    ensures
        m@ == archive_move(root@, id@, month@),
{
    let name = file_name(id);
    let from = join_path(root, name.as_str());
    let archive = join_path(root, "archive");
    let dir = join_path(archive.as_str(), month);
    let to = join_path(dir.as_str(), name.as_str());
    ArchiveMove { id: id.clone(), from, to }
}

/// The moves that bring the sessions that are due into the archive, in the given order.
pub fn plan_rotation(metas: &Vec<SessionMeta>, root: &str, now: Timestamp, days: u32) -> (moves: Vec<
    ArchiveMove,
>)
    ensures
        views(moves@) == moves_due(metas@, root@, now, days),
{
    let ghost pred = |m: SessionMeta| is_due(m, now, days);
    let ghost f = |m: SessionMeta| move_of(root@, m);
    let mut moves: Vec<ArchiveMove> = Vec::new();
    let mut i: usize = 0;
    proof {
        reveal(Seq::filter);
        assert(views(moves@) =~= metas@.take(0).filter(pred).map_values(f));
    }
    while i < metas.len()
        invariant
            i <= metas@.len(),
            pred == (|m: SessionMeta| is_due(m, now, days)),
            f == (|m: SessionMeta| move_of(root@, m)),
            views(moves@) == metas@.take(i as int).filter(pred).map_values(f),
        decreases metas@.len() - i,
    {
        let ghost before = views(moves@);
        let meta = &metas[i];
        if meta_is_due(meta, now, days) {
            let anchor = match meta.last_event_at {
                Some(t) => t,
                None => meta.init.created_at,
            };
            let month = anchor.year_month();
            moves.push(plan_move(root, &meta.init.id, month.as_str()));
            assert(views(moves@) =~= before.push(move_of(root@, *meta)));
        }
        i += 1;
        proof {
            lemma_filter_map_step(metas@, pred, f, i as int);
        }
    }
    assert(metas@.take(i as int) =~= metas@);
    moves
}

/// A session with its transcript.
#[derive(Debug)]
struct Stored {
    id: SessionId,
    transcript: Transcript,
}

/// Append-only store for conversation sessions.
///
/// Layout of its files: `<root>/<session-id>.jsonl`. First line is the `SessionInit` header;
/// subsequent lines are `SessionEvent`. Archived sessions move under
/// `<root>/archive/<yyyy-mm>/<session-id>.jsonl`.
#[derive(Debug)]
pub struct SessionStore {
    root: String,
    retention: SessionRetentionConfig,
    sessions: Vec<Stored>,
}

/// What a [`SessionStore`] holds: its root and policy, and the live sessions with their
/// transcripts.
#[verifier::ext_equal]
pub struct SessionStoreView {
    pub root: Seq<char>,
    pub retention: SessionRetentionConfig,
    pub sessions: Seq<(Seq<char>, TranscriptView)>,
}

impl View for SessionStore {
    type V = SessionStoreView;

    closed spec fn view(&self) -> SessionStoreView {
        SessionStoreView {
            root: self.root@,
            retention: self.retention,
            sessions: Seq::new(
                self.sessions@.len(),
                |i: int| (self.sessions@[i].id@, self.sessions@[i].transcript@),
            ),
        }
    }
}

impl SessionStoreView {
    /// Whether every session is there once.
    pub open spec fn wf(self) -> bool {
        forall|i: int, j: int|
            0 <= i < j < self.sessions.len() ==> (#[trigger] self.sessions[i]).0 != (
            #[trigger] self.sessions[j]).0
    }

    /// Whether the header of every session, where there is one, is its own.
    pub open spec fn headers_own(self) -> bool {
        forall|i: int| 0 <= i < self.sessions.len() ==> #[trigger] self.header_is_own(i)
    }

    /// Whether the header of a session, where there is one, is its own.
    pub open spec fn header_is_own(self, i: int) -> bool {
        self.sessions[i].1.header matches HeaderLine::Init(init) ==> init.id@ == self.sessions[i].0
    }

    /// Whether there is a session with the given identifier at place `i`.
    pub open spec fn is_at(self, i: int, id: Seq<char>) -> bool {
        0 <= i < self.sessions.len() && self.sessions[i].0 == id
    }

    /// Whether the session is there.
    pub open spec fn contains(self, id: Seq<char>) -> bool {
        exists|i: int| self.is_at(i, id)
    }

    /// The place of a session.
    pub open spec fn place(self, id: Seq<char>) -> int {
        choose|i: int| self.is_at(i, id)
    }

    /// The transcript of a session.
    pub open spec fn transcript(self, id: Seq<char>) -> TranscriptView {
        self.sessions[self.place(id)].1
    }

    /// The error that stops an event from being appended, if there is one.
    pub open spec fn append_fault(self, id: Seq<char>, line: Seq<char>) -> Option<
        SessionStoreErrorView,
    > {
        if self.contains(id) {
            append_fault(
                self.transcript(id),
                id,
                live_path(self.root, id),
                line,
                self.retention.max_file_bytes,
            )
        } else {
            Some(SessionStoreErrorView::NotFound { id })
        }
    }

    /// The store with one more event in the transcript of a session.
    pub open spec fn with_event(self, id: Seq<char>, event: SessionEvent, line: Seq<char>) -> SessionStoreView {
        SessionStoreView {
            sessions: self.sessions.update(
                self.place(id),
                (id, self.transcript(id).with_event(event, line_bytes(line))),
            ),
            ..self
        }
    }

    /// The store with one more session.
    pub open spec fn with_session(self, id: Seq<char>, t: TranscriptView) -> SessionStoreView {
        SessionStoreView { sessions: self.sessions.push((id, t)), ..self }
    }

    /// The metadata of the sessions that have a header.
    pub open spec fn metas(self) -> Seq<SessionMeta> {
        self.sessions.filter_map(|s: (Seq<char>, TranscriptView)| s.1.meta())
    }

    /// Whether `metas` lists the sessions, those that were created last first.
    pub open spec fn is_listing(self, metas: Seq<SessionMeta>) -> bool {
        newest_first(metas) && metas.to_multiset() == self.metas().to_multiset()
    }

    /// The store without the sessions that are due.
    pub open spec fn rotated(self, now: Timestamp) -> SessionStoreView {
        let days = self.retention.rotate_after_days;
        SessionStoreView {
            sessions: self.sessions.filter(
                |s: (Seq<char>, TranscriptView)| !transcript_due(s.1, now, days),
            ),
            ..self
        }
    }
}

/// Whether the session that a transcript tells of is to be archived.
pub open spec fn transcript_due(t: TranscriptView, now: Timestamp, days: u32) -> bool {
    t.meta() matches Some(m) && is_due(m, now, days)
}

/// The transcript of a session that was just created, whose header is written as the given
/// line.
pub open spec fn fresh_transcript(init: SessionInit, line: Seq<char>) -> TranscriptView {
    TranscriptView {
        header: HeaderLine::Init(init),
        lines: Seq::empty(),
        byte_size: grown(0, line_bytes(line)),
    }
}

impl SessionStore {
    /// A session store rooted at `path`, without sessions.
    pub fn new(path: &str) -> (store: SessionStore)
        ensures
            store@.wf(),
            store@.root == path@,
            store@.retention.rotate_after_days == DEFAULT_ROTATE_AFTER_DAYS,
            store@.retention.max_file_bytes == DEFAULT_MAX_FILE_BYTES,
            store@.sessions == Seq::<(Seq<char>, TranscriptView)>::empty(),
            store@.headers_own(),
    {
        let store = SessionStore {
            root: path.to_owned(),
            retention: SessionRetentionConfig::default(),
            sessions: Vec::new(),
        };
        assert(store@.sessions =~= Seq::<(Seq<char>, TranscriptView)>::empty());
        store
    }

    /// Overrides retention/size policy.
    #[must_use]
    pub fn with_retention(self, retention: SessionRetentionConfig) -> (store: SessionStore)
        ensures
            store@ == (SessionStoreView { retention, ..self@ }),
    {
        let mut store = self;
        store.retention = retention;
        assert(store@ =~= (SessionStoreView { retention, ..self@ }));
        store
    }

    /// The root of the store.
    pub fn root(&self) -> (root: &str)
        ensures
            root@ == self@.root,
    {
        self.root.as_str()
    }

    /// The retention/size policy.
    pub fn retention(&self) -> (r: SessionRetentionConfig)
        ensures
            r == self@.retention,
    {
        self.retention
    }

    /// The place of a session.
    fn find(&self, id: &SessionId) -> (r: Option<usize>)
        requires
            self@.wf(),
        ensures
            match r {
                Some(i) => self@.contains(id@) && i < self.sessions@.len() && i == self@.place(id@),
                None => !self@.contains(id@),
            },
    {
        let mut i: usize = 0;
        while i < self.sessions.len()
            invariant
                self@.wf(),
                i <= self.sessions@.len(),
                forall|j: int| 0 <= j < i ==> !#[trigger] self@.is_at(j, id@),
            decreases self.sessions@.len() - i,
        {
            if self.sessions[i].id == *id {
                proof {
                    assert(self@.is_at(i as int, id@));
                    let p = self@.place(id@);
                    assert(self@.is_at(p, id@));
                    if p < i {
                        assert(self@.sessions[p].0 != self@.sessions[i as int].0);
                    } else if i < p {
                        assert(self@.sessions[i as int].0 != self@.sessions[p].0);
                    }
                }
                return Some(i);
            }
            i += 1;
        }
        None
    }

    /// Whether the session is among the live ones.
    pub fn contains(&self, id: &SessionId) -> (r: bool)
        requires
            self@.wf(),
        ensures
            r == self@.contains(id@),
    {
        self.find(id).is_some()
    }

    /// Creates a new session; `line` is its header as written to the file.
    ///
    /// # Errors
    ///
    /// Returns `AlreadyExists` if the session id already has a transcript.
    pub fn create(&mut self, init: &SessionInit, line: &str) -> (r: Result<(), SessionStoreError>)
        requires
            old(self)@.wf(),
        ensures
            final(self)@.wf(),
            match r {
                Ok(()) => !old(self)@.contains(init.id@) && final(self)@ == old(self)@.with_session(
                    init.id@,
                    fresh_transcript(*init, line@),
                ),
                Err(e) => old(self)@.contains(init.id@) && final(self)@ == old(self)@ && e@
                    == (SessionStoreErrorView::AlreadyExists {
                    id: init.id@,
                    path: live_path(old(self)@.root, init.id@),
                }),
            },
    {
        if self.find(&init.id).is_some() {
            let path = self.session_path(&init.id);
            return Err(
                SessionStoreError::AlreadyExists { id: init.id.as_str().to_owned(), path },
            );
        }
        let transcript = Transcript {
            header: HeaderLine::Init(init.clone()),
            lines: Vec::new(),
            byte_size: grown_by_line(0, line),
        };
        proof {
            assert(transcript@ =~= fresh_transcript(*init, line@));
        }
        self.add(init.id.clone(), transcript);
        Ok(())
    }

    /// Adds a session with its transcript.
    fn add(&mut self, id: SessionId, transcript: Transcript)
        requires
            old(self)@.wf(),
            !old(self)@.contains(id@),
        ensures
            final(self)@.wf(),
            final(self)@ == old(self)@.with_session(id@, transcript@),
    {
        self.sessions.push(Stored { id, transcript });
        proof {
            assert(self@ =~= old(self)@.with_session(id@, transcript@));
            lemma_with_session(old(self)@, id@, transcript@);
        }
    }

    /// Takes in a session whose transcript was read from elsewhere. Returns false, and takes
    /// nothing in, if the session is there already.
    pub fn adopt(&mut self, id: &SessionId, transcript: Transcript) -> (r: bool)
        requires
            old(self)@.wf(),
        ensures
            final(self)@.wf(),
            r == !old(self)@.contains(id@),
            r ==> final(self)@ == old(self)@.with_session(id@, transcript@),
            !r ==> final(self)@ == old(self)@,
    {
        if self.find(id).is_some() {
            return false;
        }
        self.add(id.clone(), transcript);
        true
    }

    /// Whether the header of every session, where there is one, is its own.
    pub fn headers_are_own(&self) -> (r: bool)
        ensures
            r == self@.headers_own(),
    {
        let mut i: usize = 0;
        while i < self.sessions.len()
            invariant
                i <= self.sessions@.len(),
                forall|j: int| 0 <= j < i ==> #[trigger] self@.header_is_own(j),
            decreases self.sessions@.len() - i,
        {
            let stored = &self.sessions[i];
            assert(self@.sessions[i as int] == (stored.id@, stored.transcript@));
            if let HeaderLine::Init(init) = &stored.transcript.header {
                if init.id != stored.id {
                    assert(!self@.header_is_own(i as int));
                    return false;
                }
            }
            i += 1;
        }
        true
    }

    /// Appends an event; `line` is the event as written to the file. Refuses if the session is
    /// closed, or if the file would exceed the configured size cap after the write.
    ///
    /// # Errors
    ///
    /// `NotFound` if the session id has no transcript; the errors of [`SessionStore::load`];
    /// `Closed` if the session is in `Closed` status; `SizeCapExceeded` if the projected file
    /// size would exceed `max_file_bytes`. The store is then left as it was.
    pub fn append_event(&mut self, id: &SessionId, event: &SessionEvent, line: &str) -> (r: Result<
        (),
        SessionStoreError,
    >)
        requires
            old(self)@.wf(),
        ensures
            final(self)@.wf(),
            match r {
                Ok(()) => old(self)@.append_fault(id@, line@) is None && final(self)@
                    == old(self)@.with_event(id@, *event, line@),
                Err(e) => old(self)@.append_fault(id@, line@) == Some(e@) && final(self)@
                    == old(self)@,
            },
    {
        let i: usize = match self.find(id) {
            Some(i) => i,
            None => {
                return Err(SessionStoreError::NotFound { id: id.as_str().to_owned() });
            },
        };
        let path = self.session_path(id);
        let cap: u64 = self.retention.max_file_bytes;
        assert(self@.sessions[i as int] == (self.sessions@[i as int].id@, self.sessions@[i as int].transcript@));
        assert(self@.is_at(self@.place(id@), id@));
        if let Err(e) = check_append(id, path.as_str(), &self.sessions[i].transcript, line, cap) {
            return Err(e);
        }
        let mut stored = self.sessions.remove(i);
        let ghost was = stored.transcript@;
        stored.transcript.byte_size = grown_by_line(stored.transcript.byte_size, line);
        stored.transcript.lines.push(EventLine::Event(event.clone()));
        assert(stored.transcript@ =~= was.with_event(*event, line_bytes(line@)));
        self.sessions.insert(i, stored);
        proof {
            let a = old(self)@;
            let b = self@;
            assert(b =~= a.with_event(id@, *event, line@));
            assert forall|x: int, y: int| 0 <= x < y < b.sessions.len() implies (
            #[trigger] b.sessions[x]).0 != (#[trigger] b.sessions[y]).0 by {
                assert(a.sessions[x].0 != a.sessions[y].0);
            }
        }
        Ok(())
    }

    /// Loads the session header and all events in order. Reconstructs the current `Session`
    /// snapshot by folding events.
    ///
    /// # Errors
    ///
    /// `NotFound` if no transcript exists for `id`; `EmptyTranscript` if the file is empty;
    /// `Serde` on a malformed line; `Io` on read failure.
    pub fn load(&self, id: &SessionId) -> (r: Result<
        (Session, Vec<SessionEvent>),
        SessionStoreError,
    >)
        requires
            self@.wf(),
        ensures
            match r {
                Ok((session, events)) => {
                    let t = self@.transcript(id@);
                    &&& self@.contains(id@)
                    &&& t.fault(id@, live_path(self@.root, id@)) is None
                    &&& t.header is Init
                    &&& session == t.session()
                    &&& events@ == events_of(t.lines)
                },
                Err(e) => if self@.contains(id@) {
                    self@.transcript(id@).fault(id@, live_path(self@.root, id@)) == Some(e@)
                } else {
                    e@ == (SessionStoreErrorView::NotFound { id: id@ })
                },
            },
    {
        match self.find(id) {
            Some(i) => {
                let path = self.session_path(id);
                assert(self@.sessions[i as int].1 == self.sessions@[i as int].transcript@);
                replay(id, path.as_str(), &self.sessions[i].transcript)
            },
            None => Err(SessionStoreError::NotFound { id: id.as_str().to_owned() }),
        }
    }

    /// Lists all sessions (live, not archived) with light metadata, those created last first.
    /// Leaves out sessions without a readable header.
    pub fn list(&self) -> (r: Vec<SessionMeta>)
        ensures
            self@.is_listing(r@),
    {
        let ghost f = |s: (Seq<char>, TranscriptView)| s.1.meta();
        let mut metas: Vec<SessionMeta> = Vec::new();
        let mut i: usize = 0;
        assert(metas@ =~= self@.sessions.take(0).filter_map(f));
        while i < self.sessions.len()
            invariant
                i <= self.sessions@.len(),
                f == (|s: (Seq<char>, TranscriptView)| s.1.meta()),
                metas@ == self@.sessions.take(i as int).filter_map(f),
            decreases self.sessions@.len() - i,
        {
            let ghost before = metas@;
            let ghost part = self@.sessions.take(i + 1);
            proof {
                assert(part.drop_last() =~= self@.sessions.take(i as int));
                assert(part.last() == self@.sessions[i as int]);
            }
            if let Some(meta) = read_meta(&self.sessions[i].transcript) {
                metas.push(meta);
                assert(metas@ =~= before + seq![meta]);
            }
            i += 1;
        }
        assert(self@.sessions.take(i as int) =~= self@.sessions);
        sort_newest_first(&metas)
    }

    /// Appends a `StatusChanged` event marking the session as `Closed`; `line` is that event as
    /// written to the file.
    ///
    /// # Errors
    ///
    /// Same errors as `append_event`.
    pub fn close(&mut self, id: &SessionId, reason: CloseReason, at: Timestamp, line: &str) -> (r:
        Result<(), SessionStoreError>)
        requires
            old(self)@.wf(),
        ensures
            final(self)@.wf(),
            match r {
                Ok(()) => old(self)@.append_fault(id@, line@) is None && final(self)@
                    == old(self)@.with_event(id@, closing_event(reason, at), line@),
                Err(e) => old(self)@.append_fault(id@, line@) == Some(e@) && final(self)@
                    == old(self)@,
            },
    {
        let event = close_event(reason, at);
        self.append_event(id, &event, line)
    }

    /// Path of the live transcript for `id`.
    pub fn session_path(&self, id: &SessionId) -> (path: String)
        ensures
            path@ == live_path(self@.root, id@),
    {
        let name = file_name(id);
        join_path(self.root.as_str(), name.as_str())
    }

    /// The moves that [`SessionStore::rotate`] makes at `now`.
    pub fn rotation_plan(&self, now: Timestamp) -> (moves: Vec<ArchiveMove>)
        ensures
            exists|metas: Seq<SessionMeta>| #[trigger]
                self@.is_listing(metas) && views(moves@) == moves_due(
                    metas,
                    self@.root,
                    now,
                    self@.retention.rotate_after_days,
                ),
    {
        let metas = self.list();
        plan_rotation(&metas, self.root.as_str(), now, self.retention.rotate_after_days)
    }

    /// Moves closed sessions older than the configured threshold out of the store, under
    /// `<root>/archive/<yyyy-mm>/`. Returns the moved session ids.
    pub fn rotate(&mut self, now: Timestamp) -> (r: Vec<SessionId>)
        requires
            old(self)@.wf(),
            old(self)@.headers_own(),
        ensures
            final(self)@.wf(),
            final(self)@ == old(self)@.rotated(now),
            exists|metas: Seq<SessionMeta>| #[trigger]
                old(self)@.is_listing(metas) && views(r@) == moves_due(
                    metas,
                    old(self)@.root,
                    now,
                    old(self)@.retention.rotate_after_days,
                ).map_values(|m: ArchiveMoveView| m.id),
    {
        let moves = self.rotation_plan(now);
        let mut ids: Vec<SessionId> = Vec::new();
        let mut k: usize = 0;
        while k < moves.len()
            invariant
                k <= moves@.len(),
                ids@.len() == k,
                forall|j: int| 0 <= j < k ==> #[trigger] views(ids@)[j] == views(moves@)[j].id,
            decreases moves@.len() - k,
        {
            let ghost before = views(ids@);
            ids.push(moves[k].id.clone());
            assert(views(ids@) =~= before.push(views(moves@)[k as int].id));
            k += 1;
        }
        assert(views(ids@) =~= views(moves@).map_values(|m: ArchiveMoveView| m.id));
        self.drop_due(now);
        ids
    }

    /// Leaves out the sessions that are due.
    fn drop_due(&mut self, now: Timestamp)
        requires
            old(self)@.wf(),
        ensures
            final(self)@.wf(),
            final(self)@ == old(self)@.rotated(now),
    {
        let days: u32 = self.retention.rotate_after_days;
        let ghost all = self@.sessions;
        let ghost pred = |s: (Seq<char>, TranscriptView)| !transcript_due(s.1, now, days);
        let mut n: usize = 0;
        let ghost mut seen: int = 0;
        proof {
            reveal(Seq::filter);
            assert(all.take(0).filter(pred) =~= Seq::empty());
            assert(self@.sessions =~= all.take(0).filter(pred) + all.skip(0));
        }
        while n < self.sessions.len()
            invariant
                self.root@ == old(self)@.root,
                self.retention == old(self)@.retention,
                days == self.retention.rotate_after_days,
                pred == (|s: (Seq<char>, TranscriptView)| !transcript_due(s.1, now, days)),
                0 <= seen <= all.len(),
                n == all.take(seen).filter(pred).len(),
                self@.sessions == all.take(seen).filter(pred) + all.skip(seen),
                n <= self.sessions@.len(),
            decreases all.len() - seen,
        {
            let ghost kept = all.take(seen).filter(pred);
            let ghost before = self@.sessions;
            proof {
                reveal(Seq::filter);
                assert(all.take(seen + 1).drop_last() =~= all.take(seen));
                assert(all.take(seen + 1).last() == all[seen]);
                assert(before[n as int] == all.skip(seen)[0]);
                assert(before[n as int] == all[seen]);
                assert(before[n as int].1 == self.sessions@[n as int].transcript@);
            }
            let due: bool = match read_meta(&self.sessions[n].transcript) {
                Some(meta) => meta_is_due(&meta, now, days),
                None => false,
            };
            if due {
                let gone = self.sessions.remove(n);
                assert(self@.sessions =~= before.remove(n as int));
                assert(self@.sessions =~= kept + all.skip(seen + 1));
            } else {
                n += 1;
                assert(before =~= kept.push(all[seen]) + all.skip(seen + 1));
            }
            proof {
                seen = seen + 1;
            }
        }
        proof {
            assert(all.skip(seen).len() == 0);
            assert(seen == all.len());
            assert(all.take(seen) =~= all);
            assert(self@ =~= old(self)@.rotated(now));
            lemma_filter(all, pred);
            let b = self@;
            assert forall|i: int, j: int| 0 <= i < j < b.sessions.len() implies (
            #[trigger] b.sessions[i]).0 != (#[trigger] b.sessions[j]).0 by {
                assert(in_order(all, b.sessions[i], b.sessions[j]));
                let (x, y) = choose|x: int, y: int|
                    0 <= x < y < all.len() && #[trigger] all[x] == b.sessions[i]
                        && #[trigger] all[y] == b.sessions[j];
                assert(old(self)@.sessions[x].0 != old(self)@.sessions[y].0);
            }
        }
    }
}

/// Whether the session is to be archived.
fn meta_is_due(meta: &SessionMeta, now: Timestamp, days: u32) -> (r: bool)
    ensures
        r == is_due(*meta, now, days),
{
    let anchor = match meta.last_event_at {
        Some(t) => t,
        None => meta.init.created_at,
    };
    matches!(meta.status, SessionStatus::Closed) && now.days_passed_since(&anchor, days)
}

/// The event that closes a session.
pub open spec fn closing_event(reason: CloseReason, at: Timestamp) -> SessionEvent {
    SessionEvent::StatusChanged { to: SessionStatus::Closed, reason: Some(reason), at }
}

/// The event that closes a session.
pub fn close_event(reason: CloseReason, at: Timestamp) -> (e: SessionEvent)
    ensures
        e == closing_event(reason, at),
{
    SessionEvent::StatusChanged { to: SessionStatus::Closed, reason: Some(reason), at }
}

/// A session has one place.
proof fn lemma_place(store: SessionStoreView, id: Seq<char>, i: int)
    requires
        store.wf(),
        store.is_at(i, id),
    ensures
        store.contains(id),
        store.place(id) == i,
{
    let p = store.place(id);
    assert(store.is_at(p, id));
    if p < i {
        assert(store.sessions[p].0 != store.sessions[i].0);
    } else if i < p {
        assert(store.sessions[i].0 != store.sessions[p].0);
    }
}

/// One more session keeps the store in order.
proof fn lemma_with_session(a: SessionStoreView, id: Seq<char>, t: TranscriptView)
    requires
        a.wf(),
        !a.contains(id),
    ensures
        a.with_session(id, t).wf(),
{
    let b = a.with_session(id, t);
    assert forall|i: int, j: int| 0 <= i < j < b.sessions.len() implies (#[trigger] b.sessions[i]).0
        != (#[trigger] b.sessions[j]).0 by {
        assert(b.sessions[i] == a.sessions[i]);
        if j < a.sessions.len() {
            assert(b.sessions[j] == a.sessions[j]);
        } else {
            assert(!a.is_at(i, id));
        }
    }
}

/// Nothing that a store does makes a header a foreign one: not creating a session, not
/// appending an event, and not rotation.
pub proof fn law_headers_stay_own(
    store: SessionStoreView,
    init: SessionInit,
    id: Seq<char>,
    event: SessionEvent,
    line: Seq<char>,
    now: Timestamp,
)
    requires
        store.headers_own(),
    ensures
        store.with_session(init.id@, fresh_transcript(init, line)).headers_own(),
        store.contains(id) ==> store.with_event(id, event, line).headers_own(),
        store.rotated(now).headers_own(),
{
    let created = store.with_session(init.id@, fresh_transcript(init, line));
    assert forall|i: int| 0 <= i < created.sessions.len() implies #[trigger] created.header_is_own(
        i,
    ) by {
        if i < store.sessions.len() {
            assert(store.header_is_own(i));
        }
    }
    if store.contains(id) {
        let p = store.place(id);
        assert(store.is_at(p, id));
        let appended = store.with_event(id, event, line);
        assert forall|i: int| 0 <= i < appended.sessions.len() implies
            #[trigger] appended.header_is_own(i) by {
            assert(store.header_is_own(i));
        }
    }
    let days = store.retention.rotate_after_days;
    let pred = |s: (Seq<char>, TranscriptView)| !transcript_due(s.1, now, days);
    lemma_filter(store.sessions, pred);
    let rotated = store.rotated(now);
    assert forall|i: int| 0 <= i < rotated.sessions.len() implies #[trigger] rotated.header_is_own(
        i,
    ) by {
        assert(rotated.sessions.contains(rotated.sessions[i]));
        let x = choose|x: int|
            0 <= x < store.sessions.len() && store.sessions[x] == rotated.sessions[i];
        assert(store.header_is_own(x));
    }
}

/// A session that was just created loads without events, and all other sessions are as
/// before.
pub proof fn law_create_then_load(
    store: SessionStoreView,
    init: SessionInit,
    line: Seq<char>,
    path: Seq<char>,
    other: Seq<char>,
)
    requires
        store.wf(),
        !store.contains(init.id@),
    ensures
        ({
            let after = store.with_session(init.id@, fresh_transcript(init, line));
            let t = after.transcript(init.id@);
            &&& after.contains(init.id@)
            &&& t.fault(init.id@, path) is None
            &&& t.session() == crate::session::fresh_session(init)
            &&& events_of(t.lines) == Seq::<SessionEvent>::empty()
            &&& other != init.id@ ==> after.contains(other) == store.contains(other)
            &&& other != init.id@ && store.contains(other) ==> after.transcript(other)
                == store.transcript(other)
        }),
{
    let after = store.with_session(init.id@, fresh_transcript(init, line));
    let n = store.sessions.len() as int;
    lemma_with_session(store, init.id@, fresh_transcript(init, line));
    assert(after.is_at(n, init.id@));
    lemma_place(after, init.id@, n);
    assert(events_of(after.transcript(init.id@).lines) =~= Seq::<SessionEvent>::empty());
    if other != init.id@ {
        if store.contains(other) {
            let i = choose|i: int| store.is_at(i, other);
            assert(after.is_at(i, other));
            lemma_place(store, other, i);
            lemma_place(after, other, i);
        }
        if after.contains(other) {
            let i = choose|i: int| after.is_at(i, other);
            assert(store.is_at(i, other));
        }
    }
}

/// An event that was appended is the last one that loading gives back, after all events that
/// were there before; the session is folded with it; the file stays within the cap; and all
/// other sessions are as before.
pub proof fn law_append_then_load(
    store: SessionStoreView,
    id: Seq<char>,
    event: SessionEvent,
    line: Seq<char>,
    path: Seq<char>,
    other: Seq<char>,
)
    requires
        store.wf(),
        store.append_fault(id, line) is None,
    ensures
        ({
            let after = store.with_event(id, event, line);
            let before = store.transcript(id);
            let t = after.transcript(id);
            &&& after.contains(id)
            &&& t.fault(id, path) is None
            &&& events_of(t.lines) == events_of(before.lines).push(event)
            &&& t.session() == crate::session::after_event(before.session(), event)
            &&& t.byte_size <= store.retention.max_file_bytes
            &&& other != id ==> after.contains(other) == store.contains(other)
            &&& other != id && store.contains(other) ==> after.transcript(other)
                == store.transcript(other)
        }),
{
    let after = store.with_event(id, event, line);
    let i = store.place(id);
    assert(store.is_at(i, id));
    assert(after.is_at(i, id));
    assert(after.wf()) by {
        assert forall|x: int, y: int| 0 <= x < y < after.sessions.len() implies (
        #[trigger] after.sessions[x]).0 != (#[trigger] after.sessions[y]).0 by {
            assert(store.sessions[x].0 != store.sessions[y].0);
        }
    }
    lemma_place(after, id, i);
    let before = store.transcript(id);
    let t = after.transcript(id);
    lemma_no_fault(before.lines, before.lines.len());
    lemma_no_fault(t.lines, t.lines.len());
    assert(first_fault(before.lines, before.lines.len()) is None);
    assert forall|j: int| 0 <= j < t.lines.len() implies (#[trigger] t.lines[j]) is Event by {
        if j < before.lines.len() {
            assert(t.lines[j] == before.lines[j]);
        }
    }
    assert(events_of(t.lines) =~= events_of(before.lines).push(event));
    assert(events_of(t.lines).drop_last() =~= events_of(before.lines));
    if other != id {
        if store.contains(other) {
            let k = choose|k: int| store.is_at(k, other);
            assert(after.is_at(k, other));
            lemma_place(store, other, k);
            lemma_place(after, other, k);
        }
        if after.contains(other) {
            let k = choose|k: int| after.is_at(k, other);
            assert(store.is_at(k, other));
        }
    }
}

/// Once a session is closed no event is accepted any more.
pub proof fn law_closed_refuses_events(
    store: SessionStoreView,
    id: Seq<char>,
    reason: CloseReason,
    at: Timestamp,
    line: Seq<char>,
    next: Seq<char>,
)
    requires
        store.wf(),
        store.append_fault(id, line) is None,
    ensures
        store.with_event(id, closing_event(reason, at), line).append_fault(id, next) == Some(
            SessionStoreErrorView::Closed { id },
        ),
        store.with_event(id, closing_event(reason, at), line).transcript(id).session().close_reason
            == Some(reason),
        store.with_event(id, closing_event(reason, at), line).transcript(id).session().closed_at
            == Some(at),
{
    law_append_then_load(
        store,
        id,
        closing_event(reason, at),
        line,
        live_path(store.root, id),
        id,
    );
}

/// Rotation moves out exactly the sessions that are due, and keeps all others as they were.
pub proof fn law_rotation(store: SessionStoreView, now: Timestamp, id: Seq<char>)
    requires
        store.wf(),
    ensures
        store.rotated(now).contains(id) <==> store.contains(id) && !transcript_due(
            store.transcript(id),
            now,
            store.retention.rotate_after_days,
        ),
        store.rotated(now).contains(id) ==> exists|i: int|
            0 <= i < store.rotated(now).sessions.len() && #[trigger] store.rotated(now).sessions[i]
                == (id, store.transcript(id)),
{
    let days = store.retention.rotate_after_days;
    let pred = |s: (Seq<char>, TranscriptView)| !transcript_due(s.1, now, days);
    let all = store.sessions;
    let after = store.rotated(now);
    lemma_filter(all, pred);
    if after.contains(id) {
        let i = choose|i: int| after.is_at(i, id);
        assert(after.sessions.contains(after.sessions[i]));
        let x = choose|x: int| 0 <= x < all.len() && all[x] == after.sessions[i];
        assert(store.is_at(x, id));
        lemma_place(store, id, x);
        assert(pred(after.sessions[i]));
        assert(after.sessions[i] == (id, store.transcript(id)));
    }
    if store.contains(id) && !transcript_due(store.transcript(id), now, days) {
        let p = store.place(id);
        assert(store.is_at(p, id));
        assert(all.contains(all[p]));
        assert(pred(all[p]));
        let i = choose|i: int| 0 <= i < after.sessions.len() && after.sessions[i] == all[p];
        assert(after.is_at(i, id));
    }
}

/// The metadata of the sessions are those of the sessions, one by one.
proof fn lemma_metas(sessions: Seq<(Seq<char>, TranscriptView)>, m: SessionMeta)
    ensures
        sessions.filter_map(|s: (Seq<char>, TranscriptView)| s.1.meta()).contains(m) <==> exists|
            i: int,
        |
            0 <= i < sessions.len() && (#[trigger] sessions[i]).1.meta() == Some(m),
    decreases sessions.len(),
{
    let f = |s: (Seq<char>, TranscriptView)| s.1.meta();
    let all = sessions.filter_map(f);
    if sessions.len() > 0 {
        let front = sessions.drop_last();
        lemma_metas(front, m);
        let before = front.filter_map(f);
        let last = sessions[sessions.len() - 1];
        if all.contains(m) {
            let k = choose|k: int| 0 <= k < all.len() && all[k] == m;
            if k < before.len() {
                assert(before[k] == m);
                let i = choose|i: int|
                    0 <= i < front.len() && (#[trigger] front[i]).1.meta() == Some(m);
                assert(sessions[i].1.meta() == Some(m));
            } else {
                assert(last.1.meta() == Some(m));
            }
        }
        if exists|i: int| 0 <= i < sessions.len() && (#[trigger] sessions[i]).1.meta() == Some(m) {
            let i = choose|i: int|
                0 <= i < sessions.len() && (#[trigger] sessions[i]).1.meta() == Some(m);
            if i < front.len() {
                assert(front[i].1.meta() == Some(m));
                let k = choose|k: int| 0 <= k < before.len() && before[k] == m;
                assert(all[k] == m);
            } else {
                assert(all[before.len() as int] == m);
            }
        }
    }
}

/// Rotation moves exactly the sessions that it drops from the store.
pub proof fn law_moved_are_dropped(
    store: SessionStoreView,
    metas: Seq<SessionMeta>,
    now: Timestamp,
    id: Seq<char>,
)
    requires
        store.wf(),
        store.headers_own(),
        store.is_listing(metas),
    ensures
        moves_due(metas, store.root, now, store.retention.rotate_after_days).map_values(
            |m: ArchiveMoveView| m.id,
        ).contains(id) <==> store.contains(id) && !store.rotated(now).contains(id),
{
    broadcast use vstd::seq_lib::group_to_multiset_ensures;

    let days = store.retention.rotate_after_days;
    let due = |m: SessionMeta| is_due(m, now, days);
    let picked = metas.filter(due);
    let moves = moves_due(metas, store.root, now, days);
    let ids = moves.map_values(|m: ArchiveMoveView| m.id);
    lemma_filter(metas, due);
    law_rotation(store, now, id);
    if ids.contains(id) {
        let k = choose|k: int| 0 <= k < ids.len() && ids[k] == id;
        let m = picked[k];
        assert(moves[k] == move_of(store.root, m));
        assert(picked.contains(m));
        assert(metas.to_multiset().count(m) > 0);
        assert(store.metas().to_multiset().count(m) > 0);
        lemma_metas(store.sessions, m);
        let i = choose|i: int|
            0 <= i < store.sessions.len() && (#[trigger] store.sessions[i]).1.meta() == Some(m);
        assert(store.header_is_own(i));
        assert(store.is_at(i, id));
        lemma_place(store, id, i);
    }
    if store.contains(id) && !store.rotated(now).contains(id) {
        let p = store.place(id);
        assert(store.is_at(p, id));
        assert(store.header_is_own(p));
        let m = store.sessions[p].1.meta()->0;
        lemma_metas(store.sessions, m);
        assert(store.metas().to_multiset().count(m) > 0);
        assert(metas.to_multiset().count(m) > 0);
        assert(metas.contains(m));
        assert(picked.contains(m));
        let k = choose|k: int| 0 <= k < picked.len() && picked[k] == m;
        assert(moves[k] == move_of(store.root, m));
        assert(ids[k] == id);
    }
}

/// A session that is not closed is never due.
pub proof fn law_open_sessions_stay(t: TranscriptView, now: Timestamp, days: u32)
    requires
        !(t.last_status(t.lines.len()) is Closed),
    ensures
        !transcript_due(t, now, days),
{
}

/// A transcript without fault is listed with the status of its session.
pub proof fn law_listed_status(t: TranscriptView, n: nat)
    requires
        t.header is Init,
        n <= t.lines.len(),
        forall|i: int| 0 <= i < t.lines.len() ==> (#[trigger] t.lines[i]) is Event,
    ensures
        t.last_status(n) == folded(t.header->Init_0, events_of(t.lines).take(n as int)).status,
        t.last_status(t.lines.len()) == t.session().status || n < t.lines.len(),
    decreases n,
{
    let events = events_of(t.lines);
    if n > 0 {
        law_listed_status(t, (n - 1) as nat);
        assert(events.take(n as int).drop_last() =~= events.take(n - 1));
        assert(t.lines[n - 1] is Event);
    }
    assert(events.take(events.len() as int) =~= events);
}

/// The time that a line of a transcript tells of: user messages, assistant messages, errors,
/// cancellations, resets and changes of status have one, all other events and lines that are no
/// events have none.
pub open spec fn line_time(line: EventLine) -> Option<Timestamp> {
    match line {
        EventLine::Event(SessionEvent::UserMessage { at, .. }) => Some(at),
        EventLine::Event(SessionEvent::AssistantMessage { at, .. }) => Some(at),
        EventLine::Event(SessionEvent::Error { at, .. }) => Some(at),
        EventLine::Event(SessionEvent::Cancelled { at, .. }) => Some(at),
        EventLine::Event(SessionEvent::ContextReset { at, .. }) => Some(at),
        EventLine::Event(SessionEvent::StatusChanged { at, .. }) => Some(at),
        _ => None,
    }
}

/// The status that a line of a transcript changes to, where it is a change of status.
pub open spec fn line_status(line: EventLine) -> Option<SessionStatus> {
    match line {
        EventLine::Event(SessionEvent::StatusChanged { to, .. }) => Some(to),
        _ => None,
    }
}

/// Whether line `k` is the last of a transcript that tells of a time, and tells of `at`.
pub open spec fn last_told(lines: Seq<EventLine>, k: int, at: Timestamp) -> bool {
    &&& 0 <= k < lines.len()
    &&& line_time(lines[k]) == Some(at)
    &&& forall|j: int| k < j < lines.len() ==> line_time(#[trigger] lines[j]) is None
}

/// Whether line `k` is the last change of status in a transcript, and changes to `to`.
pub open spec fn last_changed(lines: Seq<EventLine>, k: int, to: SessionStatus) -> bool {
    &&& 0 <= k < lines.len()
    &&& line_status(lines[k]) == Some(to)
    &&& forall|j: int| k < j < lines.len() ==> line_status(#[trigger] lines[j]) is None
}

/// The time of an event is that of its line.
pub proof fn law_event_times(e: SessionEvent)
    ensures
        event_time(e) == line_time(EventLine::Event(e)),
{
}

/// The last time and the last status among the first lines.
proof fn lemma_last_line(t: TranscriptView, k: int, n: nat)
    requires
        0 <= k < n <= t.lines.len(),
    ensures
        line_time(t.lines[k]) is Some && (forall|j: int|
            k < j < n ==> line_time(#[trigger] t.lines[j]) is None) ==> t.last_time(n) == line_time(
            t.lines[k],
        ),
        line_status(t.lines[k]) is Some && (forall|j: int|
            k < j < n ==> line_status(#[trigger] t.lines[j]) is None) ==> t.last_status(n)
            == line_status(t.lines[k])->0,
    decreases n,
{
    if k < n - 1 {
        lemma_last_line(t, k, (n - 1) as nat);
        if forall|j: int| k < j < n ==> line_time(#[trigger] t.lines[j]) is None {
            assert(line_time(t.lines[n - 1]) is None);
        }
        if forall|j: int| k < j < n ==> line_status(#[trigger] t.lines[j]) is None {
            assert(line_status(t.lines[n - 1]) is None);
        }
    }
}

/// Lines that tell of no time and change no status.
proof fn lemma_no_line(t: TranscriptView, n: nat)
    requires
        n <= t.lines.len(),
    ensures
        (forall|j: int| 0 <= j < n ==> line_time(#[trigger] t.lines[j]) is None) ==> t.last_time(n)
            is None,
        (forall|j: int| 0 <= j < n ==> line_status(#[trigger] t.lines[j]) is None)
            ==> t.last_status(n) == SessionStatus::Active,
    decreases n,
{
    if n > 0 {
        lemma_no_line(t, (n - 1) as nat);
        if forall|j: int| 0 <= j < n ==> line_time(#[trigger] t.lines[j]) is None {
            assert(line_time(t.lines[n - 1]) is None);
        }
        if forall|j: int| 0 <= j < n ==> line_status(#[trigger] t.lines[j]) is None {
            assert(line_status(t.lines[n - 1]) is None);
        }
    }
}

/// A transcript is listed if it has a header, with that header and its size in bytes. Its last
/// event is at the time that its last line with a time tells of, and its status is the one of its
/// last change of status; without one it is active.
pub proof fn law_meta_of_lines(t: TranscriptView, k: int, at: Timestamp, s: int, to: SessionStatus)
    ensures
        t.meta() is Some <==> t.header is Init,
        t.header matches HeaderLine::Init(init) ==> {
            &&& t.meta()->0.init == init
            &&& t.meta()->0.byte_size == t.byte_size
            &&& last_told(t.lines, k, at) ==> t.meta()->0.last_event_at == Some(at)
            &&& (forall|j: int|
                0 <= j < t.lines.len() ==> line_time(#[trigger] t.lines[j]) is None)
                ==> t.meta()->0.last_event_at is None
            &&& last_changed(t.lines, s, to) ==> t.meta()->0.status == to
            &&& (forall|j: int|
                0 <= j < t.lines.len() ==> line_status(#[trigger] t.lines[j]) is None)
                ==> t.meta()->0.status == SessionStatus::Active
        },
{
    lemma_no_line(t, t.lines.len());
    if 0 <= k < t.lines.len() {
        lemma_last_line(t, k, t.lines.len());
    }
    if 0 <= s < t.lines.len() {
        lemma_last_line(t, s, t.lines.len());
    }
}

/// A closed session is due exactly if the given number of days have passed since the last line of
/// its transcript that tells of a time, whenever it was created.
pub proof fn law_due_by_last_line(
    t: TranscriptView,
    now: Timestamp,
    days: u32,
    k: int,
    at: Timestamp,
    s: int,
)
    requires
        t.header is Init,
        last_told(t.lines, k, at),
        last_changed(t.lines, s, SessionStatus::Closed),
    ensures
        transcript_due(t, now, days) <==> elapsed_nanos(now, at) >= days * 86_400_000_000_000,
{
    law_meta_of_lines(t, k, at, s, SessionStatus::Closed);
    assert(days * 86_400 * 1_000_000_000 == days * 86_400_000_000_000);
}

/// A session is never due before its last change of status has closed it, nor is a transcript
/// without a header.
pub proof fn law_only_closed_is_due(
    t: TranscriptView,
    now: Timestamp,
    days: u32,
    s: int,
    to: SessionStatus,
)
    ensures
        last_changed(t.lines, s, to) && to != SessionStatus::Closed ==> !transcript_due(
            t,
            now,
            days,
        ),
        (forall|j: int| 0 <= j < t.lines.len() ==> line_status(#[trigger] t.lines[j]) is None)
            ==> !transcript_due(t, now, days),
        !(t.header is Init) ==> !transcript_due(t, now, days),
{
    law_meta_of_lines(t, -1, now, s, to);
}

/// Rotation never drops a session whose last line with a time tells of one less than the given
/// number of days ago, whenever it was created.
pub proof fn law_recent_sessions_stay(
    store: SessionStoreView,
    now: Timestamp,
    id: Seq<char>,
    k: int,
    at: Timestamp,
)
    requires
        store.wf(),
        store.contains(id),
        last_told(store.transcript(id).lines, k, at),
        elapsed_nanos(now, at) < store.retention.rotate_after_days * 86_400_000_000_000,
    ensures
        store.rotated(now).contains(id),
{
    let t = store.transcript(id);
    let days = store.retention.rotate_after_days;
    law_rotation(store, now, id);
    law_meta_of_lines(t, k, at, -1, SessionStatus::Active);
    assert(days * 86_400 * 1_000_000_000 == days * 86_400_000_000_000);
}

/// Rotation drops every closed session whose last line with a time tells of one at least the
/// given number of days ago.
pub proof fn law_old_sessions_go(
    store: SessionStoreView,
    now: Timestamp,
    id: Seq<char>,
    k: int,
    at: Timestamp,
    s: int,
)
    requires
        store.wf(),
        store.contains(id),
        store.transcript(id).header is Init,
        last_told(store.transcript(id).lines, k, at),
        last_changed(store.transcript(id).lines, s, SessionStatus::Closed),
        elapsed_nanos(now, at) >= store.retention.rotate_after_days * 86_400_000_000_000,
    ensures
        !store.rotated(now).contains(id),
{
    law_rotation(store, now, id);
    law_due_by_last_line(
        store.transcript(id),
        now,
        store.retention.rotate_after_days,
        k,
        at,
        s,
    );
}

/// A session is moved from its file in the root to one of the same name in the archive, in the
/// directory of the year and month of the last line of its transcript that tells of a time, or
/// of its creation where none does.
pub proof fn law_archive_by_last_line(
    t: TranscriptView,
    root: Seq<char>,
    init: SessionInit,
    k: int,
    at: Timestamp,
)
    requires
        t.header == HeaderLine::Init(init),
    ensures
        move_of(root, t.meta()->0).id == init.id@,
        move_of(root, t.meta()->0).from == joined_path(root, init.id@ + ".jsonl"@),
        last_told(t.lines, k, at) ==> move_of(root, t.meta()->0).to == joined_path(
            joined_path(
                joined_path(root, "archive"@),
                formatted(at@.secs, at@.nanos, "%Y-%m"@),
            ),
            init.id@ + ".jsonl"@,
        ),
        (forall|j: int| 0 <= j < t.lines.len() ==> line_time(#[trigger] t.lines[j]) is None)
            ==> move_of(root, t.meta()->0).to == joined_path(
            joined_path(
                joined_path(root, "archive"@),
                formatted(init.created_at@.secs, init.created_at@.nanos, "%Y-%m"@),
            ),
            init.id@ + ".jsonl"@,
        ),
{
    law_meta_of_lines(t, k, at, -1, SessionStatus::Active);
}

/// The sessions that are moved are those of the listing that are due, in its order.
pub proof fn law_moves_follow_listing(
    metas: Seq<SessionMeta>,
    root: Seq<char>,
    now: Timestamp,
    days: u32,
    a: int,
    b: int,
)
    requires
        0 <= a < b < moves_due(metas, root, now, days).len(),
    ensures
        exists|i: int, j: int|
            0 <= i < j < metas.len() && (#[trigger] metas[i]).init.id@ == moves_due(
                metas,
                root,
                now,
                days,
            )[a].id && (#[trigger] metas[j]).init.id@ == moves_due(metas, root, now, days)[b].id
                && metas[i].status == SessionStatus::Closed && metas[j].status
                == SessionStatus::Closed,
{
    let due = |m: SessionMeta| is_due(m, now, days);
    lemma_filter(metas, due);
    let picked = metas.filter(due);
    assert(in_order(metas, picked[a], picked[b]));
    let (i, j) = choose|i: int, j: int|
        0 <= i < j < metas.len() && #[trigger] metas[i] == picked[a] && #[trigger] metas[j]
            == picked[b];
    assert(due(picked[a]) && due(picked[b]));
    assert(metas[i].init.id@ == moves_due(metas, root, now, days)[a].id);
    assert(metas[j].init.id@ == moves_due(metas, root, now, days)[b].id);
}

/// Every session with a header is listed, nothing else is, and a session that was created later
/// comes first.
pub proof fn law_listing(store: SessionStoreView, metas: Seq<SessionMeta>, m: SessionMeta)
    requires
        store.is_listing(metas),
    ensures
        metas.contains(m) <==> exists|i: int|
            0 <= i < store.sessions.len() && (#[trigger] store.sessions[i]).1.meta() == Some(m),
        metas.len() == store.metas().len(),
        forall|a: int, b: int|
            0 <= a < metas.len() && 0 <= b < metas.len() && earlier(
                (#[trigger] metas[a]).init.created_at,
                (#[trigger] metas[b]).init.created_at,
            ) ==> b < a,
{
    broadcast use vstd::seq_lib::group_to_multiset_ensures;

    lemma_metas(store.sessions, m);
    assert(metas.contains(m) <==> metas.to_multiset().count(m) > 0);
    assert(store.metas().contains(m) <==> store.metas().to_multiset().count(m) > 0);
    assert(metas.to_multiset().len() == metas.len());
    assert(store.metas().to_multiset().len() == store.metas().len());
    crate::time::lemma_earlier_all();
}

/// Loading a transcript fails without a first line, where the first line cannot be read or is no
/// header, and else at the first line that cannot be read or is no event, each with what was
/// wrong with that line; and it does not fail where all lines are events.
pub proof fn law_faults(t: TranscriptView, id: Seq<char>, path: Seq<char>, k: int)
    ensures
        t.header is Missing ==> t.fault(id, path) == Some(
            SessionStoreErrorView::EmptyTranscript { id },
        ),
        t.header matches HeaderLine::Unreadable(why) ==> t.fault(id, path) == Some(
            SessionStoreErrorView::Io { path, source: why@ },
        ),
        t.header matches HeaderLine::Malformed(why) ==> t.fault(id, path) == Some(
            SessionStoreErrorView::Serde { id, source: why@ },
        ),
        t.header is Init && (forall|j: int|
            0 <= j < t.lines.len() ==> (#[trigger] t.lines[j]) is Event) ==> t.fault(id, path)
            is None,
        t.header is Init && 0 <= k < t.lines.len() && (forall|j: int|
            0 <= j < k ==> (#[trigger] t.lines[j]) is Event) ==> {
            &&& t.lines[k] matches EventLine::Unreadable(why) ==> t.fault(id, path) == Some(
                SessionStoreErrorView::Io { path, source: why@ },
            )
            &&& t.lines[k] matches EventLine::Malformed(why) ==> t.fault(id, path) == Some(
                SessionStoreErrorView::Serde { id, source: why@ },
            )
        },
{
    lemma_no_fault(t.lines, t.lines.len());
    if 0 <= k < t.lines.len() && (forall|j: int| 0 <= j < k ==> (#[trigger] t.lines[j]) is Event)
        && !(t.lines[k] is Event) {
        lemma_no_fault(t.lines, k as nat);
        assert(first_fault(t.lines, (k + 1) as nat) == Some(k));
        lemma_fault_stays(t.lines, (k + 1) as nat, t.lines.len());
    }
}

/// An event is refused where the transcript cannot be loaded, with the error of loading it; else
/// where the session is closed; else where the size of the file, the bytes of the line and the
/// end of the line together exceed the cap; and it is accepted in all other cases.
pub proof fn law_append_refused(
    t: TranscriptView,
    id: Seq<char>,
    path: Seq<char>,
    line: Seq<char>,
    cap: u64,
)
    ensures
        t.fault(id, path) is Some ==> append_fault(t, id, path, line, cap) == t.fault(id, path),
        t.fault(id, path) is None && t.session().status == SessionStatus::Closed ==> append_fault(
            t,
            id,
            path,
            line,
            cap,
        ) == Some(SessionStoreErrorView::Closed { id }),
        t.fault(id, path) is None && t.session().status != SessionStatus::Closed && t.byte_size
            + encode_utf8(line).len() + 1 > cap && cap < u64::MAX ==> append_fault(
            t,
            id,
            path,
            line,
            cap,
        ) == Some(SessionStoreErrorView::SizeCapExceeded { id, current: t.byte_size, cap }),
        t.fault(id, path) is None && t.session().status != SessionStatus::Closed && t.byte_size
            + encode_utf8(line).len() + 1 <= cap ==> append_fault(t, id, path, line, cap) is None,
{
}

/// A store refuses an event of a session that it does not have.
pub proof fn law_append_needs_session(store: SessionStoreView, id: Seq<char>, line: Seq<char>)
    ensures
        !store.contains(id) ==> store.append_fault(id, line) == Some(
            SessionStoreErrorView::NotFound { id },
        ),
        store.contains(id) ==> store.append_fault(id, line) == append_fault(
            store.transcript(id),
            id,
            joined_path(store.root, id + ".jsonl"@),
            line,
            store.retention.max_file_bytes,
        ),
{
}

/// A line grows the file by its bytes and its end, up to the largest size; a new transcript holds
/// its header alone and is as large as that line.
pub proof fn law_sizes(t: TranscriptView, init: SessionInit, event: SessionEvent, line: Seq<char>)
    ensures
        line_bytes(line) == encode_utf8(line).len() + 1,
        t.byte_size + encode_utf8(line).len() + 1 <= 0xffff_ffff_ffff_ffff ==> t.with_event(
            event,
            line_bytes(line),
        ).byte_size == t.byte_size + encode_utf8(line).len() + 1,
        t.byte_size + encode_utf8(line).len() + 1 > 0xffff_ffff_ffff_ffff ==> t.with_event(
            event,
            line_bytes(line),
        ).byte_size == 0xffff_ffff_ffff_ffff,
        t.with_event(event, line_bytes(line)).lines == t.lines + seq![EventLine::Event(event)],
        t.with_event(event, line_bytes(line)).header == t.header,
        fresh_transcript(init, line).header == HeaderLine::Init(init),
        fresh_transcript(init, line).lines.len() == 0,
        encode_utf8(line).len() + 1 <= 0xffff_ffff_ffff_ffff ==> fresh_transcript(
            init,
            line,
        ).byte_size == encode_utf8(line).len() + 1,
{
    assert(t.lines.push(EventLine::Event(event)) =~= t.lines + seq![EventLine::Event(event)]);
}

/// The events of a transcript are those of its lines, in their order.
pub proof fn law_events_of_lines(lines: Seq<EventLine>, i: int)
    requires
        0 <= i < lines.len(),
        lines[i] is Event,
    ensures
        events_of(lines).len() == lines.len(),
        lines[i] == EventLine::Event(events_of(lines)[i]),
{
}

/// A session is closed by a change of status to `Closed`, with the given reason and time.
pub proof fn law_closing_event(reason: CloseReason, at: Timestamp)
    ensures
        closing_event(reason, at) == (SessionEvent::StatusChanged {
            to: SessionStatus::Closed,
            reason: Some(reason),
            at,
        }),
{
}

/// A file holds a session exactly if its name ends in `.jsonl` and something stands before that,
/// which is the identifier.
pub proof fn law_session_files(name: Seq<char>, id: Seq<char>)
    ensures
        session_of(name) == Some(id) <==> id.len() > 0 && name == id + ".jsonl"@,
{
    reveal_strlit(".jsonl");
    if session_of(name) == Some(id) {
        assert(name =~= name.take(name.len() - 6) + name.skip(name.len() - 6));
    }
    if id.len() > 0 && name == id + ".jsonl"@ {
        law_session_of_file(id);
    }
}

/// A line of a transcript counts unless it holds white space alone.
pub proof fn law_lines_that_count(text: Seq<char>, why: Seq<char>)
    ensures
        RawLineView::Unreadable(why).counts(),
        RawLineView::Text(text).counts() <==> exists|i: int|
            0 <= i < text.len() && !crate::jsonl::is_space(#[trigger] text[i]),
{
}

/// A session is in the store exactly if there is an entry with its identifier, and its transcript
/// is that of the entry.
pub proof fn law_session_in_store(store: SessionStoreView, id: Seq<char>, i: int)
    ensures
        store.contains(id) <==> exists|j: int|
            0 <= j < store.sessions.len() && (#[trigger] store.sessions[j]).0 == id,
        store.wf() && 0 <= i < store.sessions.len() && store.sessions[i].0 == id
            ==> store.transcript(id) == store.sessions[i].1,
{
    if exists|j: int| 0 <= j < store.sessions.len() && (#[trigger] store.sessions[j]).0 == id {
        let j = choose|j: int| 0 <= j < store.sessions.len() && (#[trigger] store.sessions[j]).0
            == id;
        assert(store.is_at(j, id));
    }
    if store.contains(id) {
        let j = choose|j: int| store.is_at(j, id);
        assert(store.sessions[j].0 == id);
    }
    if store.wf() && 0 <= i < store.sessions.len() && store.sessions[i].0 == id {
        assert(store.is_at(i, id));
        lemma_place(store, id, i);
    }
}

/// What is said of a store that refused.
pub proof fn law_error_texts(id: Seq<char>, text: Seq<char>, current: u64, cap: u64)
    ensures
        error_text((SessionStoreErrorView::AlreadyExists { id, path: text })) == "session "@ + id
            + " already exists at "@ + text,
        error_text((SessionStoreErrorView::NotFound { id })) == "session "@ + id + " not found"@,
        error_text((SessionStoreErrorView::Closed { id })) == "session "@ + id
            + " is closed; no further events accepted"@,
        error_text((SessionStoreErrorView::SizeCapExceeded { id, current, cap })) == "session "@
            + id + " would exceed configured size cap ("@ + decimal(cap as nat)
            + " bytes) after append (current "@ + decimal(current as nat) + " bytes)"@,
        error_text((SessionStoreErrorView::EmptyTranscript { id })) == "transcript for session "@
            + id + " is empty"@,
        error_text((SessionStoreErrorView::MissingHeader { id })) == "transcript for session "@
            + id + " has no init header"@,
        error_text((SessionStoreErrorView::Io { path: id, source: text })) == "io error on "@ + id
            + ": "@ + text,
        error_text((SessionStoreErrorView::Serde { id, source: text }))
            == "serde error in session "@ + id + ": "@ + text,
{
}

/// Unless told otherwise a file holds up to 512 MiB, and closed sessions are archived after 30
/// days.
pub proof fn law_default_retention()
    ensures
        DEFAULT_MAX_FILE_BYTES == 512 * 1024 * 1024,
        DEFAULT_ROTATE_AFTER_DAYS == 30,
{
}

} // verus!
