//! Durable local state.
//!
//! - **entries**: the conversation, an append-only tree (`id`/`parent_id`)
//!   per session with a leaf pointer. What the model sees.
//! - **records**: the execution log (operation/step/tool intents and
//!   outcomes). Never enters model context; deleting every record leaves a
//!   valid conversation.
//!
//! Both share one per-session monotonic `seq`. Appends are idempotent on the
//! caller-provisioned id, which is what makes re-running recovery safe.
//!
//! The state is held as tables; whoever persists them loads the rows, applies
//! one operation and writes the rows back in one transaction.
use vstd::prelude::*;
use vstd::string::*;

use crate::json::{Json, JsonView};
use crate::llm::{Message, MessageView, Usage};
use crate::text::{lemma_step, opt_view, same, views};

pub mod home;
pub mod inbox;
pub mod laws;
pub mod log;
pub mod migrate;
pub mod recovery;
pub mod row_laws;
pub mod sessions;
pub mod status;
pub mod todos;
pub mod worker;

verus! {

pub const MAIN_LANE: &'static str = "main";

// ── Errors ──────────────────────────────────────────────────────────────────

/// Why an operation on the store failed.
#[derive(Debug)]
pub enum StoreError {
    Db(String),
    Serde(String),
    Io(String),
    NotFound(String),
    Ambiguous(String),
    Corrupt(String),
    StaleWorkerGeneration,
}

/// What an error says.
pub enum StoreErrorView {
    Db(Seq<char>),
    Serde(Seq<char>),
    Io(Seq<char>),
    NotFound(Seq<char>),
    Ambiguous(Seq<char>),
    Corrupt(Seq<char>),
    StaleWorkerGeneration,
}

impl View for StoreError {
    type V = StoreErrorView;

    open spec fn view(&self) -> StoreErrorView {
        match self {
            StoreError::Db(m) => StoreErrorView::Db(m@),
            StoreError::Serde(m) => StoreErrorView::Serde(m@),
            StoreError::Io(m) => StoreErrorView::Io(m@),
            StoreError::NotFound(m) => StoreErrorView::NotFound(m@),
            StoreError::Ambiguous(m) => StoreErrorView::Ambiguous(m@),
            StoreError::Corrupt(m) => StoreErrorView::Corrupt(m@),
            StoreError::StaleWorkerGeneration => StoreErrorView::StaleWorkerGeneration,
        }
    }
}

impl StoreErrorView {
    /// The error in words.
    pub open spec fn words(self) -> Seq<char> {
        match self {
            StoreErrorView::Db(m) => "database error: "@ + m,
            StoreErrorView::Serde(m) => "serialization error: "@ + m,
            StoreErrorView::Io(m) => "io error: "@ + m,
            StoreErrorView::NotFound(m) => "no session matches `"@ + m + "`"@,
            StoreErrorView::Ambiguous(m) => "session id `"@ + m + "` is ambiguous"@,
            StoreErrorView::Corrupt(m) => "corrupt session state: "@ + m,
            StoreErrorView::StaleWorkerGeneration => "session worker generation is no longer current"@,
        }
    }
}

impl StoreError {
    /// The error in words.
    pub fn to_string(&self) -> (r: String)
        ensures
            r@ == self@.words(),
    {
        match self {
            StoreError::Db(m) => "database error: ".to_owned().concat(m.as_str()),
            StoreError::Serde(m) => "serialization error: ".to_owned().concat(m.as_str()),
            StoreError::Io(m) => "io error: ".to_owned().concat(m.as_str()),
            StoreError::NotFound(m) => "no session matches `".to_owned().concat(m.as_str()).concat(
                "`",
            ),
            StoreError::Ambiguous(m) => "session id `".to_owned().concat(m.as_str()).concat(
                "` is ambiguous",
            ),
            StoreError::Corrupt(m) => "corrupt session state: ".to_owned().concat(m.as_str()),
            StoreError::StaleWorkerGeneration => "session worker generation is no longer current".to_owned(),
        }
    }
}

/// The result of an operation that may fail, as a value.
pub open spec fn outcome<T: View>(r: Result<T, StoreError>) -> Result<T::V, StoreErrorView> {
    match r {
        Ok(v) => Ok(v@),
        Err(e) => Err(e@),
    }
}

/// What a query for one row says when there is none.
pub open spec fn no_rows() -> StoreErrorView {
    StoreErrorView::Db("Query returned no rows"@)
}

/// What an allocation says when a session has used up its numbers: the sum
/// leaves the integers.
pub open spec fn no_numbers() -> StoreErrorView {
    StoreErrorView::Db("Invalid column type Real at index: 0, name: next_seq - 1"@)
}

/// What an allocation says when a session has used up its input positions.
pub open spec fn no_positions() -> StoreErrorView {
    StoreErrorView::Db("Invalid column type Real at index: 0, name: COALESCE(MAX(position), 0) + 1"@)
}

/// What an insert says when a row with the same key is there already.
pub open spec fn key_taken(column: Seq<char>) -> StoreErrorView {
    StoreErrorView::Db("UNIQUE constraint failed: "@ + column)
}

/// What an insert says when a row with the same key is there already.
pub(crate) fn taken(column: &str) -> (r: StoreError)
    ensures
        r@ == key_taken(column@),
{
    StoreError::Db("UNIQUE constraint failed: ".to_owned().concat(column))
}

// ── Rows ────────────────────────────────────────────────────────────────────

/// Whether an owned session worker drains the durable input queue.
#[derive(Debug, Clone, Copy, PartialEq, Eq, Structural)]
pub enum WorkerKind {
    NonDraining,
    Draining,
}

/// A session as callers see it.
#[derive(Debug)]
pub struct Session {
    pub id: String,
    pub title: String,
    pub cwd: String,
    pub provider: String,
    pub model: String,
    pub usage: Usage,
    pub created_at: String,
    pub updated_at: String,
    /// Set for pen children; the parent session's id.
    pub parent_session_id: Option<String>,
    /// Last recorded run status: idle | running | completed | failed.
    pub status: String,
    /// OS process id of the last run, for liveness checks.
    pub pid: Option<i64>,
    /// The session's own worktree, once it has one.
    pub worktree_path: Option<String>,
    pub worktree_branch: Option<String>,
}

/// What a session is.
pub struct SessionView {
    pub id: Seq<char>,
    pub title: Seq<char>,
    pub cwd: Seq<char>,
    pub provider: Seq<char>,
    pub model: Seq<char>,
    pub usage: Usage,
    pub created_at: Seq<char>,
    pub updated_at: Seq<char>,
    pub parent_session_id: Option<Seq<char>>,
    pub status: Seq<char>,
    pub pid: Option<i64>,
    pub worktree_path: Option<Seq<char>>,
    pub worktree_branch: Option<Seq<char>>,
}

impl View for Session {
    type V = SessionView;

    open spec fn view(&self) -> SessionView {
        SessionView {
            id: self.id@,
            title: self.title@,
            cwd: self.cwd@,
            provider: self.provider@,
            model: self.model@,
            usage: self.usage,
            created_at: self.created_at@,
            updated_at: self.updated_at@,
            parent_session_id: opt_view(self.parent_session_id),
            status: self.status@,
            pid: self.pid,
            worktree_path: opt_view(self.worktree_path),
            worktree_branch: opt_view(self.worktree_branch),
        }
    }
}

/// A copy of an optional string.
pub fn clone_opt(o: &Option<String>) -> (r: Option<String>)
    ensures
        opt_view(r) == opt_view(*o),
{
    match o {
        Some(s) => Some(s.clone()),
        None => None,
    }
}

impl Clone for Session {
    fn clone(&self) -> (r: Self)
        ensures
            r@ == self@,
    {
        Session {
            id: self.id.clone(),
            title: self.title.clone(),
            cwd: self.cwd.clone(),
            provider: self.provider.clone(),
            model: self.model.clone(),
            usage: self.usage,
            created_at: self.created_at.clone(),
            updated_at: self.updated_at.clone(),
            parent_session_id: clone_opt(&self.parent_session_id),
            status: self.status.clone(),
            pid: self.pid,
            worktree_path: clone_opt(&self.worktree_path),
            worktree_branch: clone_opt(&self.worktree_branch),
        }
    }
}

/// A session's row: the session, its numbering, its lane and its worker.
#[derive(Debug)]
pub struct SessionRow {
    pub session: Session,
    pub next_seq: i64,
    pub leaf_id: Option<String>,
    pub open_operation_id: Option<String>,
    pub worker_generation: Option<String>,
    pub worker_kind: Option<WorkerKind>,
}

/// What a session's row holds.
pub struct SessionRowView {
    pub session: SessionView,
    pub next_seq: int,
    pub leaf_id: Option<Seq<char>>,
    pub open_operation_id: Option<Seq<char>>,
    pub worker_generation: Option<Seq<char>>,
    pub worker_kind: Option<WorkerKind>,
}

impl View for SessionRow {
    type V = SessionRowView;

    open spec fn view(&self) -> SessionRowView {
        SessionRowView {
            session: self.session@,
            next_seq: self.next_seq as int,
            leaf_id: opt_view(self.leaf_id),
            open_operation_id: opt_view(self.open_operation_id),
            worker_generation: opt_view(self.worker_generation),
            worker_kind: self.worker_kind,
        }
    }
}

/// What an entry carries: a message as it is written, a value that reads as a
/// message but holds more than the message writes, or any other value, with what
/// the reader of messages says against it.
#[derive(Debug)]
pub enum Payload {
    Message(Message),
    Loose { message: Message, raw: Json },
    Other { raw: Json, error: String },
}

/// What a payload is.
pub enum PayloadView {
    Message(MessageView),
    Loose { message: MessageView, raw: JsonView },
    Other { raw: JsonView, error: Seq<char> },
}

impl PayloadView {
    /// The message that the payload reads as, or what is said against it.
    pub open spec fn message(self) -> Result<MessageView, Seq<char>> {
        match self {
            PayloadView::Message(m) => Ok(m),
            PayloadView::Loose { message, .. } => Ok(message),
            PayloadView::Other { error, .. } => Err(error),
        }
    }
}

impl View for Payload {
    type V = PayloadView;

    open spec fn view(&self) -> PayloadView {
        match self {
            Payload::Message(m) => PayloadView::Message(m@),
            Payload::Loose { message, raw } => PayloadView::Loose { message: message@, raw: raw@ },
            Payload::Other { raw, error } => PayloadView::Other { raw: raw@, error: error@ },
        }
    }
}

impl Clone for Payload {
    fn clone(&self) -> (r: Self)
        ensures
            r@ == self@,
    {
        match self {
            Payload::Message(m) => Payload::Message(m.clone()),
            Payload::Loose { message, raw } => Payload::Loose {
                message: message.clone(),
                raw: raw.clone(),
            },
            Payload::Other { raw, error } => Payload::Other {
                raw: raw.clone(),
                error: error.clone(),
            },
        }
    }
}

impl Payload {
    /// The message that the payload reads as, or what is said against it.
    pub fn message(&self) -> (r: Result<&Message, &str>)
        ensures
            match r {
                Ok(m) => self@.message() == Ok::<MessageView, Seq<char>>(m@),
                Err(error) => self@.message() == Err::<MessageView, Seq<char>>(error@),
            },
    {
        match self {
            Payload::Message(m) => Ok(m),
            Payload::Loose { message, .. } => Ok(message),
            Payload::Other { error, .. } => Err(error.as_str()),
        }
    }
}

/// One conversation entry.
#[derive(Debug)]
pub struct Entry {
    pub id: String,
    pub parent_id: Option<String>,
    pub seq: i64,
    pub kind: String,
    pub payload: Payload,
}

/// What an entry is.
pub struct EntryView {
    pub id: Seq<char>,
    pub parent_id: Option<Seq<char>>,
    pub seq: int,
    pub kind: Seq<char>,
    pub payload: PayloadView,
}

impl View for Entry {
    type V = EntryView;

    open spec fn view(&self) -> EntryView {
        EntryView {
            id: self.id@,
            parent_id: opt_view(self.parent_id),
            seq: self.seq as int,
            kind: self.kind@,
            payload: self.payload@,
        }
    }
}

impl Clone for Entry {
    fn clone(&self) -> (r: Self)
        ensures
            r@ == self@,
    {
        Entry {
            id: self.id.clone(),
            parent_id: clone_opt(&self.parent_id),
            seq: self.seq,
            kind: self.kind.clone(),
            payload: self.payload.clone(),
        }
    }
}

/// An entry with the session it belongs to.
#[derive(Debug)]
pub struct EntryRow {
    pub session_id: String,
    pub entry: Entry,
}

/// What an entry's row holds.
pub struct EntryRowView {
    pub session_id: Seq<char>,
    pub entry: EntryView,
}

impl View for EntryRow {
    type V = EntryRowView;

    open spec fn view(&self) -> EntryRowView {
        EntryRowView { session_id: self.session_id@, entry: self.entry@ }
    }
}

/// An execution record. `run_id` is the owning operation's id (which is the
/// `operation_started` record's own id).
#[derive(Debug)]
pub struct Record {
    pub id: String,
    pub run_id: String,
    pub seq: i64,
    pub kind: String,
    pub payload: Json,
}

/// What a record is.
pub struct RecordView {
    pub id: Seq<char>,
    pub run_id: Seq<char>,
    pub seq: int,
    pub kind: Seq<char>,
    pub payload: JsonView,
}

impl View for Record {
    type V = RecordView;

    open spec fn view(&self) -> RecordView {
        RecordView {
            id: self.id@,
            run_id: self.run_id@,
            seq: self.seq as int,
            kind: self.kind@,
            payload: self.payload@,
        }
    }
}

impl Clone for Record {
    fn clone(&self) -> (r: Self)
        ensures
            r@ == self@,
    {
        Record {
            id: self.id.clone(),
            run_id: self.run_id.clone(),
            seq: self.seq,
            kind: self.kind.clone(),
            payload: self.payload.clone(),
        }
    }
}

/// A record with the session it belongs to.
#[derive(Debug)]
pub struct RecordRow {
    pub session_id: String,
    pub record: Record,
}

/// What a record's row holds.
pub struct RecordRowView {
    pub session_id: Seq<char>,
    pub record: RecordView,
}

impl View for RecordRow {
    type V = RecordRowView;

    open spec fn view(&self) -> RecordRowView {
        RecordRowView { session_id: self.session_id@, record: self.record@ }
    }
}

/// A suspended run discovered by reduction: an `operation_started` with no
/// matching `operation_finished`.
#[derive(Debug)]
pub struct OpenRun {
    pub run_id: String,
    pub source_leaf_id: Option<String>,
    pub records: Vec<Record>,
}

/// What a suspended run is.
pub struct OpenRunView {
    pub run_id: Seq<char>,
    pub source_leaf_id: Option<Seq<char>>,
    pub records: Seq<RecordView>,
}

impl View for OpenRun {
    type V = OpenRunView;

    open spec fn view(&self) -> OpenRunView {
        OpenRunView {
            run_id: self.run_id@,
            source_leaf_id: opt_view(self.source_leaf_id),
            records: views(self.records@),
        }
    }
}

/// Whether an input waits or has become an operation.
#[derive(Debug, Clone, Copy, PartialEq, Eq, Structural)]
pub enum SessionInputState {
    Pending,
    Started,
}

/// An input waiting to become a session operation.
#[derive(Debug)]
pub struct SessionInput {
    /// Caller-provisioned idempotency id.
    pub id: String,
    pub session_id: String,
    pub position: i64,
    pub prompt: Payload,
    /// Execution policy captured when the input is accepted.
    pub options: Json,
    pub state: SessionInputState,
    pub operation_id: Option<String>,
    pub enqueued_at: String,
    pub started_at: Option<String>,
}

/// What an input is.
pub struct SessionInputView {
    pub id: Seq<char>,
    pub session_id: Seq<char>,
    pub position: int,
    pub prompt: PayloadView,
    pub options: JsonView,
    pub state: SessionInputState,
    pub operation_id: Option<Seq<char>>,
    pub enqueued_at: Seq<char>,
    pub started_at: Option<Seq<char>>,
}

impl View for SessionInput {
    type V = SessionInputView;

    open spec fn view(&self) -> SessionInputView {
        SessionInputView {
            id: self.id@,
            session_id: self.session_id@,
            position: self.position as int,
            prompt: self.prompt@,
            options: self.options@,
            state: self.state,
            operation_id: opt_view(self.operation_id),
            enqueued_at: self.enqueued_at@,
            started_at: opt_view(self.started_at),
        }
    }
}

impl Clone for SessionInput {
    fn clone(&self) -> (r: Self)
        ensures
            r@ == self@,
    {
        SessionInput {
            id: self.id.clone(),
            session_id: self.session_id.clone(),
            position: self.position,
            prompt: self.prompt.clone(),
            options: self.options.clone(),
            state: self.state,
            operation_id: clone_opt(&self.operation_id),
            enqueued_at: self.enqueued_at.clone(),
            started_at: clone_opt(&self.started_at),
        }
    }
}

/// One item of a session's plan.
#[derive(Debug)]
pub struct Todo {
    pub id: String,
    pub content: String,
    /// pending | in_progress | completed.
    pub status: String,
}

/// What an item of a plan is.
pub struct TodoView {
    pub id: Seq<char>,
    pub content: Seq<char>,
    pub status: Seq<char>,
}

impl View for Todo {
    type V = TodoView;

    open spec fn view(&self) -> TodoView {
        TodoView { id: self.id@, content: self.content@, status: self.status@ }
    }
}

impl Clone for Todo {
    fn clone(&self) -> (r: Self)
        ensures
            r@ == self@,
    {
        Todo { id: self.id.clone(), content: self.content.clone(), status: self.status.clone() }
    }
}

/// An item of a plan with the session it belongs to.
#[derive(Debug)]
pub struct TodoRow {
    pub session_id: String,
    pub todo: Todo,
}

/// What an item's row holds.
pub struct TodoRowView {
    pub session_id: Seq<char>,
    pub todo: TodoView,
}

impl View for TodoRow {
    type V = TodoRowView;

    open spec fn view(&self) -> TodoRowView {
        TodoRowView { session_id: self.session_id@, todo: self.todo@ }
    }
}

// ── The store ───────────────────────────────────────────────────────────────

/// The tables, each in the order its rows were written.
#[derive(Debug)]
pub struct Store {
    pub sessions: Vec<SessionRow>,
    pub entries: Vec<EntryRow>,
    pub records: Vec<RecordRow>,
    pub inputs: Vec<SessionInput>,
    pub todos: Vec<TodoRow>,
}

/// What the store holds.
pub struct StoreView {
    pub sessions: Seq<SessionRowView>,
    pub entries: Seq<EntryRowView>,
    pub records: Seq<RecordRowView>,
    pub inputs: Seq<SessionInputView>,
    pub todos: Seq<TodoRowView>,
}

impl View for Store {
    type V = StoreView;

    open spec fn view(&self) -> StoreView {
        StoreView {
            sessions: views(self.sessions@),
            entries: views(self.entries@),
            records: views(self.records@),
            inputs: views(self.inputs@),
            todos: views(self.todos@),
        }
    }
}

// ── Looking rows up ─────────────────────────────────────────────────────────

/// Where the row of session `id` stands.
pub open spec fn session_in(rows: Seq<SessionRowView>, id: Seq<char>) -> Option<int>
    decreases rows.len(),
{
    if rows.len() == 0 {
        None
    } else if rows.last().session.id == id {
        Some(rows.len() - 1)
    } else {
        session_in(rows.drop_last(), id)
    }
}

/// What `session_in` says.
pub proof fn lemma_session_in(rows: Seq<SessionRowView>, id: Seq<char>)
    ensures
        match session_in(rows, id) {
            Some(i) => 0 <= i < rows.len() && rows[i].session.id == id,
            None => forall|i: int| 0 <= i < rows.len() ==> (#[trigger] rows[i]).session.id != id,
        },
    decreases rows.len(),
{
    if rows.len() > 0 {
        lemma_session_in(rows.drop_last(), id);
        if session_in(rows, id) is None {
            assert forall|i: int| 0 <= i < rows.len() implies (#[trigger] rows[i]).session.id
                != id by {
                if i < rows.len() - 1 {
                    assert(rows.drop_last()[i].session.id != id);
                }
            }
        }
    }
}

/// Rows with the same ids in the same places are found in the same places.
pub proof fn lemma_same_ids(a: Seq<SessionRowView>, b: Seq<SessionRowView>, id: Seq<char>)
    requires
        a.len() == b.len(),
        forall|i: int| 0 <= i < a.len() ==> (#[trigger] a[i]).session.id == b[i].session.id,
    ensures
        session_in(a, id) == session_in(b, id),
    decreases a.len(),
{
    if a.len() > 0 {
        assert(a[a.len() - 1].session.id == b[a.len() - 1].session.id);
        assert forall|i: int| 0 <= i < a.drop_last().len() implies (
        #[trigger] a.drop_last()[i]).session.id == b.drop_last()[i].session.id by {
            assert(a[i].session.id == b[i].session.id);
        }
        lemma_same_ids(a.drop_last(), b.drop_last(), id);
    }
}

/// Whether some entry has this id.
pub open spec fn entry_in(rows: Seq<EntryRowView>, id: Seq<char>) -> bool {
    exists|i: int| 0 <= i < rows.len() && (#[trigger] rows[i]).entry.id == id
}

/// Whether some record has this id.
pub open spec fn record_in(rows: Seq<RecordRowView>, id: Seq<char>) -> bool {
    exists|i: int| 0 <= i < rows.len() && (#[trigger] rows[i]).record.id == id
}

impl Store {
    /// A store without rows.
    pub fn new() -> (r: Self)
        ensures
            r@.sessions.len() == 0,
            r@.entries.len() == 0,
            r@.records.len() == 0,
            r@.inputs.len() == 0,
            r@.todos.len() == 0,
    {
        Store {
            sessions: Vec::new(),
            entries: Vec::new(),
            records: Vec::new(),
            inputs: Vec::new(),
            todos: Vec::new(),
        }
    }

    /// Where the row of session `id` stands.
    pub fn session_index(&self, id: &str) -> (r: Option<usize>)
        ensures
            match r {
                Some(i) => session_in(self@.sessions, id@) == Some(i as int) && i
                    < self.sessions@.len() && self.sessions@[i as int]@.session.id == id@,
                None => session_in(self@.sessions, id@) is None,
            },
    {
        let mut n: usize = self.sessions.len();
        let ghost rows = self@.sessions;
        proof {
            assert(rows.take(n as int) =~= rows);
        }
        while n > 0
            invariant
                rows == self@.sessions,
                n <= self.sessions@.len(),
                session_in(rows, id@) == session_in(rows.take(n as int), id@),
            decreases n,
        {
            n -= 1;
            proof {
                lemma_step(rows, n as int);
                assert(rows[n as int] == self.sessions@[n as int]@);
            }
            if same(self.sessions[n].session.id.as_str(), id) {
                return Some(n);
            }
        }
        None
    }
}

} // verus!
