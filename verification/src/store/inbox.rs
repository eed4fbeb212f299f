//! Durable, ordered inputs waiting to become session operations.
use vstd::prelude::*;
use vstd::string::*;

use super::{
    entry_in, key_taken, no_numbers, no_positions, no_rows, outcome, record_in, session_in, taken,
    Entry, EntryRow, EntryRowView, EntryView, Payload, PayloadView, Record, RecordRow,
    RecordRowView, RecordView, SessionInput, SessionInputState, SessionInputView, SessionRowView,
    SessionView, Store, StoreError, StoreErrorView, StoreView,
};
use super::log::leaf_json;
use crate::ids::{is_uuid, random_id};
use crate::json::{alike, fields_view, lemma_alike_itself, same_json, Json, JsonView};
use crate::llm::{alike_message, lemma_alike_message_itself, same_message, Message, Role};
use crate::text::{
    at_most, lemma_lex_antisymmetric, lemma_lex_total, lemma_lex_transitive, lemma_step, lex_le,
    opt_view, same, views,
};

verus! {

/// The result used by callers that enqueue and then kick a worker.
#[derive(Debug)]
pub struct EnqueueInputResult {
    pub input: SessionInput,
}

/// The result of checking whether an owned worker should continue or retire
/// while it still holds the session lock.
#[derive(Debug)]
pub enum DrainDecision {
    Pending(SessionInput),
    Retired,
}

/// What a decision is.
pub enum DrainDecisionView {
    Pending(SessionInputView),
    Retired,
}

impl View for DrainDecision {
    type V = DrainDecisionView;

    open spec fn view(&self) -> DrainDecisionView {
        match self {
            DrainDecision::Pending(input) => DrainDecisionView::Pending(input@),
            DrainDecision::Retired => DrainDecisionView::Retired,
        }
    }
}

// ── Validation ──────────────────────────────────────────────────────────────

/// Whether an option is known and has a boolean value.
pub open spec fn good_option(name: Seq<char>, value: JsonView) -> bool {
    (name == "sandbox"@ || name == "sandbox_strict"@) && value is Bool
}

/// What is wrong with one option.
pub open spec fn option_error(name: Seq<char>) -> StoreErrorView {
    if name != "sandbox"@ && name != "sandbox_strict"@ {
        StoreErrorView::Corrupt("unknown session input option `"@ + name + "`"@)
    } else {
        StoreErrorView::Corrupt("session input option `"@ + name + "` must be boolean"@)
    }
}

/// Whether `name` is the first option, by name, that is wrong.
pub open spec fn first_bad(m: Map<Seq<char>, JsonView>, name: Seq<char>) -> bool {
    &&& m.dom().contains(name)
    &&& !good_option(name, m[name])
    &&& forall|k: Seq<char>| #[trigger]
        m.dom().contains(k) && !good_option(k, m[k]) ==> lex_le(name, k)
}

/// What is wrong with execution options: they must be an object whose fields
/// are known and boolean, and the first wrong one by name is reported.
pub open spec fn options_verdict(options: JsonView) -> Result<(), StoreErrorView> {
    match options {
        JsonView::Object(m) => if exists|k: Seq<char>| #[trigger] first_bad(m, k) {
            Err(option_error(choose|k: Seq<char>| #[trigger] first_bad(m, k)))
        } else {
            Ok(())
        },
        _ => Err(StoreErrorView::Corrupt("session input options must be an object"@)),
    }
}

/// What is wrong with a prompt: it must be a user message.
pub open spec fn prompt_verdict(prompt: PayloadView) -> Result<(), StoreErrorView> {
    match prompt.message() {
        Ok(m) => if m.role == Role::User {
            Ok(())
        } else {
            Err(StoreErrorView::Corrupt("session input prompt must be a user message"@))
        },
        Err(error) => Err(StoreErrorView::Serde(error)),
    }
}

/// Check execution options.
pub fn validate_input_options(options: &Json) -> (r: Result<(), StoreError>)
    ensures
        outcome(r) == options_verdict(options@),
{
    let fields = match options {
        Json::Object(fields) => fields,
        _ => {
            return Err(
                StoreError::Corrupt("session input options must be an object".to_owned()),
            );
        },
    };
    let ghost m = fields_view(fields@);
    let mut bad: Option<String> = None;
    let mut i: usize = 0;
    while i < fields.len()
        invariant
            options@ == JsonView::Object(m),
            m == fields_view(fields@),
            i <= fields@.len(),
            match bad {
                Some(b) => m.dom().contains(b@) && !good_option(b@, m[b@]) && forall|j: int|
                    0 <= j < i && !good_option(#[trigger] fields@[j].0@, m[fields@[j].0@])
                        ==> lex_le(b@, fields@[j].0@),
                None => forall|j: int|
                    0 <= j < i ==> good_option(#[trigger] fields@[j].0@, m[fields@[j].0@]),
            },
        decreases fields@.len() - i,
    {
        let name = fields[i].0.as_str();
        proof {
            crate::json::lemma_listed(fields@, i as int);
        }
        let known = same(name, "sandbox") || same(name, "sandbox_strict");
        let boolean = match options.get(name) {
            Some(Json::Bool(_)) => true,
            _ => false,
        };
        if !(known && boolean) {
            bad = match bad {
                None => Some(name.to_owned()),
                Some(b) => {
                    proof {
                        lemma_lex_total(b@, name@, 0);
                        lemma_lex_total(name@, name@, 0);
                    }
                    if at_most(b.as_str(), name) {
                        Some(b)
                    } else {
                        proof {
                            assert forall|j: int|
                                0 <= j < i && !good_option(
                                    #[trigger] fields@[j].0@,
                                    m[fields@[j].0@],
                                ) implies lex_le(name@, fields@[j].0@) by {
                                lemma_lex_transitive(name@, b@, fields@[j].0@, 0);
                            }
                        }
                        Some(name.to_owned())
                    }
                },
            };
            proof {
                lemma_lex_total(name@, name@, 0);
            }
        }
        i += 1;
    }
    match bad {
        None => {
            proof {
                assert forall|k: Seq<char>| !#[trigger] first_bad(m, k) by {
                    if m.dom().contains(k) {
                        crate::json::lemma_in_list(fields@, k);
                        let j = choose|j: int| 0 <= j < fields@.len() && #[trigger] fields@[j].0@ == k;
                        assert(good_option(fields@[j].0@, m[fields@[j].0@]));
                    }
                }
            }
            Ok(())
        },
        Some(b) => {
            proof {
                assert forall|k: Seq<char>| #[trigger] m.dom().contains(k) && !good_option(k, m[k]) implies lex_le(
                    b@,
                    k,
                ) by {
                    crate::json::lemma_in_list(fields@, k);
                    let j = choose|j: int| 0 <= j < fields@.len() && #[trigger] fields@[j].0@ == k;
                    assert(!good_option(fields@[j].0@, m[fields@[j].0@]));
                }
                assert(first_bad(m, b@));
                let c = choose|k: Seq<char>| #[trigger] first_bad(m, k);
                assert(b@.take(0) =~= c.take(0));
                lemma_lex_antisymmetric(b@, c, 0);
            }
            if !(same(b.as_str(), "sandbox") || same(b.as_str(), "sandbox_strict")) {
                Err(
                    StoreError::Corrupt(
                        "unknown session input option `".to_owned().concat(b.as_str()).concat("`"),
                    ),
                )
            } else {
                Err(
                    StoreError::Corrupt(
                        "session input option `".to_owned().concat(b.as_str()).concat(
                            "` must be boolean",
                        ),
                    ),
                )
            }
        },
    }
}

/// Check that a prompt is a user message.
pub fn validate_user_prompt(prompt: &Payload) -> (r: Result<(), StoreError>)
    ensures
        outcome(r) == prompt_verdict(prompt@),
{
    match prompt.message() {
        Ok(m) => if m.role == Role::User {
            Ok(())
        } else {
            Err(StoreError::Corrupt("session input prompt must be a user message".to_owned()))
        },
        Err(error) => Err(StoreError::Serde(error.to_owned())),
    }
}

/// Whether two payloads compare as equal, as the values they are.
pub open spec fn alike_payload(a: PayloadView, b: PayloadView) -> bool {
    match (a, b) {
        (PayloadView::Message(x), PayloadView::Message(y)) => alike_message(x, y),
        (PayloadView::Loose { raw: x, .. }, PayloadView::Loose { raw: y, .. }) => alike(x, y),
        (PayloadView::Other { raw: x, .. }, PayloadView::Other { raw: y, .. }) => alike(x, y),
        _ => false,
    }
}

/// A payload compares as equal to itself.
pub proof fn lemma_alike_payload_itself(a: PayloadView)
    ensures
        alike_payload(a, a),
{
    match a {
        PayloadView::Message(m) => lemma_alike_message_itself(m),
        PayloadView::Loose { raw, .. } => lemma_alike_itself(raw),
        PayloadView::Other { raw, .. } => lemma_alike_itself(raw),
    }
}

/// Whether two payloads compare as equal.
pub fn same_payload(a: &Payload, b: &Payload) -> (r: bool)
    ensures
        r == alike_payload(a@, b@),
{
    match (a, b) {
        (Payload::Message(x), Payload::Message(y)) => same_message(x, y),
        (Payload::Loose { raw: x, .. }, Payload::Loose { raw: y, .. }) => same_json(x, y),
        (Payload::Other { raw: x, .. }, Payload::Other { raw: y, .. }) => same_json(x, y),
        _ => false,
    }
}

// ── Queries ─────────────────────────────────────────────────────────────────

/// Where the input `id` stands.
pub open spec fn input_at(rows: Seq<SessionInputView>, id: Seq<char>) -> Option<int>
    decreases rows.len(),
{
    if rows.len() == 0 {
        None
    } else if rows.last().id == id {
        Some(rows.len() - 1)
    } else {
        input_at(rows.drop_last(), id)
    }
}

/// What `input_at` says.
pub proof fn lemma_input_at(rows: Seq<SessionInputView>, id: Seq<char>)
    ensures
        match input_at(rows, id) {
            Some(i) => 0 <= i < rows.len() && rows[i].id == id,
            None => forall|i: int| 0 <= i < rows.len() ==> (#[trigger] rows[i]).id != id,
        },
    decreases rows.len(),
{
    if rows.len() > 0 {
        lemma_input_at(rows.drop_last(), id);
        assert forall|j: int| 0 <= j < rows.len() - 1 implies #[trigger] rows[j]
            == rows.drop_last()[j] by {}
    }
}

/// The highest position of a session's inputs; zero before the first.
pub open spec fn top_position(rows: Seq<SessionInputView>, session_id: Seq<char>) -> int
    decreases rows.len(),
{
    match highest(rows, session_id) {
        Some(p) => p,
        None => 0,
    }
}

/// The highest position of a session's inputs, if it has any.
pub open spec fn highest(rows: Seq<SessionInputView>, session_id: Seq<char>) -> Option<int>
    decreases rows.len(),
{
    if rows.len() == 0 {
        None
    } else {
        let before = highest(rows.drop_last(), session_id);
        let row = rows.last();
        if row.session_id != session_id {
            before
        } else {
            match before {
                Some(p) => if p >= row.position {
                    Some(p)
                } else {
                    Some(row.position)
                },
                None => Some(row.position),
            }
        }
    }
}

/// Whether an input of the session waits.
pub open spec fn waits(row: SessionInputView, session_id: Seq<char>) -> bool {
    row.session_id == session_id && row.state == SessionInputState::Pending
}

/// Where the waiting input of the session with the lowest position stands.
pub open spec fn oldest_at(rows: Seq<SessionInputView>, session_id: Seq<char>) -> Option<int>
    decreases rows.len(),
{
    if rows.len() == 0 {
        None
    } else {
        let before = oldest_at(rows.drop_last(), session_id);
        let row = rows.last();
        if !waits(row, session_id) {
            before
        } else {
            match before {
                Some(i) => if rows[i].position <= row.position {
                    Some(i)
                } else {
                    Some(rows.len() - 1)
                },
                None => Some(rows.len() - 1),
            }
        }
    }
}

/// What `oldest_at` says: nothing waits, or the input found waits and none
/// that waits has a lower position.
pub proof fn lemma_oldest_at(rows: Seq<SessionInputView>, session_id: Seq<char>)
    ensures
        match oldest_at(rows, session_id) {
            Some(i) => 0 <= i < rows.len() && waits(rows[i], session_id) && forall|j: int|
                0 <= j < rows.len() && waits(#[trigger] rows[j], session_id) ==> rows[i].position
                    <= rows[j].position,
            None => forall|j: int| 0 <= j < rows.len() ==> !waits(#[trigger] rows[j], session_id),
        },
    decreases rows.len(),
{
    if rows.len() > 0 {
        lemma_oldest_at(rows.drop_last(), session_id);
        assert forall|j: int| 0 <= j < rows.len() - 1 implies #[trigger] rows[j]
            == rows.drop_last()[j] by {}
    }
}

/// Where an input at `position` goes among inputs in order.
pub open spec fn position_place(rows: Seq<SessionInputView>, position: int) -> int
    decreases rows.len(),
{
    if rows.len() == 0 || rows.last().position <= position {
        rows.len() as int
    } else {
        position_place(rows.drop_last(), position)
    }
}

/// The inputs of a session by position.
pub open spec fn by_position(rows: Seq<SessionInputView>, session_id: Seq<char>) -> Seq<
    SessionInputView,
>
    decreases rows.len(),
{
    if rows.len() == 0 {
        Seq::empty()
    } else {
        let before = by_position(rows.drop_last(), session_id);
        let row = rows.last();
        if row.session_id == session_id {
            before.insert(position_place(before, row.position), row)
        } else {
            before
        }
    }
}

impl StoreView {
    /// The oldest input that waits.
    pub open spec fn oldest_pending_input(self, session_id: Seq<char>) -> Option<SessionInputView> {
        match oldest_at(self.inputs, session_id) {
            Some(i) => Some(self.inputs[i]),
            None => None,
        }
    }

    /// The input `id` of a session.
    pub open spec fn inspect_input(self, session_id: Seq<char>, id: Seq<char>) -> Result<
        SessionInputView,
        StoreErrorView,
    > {
        match input_at(self.inputs, id) {
            Some(i) => if self.inputs[i].session_id == session_id {
                Ok(self.inputs[i])
            } else {
                Err(StoreErrorView::NotFound(id))
            },
            None => Err(StoreErrorView::NotFound(id)),
        }
    }

    /// The state and result of enqueueing an input. Reusing an id for the same
    /// session, prompt and options gives the original back.
    pub open spec fn enqueue(
        self,
        session_id: Seq<char>,
        id: Seq<char>,
        prompt: PayloadView,
        options: JsonView,
        now: Seq<char>,
    ) -> (StoreView, Result<SessionInputView, StoreErrorView>) {
        match (prompt_verdict(prompt), options_verdict(options)) {
            (Err(e), _) => (self, Err(e)),
            (_, Err(e)) => (self, Err(e)),
            (Ok(()), Ok(())) => match input_at(self.inputs, id) {
                Some(i) => {
                    let existing = self.inputs[i];
                    if existing.session_id != session_id || !alike_payload(existing.prompt, prompt)
                        || !alike(existing.options, options) {
                        (
                            self,
                            Err(
                                StoreErrorView::Corrupt(
                                    "session input id `"@ + id
                                        + "` was reused with different input"@,
                                ),
                            ),
                        )
                    } else {
                        (self, Ok(existing))
                    }
                },
                None => {
                    let top = top_position(self.inputs, session_id);
                    if top >= i64::MAX {
                        (self, Err(no_positions()))
                    } else if session_in(self.sessions, session_id) is None {
                        (self, Err(StoreErrorView::Db("FOREIGN KEY constraint failed"@)))
                    } else {
                        let input = SessionInputView {
                            id,
                            session_id,
                            position: top + 1,
                            prompt,
                            options,
                            state: SessionInputState::Pending,
                            operation_id: None,
                            enqueued_at: now,
                            started_at: None,
                        };
                        (StoreView { inputs: self.inputs.push(input), ..self }, Ok(input))
                    }
                },
            },
        }
    }

    /// Whether the session has an input waiting or an operation open.
    pub open spec fn has_work(self, session_id: Seq<char>) -> bool {
        oldest_at(self.inputs, session_id) is Some || self.open_operations(session_id).len() > 0
    }

    /// The state after a worker retired with `status`.
    pub open spec fn retired(self, i: int, status: Seq<char>, now: Seq<char>) -> StoreView {
        let row = self.sessions[i];
        StoreView {
            sessions: self.sessions.update(
                i,
                SessionRowView {
                    session: SessionView { status, pid: None, updated_at: now, ..row.session },
                    worker_generation: None,
                    worker_kind: None,
                    ..row
                },
            ),
            ..self
        }
    }

    /// The state and result of asking whether a worker drains another input
    /// or retires.
    pub open spec fn drain_or_retire(
        self,
        session_id: Seq<char>,
        generation: Seq<char>,
        status: Seq<char>,
        now: Seq<char>,
    ) -> (StoreView, Result<DrainDecisionView, StoreErrorView>) {
        match session_in(self.sessions, session_id) {
            None => (self, Err(StoreErrorView::NotFound(session_id))),
            Some(i) => if self.sessions[i].worker_generation != Some(generation) {
                (self, Err(StoreErrorView::StaleWorkerGeneration))
            } else if self.open_operations(session_id).len() > 0 {
                (
                    self,
                    Err(
                        StoreErrorView::Corrupt(
                            "cannot retire a session worker while an operation is open"@,
                        ),
                    ),
                )
            } else {
                match self.oldest_pending_input(session_id) {
                    Some(input) => (self, Ok(DrainDecisionView::Pending(input))),
                    None => (self.retired(i, status, now), Ok(DrainDecisionView::Retired)),
                }
            },
        }
    }

    /// The state after input `k` became operation `run_id` of session `i`.
    pub open spec fn started(
        self,
        i: int,
        k: int,
        run_id: Seq<char>,
        now: Seq<char>,
    ) -> StoreView {
        let row = self.sessions[i];
        let input = self.inputs[k];
        let record = RecordView {
            id: run_id,
            run_id,
            seq: row.next_seq,
            kind: "operation_started"@,
            payload: JsonView::object().with("source_leaf_id"@, leaf_json(row.leaf_id)).with(
                "input_id"@,
                JsonView::Str(input.id),
            ),
        };
        let entry = EntryView {
            id: run_id + ":user"@,
            parent_id: row.leaf_id,
            seq: row.next_seq + 1,
            kind: "message"@,
            payload: input.prompt,
        };
        StoreView {
            sessions: self.sessions.update(
                i,
                SessionRowView {
                    next_seq: row.next_seq + 2,
                    leaf_id: Some(run_id + ":user"@),
                    open_operation_id: Some(run_id),
                    ..row
                },
            ),
            records: self.records.push(RecordRowView { session_id: input.session_id, record }),
            entries: self.entries.push(EntryRowView { session_id: input.session_id, entry }),
            inputs: self.inputs.update(
                k,
                SessionInputView {
                    state: SessionInputState::Started,
                    operation_id: Some(run_id),
                    started_at: Some(now),
                    ..input
                },
            ),
            ..self
        }
    }

    /// The state and result of starting the oldest waiting input as operation
    /// `run_id`, if it is the expected one.
    pub open spec fn start_oldest(
        self,
        session_id: Seq<char>,
        expected: Seq<char>,
        run_id: Seq<char>,
        now: Seq<char>,
    ) -> (StoreView, Result<Option<SessionInputView>, StoreErrorView>) {
        match oldest_at(self.inputs, session_id) {
            None => (self, Ok(None)),
            Some(k) => {
                let input = self.inputs[k];
                if input.id != expected {
                    (
                        self,
                        Err(
                            StoreErrorView::Corrupt(
                                "session input `"@ + expected
                                    + "` is not the oldest pending input"@,
                            ),
                        ),
                    )
                } else if self.open_operations(session_id).len() > 0 {
                    (
                        self,
                        Err(
                            StoreErrorView::Corrupt(
                                "cannot start a session input while an operation is open \
                                    (recover first)"@,
                            ),
                        ),
                    )
                } else {
                    match (options_verdict(input.options), session_in(self.sessions, session_id)) {
                        (Err(e), _) => (self, Err(e)),
                        (_, None) => (self, Err(no_rows())),
                        (Ok(()), Some(i)) => {
                            let row = self.sessions[i];
                            if row.next_seq >= i64::MAX {
                                (self, Err(no_numbers()))
                            } else if record_in(self.records, run_id) {
                                (self, Err(key_taken("records.id"@)))
                            } else if row.next_seq + 1 >= i64::MAX {
                                (self, Err(no_numbers()))
                            } else {
                                match prompt_verdict(input.prompt) {
                                    Err(e) => (self, Err(e)),
                                    Ok(()) => if entry_in(self.entries, run_id + ":user"@) {
                                        (self, Err(key_taken("entries.id"@)))
                                    } else {
                                        let next = self.started(i, k, run_id, now);
                                        (next, Ok(Some(next.inputs[k])))
                                    },
                                }
                            }
                        },
                    }
                }
            },
        }
    }
}

impl Store {
    fn input_index(&self, id: &str) -> (r: Option<usize>)
        ensures
            match r {
                Some(i) => input_at(self@.inputs, id@) == Some(i as int) && i < self.inputs@.len(),
                None => input_at(self@.inputs, id@) is None,
            },
    {
        let mut n: usize = self.inputs.len();
        let ghost rows = self@.inputs;
        proof {
            assert(rows.take(n as int) =~= rows);
        }
        while n > 0
            invariant
                rows == self@.inputs,
                n <= self.inputs@.len(),
                input_at(rows, id@) == input_at(rows.take(n as int), id@),
            decreases n,
        {
            n -= 1;
            proof {
                lemma_step(rows, n as int);
                assert(rows[n as int] == self.inputs@[n as int]@);
            }
            if same(self.inputs[n].id.as_str(), id) {
                return Some(n);
            }
        }
        None
    }

    fn top_position(&self, session_id: &str) -> (r: i64)
        ensures
            r == top_position(self@.inputs, session_id@),
    {
        let mut top: Option<i64> = None;
        let ghost rows = self@.inputs;
        let mut i: usize = 0;
        while i < self.inputs.len()
            invariant
                rows == self@.inputs,
                i <= self.inputs@.len(),
                highest(rows.take(i as int), session_id@) == (match top {
                    Some(p) => Some(p as int),
                    None => None::<int>,
                }),
            decreases self.inputs@.len() - i,
        {
            let row = &self.inputs[i];
            proof {
                lemma_step(rows, i as int);
                assert(rows[i as int] == row@);
            }
            if same(row.session_id.as_str(), session_id) {
                top = match top {
                    Some(p) => if p >= row.position {
                        Some(p)
                    } else {
                        Some(row.position)
                    },
                    None => Some(row.position),
                };
            }
            i += 1;
        }
        proof {
            assert(rows.take(i as int) =~= rows);
        }
        match top {
            Some(p) => p,
            None => 0,
        }
    }

    fn oldest_index(&self, session_id: &str) -> (r: Option<usize>)
        ensures
            match r {
                Some(i) => oldest_at(self@.inputs, session_id@) == Some(i as int) && i
                    < self.inputs@.len(),
                None => oldest_at(self@.inputs, session_id@) is None,
            },
    {
        let mut found: Option<usize> = None;
        let ghost rows = self@.inputs;
        let mut i: usize = 0;
        while i < self.inputs.len()
            invariant
                rows == self@.inputs,
                i <= self.inputs@.len(),
                match found {
                    Some(k) => k < i && oldest_at(rows.take(i as int), session_id@) == Some(
                        k as int,
                    ),
                    None => oldest_at(rows.take(i as int), session_id@) is None,
                },
            decreases self.inputs@.len() - i,
        {
            let row = &self.inputs[i];
            proof {
                lemma_step(rows, i as int);
                assert(rows[i as int] == row@);
            }
            if same(row.session_id.as_str(), session_id) && row.state
                == SessionInputState::Pending {
                found = match found {
                    Some(k) => {
                        proof {
                            assert(rows.take(i + 1)[k as int] == self.inputs@[k as int]@);
                        }
                        if self.inputs[k].position <= row.position {
                            Some(k)
                        } else {
                            Some(i)
                        }
                    },
                    None => Some(i),
                };
            }
            i += 1;
        }
        proof {
            assert(rows.take(i as int) =~= rows);
        }
        found
    }

    /// Durably enqueue one input with default execution options.
    pub fn enqueue_input(
        &mut self,
        session_id: &str,
        provisioned_id: &str,
        prompt: &Payload,
        now: &str,
    ) -> (r: Result<SessionInput, StoreError>)
        ensures
            (final(self)@, outcome(r)) == old(self)@.enqueue(
                session_id@,
                provisioned_id@,
                prompt@,
                JsonView::object(),
                now@,
            ),
    {
        let options = Json::object();
        match self.enqueue_input_for_worker(session_id, provisioned_id, prompt, &options, now) {
            Ok(result) => Ok(result.input),
            Err(e) => Err(e),
        }
    }

    /// Durably enqueue one input with its execution policy.
    ///
    /// Reusing an id for the same session, prompt, and options returns the
    /// original row without allocating another position.
    pub fn enqueue_input_for_worker(
        &mut self,
        session_id: &str,
        provisioned_id: &str,
        prompt: &Payload,
        options: &Json,
        now: &str,
    ) -> (r: Result<EnqueueInputResult, StoreError>)
        ensures
            final(self)@ == old(self)@.enqueue(
                session_id@,
                provisioned_id@,
                prompt@,
                options@,
                now@,
            ).0,
            old(self)@.enqueue(session_id@, provisioned_id@, prompt@, options@, now@).1 == (
            match r {
                Ok(result) => Ok::<SessionInputView, StoreErrorView>(result.input@),
                Err(e) => Err(e@),
            }),
    {
        match validate_user_prompt(prompt) {
            Err(e) => {
                return Err(e);
            },
            Ok(()) => {},
        }
        match validate_input_options(options) {
            Err(e) => {
                return Err(e);
            },
            Ok(()) => {},
        }
        match self.input_index(provisioned_id) {
            Some(i) => {
                let existing = &self.inputs[i];
                proof {
                    assert(self@.inputs[i as int] == existing@);
                }
                if !same(existing.session_id.as_str(), session_id) || !same_payload(
                    &existing.prompt,
                    prompt,
                ) || !same_json(&existing.options, options) {
                    return Err(
                        StoreError::Corrupt(
                            "session input id `".to_owned().concat(provisioned_id).concat(
                                "` was reused with different input",
                            ),
                        ),
                    );
                }
                return Ok(EnqueueInputResult { input: existing.clone() });
            },
            None => {},
        }
        let top: i64 = self.top_position(session_id);
        if top >= i64::MAX {
            return Err(StoreError::Db("Invalid column type Real at index: 0, name: COALESCE(MAX(position), 0) + 1".to_owned()));
        }
        if self.session_index(session_id).is_none() {
            return Err(StoreError::Db("FOREIGN KEY constraint failed".to_owned()));
        }
        let input = SessionInput {
            id: provisioned_id.to_owned(),
            session_id: session_id.to_owned(),
            position: top + 1,
            prompt: prompt.clone(),
            options: options.clone(),
            state: SessionInputState::Pending,
            operation_id: None,
            enqueued_at: now.to_owned(),
            started_at: None,
        };
        let ghost before = self@;
        let copy = input.clone();
        self.inputs.push(input);
        proof {
            assert(self@.inputs =~= before.inputs.push(copy@));
        }
        Ok(EnqueueInputResult { input: copy })
    }

    /// Whether a session has an input waiting or an operation requiring
    /// recovery.
    pub fn has_pending_or_open_work(&self, session_id: &str) -> (r: bool)
        ensures
            r == self@.has_work(session_id@),
    {
        self.oldest_index(session_id).is_some() || self.open_operations(session_id).len() > 0
    }

    /// Return the oldest pending input or retire the supplied worker
    /// generation. A pending input never clears lifecycle; retirement clears
    /// it only after proving the queue empty.
    pub fn drain_or_retire_worker(
        &mut self,
        session_id: &str,
        generation: &str,
        terminal_status: &str,
        now: &str,
    ) -> (r: Result<DrainDecision, StoreError>)
        ensures
            (final(self)@, outcome(r)) == old(self)@.drain_or_retire(
                session_id@,
                generation@,
                terminal_status@,
                now@,
            ),
    {
        let i = match self.session_index(session_id) {
            Some(i) => i,
            None => {
                return Err(StoreError::NotFound(session_id.to_owned()));
            },
        };
        proof {
            assert(self@.sessions[i as int] == self.sessions@[i as int]@);
        }
        let current = match &self.sessions[i].worker_generation {
            Some(g) => same(g.as_str(), generation),
            None => false,
        };
        if !current {
            return Err(StoreError::StaleWorkerGeneration);
        }
        if self.open_operations(session_id).len() > 0 {
            return Err(
                StoreError::Corrupt(
                    "cannot retire a session worker while an operation is open".to_owned(),
                ),
            );
        }
        match self.oldest_index(session_id) {
            Some(k) => Ok(DrainDecision::Pending(self.inputs[k].clone())),
            None => {
                let ghost before = self@;
                self.sessions[i].session.status = terminal_status.to_owned();
                self.sessions[i].session.pid = None;
                self.sessions[i].session.updated_at = now.to_owned();
                self.sessions[i].worker_generation = None;
                self.sessions[i].worker_kind = None;
                proof {
                    assert(self@.sessions =~= before.retired(
                        i as int,
                        terminal_status@,
                        now@,
                    ).sessions);
                }
                Ok(DrainDecision::Retired)
            },
        }
    }

    /// All durable inputs for a session in their allocated FIFO order.
    pub fn list_inputs(&self, session_id: &str) -> (r: Vec<SessionInput>)
        ensures
            views(r@) == by_position(self@.inputs, session_id@),
    {
        let mut out: Vec<SessionInput> = Vec::new();
        let ghost rows = self@.inputs;
        let mut i: usize = 0;
        proof {
            assert(views(out@) =~= by_position(rows.take(0), session_id@));
        }
        while i < self.inputs.len()
            invariant
                rows == self@.inputs,
                i <= self.inputs@.len(),
                views(out@) == by_position(rows.take(i as int), session_id@),
            decreases self.inputs@.len() - i,
        {
            let row = &self.inputs[i];
            proof {
                lemma_step(rows, i as int);
                assert(rows[i as int] == row@);
            }
            if same(row.session_id.as_str(), session_id) {
                let ghost bv = views(out@);
                let mut n: usize = out.len();
                proof {
                    assert(bv.take(n as int) =~= bv);
                }
                while n > 0 && out[n - 1].position > row.position
                    invariant
                        bv == views(out@),
                        n <= out@.len(),
                        position_place(bv, row.position as int) == position_place(
                            bv.take(n as int),
                            row.position as int,
                        ),
                    decreases n,
                {
                    n -= 1;
                    proof {
                        lemma_step(bv, n as int);
                    }
                }
                proof {
                    if n > 0 {
                        lemma_step(bv, n - 1);
                        assert(bv[n - 1] == out@[n - 1]@);
                    }
                }
                let c = row.clone();
                let ghost cv = c@;
                out.insert(n, c);
                proof {
                    assert(views(out@) =~= bv.insert(n as int, cv));
                }
            }
            i += 1;
        }
        proof {
            assert(rows.take(i as int) =~= rows);
        }
        out
    }

    /// Inspect one provisioned input id within its session.
    pub fn inspect_input(&self, session_id: &str, input_id: &str) -> (r: Result<
        SessionInput,
        StoreError,
    >)
        ensures
            outcome(r) == self@.inspect_input(session_id@, input_id@),
    {
        match self.input_index(input_id) {
            Some(i) => if same(self.inputs[i].session_id.as_str(), session_id) {
                Ok(self.inputs[i].clone())
            } else {
                Err(StoreError::NotFound(input_id.to_owned()))
            },
            None => Err(StoreError::NotFound(input_id.to_owned())),
        }
    }

    /// The oldest input that has not yet started.
    pub fn oldest_pending_input(&self, session_id: &str) -> (r: Option<SessionInput>)
        ensures
            opt_view(r) == self@.oldest_pending_input(session_id@),
    {
        match self.oldest_index(session_id) {
            Some(i) => Some(self.inputs[i].clone()),
            None => None,
        }
    }

    /// Start `expected_input_id` as operation `run_id`, only if it is the
    /// session's oldest pending input. The state transition, operation record,
    /// user entry, input link and both lane pointers happen together or not at
    /// all.
    pub fn start_oldest_pending_input_as(
        &mut self,
        session_id: &str,
        expected_input_id: &str,
        run_id: &str,
        now: &str,
    ) -> (r: Result<Option<SessionInput>, StoreError>)
        ensures
            final(self)@ == old(self)@.start_oldest(
                session_id@,
                expected_input_id@,
                run_id@,
                now@,
            ).0,
            old(self)@.start_oldest(session_id@, expected_input_id@, run_id@, now@).1 == (match r {
                Ok(input) => Ok::<Option<SessionInputView>, StoreErrorView>(opt_view(input)),
                Err(e) => Err(e@),
            }),
    {
        let k = match self.oldest_index(session_id) {
            Some(k) => k,
            None => {
                return Ok(None);
            },
        };
        proof {
            lemma_oldest_at(self@.inputs, session_id@);
            assert(self@.inputs[k as int] == self.inputs@[k as int]@);
        }
        if !same(self.inputs[k].id.as_str(), expected_input_id) {
            return Err(
                StoreError::Corrupt(
                    "session input `".to_owned().concat(expected_input_id).concat(
                        "` is not the oldest pending input",
                    ),
                ),
            );
        }
        if self.open_operations(session_id).len() > 0 {
            return Err(
                StoreError::Corrupt(
                    "cannot start a session input while an operation is open (recover first)".to_owned(),
                ),
            );
        }
        match validate_input_options(&self.inputs[k].options) {
            Err(e) => {
                return Err(e);
            },
            Ok(()) => {},
        }
        let i = match self.session_index(session_id) {
            Some(i) => i,
            None => {
                return Err(StoreError::Db("Query returned no rows".to_owned()));
            },
        };
        proof {
            assert(self@.sessions[i as int] == self.sessions@[i as int]@);
        }
        let seq: i64 = self.sessions[i].next_seq;
        if seq >= i64::MAX {
            return Err(StoreError::Db("Invalid column type Real at index: 0, name: next_seq - 1".to_owned()));
        }
        if self.record_exists(run_id) {
            return Err(taken("records.id"));
        }
        if seq + 1 >= i64::MAX {
            return Err(StoreError::Db("Invalid column type Real at index: 0, name: next_seq - 1".to_owned()));
        }
        match validate_user_prompt(&self.inputs[k].prompt) {
            Err(e) => {
                return Err(e);
            },
            Ok(()) => {},
        }
        // The entry id is derived from the operation id. A committed start is
        // never replayed.
        let entry_id = run_id.to_owned().concat(":user");
        if self.entry_exists(entry_id.as_str()) {
            return Err(taken("entries.id"));
        }
        let ghost before = self@;
        let source = super::clone_opt(&self.sessions[i].leaf_id);
        let leaf = match &self.sessions[i].leaf_id {
            Some(id) => Json::Str(id.clone()),
            None => Json::Null,
        };
        let record = Record {
            id: run_id.to_owned(),
            run_id: run_id.to_owned(),
            seq,
            kind: "operation_started".to_owned(),
            payload: Json::object().with("source_leaf_id", leaf).with(
                "input_id",
                Json::text(self.inputs[k].id.as_str()),
            ),
        };
        let entry = Entry {
            id: entry_id.clone(),
            parent_id: source,
            seq: seq + 1,
            kind: "message".to_owned(),
            payload: self.inputs[k].prompt.clone(),
        };
        self.records.push(RecordRow { session_id: session_id.to_owned(), record });
        self.entries.push(EntryRow { session_id: session_id.to_owned(), entry });
        self.sessions[i].next_seq = seq + 2;
        self.sessions[i].leaf_id = Some(entry_id);
        self.sessions[i].open_operation_id = Some(run_id.to_owned());
        self.inputs[k].state = SessionInputState::Started;
        self.inputs[k].operation_id = Some(run_id.to_owned());
        self.inputs[k].started_at = Some(now.to_owned());
        proof {
            let want = before.started(i as int, k as int, run_id@, now@);
            assert(self@.records =~= want.records);
            assert(self@.entries =~= want.entries);
            assert(self@.sessions =~= want.sessions);
            assert(self@.inputs =~= want.inputs);
        }
        Ok(Some(self.inputs[k].clone()))
    }

    /// Start `expected_input_id` under a fresh random operation id.
    pub fn start_oldest_pending_input(
        &mut self,
        session_id: &str,
        expected_input_id: &str,
        now: &str,
    ) -> (r: Result<Option<SessionInput>, StoreError>)
        ensures
            exists|run_id: Seq<char>| #[trigger]
                is_uuid(run_id) && final(self)@ == old(self)@.start_oldest(
                    session_id@,
                    expected_input_id@,
                    run_id,
                    now@,
                ).0 && old(self)@.start_oldest(
                    session_id@,
                    expected_input_id@,
                    run_id,
                    now@,
                ).1 == (match r {
                    Ok(input) => Ok::<Option<SessionInputView>, StoreErrorView>(opt_view(input)),
                    Err(e) => Err(e@),
                }),
    {
        let run_id = random_id();
        self.start_oldest_pending_input_as(session_id, expected_input_id, run_id.as_str(), now)
    }
}

} // verus!
