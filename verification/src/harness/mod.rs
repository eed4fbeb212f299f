//! Durable execution: the composition of the agent loop and the store.
//!
//! [`StoreJournal`] writes the loop's durability protocol into the store:
//! intent records before effects, results at provisioned ids, everything
//! idempotent. [`prepare_session`] is the front door: recover if a previous
//! process died mid-run, then hand back the rebuilt transcript.
pub mod job;
pub mod laws;
pub mod pen;
pub mod todo;
pub mod worktree;

use vstd::prelude::*;
use vstd::string::*;

use crate::agent::journal::{JournalError, RunOutcome, ToolIntent, ToolIntentView};
use crate::ids::{is_uuid, random_id};
use crate::json::{Json, JsonView, NumView};
use crate::llm::{BlockView, Message, MessageView, Usage};
use crate::store::{Payload, PayloadView, Store, StoreError, StoreErrorView, StoreView};
use crate::store::recovery::{interrupted, recover, Recovery, RecoveryView};
use crate::store::sessions::{title_from, title_of};
use crate::text::{dec, decimal, lemma_step, opt_view, views};

verus! {

/// Recover a session if it has a crashed run, then return the transcript to
/// seed the agent with.
pub fn prepare_session(store: &mut Store, session_id: &str) -> (r: Result<
    (Vec<Message>, Option<Recovery>),
    StoreError,
>)
    ensures
        final(store)@ == old(store)@.recover(session_id@).0,
        match r {
            Ok(v) => old(store)@.recover(session_id@).1 == Ok::<
                Option<RecoveryView>,
                StoreErrorView,
            >(opt_view(v.1)) && final(store)@.path_messages(session_id@) == Ok::<
                Seq<MessageView>,
                StoreErrorView,
            >(views(v.0@)),
            Err(e) => match old(store)@.recover(session_id@).1 {
                Err(x) => e@ == x,
                Ok(_) => final(store)@.path_messages(session_id@) == Err::<
                    Seq<MessageView>,
                    StoreErrorView,
                >(e@),
            },
        },
{
    let recovery = match recover(store, session_id) {
        Ok(recovery) => recovery,
        Err(e) => {
            return Err(e);
        },
    };
    match store.path_messages(session_id) {
        Ok(messages) => Ok((messages, recovery)),
        Err(e) => Err(e),
    }
}

/// The durability protocol against a store, for one session.
#[derive(Debug)]
pub struct StoreJournal {
    session_id: String,
    run_id: Option<String>,
    /// Provisioned id for the current tool batch's grouped results entry,
    /// allocated at intent time so recovery can pair intents to it.
    pending_results_entry: Option<String>,
}

/// A journal, as a value.
pub struct StoreJournalView {
    pub session_id: Seq<char>,
    pub run_id: Option<Seq<char>>,
    pub pending_results_entry: Option<Seq<char>>,
}

impl View for StoreJournal {
    type V = StoreJournalView;

    closed spec fn view(&self) -> StoreJournalView {
        StoreJournalView {
            session_id: self.session_id@,
            run_id: opt_view(self.run_id),
            pending_results_entry: opt_view(self.pending_results_entry),
        }
    }
}

/// The result of a write, as a value.
pub open spec fn written(r: Result<(), JournalError>) -> Result<(), Seq<char>> {
    match r {
        Ok(()) => Ok(()),
        Err(e) => Err(e@),
    }
}

/// A store's result as the journal reports it.
pub open spec fn reported(r: Result<(), StoreErrorView>) -> Result<(), Seq<char>> {
    match r {
        Ok(()) => Ok(()),
        Err(e) => Err(e.words()),
    }
}

/// The record of a step.
pub open spec fn step_id(run_id: Seq<char>, attempt: u32) -> Seq<char> {
    run_id + ":step:"@ + dec(attempt as nat)
}

/// The record of an intent. Deterministic: a retried batch write stays
/// idempotent.
pub open spec fn intent_id(run_id: Seq<char>, tool_use_id: Seq<char>) -> Seq<char> {
    run_id + ":tool:"@ + tool_use_id
}

/// What the record of an intent says.
pub open spec fn intent_payload(intent: ToolIntentView, results_entry: Seq<char>) -> JsonView {
    JsonView::object().with("tool_use_id"@, JsonView::Str(intent.tool_use_id)).with(
        "name"@,
        JsonView::Str(intent.name),
    ).with("input"@, intent.input).with("replay_safe"@, JsonView::Bool(intent.replay_safe)).with(
        "results_entry_id"@,
        JsonView::Str(results_entry),
    )
}

/// The state and result of recording the intents of a batch, up to the first
/// that fails.
pub open spec fn record_intents(
    s: StoreView,
    session_id: Seq<char>,
    run_id: Seq<char>,
    results_entry: Seq<char>,
    intents: Seq<ToolIntentView>,
) -> (StoreView, Result<(), Seq<char>>)
    decreases intents.len(),
{
    if intents.len() == 0 {
        (s, Ok(()))
    } else {
        let (mid, r) = record_intents(s, session_id, run_id, results_entry, intents.drop_last());
        match r {
            Err(e) => (mid, Err(e)),
            Ok(()) => {
                let intent = intents.last();
                let (next, t) = mid.append_record(
                    session_id,
                    intent_id(run_id, intent.tool_use_id),
                    run_id,
                    "tool_started"@,
                    intent_payload(intent, results_entry),
                );
                (next, reported(t))
            },
        }
    }
}

/// Once an intent could not be recorded nothing more is written.
proof fn lemma_record_error(
    s: StoreView,
    session_id: Seq<char>,
    run_id: Seq<char>,
    results_entry: Seq<char>,
    intents: Seq<ToolIntentView>,
    i: int,
)
    requires
        0 <= i <= intents.len(),
        record_intents(s, session_id, run_id, results_entry, intents.take(i)).1 is Err,
    ensures
        record_intents(s, session_id, run_id, results_entry, intents) == record_intents(
            s,
            session_id,
            run_id,
            results_entry,
            intents.take(i),
        ),
    decreases intents.len() - i,
{
    if i < intents.len() {
        lemma_step(intents, i);
        lemma_record_error(s, session_id, run_id, results_entry, intents, i + 1);
    } else {
        assert(intents.take(i) =~= intents);
    }
}

/// What a journal says before a run was started.
pub open spec fn not_started() -> Seq<char> {
    "journal used before run_started"@
}

impl StoreJournalView {
    /// The start of a run: an operation, then the user message.
    pub open spec fn run_started(
        self,
        s: StoreView,
        run_id: Seq<char>,
        entry_id: Seq<char>,
        user: MessageView,
    ) -> (StoreJournalView, StoreView, Result<(), Seq<char>>) {
        let (a, r) = s.start_operation(self.session_id, run_id, JsonView::object());
        match r {
            Err(e) => (self, a, Err(e.words())),
            Ok(_) => {
                let (b, t) = a.append_entry(
                    self.session_id,
                    entry_id,
                    "message"@,
                    PayloadView::Message(user),
                );
                match t {
                    Err(e) => (self, b, Err(e.words())),
                    Ok(()) => (StoreJournalView { run_id: Some(run_id), ..self }, b, Ok(())),
                }
            },
        }
    }

    /// A provider request.
    pub open spec fn step_attempt(self, s: StoreView, attempt: u32) -> (
        StoreView,
        Result<(), Seq<char>>,
    ) {
        match self.run_id {
            None => (s, Err(not_started())),
            Some(run) => {
                let (n, r) = s.append_record(
                    self.session_id,
                    step_id(run, attempt),
                    run,
                    "step_attempt"@,
                    JsonView::object().with(
                        "attempt"@,
                        JsonView::Num(NumView::Int(attempt as int)),
                    ),
                );
                (n, reported(r))
            },
        }
    }

    /// An assistant message.
    pub open spec fn assistant_message(
        self,
        s: StoreView,
        entry_id: Seq<char>,
        message: MessageView,
    ) -> (StoreView, Result<(), Seq<char>>) {
        match self.run_id {
            None => (s, Err(not_started())),
            Some(run) => {
                let (n, r) = s.append_entry(
                    self.session_id,
                    entry_id,
                    "message"@,
                    PayloadView::Message(message),
                );
                (n, reported(r))
            },
        }
    }

    /// The intents of a batch whose results go to `entry_id`.
    pub open spec fn tool_batch(
        self,
        s: StoreView,
        entry_id: Seq<char>,
        intents: Seq<ToolIntentView>,
    ) -> (StoreJournalView, StoreView, Result<(), Seq<char>>) {
        match self.run_id {
            None => (self, s, Err(not_started())),
            Some(run) => {
                let (n, r) = record_intents(s, self.session_id, run, entry_id, intents);
                match r {
                    Err(e) => (self, n, Err(e)),
                    Ok(()) => (
                        StoreJournalView { pending_results_entry: Some(entry_id), ..self },
                        n,
                        Ok(()),
                    ),
                }
            },
        }
    }

    /// The results of the pending batch, at its provisioned entry.
    pub open spec fn tool_results(self, s: StoreView, results: MessageView) -> (
        StoreJournalView,
        StoreView,
        Result<(), Seq<char>>,
    ) {
        match self.pending_results_entry {
            None => (self, s, Err("tool_results without a pending tool_batch"@)),
            Some(entry) => {
                let (n, r) = s.append_entry(
                    self.session_id,
                    entry,
                    "message"@,
                    PayloadView::Message(results),
                );
                (StoreJournalView { pending_results_entry: None, ..self }, n, reported(r))
            },
        }
    }

    /// The end of a run: the operation is finished, then usage and title roll
    /// forward.
    pub open spec fn run_finished(
        self,
        s: StoreView,
        outcome: RunOutcome,
        usage: Usage,
        now: Seq<char>,
    ) -> (StoreJournalView, StoreView, Result<(), Seq<char>>) {
        match self.run_id {
            None => (self, s, Err(not_started())),
            Some(run) => {
                let (a, r) = s.finish_operation(self.session_id, run, outcome.name());
                match r {
                    Err(e) => (self, a, Err(e.words())),
                    Ok(()) => match a.path_messages(self.session_id) {
                        Err(e) => (self, a, Err(e.words())),
                        Ok(messages) => (
                            StoreJournalView { run_id: None, ..self },
                            a.update_session_meta(
                                self.session_id,
                                usage,
                                title_of(messages),
                                now,
                            ),
                            Ok(()),
                        ),
                    },
                }
            },
        }
    }
}

fn jerr(e: StoreError) -> (r: JournalError)
    ensures
        r@ == e@.words(),
{
    JournalError(e.to_string())
}

impl StoreJournal {
    /// A journal for a session.
    pub fn new(session_id: &str) -> (r: Self)
        ensures
            r@ == (StoreJournalView {
                session_id: session_id@,
                run_id: None,
                pending_results_entry: None,
            }),
    {
        StoreJournal {
            session_id: session_id.to_owned(),
            run_id: None,
            pending_results_entry: None,
        }
    }

    /// A journal for a run whose operation and user message are recorded already,
    /// as they are when a queued input starts.
    pub fn resumed(session_id: &str, run_id: &str) -> (r: Self)
        ensures
            r@ == (StoreJournalView {
                session_id: session_id@,
                run_id: Some(run_id@),
                pending_results_entry: None,
            }),
    {
        StoreJournal {
            session_id: session_id.to_owned(),
            run_id: Some(run_id.to_owned()),
            pending_results_entry: None,
        }
    }

    /// Record the start of a run under the given ids.
    pub fn run_started_as(
        &mut self,
        store: &mut Store,
        run_id: &str,
        entry_id: &str,
        user: &Message,
    ) -> (r: Result<(), JournalError>)
        ensures
            (final(self)@, final(store)@, written(r)) == old(self)@.run_started(
                old(store)@,
                run_id@,
                entry_id@,
                user@,
            ),
    {
        let body = Json::object();
        match store.start_operation_as(self.session_id.as_str(), run_id, &body) {
            Err(e) => {
                return Err(jerr(e));
            },
            Ok(_) => {},
        }
        let payload = Payload::Message(user.clone());
        match store.append_entry(self.session_id.as_str(), entry_id, "message", &payload) {
            Err(e) => {
                return Err(jerr(e));
            },
            Ok(()) => {},
        }
        self.run_id = Some(run_id.to_owned());
        Ok(())
    }

    /// A run was accepted: record the operation and the user message under
    /// fresh random ids.
    pub fn run_started(&mut self, store: &mut Store, user: &Message) -> (r: Result<
        (),
        JournalError,
    >)
        ensures
            exists|run_id: Seq<char>, entry_id: Seq<char>|
                #![trigger is_uuid(run_id), is_uuid(entry_id)]
                is_uuid(run_id) && is_uuid(entry_id) && (
                    final(self)@,
                    final(store)@,
                    written(r),
                ) == old(self)@.run_started(old(store)@, run_id, entry_id, user@),
    {
        let run_id = random_id();
        let entry_id = random_id();
        self.run_started_as(store, run_id.as_str(), entry_id.as_str(), user)
    }

    /// About to make provider request number `attempt` (from one).
    pub fn step_attempt(&mut self, store: &mut Store, attempt: u32) -> (r: Result<
        (),
        JournalError,
    >)
        ensures
            final(self)@ == old(self)@,
            (final(store)@, written(r)) == old(self)@.step_attempt(old(store)@, attempt),
    {
        let run_id = match &self.run_id {
            Some(run) => run.clone(),
            None => {
                return Err(JournalError("journal used before run_started".to_owned()));
            },
        };
        let n = decimal(attempt as u64);
        let id = run_id.clone().concat(":step:").concat(n.as_str());
        let body = Json::object().with("attempt", Json::number(attempt as u64));
        match store.append_record(
            self.session_id.as_str(),
            id.as_str(),
            run_id.as_str(),
            "step_attempt",
            &body,
        ) {
            Ok(()) => Ok(()),
            Err(e) => Err(jerr(e)),
        }
    }

    /// Record an assistant message under the given entry id.
    pub fn assistant_message_as(
        &mut self,
        store: &mut Store,
        entry_id: &str,
        message: &Message,
    ) -> (r: Result<(), JournalError>)
        ensures
            final(self)@ == old(self)@,
            (final(store)@, written(r)) == old(self)@.assistant_message(
                old(store)@,
                entry_id@,
                message@,
            ),
    {
        if self.run_id.is_none() {
            return Err(JournalError("journal used before run_started".to_owned()));
        }
        let payload = Payload::Message(message.clone());
        match store.append_entry(self.session_id.as_str(), entry_id, "message", &payload) {
            Ok(()) => Ok(()),
            Err(e) => Err(jerr(e)),
        }
    }

    /// The provider produced an assistant message; make it durable.
    pub fn assistant_message(&mut self, store: &mut Store, message: &Message) -> (r: Result<
        (),
        JournalError,
    >)
        ensures
            final(self)@ == old(self)@,
            exists|entry_id: Seq<char>| #[trigger]
                is_uuid(entry_id) && (final(store)@, written(r)) == old(
                    self,
                )@.assistant_message(old(store)@, entry_id, message@),
    {
        let entry_id = random_id();
        self.assistant_message_as(store, entry_id.as_str(), message)
    }

    /// Record the intents of a batch whose results will go to the given entry.
    pub fn tool_batch_as(
        &mut self,
        store: &mut Store,
        entry_id: &str,
        intents: &Vec<ToolIntent>,
    ) -> (r: Result<(), JournalError>)
        ensures
            (final(self)@, final(store)@, written(r)) == old(self)@.tool_batch(
                old(store)@,
                entry_id@,
                views(intents@),
            ),
    {
        let run_id = match &self.run_id {
            Some(run) => run.clone(),
            None => {
                return Err(JournalError("journal used before run_started".to_owned()));
            },
        };
        let ghost start = store@;
        let ghost all = views(intents@);
        let ghost sid = self.session_id@;
        let mut i: usize = 0;
        while i < intents.len()
            invariant
                start == old(store)@,
                all == views(intents@),
                self@ == old(self)@,
                sid == self.session_id@,
                self@.session_id == sid,
                self@.run_id == Some(run_id@),
                i <= intents@.len(),
                record_intents(start, sid, run_id@, entry_id@, all.take(i as int)) == (
                    store@,
                    Ok::<(), Seq<char>>(()),
                ),
            decreases intents@.len() - i,
        {
            let intent = &intents[i];
            proof {
                lemma_step(all, i as int);
                assert(all[i as int] == intent@);
            }
            let id = run_id.clone().concat(":tool:").concat(intent.tool_use_id.as_str());
            let body = Json::object().with(
                "tool_use_id",
                Json::text(intent.tool_use_id.as_str()),
            ).with("name", Json::text(intent.name.as_str())).with(
                "input",
                intent.input.clone(),
            ).with("replay_safe", Json::Bool(intent.replay_safe)).with(
                "results_entry_id",
                Json::text(entry_id),
            );
            match store.append_record(
                self.session_id.as_str(),
                id.as_str(),
                run_id.as_str(),
                "tool_started",
                &body,
            ) {
                Err(e) => {
                    proof {
                        lemma_record_error(start, sid, run_id@, entry_id@, all, i + 1);
                    }
                    return Err(jerr(e));
                },
                Ok(()) => {},
            }
            i += 1;
        }
        proof {
            assert(all.take(i as int) =~= all);
        }
        self.pending_results_entry = Some(entry_id.to_owned());
        Ok(())
    }

    /// About to execute these tools: their intents become durable before any
    /// effect runs.
    pub fn tool_batch(&mut self, store: &mut Store, intents: &Vec<ToolIntent>) -> (r: Result<
        (),
        JournalError,
    >)
        ensures
            exists|entry_id: Seq<char>| #[trigger]
                is_uuid(entry_id) && (final(self)@, final(store)@, written(r)) == old(
                    self,
                )@.tool_batch(old(store)@, entry_id, views(intents@)),
    {
        let entry_id = random_id();
        self.tool_batch_as(store, entry_id.as_str(), intents)
    }

    /// The batch finished; `results` is the grouped tool-results message.
    pub fn tool_results(&mut self, store: &mut Store, results: &Message) -> (r: Result<
        (),
        JournalError,
    >)
        ensures
            (final(self)@, final(store)@, written(r)) == old(self)@.tool_results(
                old(store)@,
                results@,
            ),
    {
        let entry_id = match self.pending_results_entry.take() {
            Some(entry) => entry,
            None => {
                return Err(JournalError("tool_results without a pending tool_batch".to_owned()));
            },
        };
        let payload = Payload::Message(results.clone());
        match store.append_entry(
            self.session_id.as_str(),
            entry_id.as_str(),
            "message",
            &payload,
        ) {
            Ok(()) => Ok(()),
            Err(e) => Err(jerr(e)),
        }
    }

    /// The run ended.
    pub fn run_finished(
        &mut self,
        store: &mut Store,
        outcome: RunOutcome,
        usage: Usage,
        now: &str,
    ) -> (r: Result<(), JournalError>)
        ensures
            (final(self)@, final(store)@, written(r)) == old(self)@.run_finished(
                old(store)@,
                outcome,
                usage,
                now@,
            ),
    {
        let run_id = match &self.run_id {
            Some(run) => run.clone(),
            None => {
                return Err(JournalError("journal used before run_started".to_owned()));
            },
        };
        match store.finish_operation(self.session_id.as_str(), run_id.as_str(), outcome.as_str()) {
            Err(e) => {
                return Err(jerr(e));
            },
            Ok(()) => {},
        }
        let path = match store.path_messages(self.session_id.as_str()) {
            Err(e) => {
                return Err(jerr(e));
            },
            Ok(path) => path,
        };
        let title = title_from(&path);
        store.update_session_meta(self.session_id.as_str(), usage, title.as_str(), now);
        self.run_id = None;
        Ok(())
    }
}

/// Recovery of an intent that this journal recorded answers the very call, and
/// finds the entry its results were meant for.
pub proof fn law_journaled_intents_are_recoverable(
    intent: ToolIntentView,
    results_entry: Seq<char>,
)
    ensures
        intent_payload(intent, results_entry).str_field("results_entry_id"@) == Some(results_entry),
        interrupted(intent_payload(intent, results_entry)) matches BlockView::ToolResult {
            tool_use_id,
            content,
            is_error,
        } && tool_use_id == intent.tool_use_id && is_error,
{
    reveal_strlit("tool_use_id");
    reveal_strlit("name");
    reveal_strlit("input");
    reveal_strlit("replay_safe");
    reveal_strlit("results_entry_id");
    assert("tool_use_id"@[0] == 't');
    assert("name"@[0] == 'n');
    assert("input"@[0] == 'i');
    assert("replay_safe"@.len() == 11);
    assert("results_entry_id"@.len() == 16);
    assert("replay_safe"@[0] == 'r');
    assert("results_entry_id"@[0] == 'r');
}

/// Recording a batch again, as a retry does, changes nothing.
pub proof fn law_batch_records_are_idempotent(
    s: StoreView,
    session_id: Seq<char>,
    run_id: Seq<char>,
    entry: Seq<char>,
    again: Seq<char>,
    intents: Seq<ToolIntentView>,
)
    requires
        record_intents(s, session_id, run_id, entry, intents).1 is Ok,
    ensures
        ({
            let once = record_intents(s, session_id, run_id, entry, intents).0;
            record_intents(once, session_id, run_id, again, intents) == (
                once,
                Ok::<(), Seq<char>>(()),
            )
        }),
{
    let once = record_intents(s, session_id, run_id, entry, intents).0;
    assert forall|i: int| 0 <= i < intents.len() implies crate::store::record_in(
        once.records,
        intent_id(run_id, (#[trigger] intents[i]).tool_use_id),
    ) by {
        lemma_recorded(s, session_id, run_id, entry, intents, i);
    }
    lemma_record_again(once, session_id, run_id, again, intents);
}

proof fn lemma_recorded(
    s: StoreView,
    session_id: Seq<char>,
    run_id: Seq<char>,
    entry: Seq<char>,
    intents: Seq<ToolIntentView>,
    i: int,
)
    requires
        record_intents(s, session_id, run_id, entry, intents).1 is Ok,
        0 <= i < intents.len(),
    ensures
        crate::store::record_in(
            record_intents(s, session_id, run_id, entry, intents).0.records,
            intent_id(run_id, intents[i].tool_use_id),
        ),
    decreases intents.len(),
{
    let rest = intents.drop_last();
    let mid = record_intents(s, session_id, run_id, entry, rest).0;
    let n = record_intents(s, session_id, run_id, entry, intents).0;
    let last = intent_id(run_id, intents.last().tool_use_id);
    if i < rest.len() {
        lemma_recorded(s, session_id, run_id, entry, rest, i);
        let want = intent_id(run_id, rest[i].tool_use_id);
        let k = choose|k: int|
            0 <= k < mid.records.len() && (#[trigger] mid.records[k]).record.id == want;
        assert(n.records[k] == mid.records[k]);
    } else if !crate::store::record_in(mid.records, last) {
        assert(n.records[mid.records.len() as int].record.id == last);
    }
}

proof fn lemma_record_again(
    s: StoreView,
    session_id: Seq<char>,
    run_id: Seq<char>,
    entry: Seq<char>,
    intents: Seq<ToolIntentView>,
)
    requires
        forall|i: int|
            0 <= i < intents.len() ==> crate::store::record_in(
                s.records,
                intent_id(run_id, (#[trigger] intents[i]).tool_use_id),
            ),
    ensures
        record_intents(s, session_id, run_id, entry, intents) == (s, Ok::<(), Seq<char>>(())),
    decreases intents.len(),
{
    if intents.len() > 0 {
        let rest = intents.drop_last();
        assert forall|i: int| 0 <= i < rest.len() implies crate::store::record_in(
            s.records,
            intent_id(run_id, (#[trigger] rest[i]).tool_use_id),
        ) by {
            assert(rest[i] == intents[i]);
        }
        lemma_record_again(s, session_id, run_id, entry, rest);
        assert(intents[intents.len() - 1] == intents.last());
    }
}

} // verus!
