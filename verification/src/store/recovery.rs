//! Crash recovery.
//!
//! Reduction discovered a suspended run (an `operation_started` with no
//! `operation_finished`). Recovery makes the session usable again without
//! re-running anything: unfulfilled tool intents get synthetic `interrupted`
//! results at their provisioned entry ids, the transcript is closed so it
//! never ends on a dangling user message, and the operation is finished as
//! `aborted`. Every append is idempotent on its provisioned id, so re-running
//! recovery after a crash *during* recovery is safe.
use vstd::prelude::*;
use vstd::string::*;

use super::{
    entry_in, Payload, PayloadView, Record, RecordView, Store, StoreError, StoreErrorView,
    StoreView,
};
use crate::json::{Json, JsonView};
use crate::llm::{is_result, BlockView, ContentBlock, Message, MessageView, Role};
use crate::text::{lemma_step, same, views};

verus! {

/// What a recovery did.
#[derive(Debug)]
pub struct Recovery {
    pub run_id: String,
    /// Tool calls that got synthetic interrupted results.
    pub interrupted_tools: usize,
    /// Whether a closing assistant entry was appended.
    pub closed_with_note: bool,
}

/// What a recovery did, as a value.
pub struct RecoveryView {
    pub run_id: Seq<char>,
    pub interrupted_tools: int,
    pub closed_with_note: bool,
}

impl View for Recovery {
    type V = RecoveryView;

    open spec fn view(&self) -> RecoveryView {
        RecoveryView {
            run_id: self.run_id@,
            interrupted_tools: self.interrupted_tools as int,
            closed_with_note: self.closed_with_note,
        }
    }
}

/// The tool intents that share one results entry.
struct Batch {
    id: String,
    intents: Vec<Json>,
}

/// The tool intents that share one results entry.
pub struct BatchView {
    pub id: Seq<char>,
    pub intents: Seq<JsonView>,
}

impl View for Batch {
    type V = BatchView;

    closed spec fn view(&self) -> BatchView {
        BatchView { id: self.id@, intents: views(self.intents@) }
    }
}

/// Where the batch of entry `id` stands.
pub open spec fn batch_at(bs: Seq<BatchView>, id: Seq<char>) -> Option<int>
    decreases bs.len(),
{
    if bs.len() == 0 {
        None
    } else if bs.last().id == id {
        Some(bs.len() - 1)
    } else {
        batch_at(bs.drop_last(), id)
    }
}

/// What `batch_at` says.
pub proof fn lemma_batch_at(bs: Seq<BatchView>, id: Seq<char>)
    ensures
        match batch_at(bs, id) {
            Some(i) => 0 <= i < bs.len() && bs[i].id == id,
            None => forall|i: int| 0 <= i < bs.len() ==> (#[trigger] bs[i]).id != id,
        },
    decreases bs.len(),
{
    if bs.len() > 0 {
        lemma_batch_at(bs.drop_last(), id);
        assert forall|j: int| 0 <= j < bs.len() - 1 implies #[trigger] bs[j]
            == bs.drop_last()[j] by {}
    }
}

/// The tool intents of a run, grouped by their shared provisioned results
/// entry, in the order the entries first occur.
pub open spec fn batches(records: Seq<RecordView>) -> Seq<BatchView>
    decreases records.len(),
{
    if records.len() == 0 {
        Seq::empty()
    } else {
        let before = batches(records.drop_last());
        let record = records.last();
        if record.kind != "tool_started"@ {
            before
        } else {
            match record.payload.str_field("results_entry_id"@) {
                None => before,
                Some(id) => match batch_at(before, id) {
                    Some(i) => before.update(
                        i,
                        BatchView { id, intents: before[i].intents.push(record.payload) },
                    ),
                    None => before.push(BatchView { id, intents: seq![record.payload] }),
                },
            }
        }
    }
}

/// How many intents the batches hold.
pub open spec fn intent_count(bs: Seq<BatchView>) -> nat
    decreases bs.len(),
{
    if bs.len() == 0 {
        0
    } else {
        intent_count(bs.drop_last()) + bs.last().intents.len()
    }
}

/// One more intent in a batch is one more in all.
pub(crate) proof fn lemma_count_update(bs: Seq<BatchView>, i: int, b: BatchView)
    requires
        0 <= i < bs.len(),
        b.intents.len() == bs[i].intents.len() + 1,
    ensures
        intent_count(bs.update(i, b)) == intent_count(bs) + 1,
    decreases bs.len(),
{
    if i == bs.len() - 1 {
        assert(bs.update(i, b).drop_last() =~= bs.drop_last());
    } else {
        assert(bs.update(i, b).drop_last() =~= bs.drop_last().update(i, b));
        lemma_count_update(bs.drop_last(), i, b);
    }
}

/// A further batch adds its intents.
pub(crate) proof fn lemma_count_push(bs: Seq<BatchView>, b: BatchView)
    ensures
        intent_count(bs.push(b)) == intent_count(bs) + b.intents.len(),
{
    assert(bs.push(b).drop_last() =~= bs);
}

/// No intent is counted that no record states.
proof fn lemma_batches_count(records: Seq<RecordView>)
    ensures
        intent_count(batches(records)) <= records.len(),
    decreases records.len(),
{
    if records.len() > 0 {
        lemma_batches_count(records.drop_last());
        let before = batches(records.drop_last());
        let record = records.last();
        if record.kind == "tool_started"@ {
            if let Some(id) = record.payload.str_field("results_entry_id"@) {
                lemma_batch_at(before, id);
                match batch_at(before, id) {
                    Some(i) => {
                        lemma_count_update(
                            before,
                            i,
                            BatchView { id, intents: before[i].intents.push(record.payload) },
                        );
                    },
                    None => {
                        lemma_count_push(
                            before,
                            BatchView { id, intents: seq![record.payload] },
                        );
                    },
                }
            }
        }
    }
}

proof fn lemma_count_take(bs: Seq<BatchView>, i: int)
    requires
        0 <= i <= bs.len(),
    ensures
        intent_count(bs.take(i)) <= intent_count(bs),
    decreases bs.len() - i,
{
    if i < bs.len() {
        lemma_step(bs, i);
        lemma_count_take(bs, i + 1);
    } else {
        assert(bs.take(i) =~= bs);
    }
}

/// What an interrupted tool call answers.
pub open spec fn interrupted(intent: JsonView) -> BlockView {
    BlockView::ToolResult {
        tool_use_id: match intent.str_field("tool_use_id"@) {
            Some(id) => id,
            None => Seq::empty(),
        },
        content: "interrupted: bullpen exited before this tool finished"@,
        is_error: true,
    }
}

/// The message with the results of a batch that was interrupted.
pub open spec fn interrupted_results(intents: Seq<JsonView>) -> MessageView {
    MessageView { role: Role::User, content: intents.map_values(|p: JsonView| interrupted(p)) }
}

/// The note that closes a recovered transcript.
pub open spec fn closing_note() -> MessageView {
    MessageView {
        role: Role::Assistant,
        content: seq![
            BlockView::Text {
                text: "[this run was interrupted and recovered; state above may be incomplete]"@,
            },
        ],
    }
}

/// Whether a transcript ends on a user message.
pub open spec fn ends_on_user(messages: Seq<MessageView>) -> bool {
    messages.len() > 0 && messages.last().role == Role::User
}

/// The entry that closes a recovered run.
pub open spec fn closing_id(run_id: Seq<char>) -> Seq<char> {
    run_id + ":closing"@
}

impl StoreView {
    /// The state, and the number of interrupted calls, after every batch
    /// without results got synthetic ones.
    pub open spec fn fill_batches(self, session_id: Seq<char>, bs: Seq<BatchView>) -> (
        StoreView,
        Result<int, StoreErrorView>,
    )
        decreases bs.len(),
    {
        if bs.len() == 0 {
            (self, Ok(0))
        } else {
            let (mid, r) = self.fill_batches(session_id, bs.drop_last());
            let b = bs.last();
            match r {
                Err(e) => (mid, Err(e)),
                Ok(n) => if entry_in(mid.entries, b.id) {
                    (mid, Ok(n))
                } else {
                    let (next, s) = mid.append_entry(
                        session_id,
                        b.id,
                        "message"@,
                        PayloadView::Message(interrupted_results(b.intents)),
                    );
                    match s {
                        Err(e) => (next, Err(e)),
                        Ok(()) => (next, Ok(n + b.intents.len())),
                    }
                },
            }
        }
    }

    /// The state after closing the transcript, and whether a note was needed.
    pub open spec fn close_transcript(self, session_id: Seq<char>, run_id: Seq<char>) -> (
        StoreView,
        Result<bool, StoreErrorView>,
    ) {
        match self.path_messages(session_id) {
            Err(e) => (self, Err(e)),
            Ok(messages) => if ends_on_user(messages) {
                let (next, r) = self.append_entry(
                    session_id,
                    closing_id(run_id),
                    "message"@,
                    PayloadView::Message(closing_note()),
                );
                match r {
                    Err(e) => (next, Err(e)),
                    Ok(()) => (next, Ok(true)),
                }
            } else {
                (self, Ok(false))
            },
        }
    }

    /// The state and result of recovering a session.
    pub open spec fn recover(self, session_id: Seq<char>) -> (
        StoreView,
        Result<Option<RecoveryView>, StoreErrorView>,
    ) {
        match self.open_run(session_id) {
            Err(e) => (self, Err(e)),
            Ok(None) => (self, Ok(None)),
            Ok(Some(open)) => {
                let (filled, r) = self.fill_batches(session_id, batches(open.records));
                match r {
                    Err(e) => (filled, Err(e)),
                    Ok(n) => {
                        let (closed, s) = filled.close_transcript(session_id, open.run_id);
                        match s {
                            Err(e) => (closed, Err(e)),
                            Ok(note) => {
                                let (done, t) = closed.finish_operation(
                                    session_id,
                                    open.run_id,
                                    "aborted"@,
                                );
                                match t {
                                    Err(e) => (done, Err(e)),
                                    Ok(()) => (
                                        done,
                                        Ok(
                                            Some(
                                                RecoveryView {
                                                    run_id: open.run_id,
                                                    interrupted_tools: n,
                                                    closed_with_note: note,
                                                },
                                            ),
                                        ),
                                    ),
                                }
                            },
                        }
                    },
                }
            },
        }
    }
}

fn find_batch(bs: &Vec<Batch>, id: &str) -> (r: Option<usize>)
    ensures
        match r {
            Some(i) => batch_at(views(bs@), id@) == Some(i as int) && i < bs@.len(),
            None => batch_at(views(bs@), id@) is None,
        },
{
    let mut n: usize = bs.len();
    let ghost all = views(bs@);
    proof {
        assert(all.take(n as int) =~= all);
    }
    while n > 0
        invariant
            all == views(bs@),
            n <= bs@.len(),
            batch_at(all, id@) == batch_at(all.take(n as int), id@),
        decreases n,
    {
        n -= 1;
        proof {
            lemma_step(all, n as int);
            assert(all[n as int] == bs@[n as int]@);
        }
        if same(bs[n].id.as_str(), id) {
            return Some(n);
        }
    }
    None
}

/// The tool intents of a run, grouped by their results entry.
fn group_intents(records: &Vec<Record>) -> (r: Vec<Batch>)
    ensures
        views(r@) == batches(views(records@)),
{
    let mut out: Vec<Batch> = Vec::new();
    let ghost all = views(records@);
    let mut i: usize = 0;
    proof {
        assert(views(out@) =~= batches(all.take(0)));
    }
    while i < records.len()
        invariant
            all == views(records@),
            i <= records@.len(),
            views(out@) == batches(all.take(i as int)),
        decreases records@.len() - i,
    {
        let record = &records[i];
        proof {
            lemma_step(all, i as int);
            assert(all[i as int] == record@);
        }
        if same(record.kind.as_str(), "tool_started") {
            match record.payload.str_field("results_entry_id") {
                None => {},
                Some(id) => {
                    let ghost before = views(out@);
                    let payload = record.payload.clone();
                    match find_batch(&out, id) {
                        Some(k) => {
                            let ghost intents = out@[k as int].intents@;
                            proof {
                                lemma_batch_at(before, id@);
                                assert(before[k as int] == out@[k as int]@);
                            }
                            out[k].intents.push(payload);
                            proof {
                                assert(views(out@[k as int].intents@) =~= views(intents).push(
                                    record.payload@,
                                ));
                                assert(views(out@) =~= before.update(
                                    k as int,
                                    BatchView {
                                        id: id@,
                                        intents: before[k as int].intents.push(record.payload@),
                                    },
                                ));
                            }
                        },
                        None => {
                            let mut intents: Vec<Json> = Vec::new();
                            intents.push(payload);
                            proof {
                                assert(views(intents@) =~= seq![record.payload@]);
                            }
                            out.push(Batch { id: id.to_owned(), intents });
                            proof {
                                assert(views(out@) =~= before.push(
                                    BatchView { id: id@, intents: seq![record.payload@] },
                                ));
                            }
                        },
                    }
                },
            }
        }
        i += 1;
    }
    proof {
        assert(all.take(i as int) =~= all);
    }
    out
}

/// The message with the results of a batch that was interrupted.
fn synthesize(intents: &Vec<Json>) -> (r: Message)
    ensures
        r@ == interrupted_results(views(intents@)),
{
    let mut results: Vec<ContentBlock> = Vec::new();
    let ghost want = interrupted_results(views(intents@)).content;
    let mut i: usize = 0;
    while i < intents.len()
        invariant
            want == interrupted_results(views(intents@)).content,
            i <= intents@.len(),
            results@.len() == i,
            forall|j: int| 0 <= j < i ==> #[trigger] results@[j]@ == want[j],
        decreases intents@.len() - i,
    {
        let id = match intents[i].str_field("tool_use_id") {
            Some(id) => id.to_owned(),
            None => String::new(),
        };
        let block = ContentBlock::ToolResult {
            tool_use_id: id,
            content: "interrupted: bullpen exited before this tool finished".to_owned(),
            is_error: true,
        };
        proof {
            assert(want[i as int] == interrupted(views(intents@)[i as int]));
            assert(views(intents@)[i as int] == intents@[i as int]@);
        }
        results.push(block);
        i += 1;
    }
    proof {
        assert(views(results@) =~= want);
        assert forall|j: int| 0 <= j < results@.len() implies is_result(
            #[trigger] results@[j]@,
        ) by {
            assert(results@[j]@ == want[j]);
        }
    }
    Message::tool_results(results)
}

fn note() -> (r: Message)
    ensures
        r@ == closing_note(),
{
    let mut content: Vec<ContentBlock> = Vec::new();
    content.push(
        ContentBlock::Text {
            text: "[this run was interrupted and recovered; state above may be incomplete]".to_owned(),
        },
    );
    proof {
        assert(views(content@) =~= closing_note().content);
    }
    Message { role: Role::Assistant, content }
}

impl Store {
    fn fill_batches(&mut self, session_id: &str, bs: &Vec<Batch>) -> (r: Result<usize, StoreError>)
        requires
            intent_count(views(bs@)) <= usize::MAX,
        ensures
            final(self)@ == old(self)@.fill_batches(session_id@, views(bs@)).0,
            match r {
                Ok(n) => old(self)@.fill_batches(session_id@, views(bs@)).1 == Ok::<
                    int,
                    StoreErrorView,
                >(n as int),
                Err(e) => old(self)@.fill_batches(session_id@, views(bs@)).1 == Err::<
                    int,
                    StoreErrorView,
                >(e@),
            },
    {
        let ghost start = self@;
        let ghost all = views(bs@);
        let mut n: usize = 0;
        let mut i: usize = 0;
        while i < bs.len()
            invariant
                start == old(self)@,
                all == views(bs@),
                i <= bs@.len(),
                intent_count(all) <= usize::MAX,
                n <= intent_count(all.take(i as int)),
                self@ == start.fill_batches(session_id@, all.take(i as int)).0,
                start.fill_batches(session_id@, all.take(i as int)).1 == Ok::<int, StoreErrorView>(
                    n as int,
                ),
            decreases bs@.len() - i,
        {
            proof {
                lemma_step(all, i as int);
                assert(all[i as int] == bs@[i as int]@);
                lemma_count_take(all, i + 1);
            }
            if !self.entry_exists(bs[i].id.as_str()) {
                let message = synthesize(&bs[i].intents);
                let payload = Payload::Message(message);
                match self.append_entry(session_id, bs[i].id.as_str(), "message", &payload) {
                    Err(e) => {
                        proof {
                            lemma_fill_error(start, session_id@, all, i + 1);
                        }
                        return Err(e);
                    },
                    Ok(()) => {},
                }
                n += bs[i].intents.len();
            }
            i += 1;
        }
        proof {
            assert(all.take(i as int) =~= all);
        }
        Ok(n)
    }
}

/// Make a session with a suspended run usable again.
pub fn recover(store: &mut Store, session_id: &str) -> (r: Result<Option<Recovery>, StoreError>)
    ensures
        final(store)@ == old(store)@.recover(session_id@).0,
        match r {
            Ok(None) => old(store)@.recover(session_id@).1 == Ok::<
                Option<RecoveryView>,
                StoreErrorView,
            >(None),
            Ok(Some(v)) => old(store)@.recover(session_id@).1 == Ok::<
                Option<RecoveryView>,
                StoreErrorView,
            >(Some(v@)),
            Err(e) => old(store)@.recover(session_id@).1 == Err::<
                Option<RecoveryView>,
                StoreErrorView,
            >(e@),
        },
{
    let open = match store.open_run(session_id) {
        Err(e) => {
            return Err(e);
        },
        Ok(None) => {
            return Ok(None);
        },
        Ok(Some(open)) => open,
    };
    let bs = group_intents(&open.records);
    proof {
        lemma_batches_count(views(open.records@));
        assert(views(open.records@).len() == open.records.len());
    }
    let interrupted_tools = match store.fill_batches(session_id, &bs) {
        Err(e) => {
            return Err(e);
        },
        Ok(n) => n,
    };
    let messages = match store.path_messages(session_id) {
        Err(e) => {
            return Err(e);
        },
        Ok(messages) => messages,
    };
    let ghost mv = views(messages@);
    proof {
        if messages@.len() > 0 {
            assert(mv.last() == messages@[messages@.len() - 1]@);
        }
    }
    // The next run would otherwise produce two consecutive user turns.
    let closed_with_note = messages.len() > 0 && messages[messages.len() - 1].role
        == Role::User;
    if closed_with_note {
        let id = open.run_id.clone().concat(":closing");
        let payload = Payload::Message(note());
        match store.append_entry(session_id, id.as_str(), "message", &payload) {
            Err(e) => {
                return Err(e);
            },
            Ok(()) => {},
        }
    }
    match store.finish_operation(session_id, open.run_id.as_str(), "aborted") {
        Err(e) => {
            return Err(e);
        },
        Ok(()) => {},
    }
    Ok(Some(Recovery { run_id: open.run_id, interrupted_tools, closed_with_note }))
}

/// Once a batch could not be filled, nothing more is written.
proof fn lemma_fill_error(s: StoreView, session_id: Seq<char>, bs: Seq<BatchView>, i: int)
    requires
        0 <= i <= bs.len(),
        s.fill_batches(session_id, bs.take(i)).1 is Err,
    ensures
        s.fill_batches(session_id, bs) == s.fill_batches(session_id, bs.take(i)),
    decreases bs.len() - i,
{
    if i < bs.len() {
        lemma_step(bs, i);
        lemma_fill_error(s, session_id, bs, i + 1);
    } else {
        assert(bs.take(i) =~= bs);
    }
}

} // verus!
