//! What every operation on the store keeps, and what its operations promise
//! together.
use vstd::prelude::*;

use super::{
    entry_in, lemma_same_ids, lemma_session_in, record_in, session_in, EntryRowView, EntryView,
    OpenRunView, PayloadView, RecordRowView, RecordView, SessionInputState, SessionInputView, SessionRowView,
    SessionView, StoreErrorView, StoreView,
};
use super::inbox::{
    highest, input_at, lemma_alike_payload_itself, lemma_input_at, lemma_oldest_at, oldest_at, waits,
};
use super::log::{
    chain, entry_at, finish_id, finished_in, latest_finish, lemma_entry_at, messages_on, open_among,
    session_entries, starts_operation,
};
use super::recovery::{
    batch_at, batches, closing_id, closing_note, ends_on_user, intent_count, interrupted_results,
    lemma_batch_at, lemma_count_push, lemma_count_update, BatchView, RecoveryView,
};
use crate::json::{lemma_alike_itself, JsonView};
use crate::llm::{BlockView, MessageView, Role};

verus! {

// ── Validity ────────────────────────────────────────────────────────────────

/// No two sessions share an id, and every numbering is in range.
pub open spec fn sessions_ok(rows: Seq<SessionRowView>) -> bool {
    &&& forall|i: int, j: int|
        0 <= i < rows.len() && 0 <= j < rows.len() && (#[trigger] rows[i]).session.id == (
        #[trigger] rows[j]).session.id ==> i == j
    &&& forall|i: int| 0 <= i < rows.len() ==> 1 <= (#[trigger] rows[i]).next_seq <= i64::MAX
}

/// Whether `seq` is a number that the session has given out.
pub open spec fn given(rows: Seq<SessionRowView>, session_id: Seq<char>, seq: int) -> bool {
    exists|k: int|
        0 <= k < rows.len() && (#[trigger] rows[k]).session.id == session_id && 1 <= seq
            < rows[k].next_seq
}

/// Entry ids are unique, numbers are given out and grow along the table.
pub open spec fn entries_ok(s: StoreView) -> bool {
    let rows = s.entries;
    &&& forall|i: int, j: int|
        0 <= i < rows.len() && 0 <= j < rows.len() && (#[trigger] rows[i]).entry.id == (
        #[trigger] rows[j]).entry.id ==> i == j
    &&& forall|i: int|
        0 <= i < rows.len() ==> given(
            s.sessions,
            (#[trigger] rows[i]).session_id,
            rows[i].entry.seq,
        )
    &&& forall|i: int, j: int|
        0 <= i < j < rows.len() && (#[trigger] rows[i]).session_id == (
        #[trigger] rows[j]).session_id ==> rows[i].entry.seq < rows[j].entry.seq
}

/// Record ids are unique, numbers are given out and grow along the log.
pub open spec fn records_ok(s: StoreView) -> bool {
    let rows = s.records;
    &&& forall|i: int, j: int|
        0 <= i < rows.len() && 0 <= j < rows.len() && (#[trigger] rows[i]).record.id == (
        #[trigger] rows[j]).record.id ==> i == j
    &&& forall|i: int|
        0 <= i < rows.len() ==> given(
            s.sessions,
            (#[trigger] rows[i]).session_id,
            rows[i].record.seq,
        )
    &&& forall|i: int, j: int|
        0 <= i < j < rows.len() && (#[trigger] rows[i]).session_id == (
        #[trigger] rows[j]).session_id ==> rows[i].record.seq < rows[j].record.seq
}

/// Entries and records of a session never share a number.
pub open spec fn numbers_apart(s: StoreView) -> bool {
    forall|i: int, j: int|
        0 <= i < s.entries.len() && 0 <= j < s.records.len() && (
        #[trigger] s.entries[i]).session_id == (#[trigger] s.records[j]).session_id
            ==> s.entries[i].entry.seq != s.records[j].record.seq
}

/// Whether one of the first `n` entries is `id` of the session.
pub open spec fn known_entry(
    rows: Seq<EntryRowView>,
    n: int,
    session_id: Seq<char>,
    id: Seq<char>,
) -> bool {
    exists|i: int|
        0 <= i < n && i < rows.len() && (#[trigger] rows[i]).session_id == session_id
            && rows[i].entry.id == id
}

/// Whether a link, if there is one, leads to one of the first `n` entries of
/// the session.
pub open spec fn link_ok(
    rows: Seq<EntryRowView>,
    n: int,
    session_id: Seq<char>,
    link: Option<Seq<char>>,
) -> bool {
    match link {
        Some(id) => known_entry(rows, n, session_id, id),
        None => true,
    }
}

/// Every parent is an earlier entry of the same session, every leaf an entry.
pub open spec fn tree_ok(s: StoreView) -> bool {
    &&& forall|j: int|
        0 <= j < s.entries.len() ==> link_ok(
            s.entries,
            j,
            (#[trigger] s.entries[j]).session_id,
            s.entries[j].entry.parent_id,
        )
    &&& forall|k: int|
        0 <= k < s.sessions.len() ==> link_ok(
            s.entries,
            s.entries.len() as int,
            (#[trigger] s.sessions[k]).session.id,
            s.sessions[k].leaf_id,
        )
}

/// Input ids are unique; positions start at one and grow along the queue.
pub open spec fn inputs_ok(s: StoreView) -> bool {
    let rows = s.inputs;
    &&& forall|i: int, j: int|
        0 <= i < rows.len() && 0 <= j < rows.len() && (#[trigger] rows[i]).id == (
        #[trigger] rows[j]).id ==> i == j
    &&& forall|i: int| 0 <= i < rows.len() ==> 1 <= (#[trigger] rows[i]).position <= i64::MAX
    &&& forall|i: int, j: int|
        0 <= i < j < rows.len() && (#[trigger] rows[i]).session_id == (
        #[trigger] rows[j]).session_id ==> rows[i].position < rows[j].position
}

impl StoreView {
    /// The store's invariant.
    pub open spec fn wf(self) -> bool {
        &&& sessions_ok(self.sessions)
        &&& entries_ok(self)
        &&& records_ok(self)
        &&& numbers_apart(self)
        &&& tree_ok(self)
        &&& inputs_ok(self)
    }
}

/// Whether every session of `a` stands in `b` under the same id with at least
/// as many numbers given out.
spec fn grown(a: Seq<SessionRowView>, b: Seq<SessionRowView>) -> bool {
    &&& a.len() <= b.len()
    &&& forall|i: int|
        0 <= i < a.len() ==> (#[trigger] a[i]).session.id == b[i].session.id && a[i].next_seq
            <= b[i].next_seq
}

proof fn lemma_given_grows(
    a: Seq<SessionRowView>,
    b: Seq<SessionRowView>,
    session_id: Seq<char>,
    seq: int,
)
    requires
        grown(a, b),
        given(a, session_id, seq),
    ensures
        given(b, session_id, seq),
{
    let k = choose|k: int|
        0 <= k < a.len() && (#[trigger] a[k]).session.id == session_id && 1 <= seq < a[k].next_seq;
    assert(b[k].session.id == session_id);
}

proof fn lemma_rows_given(s: StoreView, b: Seq<SessionRowView>)
    requires
        grown(s.sessions, b),
    ensures
        entries_ok(s) ==> forall|i: int|
            0 <= i < s.entries.len() ==> given(
                b,
                (#[trigger] s.entries[i]).session_id,
                s.entries[i].entry.seq,
            ),
        records_ok(s) ==> forall|i: int|
            0 <= i < s.records.len() ==> given(
                b,
                (#[trigger] s.records[i]).session_id,
                s.records[i].record.seq,
            ),
{
    if entries_ok(s) {
        assert forall|i: int| 0 <= i < s.entries.len() implies given(
            b,
            (#[trigger] s.entries[i]).session_id,
            s.entries[i].entry.seq,
        ) by {
            lemma_given_grows(s.sessions, b, s.entries[i].session_id, s.entries[i].entry.seq);
        }
    }
    if records_ok(s) {
        assert forall|i: int| 0 <= i < s.records.len() implies given(
            b,
            (#[trigger] s.records[i]).session_id,
            s.records[i].record.seq,
        ) by {
            lemma_given_grows(s.sessions, b, s.records[i].session_id, s.records[i].record.seq);
        }
    }
}

/// A number that was given out is below the session's next one.
proof fn lemma_below_next(rows: Seq<SessionRowView>, i: int, seq: int)
    requires
        sessions_ok(rows),
        0 <= i < rows.len(),
        given(rows, rows[i].session.id, seq),
    ensures
        seq < rows[i].next_seq,
{
}

proof fn lemma_known_grows(
    a: Seq<EntryRowView>,
    b: Seq<EntryRowView>,
    n: int,
    m: int,
    session_id: Seq<char>,
    id: Seq<char>,
)
    requires
        a.len() <= b.len(),
        n <= m,
        forall|i: int| 0 <= i < a.len() ==> #[trigger] a[i] == b[i],
        known_entry(a, n, session_id, id),
    ensures
        known_entry(b, m, session_id, id),
{
    let i = choose|i: int|
        0 <= i < n && i < a.len() && (#[trigger] a[i]).session_id == session_id && a[i].entry.id
            == id;
    assert(b[i] == a[i]);
}

/// Appending an entry keeps the store valid.
pub proof fn law_append_entry_keeps_wf(
    s: StoreView,
    session_id: Seq<char>,
    id: Seq<char>,
    kind: Seq<char>,
    payload: PayloadView,
)
    requires
        s.wf(),
    ensures
        s.append_entry(session_id, id, kind, payload).0.wf(),
{
    let (n, r) = s.append_entry(session_id, id, kind, payload);
    lemma_session_in(s.sessions, session_id);
    if !entry_in(s.entries, id) && session_in(s.sessions, session_id) is Some {
        let i = session_in(s.sessions, session_id)->0;
        if s.sessions[i].next_seq < i64::MAX {
            let row = s.sessions[i];
            assert(grown(s.sessions, n.sessions));
            lemma_rows_given(s, n.sessions);
            assert(sessions_ok(n.sessions)) by {
                assert forall|a: int, b: int|
                    0 <= a < n.sessions.len() && 0 <= b < n.sessions.len() && (
                    #[trigger] n.sessions[a]).session.id == (
                    #[trigger] n.sessions[b]).session.id implies a == b by {
                    assert(s.sessions[a].session.id == s.sessions[b].session.id);
                }
                assert forall|a: int| 0 <= a < n.sessions.len() implies 1 <= (
                #[trigger] n.sessions[a]).next_seq <= i64::MAX by {
                    assert(1 <= s.sessions[a].next_seq <= i64::MAX);
                }
            }
            let last = s.entries.len() as int;
            assert(n.entries[last].entry.seq == row.next_seq);
            assert(given(n.sessions, session_id, row.next_seq)) by {
                assert(n.sessions[i].session.id == session_id);
            }
            assert(entries_ok(n)) by {
                assert forall|a: int| 0 <= a < n.entries.len() implies given(
                    n.sessions,
                    (#[trigger] n.entries[a]).session_id,
                    n.entries[a].entry.seq,
                ) by {
                    if a < last {
                        assert(n.entries[a] == s.entries[a]);
                    }
                }
                assert forall|a: int, b: int|
                    0 <= a < b < n.entries.len() && (#[trigger] n.entries[a]).session_id == (
                    #[trigger] n.entries[b]).session_id implies n.entries[a].entry.seq
                    < n.entries[b].entry.seq by {
                    assert(n.entries[a] == s.entries[a]);
                    if b == last {
                        lemma_below_next(s.sessions, i, s.entries[a].entry.seq);
                    } else {
                        assert(n.entries[b] == s.entries[b]);
                    }
                }
                assert forall|a: int, b: int|
                    0 <= a < n.entries.len() && 0 <= b < n.entries.len() && (
                    #[trigger] n.entries[a]).entry.id == (
                    #[trigger] n.entries[b]).entry.id implies a == b by {
                    if a < last {
                        assert(n.entries[a] == s.entries[a]);
                    }
                    if b < last {
                        assert(n.entries[b] == s.entries[b]);
                    }
                }
            }
            assert(numbers_apart(n)) by {
                assert forall|a: int, b: int|
                    0 <= a < n.entries.len() && 0 <= b < n.records.len() && (
                    #[trigger] n.entries[a]).session_id == (
                    #[trigger] n.records[b]).session_id implies n.entries[a].entry.seq
                    != n.records[b].record.seq by {
                    if a < last {
                        assert(n.entries[a] == s.entries[a]);
                        assert(n.records[b] == s.records[b]);
                    } else {
                        assert(given(
                            s.sessions,
                            s.records[b].session_id,
                            s.records[b].record.seq,
                        ));
                        lemma_below_next(s.sessions, i, s.records[b].record.seq);
                    }
                }
            }
            assert(tree_ok(n)) by {
                assert forall|j: int| 0 <= j < n.entries.len() implies link_ok(
                    n.entries,
                    j,
                    (#[trigger] n.entries[j]).session_id,
                    n.entries[j].entry.parent_id,
                ) by {
                    if let Some(p) = n.entries[j].entry.parent_id {
                        if j < last {
                            assert(n.entries[j] == s.entries[j]);
                            lemma_known_grows(
                                s.entries,
                                n.entries,
                                j,
                                j,
                                s.entries[j].session_id,
                                p,
                            );
                        } else {
                            assert(s.sessions[i].leaf_id == Some(p));
                            lemma_known_grows(s.entries, n.entries, last, last, session_id, p);
                        }
                    }
                }
                assert forall|k: int| 0 <= k < n.sessions.len() implies link_ok(
                    n.entries,
                    n.entries.len() as int,
                    (#[trigger] n.sessions[k]).session.id,
                    n.sessions[k].leaf_id,
                ) by {
                    if let Some(leaf) = n.sessions[k].leaf_id {
                        if k == i {
                            assert(n.entries[last].session_id == session_id);
                        } else {
                            assert(n.sessions[k] == s.sessions[k]);
                            lemma_known_grows(
                                s.entries,
                                n.entries,
                                last,
                                last + 1,
                                s.sessions[k].session.id,
                                leaf,
                            );
                        }
                    }
                }
            }
        }
    }
}

/// Appending a record keeps the store valid.
pub proof fn law_append_record_keeps_wf(
    s: StoreView,
    session_id: Seq<char>,
    id: Seq<char>,
    run_id: Seq<char>,
    kind: Seq<char>,
    payload: JsonView,
)
    requires
        s.wf(),
    ensures
        s.append_record(session_id, id, run_id, kind, payload).0.wf(),
{
    let (n, r) = s.append_record(session_id, id, run_id, kind, payload);
    lemma_session_in(s.sessions, session_id);
    if !record_in(s.records, id) && session_in(s.sessions, session_id) is Some {
        let i = session_in(s.sessions, session_id)->0;
        if s.sessions[i].next_seq < i64::MAX {
            let row = s.sessions[i];
            assert(grown(s.sessions, n.sessions));
            lemma_rows_given(s, n.sessions);
            assert(sessions_ok(n.sessions)) by {
                assert forall|a: int, b: int|
                    0 <= a < n.sessions.len() && 0 <= b < n.sessions.len() && (
                    #[trigger] n.sessions[a]).session.id == (
                    #[trigger] n.sessions[b]).session.id implies a == b by {
                    assert(s.sessions[a].session.id == s.sessions[b].session.id);
                }
                assert forall|a: int| 0 <= a < n.sessions.len() implies 1 <= (
                #[trigger] n.sessions[a]).next_seq <= i64::MAX by {
                    assert(1 <= s.sessions[a].next_seq <= i64::MAX);
                }
            }
            let last = s.records.len() as int;
            assert(given(n.sessions, session_id, row.next_seq)) by {
                assert(n.sessions[i].session.id == session_id);
            }
            assert(records_ok(n)) by {
                assert forall|a: int| 0 <= a < n.records.len() implies given(
                    n.sessions,
                    (#[trigger] n.records[a]).session_id,
                    n.records[a].record.seq,
                ) by {
                    if a < last {
                        assert(n.records[a] == s.records[a]);
                    }
                }
                assert forall|a: int, b: int|
                    0 <= a < b < n.records.len() && (#[trigger] n.records[a]).session_id == (
                    #[trigger] n.records[b]).session_id implies n.records[a].record.seq
                    < n.records[b].record.seq by {
                    assert(n.records[a] == s.records[a]);
                    if b == last {
                        lemma_below_next(s.sessions, i, s.records[a].record.seq);
                    } else {
                        assert(n.records[b] == s.records[b]);
                    }
                }
                assert forall|a: int, b: int|
                    0 <= a < n.records.len() && 0 <= b < n.records.len() && (
                    #[trigger] n.records[a]).record.id == (
                    #[trigger] n.records[b]).record.id implies a == b by {
                    if a < last {
                        assert(n.records[a] == s.records[a]);
                    }
                    if b < last {
                        assert(n.records[b] == s.records[b]);
                    }
                }
            }
            assert(numbers_apart(n)) by {
                assert forall|a: int, b: int|
                    0 <= a < n.entries.len() && 0 <= b < n.records.len() && (
                    #[trigger] n.entries[a]).session_id == (
                    #[trigger] n.records[b]).session_id implies n.entries[a].entry.seq
                    != n.records[b].record.seq by {
                    if b < last {
                        assert(n.records[b] == s.records[b]);
                        assert(n.entries[a] == s.entries[a]);
                    } else {
                        assert(given(
                            s.sessions,
                            s.entries[a].session_id,
                            s.entries[a].entry.seq,
                        ));
                        lemma_below_next(s.sessions, i, s.entries[a].entry.seq);
                    }
                }
            }
            assert(tree_ok(n)) by {
                assert forall|k: int| 0 <= k < n.sessions.len() implies link_ok(
                    n.entries,
                    n.entries.len() as int,
                    (#[trigger] n.sessions[k]).session.id,
                    n.sessions[k].leaf_id,
                ) by {
                    assert(n.sessions[k].leaf_id == s.sessions[k].leaf_id);
                    assert(n.sessions[k].session.id == s.sessions[k].session.id);
                }
            }
        }
    }
}

/// Whether `b` keeps of each session of `a` the id, the numbering and the
/// leaf.
pub open spec fn same_spine(a: Seq<SessionRowView>, b: Seq<SessionRowView>) -> bool {
    &&& a.len() == b.len()
    &&& forall|i: int|
        0 <= i < a.len() ==> (#[trigger] a[i]).session.id == b[i].session.id && a[i].next_seq
            == b[i].next_seq && a[i].leaf_id == b[i].leaf_id
}

/// What concerns neither ids, numbers, leaves, entries, records nor inputs
/// keeps the store valid.
pub proof fn law_lifecycle_keeps_wf(s: StoreView, n: StoreView)
    requires
        s.wf(),
        same_spine(s.sessions, n.sessions),
        n.entries == s.entries,
        n.records == s.records,
        n.inputs == s.inputs,
    ensures
        n.wf(),
{
    lemma_rows_given(s, n.sessions);
    assert forall|a: int, b: int|
        0 <= a < n.sessions.len() && 0 <= b < n.sessions.len() && (
        #[trigger] n.sessions[a]).session.id == (#[trigger] n.sessions[b]).session.id implies a
        == b by {
        assert(s.sessions[a].session.id == s.sessions[b].session.id);
    }
    assert forall|a: int| 0 <= a < n.sessions.len() implies 1 <= (
    #[trigger] n.sessions[a]).next_seq <= i64::MAX by {
        assert(1 <= s.sessions[a].next_seq <= i64::MAX);
    }
    assert forall|k: int| 0 <= k < n.sessions.len() implies link_ok(
        n.entries,
        n.entries.len() as int,
        (#[trigger] n.sessions[k]).session.id,
        n.sessions[k].leaf_id,
    ) by {
        assert(s.sessions[k].session.id == n.sessions[k].session.id);
    }
}

/// Statuses, titles, worktrees and workers never touch the conversation or the
/// log.
pub proof fn law_session_updates_keep_wf(
    s: StoreView,
    id: Seq<char>,
    status: Seq<char>,
    pid: Option<i64>,
    usage: crate::llm::Usage,
    text: Seq<char>,
    other: Seq<char>,
    kind: super::WorkerKind,
    worker: i64,
    now: Seq<char>,
)
    requires
        s.wf(),
    ensures
        s.set_run_status(id, status, pid, now).wf(),
        s.update_session_meta(id, usage, text, now).wf(),
        s.set_worktree(id, text, other).wf(),
        s.start_worker(id, worker, kind, other, now).0.wf(),
        s.finish_worker(id, other, status, now).wf(),
        s.drain_or_retire(id, other, status, now).0.wf(),
        s.mark_open(id, text).wf(),
        s.mark_closed(id, text).wf(),
{
    lemma_session_in(s.sessions, id);
    law_lifecycle_keeps_wf(s, s.set_run_status(id, status, pid, now));
    law_lifecycle_keeps_wf(s, s.update_session_meta(id, usage, text, now));
    law_lifecycle_keeps_wf(s, s.set_worktree(id, text, other));
    law_lifecycle_keeps_wf(s, s.start_worker(id, worker, kind, other, now).0);
    law_lifecycle_keeps_wf(s, s.finish_worker(id, other, status, now));
    law_lifecycle_keeps_wf(s, s.drain_or_retire(id, other, status, now).0);
    law_lifecycle_keeps_wf(s, s.mark_open(id, text));
    law_lifecycle_keeps_wf(s, s.mark_closed(id, text));
}

/// Creating a session keeps the store valid, and so does reattaching to one.
pub proof fn law_create_keeps_wf(s: StoreView, session: SessionView)
    requires
        s.wf(),
    ensures
        s.create(session).0.wf(),
        s.create_child(session).0.wf(),
{
    lemma_session_in(s.sessions, session.id);
    let n = s.create(session).0;
    if session_in(s.sessions, session.id) is None {
        assert(grown(s.sessions, n.sessions));
        lemma_rows_given(s, n.sessions);
        let last = s.sessions.len() as int;
        assert forall|a: int, b: int|
            0 <= a < n.sessions.len() && 0 <= b < n.sessions.len() && (
            #[trigger] n.sessions[a]).session.id == (
            #[trigger] n.sessions[b]).session.id implies a == b by {
            if a < last {
                assert(n.sessions[a] == s.sessions[a]);
            }
            if b < last {
                assert(n.sessions[b] == s.sessions[b]);
            }
        }
        assert forall|k: int| 0 <= k < n.sessions.len() implies link_ok(
            n.entries,
            n.entries.len() as int,
            (#[trigger] n.sessions[k]).session.id,
            n.sessions[k].leaf_id,
        ) by {
            if k < last {
                assert(n.sessions[k] == s.sessions[k]);
            }
        }
        assert forall|a: int| 0 <= a < n.sessions.len() implies 1 <= (
        #[trigger] n.sessions[a]).next_seq <= i64::MAX by {
            if a < last {
                assert(n.sessions[a] == s.sessions[a]);
            }
        }
    }
}

/// Starting and finishing operations keeps the store valid.
pub proof fn law_operations_keep_wf(
    s: StoreView,
    session_id: Seq<char>,
    run_id: Seq<char>,
    payload: JsonView,
    how: Seq<char>,
)
    requires
        s.wf(),
    ensures
        s.start_operation(session_id, run_id, payload).0.wf(),
        s.finish_operation(session_id, run_id, how).0.wf(),
{
    let body = payload.with("source_leaf_id"@, super::log::leaf_json(s.leaf(session_id)));
    law_append_record_keeps_wf(s, session_id, run_id, run_id, "operation_started"@, body);
    let a = s.append_record(session_id, run_id, run_id, "operation_started"@, body).0;
    lemma_session_in(a.sessions, session_id);
    law_lifecycle_keeps_wf(a, a.mark_open(session_id, run_id));
    let done = JsonView::object().with("outcome"@, JsonView::Str(how));
    law_append_record_keeps_wf(
        s,
        session_id,
        finish_id(run_id),
        run_id,
        "operation_finished"@,
        done,
    );
    let b = s.append_record(
        session_id,
        finish_id(run_id),
        run_id,
        "operation_finished"@,
        done,
    ).0;
    lemma_session_in(b.sessions, session_id);
    law_lifecycle_keeps_wf(b, b.mark_closed(session_id, run_id));
}

proof fn lemma_fill_keeps_wf(s: StoreView, session_id: Seq<char>, bs: Seq<BatchView>)
    requires
        s.wf(),
    ensures
        s.fill_batches(session_id, bs).0.wf(),
    decreases bs.len(),
{
    if bs.len() > 0 {
        lemma_fill_keeps_wf(s, session_id, bs.drop_last());
        let (mid, r) = s.fill_batches(session_id, bs.drop_last());
        law_append_entry_keeps_wf(
            mid,
            session_id,
            bs.last().id,
            "message"@,
            PayloadView::Message(interrupted_results(bs.last().intents)),
        );
    }
}

/// Recovery keeps the store valid.
pub proof fn law_recovery_keeps_wf(s: StoreView, session_id: Seq<char>)
    requires
        s.wf(),
    ensures
        s.recover(session_id).0.wf(),
{
    if let Ok(Some(open)) = s.open_run(session_id) {
        let bs = batches(open.records);
        lemma_fill_keeps_wf(s, session_id, bs);
        let filled = s.fill_batches(session_id, bs).0;
        law_append_entry_keeps_wf(
            filled,
            session_id,
            closing_id(open.run_id),
            "message"@,
            PayloadView::Message(closing_note()),
        );
        let closed = filled.close_transcript(session_id, open.run_id).0;
        law_operations_keep_wf(closed, session_id, open.run_id, JsonView::Null, "aborted"@);
    }
}

// ── The queue ───────────────────────────────────────────────────────────────

/// No input of a session has a position above the highest.
proof fn lemma_highest(rows: Seq<SessionInputView>, session_id: Seq<char>)
    ensures
        match highest(rows, session_id) {
            Some(p) => (exists|i: int|
                0 <= i < rows.len() && (#[trigger] rows[i]).session_id == session_id
                    && rows[i].position == p) && forall|i: int|
                0 <= i < rows.len() && (#[trigger] rows[i]).session_id == session_id
                    ==> rows[i].position <= p,
            None => forall|i: int|
                0 <= i < rows.len() ==> (#[trigger] rows[i]).session_id != session_id,
        },
    decreases rows.len(),
{
    if rows.len() > 0 {
        let rest = rows.drop_last();
        lemma_highest(rest, session_id);
        assert forall|j: int| 0 <= j < rows.len() - 1 implies #[trigger] rows[j] == rest[j] by {}
        if rows.last().session_id == session_id {
            assert(rows[rows.len() - 1].session_id == session_id);
        }
        if let Some(p) = highest(rest, session_id) {
            let i = choose|i: int|
                0 <= i < rest.len() && (#[trigger] rest[i]).session_id == session_id
                    && rest[i].position == p;
            assert(rows[i].session_id == session_id && rows[i].position == p);
        }
    }
}

/// Enqueueing keeps the store valid: the new input comes after every other of
/// its session.
pub proof fn law_enqueue_keeps_wf(
    s: StoreView,
    session_id: Seq<char>,
    id: Seq<char>,
    prompt: PayloadView,
    options: JsonView,
    now: Seq<char>,
)
    requires
        s.wf(),
    ensures
        s.enqueue(session_id, id, prompt, options, now).0.wf(),
{
    let n = s.enqueue(session_id, id, prompt, options, now).0;
    lemma_input_at(s.inputs, id);
    lemma_highest(s.inputs, session_id);
    if n.inputs.len() > s.inputs.len() {
        let last = s.inputs.len() as int;
        assert forall|i: int, j: int|
            0 <= i < n.inputs.len() && 0 <= j < n.inputs.len() && (#[trigger] n.inputs[i]).id == (
            #[trigger] n.inputs[j]).id implies i == j by {
            if i < last {
                assert(n.inputs[i] == s.inputs[i]);
            }
            if j < last {
                assert(n.inputs[j] == s.inputs[j]);
            }
        }
        assert forall|i: int, j: int|
            0 <= i < j < n.inputs.len() && (#[trigger] n.inputs[i]).session_id == (
            #[trigger] n.inputs[j]).session_id implies n.inputs[i].position
            < n.inputs[j].position by {
            assert(n.inputs[i] == s.inputs[i]);
            if j < last {
                assert(n.inputs[j] == s.inputs[j]);
            }
        }
        assert forall|i: int| 0 <= i < n.inputs.len() implies 1 <= (
        #[trigger] n.inputs[i]).position <= i64::MAX by {
            if i < last {
                assert(n.inputs[i] == s.inputs[i]);
            } else if let Some(p) = highest(s.inputs, session_id) {
                let k = choose|k: int|
                    0 <= k < s.inputs.len() && (#[trigger] s.inputs[k]).session_id == session_id
                        && s.inputs[k].position == p;
                assert(1 <= s.inputs[k].position);
            }
        }
        assert(entries_ok(n) && records_ok(n) && tree_ok(n));
    }
}

/// Enqueueing the same input again gives the first one back and changes
/// nothing.
pub proof fn law_enqueue_is_idempotent(
    s: StoreView,
    session_id: Seq<char>,
    id: Seq<char>,
    prompt: PayloadView,
    options: JsonView,
    now: Seq<char>,
    later: Seq<char>,
)
    requires
        s.enqueue(session_id, id, prompt, options, now).1 is Ok,
    ensures
        ({
            let (once, r) = s.enqueue(session_id, id, prompt, options, now);
            once.enqueue(session_id, id, prompt, options, later) == (once, r)
        }),
{
    let (once, r) = s.enqueue(session_id, id, prompt, options, now);
    if input_at(s.inputs, id) is None {
        assert(once.inputs.last() == r->Ok_0);
        assert(once.inputs.drop_last() =~= s.inputs);
        lemma_alike_payload_itself(prompt);
        lemma_alike_itself(options);
    }
}

/// An input starts only if it is the one that waits at the lowest position of
/// its session, and nothing else of the session is open.
pub proof fn law_only_the_oldest_starts(
    s: StoreView,
    session_id: Seq<char>,
    expected: Seq<char>,
    run_id: Seq<char>,
    now: Seq<char>,
)
    ensures
        s.start_oldest(session_id, expected, run_id, now).1 matches Ok(Some(started)) ==> {
            &&& s.open_operations(session_id).len() == 0
            &&& started.id == expected
            &&& forall|j: int|
                0 <= j < s.inputs.len() && waits(#[trigger] s.inputs[j], session_id)
                    ==> started.position <= s.inputs[j].position
        },
{
    lemma_oldest_at(s.inputs, session_id);
}

/// A start that fails, or finds nothing to start, changes nothing.
pub proof fn law_failed_start_changes_nothing(
    s: StoreView,
    session_id: Seq<char>,
    expected: Seq<char>,
    run_id: Seq<char>,
    now: Seq<char>,
)
    requires
        !(s.start_oldest(session_id, expected, run_id, now).1 matches Ok(Some(_))),
    ensures
        s.start_oldest(session_id, expected, run_id, now).0 == s,
{
}

/// A started input never waits again, and starting it leaves every other input
/// alone.
pub proof fn law_start_moves_one_input(
    s: StoreView,
    session_id: Seq<char>,
    expected: Seq<char>,
    run_id: Seq<char>,
    now: Seq<char>,
)
    ensures
        ({
            let (n, r) = s.start_oldest(session_id, expected, run_id, now);
            r matches Ok(Some(started)) ==> {
                let k = oldest_at(s.inputs, session_id)->0;
                &&& n.inputs.len() == s.inputs.len()
                &&& n.inputs[k] == started
                &&& started.state == SessionInputState::Started
                &&& started.operation_id == Some(run_id)
                &&& forall|j: int|
                    0 <= j < s.inputs.len() && j != k ==> #[trigger] n.inputs[j] == s.inputs[j]
            }
        }),
{
    lemma_oldest_at(s.inputs, session_id);
}

/// A worker retires only when nothing waits and nothing is open; while an
/// input waits its registration stays.
pub proof fn law_retirement_needs_an_empty_queue(
    s: StoreView,
    session_id: Seq<char>,
    generation: Seq<char>,
    status: Seq<char>,
    now: Seq<char>,
)
    ensures
        ({
            let (n, r) = s.drain_or_retire(session_id, generation, status, now);
            &&& r matches Ok(super::inbox::DrainDecisionView::Retired) ==> !s.has_work(session_id)
            &&& r matches Ok(super::inbox::DrainDecisionView::Pending(_)) ==> n == s
            &&& r is Err ==> n == s
        }),
{
}

/// Starting an input is recording an operation, appending its message and
/// pointing the lane at it, in one step.
proof fn lemma_started_is_composed(
    s: StoreView,
    i: int,
    k: int,
    run_id: Seq<char>,
    now: Seq<char>,
)
    requires
        s.wf(),
        0 <= i < s.sessions.len(),
        0 <= k < s.inputs.len(),
        session_in(s.sessions, s.inputs[k].session_id) == Some(i),
        s.sessions[i].next_seq + 1 < i64::MAX,
        !record_in(s.records, run_id),
        !entry_in(s.entries, run_id + ":user"@),
    ensures
        ({
            let sid = s.inputs[k].session_id;
            let body = JsonView::object().with(
                "source_leaf_id"@,
                super::log::leaf_json(s.sessions[i].leaf_id),
            ).with("input_id"@, JsonView::Str(s.inputs[k].id));
            let a = s.append_record(sid, run_id, run_id, "operation_started"@, body).0;
            let b = a.append_entry(sid, run_id + ":user"@, "message"@, s.inputs[k].prompt).0;
            let c = b.mark_open(sid, run_id);
            let n = s.started(i, k, run_id, now);
            &&& a.wf()
            &&& b.wf()
            &&& c.wf()
            &&& n.sessions == c.sessions
            &&& n.entries == c.entries
            &&& n.records == c.records
        }),
{
    let sid = s.inputs[k].session_id;
    let body = JsonView::object().with(
        "source_leaf_id"@,
        super::log::leaf_json(s.sessions[i].leaf_id),
    ).with("input_id"@, JsonView::Str(s.inputs[k].id));
    lemma_session_in(s.sessions, sid);
    law_append_record_keeps_wf(s, sid, run_id, run_id, "operation_started"@, body);
    let a = s.append_record(sid, run_id, run_id, "operation_started"@, body).0;
    lemma_same_ids(s.sessions, a.sessions, sid);
    law_append_entry_keeps_wf(a, sid, run_id + ":user"@, "message"@, s.inputs[k].prompt);
    let b = a.append_entry(sid, run_id + ":user"@, "message"@, s.inputs[k].prompt).0;
    lemma_same_ids(a.sessions, b.sessions, sid);
    let c = b.mark_open(sid, run_id);
    lemma_session_in(b.sessions, sid);
    law_lifecycle_keeps_wf(b, c);
    let n = s.started(i, k, run_id, now);
    assert(n.sessions =~= c.sessions);
}

/// Starting an input keeps the store valid.
pub proof fn law_start_keeps_wf(
    s: StoreView,
    session_id: Seq<char>,
    expected: Seq<char>,
    run_id: Seq<char>,
    now: Seq<char>,
)
    requires
        s.wf(),
    ensures
        s.start_oldest(session_id, expected, run_id, now).0.wf(),
{
    let (n, r) = s.start_oldest(session_id, expected, run_id, now);
    lemma_oldest_at(s.inputs, session_id);
    lemma_session_in(s.sessions, session_id);
    if let Ok(Some(_)) = r {
        let k = oldest_at(s.inputs, session_id)->0;
        let i = session_in(s.sessions, session_id)->0;
        lemma_started_is_composed(s, i, k, run_id, now);
        assert forall|a: int, b: int|
            0 <= a < n.inputs.len() && 0 <= b < n.inputs.len() && (#[trigger] n.inputs[a]).id == (
            #[trigger] n.inputs[b]).id implies a == b by {
            assert(n.inputs[a].id == s.inputs[a].id);
            assert(n.inputs[b].id == s.inputs[b].id);
        }
        assert forall|a: int| 0 <= a < n.inputs.len() implies 1 <= (
        #[trigger] n.inputs[a]).position <= i64::MAX by {
            assert(n.inputs[a].position == s.inputs[a].position);
        }
        assert forall|a: int, b: int|
            0 <= a < b < n.inputs.len() && (#[trigger] n.inputs[a]).session_id == (
            #[trigger] n.inputs[b]).session_id implies n.inputs[a].position
            < n.inputs[b].position by {
            assert(n.inputs[a].session_id == s.inputs[a].session_id);
            assert(n.inputs[b].session_id == s.inputs[b].session_id);
        }
    }
}

// ── Idempotence ─────────────────────────────────────────────────────────────

/// Appending under an id that is there already, whatever the payload, changes
/// nothing.
pub proof fn law_append_entry_is_idempotent(
    s: StoreView,
    session_id: Seq<char>,
    id: Seq<char>,
    kind: Seq<char>,
    payload: PayloadView,
    other_kind: Seq<char>,
    other: PayloadView,
)
    requires
        s.append_entry(session_id, id, kind, payload).1 is Ok,
    ensures
        ({
            let once = s.append_entry(session_id, id, kind, payload).0;
            once.append_entry(session_id, id, other_kind, other) == (
                once,
                Ok::<(), StoreErrorView>(()),
            )
        }),
{
    let once = s.append_entry(session_id, id, kind, payload).0;
    if !entry_in(s.entries, id) {
        assert(once.entries[s.entries.len() as int].entry.id == id);
    }
}

/// Appending under a record id that is there already changes nothing.
pub proof fn law_append_record_is_idempotent(
    s: StoreView,
    session_id: Seq<char>,
    id: Seq<char>,
    run_id: Seq<char>,
    kind: Seq<char>,
    payload: JsonView,
    other: JsonView,
)
    requires
        s.append_record(session_id, id, run_id, kind, payload).1 is Ok,
    ensures
        ({
            let once = s.append_record(session_id, id, run_id, kind, payload).0;
            once.append_record(session_id, id, run_id, kind, other) == (
                once,
                Ok::<(), StoreErrorView>(()),
            )
        }),
{
    let once = s.append_record(session_id, id, run_id, kind, payload).0;
    if !record_in(s.records, id) {
        assert(once.records[s.records.len() as int].record.id == id);
    }
}

/// Finishing an operation again changes nothing.
pub proof fn law_finish_is_idempotent(
    s: StoreView,
    session_id: Seq<char>,
    run_id: Seq<char>,
    how: Seq<char>,
    again: Seq<char>,
)
    requires
        s.finish_operation(session_id, run_id, how).1 is Ok,
    ensures
        ({
            let once = s.finish_operation(session_id, run_id, how).0;
            once.finish_operation(session_id, run_id, again) == (once, Ok::<(), StoreErrorView>(()))
        }),
{
    let done = JsonView::object().with("outcome"@, JsonView::Str(how));
    let a = s.append_record(session_id, finish_id(run_id), run_id, "operation_finished"@, done).0;
    let once = a.mark_closed(session_id, run_id);
    if !record_in(s.records, finish_id(run_id)) {
        assert(a.records[s.records.len() as int].record.id == finish_id(run_id));
    }
    assert(record_in(once.records, finish_id(run_id)));
    lemma_session_in(a.sessions, session_id);
    lemma_same_ids(a.sessions, once.sessions, session_id);
}

// ── The path ────────────────────────────────────────────────────────────────

/// The log plays no part in the conversation: with any other records, none
/// included, every path is the same.
pub proof fn law_conversation_does_not_need_the_log(
    s: StoreView,
    records: Seq<RecordRowView>,
    session_id: Seq<char>,
)
    ensures
        (StoreView { records, ..s }).path(session_id) == s.path(session_id),
        (StoreView { records, ..s }).path_messages(session_id) == s.path_messages(session_id),
{
}

/// An entry appended under a fresh id ends its session's path, and every other
/// session's path stays.
pub proof fn law_append_extends_the_path(
    s: StoreView,
    session_id: Seq<char>,
    id: Seq<char>,
    kind: Seq<char>,
    payload: PayloadView,
    other: Seq<char>,
)
    requires
        !entry_in(s.entries, id),
        s.append_entry(session_id, id, kind, payload).1 is Ok,
    ensures
        ({
            let n = s.append_entry(session_id, id, kind, payload).0;
            let e = n.entries.last().entry;
            &&& e.id == id && e.kind == kind && e.payload == payload && e.parent_id == s.leaf(
                session_id,
            )
            &&& n.path(session_id) == (match s.path(session_id) {
                Ok(way) => Ok::<Seq<EntryView>, StoreErrorView>(way.push(e)),
                Err(x) => Err(x),
            })
            &&& other != session_id ==> n.path(other) == s.path(other)
        }),
{
    let n = s.append_entry(session_id, id, kind, payload).0;
    let e = n.entries.last().entry;
    lemma_session_in(s.sessions, session_id);
    lemma_session_in(s.sessions, other);
    lemma_same_ids(s.sessions, n.sessions, session_id);
    lemma_same_ids(s.sessions, n.sessions, other);
    assert(n.entries.drop_last() =~= s.entries);
    let es = session_entries(s.entries, session_id);
    let ns = session_entries(n.entries, session_id);
    assert(ns == es.push(e));
    assert(ns.last() == e);
    assert(entry_at(ns, id) == Some(ns.len() - 1));
    assert(ns.remove(ns.len() - 1) =~= es);
}

/// Every parent among `es` is an earlier one.
spec fn rooted(es: Seq<EntryView>) -> bool {
    forall|j: int|
        0 <= j < es.len() ==> match (#[trigger] es[j]).parent_id {
            Some(p) => exists|i: int| 0 <= i < j && (#[trigger] es[i]).id == p,
            None => true,
        }
}

/// No two of `es` share an id.
spec fn distinct(es: Seq<EntryView>) -> bool {
    forall|i: int, j: int|
        0 <= i < es.len() && 0 <= j < es.len() && (#[trigger] es[i]).id == (#[trigger] es[j]).id
            ==> i == j
}

/// From an entry whose ancestors all stand before it the way to the root is
/// found.
proof fn lemma_chain_ok(es: Seq<EntryView>, n: int, cursor: Option<Seq<char>>)
    requires
        0 <= n <= es.len(),
        distinct(es),
        rooted(es.take(n)),
        match cursor {
            Some(id) => exists|i: int| 0 <= i < n && (#[trigger] es[i]).id == id,
            None => true,
        },
    ensures
        chain(es, cursor) is Ok,
    decreases n,
{
    if let Some(id) = cursor {
        let i = choose|i: int| 0 <= i < n && (#[trigger] es[i]).id == id;
        lemma_entry_at(es, id);
        let k = entry_at(es, id)->0;
        assert(es[k].id == es[i].id);
        assert(k == i);
        let rest = es.remove(i);
        assert forall|a: int, b: int|
            0 <= a < rest.len() && 0 <= b < rest.len() && (#[trigger] rest[a]).id == (
            #[trigger] rest[b]).id implies a == b by {
            let a2 = if a < i {
                a
            } else {
                a + 1
            };
            let b2 = if b < i {
                b
            } else {
                b + 1
            };
            assert(es[a2].id == es[b2].id);
        }
        assert(rooted(rest.take(i))) by {
            assert forall|j: int| 0 <= j < i implies match (#[trigger] rest.take(i)[j]).parent_id {
                Some(p) => exists|m: int| 0 <= m < j && (#[trigger] rest.take(i)[m]).id == p,
                None => true,
            } by {
                assert(rest.take(i)[j] == es.take(n)[j]);
                if let Some(p) = es.take(n)[j].parent_id {
                    let m = choose|m: int| 0 <= m < j && (#[trigger] es.take(n)[m]).id == p;
                    assert(rest.take(i)[m] == es.take(n)[m]);
                }
            }
        }
        assert(es.take(n)[i] == es[i]);
        if let Some(p) = es[i].parent_id {
            let m = choose|m: int| 0 <= m < i && (#[trigger] es.take(n)[m]).id == p;
            assert(rest[m] == es[m]);
        }
        lemma_chain_ok(rest, i, es[i].parent_id);
    }
}

/// What the filter by session keeps: each entry of the session, its ancestors
/// before it, none twice.
proof fn lemma_session_entries(rows: Seq<EntryRowView>, session_id: Seq<char>)
    requires
        forall|i: int, j: int|
            0 <= i < rows.len() && 0 <= j < rows.len() && (#[trigger] rows[i]).entry.id == (
            #[trigger] rows[j]).entry.id ==> i == j,
        forall|j: int|
            0 <= j < rows.len() ==> link_ok(
                rows,
                j,
                (#[trigger] rows[j]).session_id,
                rows[j].entry.parent_id,
            ),
    ensures
        ({
            let es = session_entries(rows, session_id);
            &&& distinct(es)
            &&& rooted(es)
            &&& forall|i: int|
                0 <= i < rows.len() && (#[trigger] rows[i]).session_id == session_id ==> exists|
                    k: int,
                |
                    0 <= k < es.len() && #[trigger] es[k] == rows[i].entry
            &&& forall|k: int|
                0 <= k < es.len() ==> exists|i: int|
                    0 <= i < rows.len() && (#[trigger] rows[i]).entry == #[trigger] es[k]
        }),
    decreases rows.len(),
{
    let es = session_entries(rows, session_id);
    if rows.len() > 0 {
        let rest = rows.drop_last();
        let last = rows.len() - 1;
        assert forall|i: int| 0 <= i < last implies #[trigger] rows[i] == rest[i] by {}
        assert forall|j: int| 0 <= j < rest.len() implies link_ok(
            rest,
            j,
            (#[trigger] rest[j]).session_id,
            rest[j].entry.parent_id,
        ) by {
            assert(rows[j] == rest[j]);
            if let Some(p) = rows[j].entry.parent_id {
                let i = choose|i: int|
                    0 <= i < j && i < rows.len() && (#[trigger] rows[i]).session_id
                        == rows[j].session_id && rows[i].entry.id == p;
                assert(rest[i] == rows[i]);
            }
        }
        assert forall|i: int, j: int|
            0 <= i < rest.len() && 0 <= j < rest.len() && (#[trigger] rest[i]).entry.id == (
            #[trigger] rest[j]).entry.id implies i == j by {
            assert(rows[i].entry.id == rows[j].entry.id);
        }
        lemma_session_entries(rest, session_id);
        let before = session_entries(rest, session_id);
        assert forall|k: int| 0 <= k < before.len() implies exists|i: int|
            0 <= i < rows.len() && (#[trigger] rows[i]).entry == #[trigger] before[k] by {
            let i = choose|i: int|
                0 <= i < rest.len() && (#[trigger] rest[i]).entry == before[k];
            assert(rows[i].entry == before[k]);
        }
        if rows[last].session_id == session_id {
            assert(es == before.push(rows[last].entry));
            assert(es[before.len() as int] == rows[last].entry);
            assert forall|a: int, b: int|
                0 <= a < es.len() && 0 <= b < es.len() && (#[trigger] es[a]).id == (
                #[trigger] es[b]).id implies a == b by {
                if a < before.len() && b < before.len() {
                    assert(before[a].id == before[b].id);
                } else if a < before.len() {
                    let i = choose|i: int|
                        0 <= i < rest.len() && (#[trigger] rest[i]).entry == before[a];
                    assert(rows[i].entry.id == rows[last].entry.id);
                } else if b < before.len() {
                    let i = choose|i: int|
                        0 <= i < rest.len() && (#[trigger] rest[i]).entry == before[b];
                    assert(rows[i].entry.id == rows[last].entry.id);
                }
            }
            assert forall|j: int| 0 <= j < es.len() implies match (#[trigger] es[j]).parent_id {
                Some(p) => exists|m: int| 0 <= m < j && (#[trigger] es[m]).id == p,
                None => true,
            } by {
                if let Some(p) = es[j].parent_id {
                    if j < before.len() {
                        assert(before[j] == es[j]);
                        let m = choose|m: int| 0 <= m < j && (#[trigger] before[m]).id == p;
                        assert(es[m] == before[m]);
                    } else {
                        let i = choose|i: int|
                            0 <= i < last && i < rows.len() && (#[trigger] rows[i]).session_id
                                == session_id && rows[i].entry.id == p;
                        assert(rest[i].session_id == session_id);
                        let m = choose|m: int|
                            0 <= m < before.len() && #[trigger] before[m] == rest[i].entry;
                        assert(es[m] == before[m]);
                    }
                }
            }
            assert forall|i: int|
                0 <= i < rows.len() && (#[trigger] rows[i]).session_id
                    == session_id implies exists|k: int|
                0 <= k < es.len() && #[trigger] es[k] == rows[i].entry by {
                if i < last {
                    assert(rest[i].session_id == session_id);
                    let k = choose|k: int|
                        0 <= k < before.len() && #[trigger] before[k] == rest[i].entry;
                    assert(es[k] == rows[i].entry);
                }
            }
            assert forall|k: int| 0 <= k < es.len() implies exists|i: int|
                0 <= i < rows.len() && (#[trigger] rows[i]).entry == #[trigger] es[k] by {
                if k < before.len() {
                    assert(es[k] == before[k]);
                } else {
                    assert(rows[last].entry == es[k]);
                }
            }
        } else {
            assert(es == before);
            assert forall|i: int|
                0 <= i < rows.len() && (#[trigger] rows[i]).session_id
                    == session_id implies exists|k: int|
                0 <= k < es.len() && #[trigger] es[k] == rows[i].entry by {
                assert(rest[i].session_id == session_id);
            }
        }
    }
}

/// In a valid store every session has a path.
pub proof fn law_every_session_has_a_path(s: StoreView, session_id: Seq<char>)
    requires
        s.wf(),
    ensures
        s.path(session_id) is Ok,
{
    let es = session_entries(s.entries, session_id);
    lemma_session_in(s.sessions, session_id);
    lemma_session_entries(s.entries, session_id);
    let leaf = s.leaf(session_id);
    assert(es.take(es.len() as int) =~= es);
    if let Some(id) = leaf {
        let k = session_in(s.sessions, session_id)->0;
        assert(s.sessions[k].leaf_id == Some(id));
        let i = choose|i: int|
            0 <= i < s.entries.len() && i < s.entries.len() && (
            #[trigger] s.entries[i]).session_id == session_id && s.entries[i].entry.id == id;
        assert(s.entries[i].session_id == session_id);
        let m = choose|m: int| 0 <= m < es.len() && #[trigger] es[m] == s.entries[i].entry;
        assert(es[m].id == id);
    }
    lemma_chain_ok(es, es.len() as int, leaf);
}

// ── Operations ──────────────────────────────────────────────────────────────

proof fn lemma_kinds_differ()
    ensures
        "operation_started"@ != "operation_finished"@,
{
    reveal_strlit("operation_started");
    reveal_strlit("operation_finished");
    assert("operation_started"@.len() != "operation_finished"@.len());
}

/// Another record that finishes nothing of interest leaves the open operations
/// among earlier rows as they were.
proof fn lemma_open_among_push(
    rows: Seq<RecordRowView>,
    all: Seq<RecordRowView>,
    r: RecordRowView,
    session_id: Seq<char>,
)
    requires
        r.record.kind != "operation_finished"@ || r.session_id != session_id,
    ensures
        open_among(rows, all.push(r), session_id) == open_among(rows, all, session_id),
    decreases rows.len(),
{
    if rows.len() > 0 {
        lemma_open_among_push(rows.drop_last(), all, r, session_id);
        let id = rows.last().record.id;
        if finished_in(all, session_id, id) {
            let i = choose|i: int|
                0 <= i < all.len() && (#[trigger] all[i]).session_id == session_id
                    && all[i].record.kind == "operation_finished"@ && all[i].record.run_id == id;
            assert(all.push(r)[i] == all[i]);
        }
        if finished_in(all.push(r), session_id, id) {
            let i = choose|i: int|
                0 <= i < all.push(r).len() && (#[trigger] all.push(r)[i]).session_id == session_id
                    && all.push(r)[i].record.kind == "operation_finished"@
                    && all.push(r)[i].record.run_id == id;
            assert(all[i] == all.push(r)[i]);
        }
    }
}

/// Whether the log mentions `run_id` nowhere.
pub open spec fn unheard(rows: Seq<RecordRowView>, run_id: Seq<char>) -> bool {
    forall|i: int|
        0 <= i < rows.len() ==> (#[trigger] rows[i]).record.id != run_id && rows[i].record.run_id
            != run_id
}

/// An operation that was started under a fresh id is the session's open run.
pub proof fn law_started_operation_is_open(
    s: StoreView,
    session_id: Seq<char>,
    run_id: Seq<char>,
    payload: JsonView,
)
    requires
        unheard(s.records, run_id),
        s.start_operation(session_id, run_id, payload).1 is Ok,
    ensures
        ({
            let n = s.start_operation(session_id, run_id, payload).0;
            &&& n.open_run(session_id) matches Ok(Some(open))
            &&& open.run_id == run_id
        }),
{
    lemma_kinds_differ();
    let n = s.start_operation(session_id, run_id, payload).0;
    let body = payload.with("source_leaf_id"@, super::log::leaf_json(s.leaf(session_id)));
    let a = s.append_record(session_id, run_id, run_id, "operation_started"@, body).0;
    assert(!record_in(s.records, run_id));
    let r = a.records.last();
    assert(a.records == s.records.push(r));
    assert(n.records == a.records);
    assert(n.records.drop_last() =~= s.records);
    lemma_open_among_push(s.records, s.records, r, session_id);
    assert(!finished_in(n.records, session_id, run_id));
    let open = n.open_operations(session_id);
    assert(open == s.open_operations(session_id).push(r.record));
    assert(open.len() == 1);
    assert(open[0].id == run_id);
}

/// While an operation is open no other one starts, and the attempt changes
/// nothing.
pub proof fn law_one_operation_at_a_time(
    s: StoreView,
    session_id: Seq<char>,
    run_id: Seq<char>,
    payload: JsonView,
)
    requires
        s.open_operations(session_id).len() > 0,
    ensures
        s.start_operation(session_id, run_id, payload).0 == s,
        s.start_operation(session_id, run_id, payload).1 is Err,
{
}

/// Among the open operations none is the finished one, and the others stay.
proof fn lemma_open_after_finish(
    rows: Seq<RecordRowView>,
    all: Seq<RecordRowView>,
    r: RecordRowView,
    session_id: Seq<char>,
)
    requires
        r.session_id == session_id,
        r.record.kind == "operation_finished"@,
    ensures
        open_among(rows, all.push(r), session_id) == open_among(rows, all, session_id).filter(
            |o: RecordView| o.id != r.record.run_id,
        ),
    decreases rows.len(),
{
    let keep = |o: RecordView| o.id != r.record.run_id;
    reveal(Seq::filter);
    if rows.len() > 0 {
        lemma_open_after_finish(rows.drop_last(), all, r, session_id);
        let row = rows.last();
        let id = row.record.id;
        if finished_in(all, session_id, id) {
            let i = choose|i: int|
                0 <= i < all.len() && (#[trigger] all[i]).session_id == session_id
                    && all[i].record.kind == "operation_finished"@ && all[i].record.run_id == id;
            assert(all.push(r)[i] == all[i]);
        }
        if finished_in(all.push(r), session_id, id) && id != r.record.run_id {
            let i = choose|i: int|
                0 <= i < all.push(r).len() && (#[trigger] all.push(r)[i]).session_id == session_id
                    && all.push(r)[i].record.kind == "operation_finished"@
                    && all.push(r)[i].record.run_id == id;
            assert(all[i] == all.push(r)[i]);
        }
        if id == r.record.run_id {
            assert(all.push(r)[all.len() as int] == r);
        }
        let before = open_among(rows.drop_last(), all, session_id);
        if starts_operation(row, session_id) && !finished_in(all, session_id, id) {
            let now = before.push(row.record);
            assert(now.drop_last() =~= before);
        }
    }
}

/// Finishing the one open operation leaves the session idle.
pub proof fn law_finished_operation_is_closed(
    s: StoreView,
    session_id: Seq<char>,
    how: Seq<char>,
)
    requires
        s.open_operations(session_id).len() == 1,
        !record_in(s.records, finish_id(s.open_operations(session_id)[0].id)),
        s.finish_operation(session_id, s.open_operations(session_id)[0].id, how).1 is Ok,
    ensures
        s.finish_operation(
            session_id,
            s.open_operations(session_id)[0].id,
            how,
        ).0.open_operations(session_id).len() == 0,
{
    lemma_kinds_differ();
    let run_id = s.open_operations(session_id)[0].id;
    let n = s.finish_operation(session_id, run_id, how).0;
    let r = n.records.last();
    assert(n.records == s.records.push(r));
    assert(n.records.drop_last() =~= s.records);
    lemma_open_after_finish(s.records, s.records, r, session_id);
    let open = s.open_operations(session_id);
    reveal(Seq::filter);
    assert(open.drop_last() =~= Seq::<RecordView>::empty());
    assert(open.drop_last().filter(|o: RecordView| o.id != r.record.run_id).len() == 0);
    assert(open.filter(|o: RecordView| o.id != r.record.run_id).len() == 0);
    assert(n.open_operations(session_id) == open_among(
        n.records.drop_last(),
        n.records,
        session_id,
    ));
}

// ── Recovery ────────────────────────────────────────────────────────────────

/// Filling batches only appends entries.
proof fn lemma_fill_frame(s: StoreView, session_id: Seq<char>, bs: Seq<BatchView>)
    ensures
        ({
            let n = s.fill_batches(session_id, bs).0;
            &&& n.records == s.records
            &&& n.inputs == s.inputs
            &&& n.todos == s.todos
            &&& s.entries.is_prefix_of(n.entries)
        }),
    decreases bs.len(),
{
    assert(s.entries.take(s.entries.len() as int) =~= s.entries);
    if bs.len() > 0 {
        lemma_fill_frame(s, session_id, bs.drop_last());
        let mid = s.fill_batches(session_id, bs.drop_last()).0;
        let n = s.fill_batches(session_id, bs).0;
        assert(n.entries.take(s.entries.len() as int) =~= mid.entries.take(
            s.entries.len() as int,
        ));
    }
}

/// After filling, every batch has its results entry.
proof fn lemma_fill_fulfils(s: StoreView, session_id: Seq<char>, bs: Seq<BatchView>, i: int)
    requires
        s.fill_batches(session_id, bs).1 is Ok,
        0 <= i < bs.len(),
    ensures
        entry_in(s.fill_batches(session_id, bs).0.entries, bs[i].id),
    decreases bs.len(),
{
    let rest = bs.drop_last();
    let mid = s.fill_batches(session_id, rest).0;
    let n = s.fill_batches(session_id, bs).0;
    if i < rest.len() {
        lemma_fill_fulfils(s, session_id, rest, i);
        let k = choose|k: int|
            0 <= k < mid.entries.len() && (#[trigger] mid.entries[k]).entry.id == rest[i].id;
        assert(n.entries[k] == mid.entries[k]);
    } else if !entry_in(mid.entries, bs[i].id) {
        assert(n.entries[mid.entries.len() as int].entry.id == bs[i].id);
    }
}

/// The state in which recovery looks at the end of the transcript.
pub open spec fn before_closing(s: StoreView, session_id: Seq<char>) -> StoreView {
    match s.open_run(session_id) {
        Ok(Some(open)) => s.fill_batches(session_id, batches(open.records)).0,
        _ => s,
    }
}

/// Recovery keeps every entry there was, gives every tool intent a result, and
/// leaves inputs and plans alone.
pub proof fn law_recovery_answers_every_intent(s: StoreView, session_id: Seq<char>, i: int)
    requires
        s.open_run(session_id) matches Ok(Some(_)),
        s.recover(session_id).1 is Ok,
    ensures
        ({
            let n = s.recover(session_id).0;
            let bs = batches(s.open_run(session_id)->Ok_0->0.records);
            &&& s.entries.is_prefix_of(n.entries)
            &&& n.inputs == s.inputs
            &&& n.todos == s.todos
            &&& 0 <= i < bs.len() ==> entry_in(n.entries, bs[i].id)
        }),
{
    let open = s.open_run(session_id)->Ok_0->0;
    let bs = batches(open.records);
    lemma_fill_frame(s, session_id, bs);
    let filled = s.fill_batches(session_id, bs).0;
    let n = s.recover(session_id).0;
    let closed = filled.close_transcript(session_id, open.run_id).0;
    assert(n.entries == closed.entries);
    assert(n.entries.take(s.entries.len() as int) =~= filled.entries.take(s.entries.len() as int));
    if 0 <= i < bs.len() {
        lemma_fill_fulfils(s, session_id, bs, i);
        let k = choose|k: int|
            0 <= k < filled.entries.len() && (#[trigger] filled.entries[k]).entry.id == bs[i].id;
        assert(n.entries[k] == filled.entries[k]);
    }
}

/// After recovery the session is idle, and recovering again does nothing.
pub proof fn law_recovery_is_idempotent(s: StoreView, session_id: Seq<char>)
    requires
        s.recover(session_id).1 is Ok,
        s.open_run(session_id) matches Ok(Some(open)) ==> !record_in(
            s.records,
            finish_id(open.run_id),
        ),
    ensures
        ({
            let n = s.recover(session_id).0;
            &&& n.open_operations(session_id).len() == 0
            &&& n.recover(session_id) == (
                n,
                Ok::<Option<RecoveryView>, StoreErrorView>(None),
            )
        }),
{
    if let Ok(Some(open)) = s.open_run(session_id) {
        let bs = batches(open.records);
        lemma_fill_frame(s, session_id, bs);
        let filled = s.fill_batches(session_id, bs).0;
        let closed = filled.close_transcript(session_id, open.run_id).0;
        assert(closed.records == s.records);
        law_finished_operation_is_closed(closed, session_id, "aborted"@);
    }
}

/// Finishing an operation leaves every path as it was.
proof fn lemma_finish_keeps_paths(
    s: StoreView,
    session_id: Seq<char>,
    run_id: Seq<char>,
    how: Seq<char>,
)
    ensures
        s.finish_operation(session_id, run_id, how).0.path(session_id) == s.path(session_id),
{
    let n = s.finish_operation(session_id, run_id, how).0;
    let done = JsonView::object().with("outcome"@, JsonView::Str(how));
    let a = s.append_record(session_id, finish_id(run_id), run_id, "operation_finished"@, done).0;
    lemma_session_in(s.sessions, session_id);
    lemma_same_ids(s.sessions, a.sessions, session_id);
    lemma_session_in(a.sessions, session_id);
    lemma_same_ids(a.sessions, n.sessions, session_id);
}

/// A recovered transcript never ends on a user message, so the next run does
/// not produce two consecutive user turns.
pub proof fn law_recovered_transcript_is_closed(s: StoreView, session_id: Seq<char>)
    requires
        s.open_run(session_id) matches Ok(Some(_)),
        s.recover(session_id).1 is Ok,
        entry_in(
            before_closing(s, session_id).entries,
            closing_id(s.open_run(session_id)->Ok_0->0.run_id),
        ) ==> !ends_on_user(before_closing(s, session_id).path_messages(session_id)->Ok_0),
    ensures
        s.recover(session_id).0.path_messages(session_id) matches Ok(messages) && !ends_on_user(
            messages,
        ),
{
    let open = s.open_run(session_id)->Ok_0->0;
    let filled = before_closing(s, session_id);
    let closed = filled.close_transcript(session_id, open.run_id).0;
    let n = s.recover(session_id).0;
    lemma_finish_keeps_paths(closed, session_id, open.run_id, "aborted"@);
    let messages = filled.path_messages(session_id)->Ok_0;
    if ends_on_user(messages) {
        law_append_extends_the_path(
            filled,
            session_id,
            closing_id(open.run_id),
            "message"@,
            PayloadView::Message(closing_note()),
            session_id,
        );
        let way = filled.path(session_id)->Ok_0;
        let e = closed.entries.last().entry;
        assert(way.push(e).drop_last() =~= way);
        assert(messages_on(way.push(e)) == Ok::<Seq<MessageView>, StoreErrorView>(
            messages.push(closing_note()),
        ));
    }
}

/// The batches whose results entry is not there.
pub open spec fn missing(entries: Seq<EntryRowView>, bs: Seq<BatchView>) -> Seq<BatchView>
    decreases bs.len(),
{
    if bs.len() == 0 {
        Seq::empty()
    } else {
        let before = missing(entries, bs.drop_last());
        if entry_in(entries, bs.last().id) {
            before
        } else {
            before.push(bs.last())
        }
    }
}

/// Whether an entry answers every intent of a batch as interrupted.
pub open spec fn answers(e: EntryView, b: BatchView) -> bool {
    e.id == b.id && e.kind == "message"@ && e.payload == PayloadView::Message(
        interrupted_results(b.intents),
    )
}

/// Whether `way` is `old` with one entry for each of the batches behind it.
pub open spec fn answered(way: Seq<EntryView>, old: Seq<EntryView>, bs: Seq<BatchView>) -> bool {
    &&& way.len() == old.len() + bs.len()
    &&& old.is_prefix_of(way)
    &&& forall|i: int|
        0 <= i < bs.len() ==> answers(way[old.len() + i], #[trigger] bs[i])
}

/// The next number that a session gives out; a session that is not there has
/// none left.
pub open spec fn next_number(s: StoreView, session_id: Seq<char>) -> int {
    match session_in(s.sessions, session_id) {
        Some(i) => s.sessions[i].next_seq,
        None => i64::MAX as int,
    }
}

/// Whether a record states a tool intent, of the results entry `id`.
pub open spec fn intends(record: RecordView, id: Seq<char>) -> bool {
    record.kind == "tool_started"@ && record.payload.str_field("results_entry_id"@) == Some(id)
}

/// How many of the records state a tool intent.
pub open spec fn intents_stated(records: Seq<RecordView>) -> nat
    decreases records.len(),
{
    if records.len() == 0 {
        0
    } else if records.last().kind == "tool_started"@ && records.last().payload.str_field(
        "results_entry_id"@,
    ) is Some {
        intents_stated(records.drop_last()) + 1
    } else {
        intents_stated(records.drop_last())
    }
}

/// Whether no two batches share an entry.
pub open spec fn apart(bs: Seq<BatchView>) -> bool {
    forall|i: int, j: int|
        0 <= i < bs.len() && 0 <= j < bs.len() && (#[trigger] bs[i]).id == (#[trigger] bs[j]).id
            ==> i == j
}

/// Every intent that a run states is in the one batch of its results entry, and
/// the batches hold no other.
pub proof fn law_batches_hold_every_intent(records: Seq<RecordView>, k: int, id: Seq<char>)
    requires
        0 <= k < records.len(),
        intends(records[k], id),
    ensures
        apart(batches(records)),
        intent_count(batches(records)) == intents_stated(records),
        batch_at(batches(records), id) matches Some(i) && batches(
            records,
        )[i].intents.contains(records[k].payload),
{
    lemma_batches(records);
    lemma_batched(records, k, id);
}

proof fn lemma_batches(records: Seq<RecordView>)
    ensures
        apart(batches(records)),
        intent_count(batches(records)) == intents_stated(records),
    decreases records.len(),
{
    if records.len() > 0 {
        lemma_batches(records.drop_last());
        let before = batches(records.drop_last());
        let record = records.last();
        if record.kind == "tool_started"@ {
            if let Some(id) = record.payload.str_field("results_entry_id"@) {
                lemma_batch_at(before, id);
                match batch_at(before, id) {
                    Some(i) => {
                        let b = BatchView { id, intents: before[i].intents.push(record.payload) };
                        lemma_count_update(before, i, b);
                        let now = before.update(i, b);
                        assert forall|x: int, y: int|
                            0 <= x < now.len() && 0 <= y < now.len() && (#[trigger] now[x]).id == (
                            #[trigger] now[y]).id implies x == y by {
                            assert(before[x].id == before[y].id);
                        }
                    },
                    None => {
                        let b = BatchView { id, intents: seq![record.payload] };
                        lemma_count_push(before, b);
                        let now = before.push(b);
                        assert forall|x: int, y: int|
                            0 <= x < now.len() && 0 <= y < now.len() && (#[trigger] now[x]).id == (
                            #[trigger] now[y]).id implies x == y by {
                            if x < before.len() && y < before.len() {
                                assert(before[x].id == before[y].id);
                            } else if x < before.len() {
                                assert(before[x].id != id);
                            } else if y < before.len() {
                                assert(before[y].id != id);
                            }
                        }
                    },
                }
            }
        }
    }
}

proof fn lemma_batched(records: Seq<RecordView>, k: int, id: Seq<char>)
    requires
        0 <= k < records.len(),
        intends(records[k], id),
    ensures
        batch_at(batches(records), id) matches Some(i) && 0 <= i < batches(records).len()
            && batches(records)[i].intents.contains(records[k].payload),
    decreases records.len(),
{
    let before = batches(records.drop_last());
    let now = batches(records);
    let record = records.last();
    lemma_batches(records.drop_last());
    lemma_batches(records);
    lemma_batch_at(before, id);
    lemma_batch_at(now, id);
    if k == records.len() - 1 {
        match batch_at(before, id) {
            Some(i) => {
                assert(now[i].id == id);
                let x = batch_at(now, id)->0;
                assert(now[x].id == now[i].id);
                assert(now[i].intents[before[i].intents.len() as int] == record.payload);
            },
            None => {
                assert(now.last().id == id);
                let x = batch_at(now, id)->0;
                assert(now[x].id == now[now.len() - 1].id);
                assert(now[x].intents[0] == record.payload);
            },
        }
    } else {
        assert(records.drop_last()[k] == records[k]);
        lemma_batched(records.drop_last(), k, id);
        if let Some(other) = record.payload.str_field("results_entry_id"@) {
            lemma_batch_at(before, other);
        }
        let i = batch_at(before, id)->0;
        let payload = records[k].payload;
        let at = choose|at: int|
            0 <= at < before[i].intents.len() && before[i].intents[at] == payload;
        assert(now[i].id == before[i].id);
        assert(now[i].intents[at] == payload);
        let x = batch_at(now, id)->0;
        assert(now[x].id == now[i].id);
    }
}

/// With numbers enough, filling gives each missing batch its entry, in order,
/// at the end of the path.
proof fn lemma_fill_path(s: StoreView, session_id: Seq<char>, bs: Seq<BatchView>)
    requires
        apart(bs),
        s.path(session_id) is Ok,
        s.path_messages(session_id) is Ok,
        session_in(s.sessions, session_id) is Some,
        next_number(s, session_id) + missing(s.entries, bs).len() <= i64::MAX,
    ensures
        ({
            let (n, r) = s.fill_batches(session_id, bs);
            let gone = missing(s.entries, bs);
            &&& r == Ok::<int, StoreErrorView>(intent_count(gone) as int)
            &&& n.path(session_id) matches Ok(way) && answered(
                way,
                s.path(session_id)->Ok_0,
                gone,
            )
            &&& n.path_messages(session_id) is Ok
            &&& session_in(n.sessions, session_id) is Some
            &&& next_number(n, session_id) == next_number(s, session_id) + gone.len()
            &&& forall|id: Seq<char>| #[trigger]
                entry_in(n.entries, id) ==> entry_in(s.entries, id) || exists|i: int|
                    0 <= i < bs.len() && (#[trigger] bs[i]).id == id
            &&& forall|id: Seq<char>| #[trigger]
                entry_in(s.entries, id) ==> entry_in(n.entries, id)
        }),
    decreases bs.len(),
{
    let old = s.path(session_id)->Ok_0;
    if bs.len() > 0 {
        let rest = bs.drop_last();
        let b = bs.last();
        assert(apart(rest)) by {
            assert forall|i: int, j: int|
                0 <= i < rest.len() && 0 <= j < rest.len() && (#[trigger] rest[i]).id == (
                #[trigger] rest[j]).id implies i == j by {
                assert(bs[i].id == bs[j].id);
            }
        }
        lemma_fill_path(s, session_id, rest);
        let mid = s.fill_batches(session_id, rest).0;
        let n = s.fill_batches(session_id, bs).0;
        let gone = missing(s.entries, rest);
        if entry_in(mid.entries, b.id) {
            assert(entry_in(s.entries, b.id)) by {
                if !entry_in(s.entries, b.id) {
                    let i = choose|i: int| 0 <= i < rest.len() && (#[trigger] rest[i]).id == b.id;
                    assert(bs[i].id == bs[bs.len() - 1].id);
                }
            }
        } else {
            let payload = PayloadView::Message(interrupted_results(b.intents));
            lemma_session_in(mid.sessions, session_id);
            law_append_extends_the_path(mid, session_id, b.id, "message"@, payload, session_id);
            lemma_same_ids(mid.sessions, n.sessions, session_id);
            let way = mid.path(session_id)->Ok_0;
            let e = n.entries.last().entry;
            let now = way.push(e);
            assert(n.path(session_id)->Ok_0 == now);
            assert(now.drop_last() =~= way);
            let all = gone.push(b);
            lemma_count_push(gone, b);
            assert(missing(s.entries, bs) == all);
            assert(answered(now, old, all)) by {
                assert(old =~= now.take(old.len() as int)) by {
                    assert(old =~= way.take(old.len() as int));
                }
                assert forall|i: int| 0 <= i < all.len() implies answers(
                    now[old.len() + i],
                    #[trigger] all[i],
                ) by {
                    if i < gone.len() {
                        assert(all[i] == gone[i]);
                        assert(now[old.len() + i] == way[old.len() + i]);
                    }
                }
            }
            assert forall|id: Seq<char>| #[trigger] entry_in(n.entries, id) implies entry_in(
                s.entries,
                id,
            ) || exists|i: int| 0 <= i < bs.len() && (#[trigger] bs[i]).id == id by {
                let k = choose|k: int|
                    0 <= k < n.entries.len() && (#[trigger] n.entries[k]).entry.id == id;
                if k < mid.entries.len() {
                    assert(mid.entries[k] == n.entries[k]);
                    assert(entry_in(mid.entries, id));
                } else {
                    assert(bs[bs.len() - 1].id == id);
                }
            }
            assert forall|id: Seq<char>| #[trigger] entry_in(s.entries, id) implies entry_in(
                n.entries,
                id,
            ) by {
                assert(entry_in(mid.entries, id));
                let k = choose|k: int|
                    0 <= k < mid.entries.len() && (#[trigger] mid.entries[k]).entry.id == id;
                assert(n.entries[k] == mid.entries[k]);
            }
        }
    } else {
        assert(old.take(old.len() as int) =~= old);
    }
}

proof fn lemma_open_is_logged(
    rows: Seq<RecordRowView>,
    all: Seq<RecordRowView>,
    session_id: Seq<char>,
    j: int,
)
    requires
        0 <= j < open_among(rows, all, session_id).len(),
    ensures
        exists|i: int| 0 <= i < rows.len() && (#[trigger] rows[i]).session_id == session_id,
    decreases rows.len(),
{
    let row = rows.last();
    if row.session_id == session_id {
        assert(rows[rows.len() - 1].session_id == session_id);
    } else {
        lemma_open_is_logged(rows.drop_last(), all, session_id, j);
        let i = choose|i: int|
            0 <= i < rows.drop_last().len() && (
            #[trigger] rows.drop_last()[i]).session_id == session_id;
        assert(rows[i].session_id == session_id);
    }
}

proof fn lemma_latest_is_logged(rows: Seq<RecordRowView>, session_id: Seq<char>)
    ensures
        latest_finish(rows, session_id) matches Some(r) ==> exists|i: int|
            0 <= i < rows.len() && (#[trigger] rows[i]).session_id == session_id && rows[i].record
                == r,
    decreases rows.len(),
{
    if rows.len() > 0 {
        lemma_latest_is_logged(rows.drop_last(), session_id);
        if let Some(r) = latest_finish(rows, session_id) {
            if latest_finish(rows.drop_last(), session_id) == Some(r) {
                let i = choose|i: int|
                    0 <= i < rows.drop_last().len() && (
                    #[trigger] rows.drop_last()[i]).session_id == session_id
                        && rows.drop_last()[i].record == r;
                assert(rows[i] == rows.drop_last()[i]);
            } else {
                assert(rows[rows.len() - 1].record == r);
            }
        }
    }
}

/// How an operation was finished is how the session's latest run ended.
pub proof fn law_finish_is_the_latest_outcome(
    s: StoreView,
    session_id: Seq<char>,
    run_id: Seq<char>,
    how: Seq<char>,
)
    requires
        s.wf(),
        !record_in(s.records, finish_id(run_id)),
        s.finish_operation(session_id, run_id, how).1 is Ok,
    ensures
        s.finish_operation(session_id, run_id, how).0.last_run_outcome(session_id) == Some(how),
{
    let n = s.finish_operation(session_id, run_id, how).0;
    let r = n.records.last();
    assert(n.records == s.records.push(r));
    assert(n.records.drop_last() =~= s.records);
    lemma_session_in(s.sessions, session_id);
    lemma_latest_is_logged(s.records, session_id);
    if let Some(b) = latest_finish(s.records, session_id) {
        let i = choose|i: int|
            0 <= i < s.records.len() && (#[trigger] s.records[i]).session_id == session_id
                && s.records[i].record == b;
        assert(given(s.sessions, s.records[i].session_id, b.seq));
        let k = choose|k: int|
            0 <= k < s.sessions.len() && (#[trigger] s.sessions[k]).session.id == session_id && 1
                <= b.seq < s.sessions[k].next_seq;
        let j = session_in(s.sessions, session_id)->0;
        assert(s.sessions[k].session.id == s.sessions[j].session.id);
        assert(b.seq <= r.record.seq);
    }
    assert(latest_finish(n.records, session_id) == Some(r.record));
}

/// Recovery as a whole. A session with one open run, whose transcript can be
/// read, is recovered: that run is reported and ends as aborted, the path there
/// was stays and goes on with one entry for each batch of intents without
/// results, in which each intent is answered by one error that it was
/// interrupted, and with a note where it would end on a user message. Recovering
/// again does nothing.
///
/// The run's finish must not be recorded already, the entry of its note must not
/// be there while the transcript ends on a user message, and the session must
/// have numbers left.
pub proof fn law_recovery(s: StoreView, session_id: Seq<char>)
    requires
        s.wf(),
        s.open_run(session_id) matches Ok(Some(_)),
        s.path_messages(session_id) is Ok,
        ({
            let open = s.open_run(session_id)->Ok_0->0;
            let filled = before_closing(s, session_id);
            &&& next_number(s, session_id) + missing(s.entries, batches(open.records)).len() + 2
                <= i64::MAX
            &&& !record_in(s.records, finish_id(open.run_id))
            &&& entry_in(filled.entries, closing_id(open.run_id)) ==> !ends_on_user(
                filled.path_messages(session_id)->Ok_0,
            )
        }),
    ensures
        ({
            let open = s.open_run(session_id)->Ok_0->0;
            let gone = missing(s.entries, batches(open.records));
            let old = s.path(session_id)->Ok_0;
            let (n, r) = s.recover(session_id);
            &&& n.wf()
            &&& r matches Ok(Some(rec))
            &&& rec.run_id == open.run_id
            &&& rec.interrupted_tools == intent_count(gone)
            &&& n.open_run(session_id) == Ok::<Option<OpenRunView>, StoreErrorView>(None)
            &&& n.last_run_outcome(session_id) == Some("aborted"@)
            &&& n.path(session_id) matches Ok(way)
            &&& if rec.closed_with_note {
                way.len() > 0 && answered(way.drop_last(), old, gone) && way.last().id == closing_id(open.run_id)
                    && way.last().kind == "message"@ && way.last().payload == PayloadView::Message(
                    closing_note(),
                )
            } else {
                answered(way, old, gone)
            }
            &&& old.is_prefix_of(way)
            &&& n.path_messages(session_id) matches Ok(messages) && !ends_on_user(messages)
            &&& n.recover(session_id) == (n, Ok::<Option<RecoveryView>, StoreErrorView>(None))
        }),
{
    let open = s.open_run(session_id)->Ok_0->0;
    let bs = batches(open.records);
    let gone = missing(s.entries, bs);
    let old = s.path(session_id)->Ok_0;
    lemma_open_is_logged(s.records, s.records, session_id, 0);
    let i = choose|i: int|
        0 <= i < s.records.len() && (#[trigger] s.records[i]).session_id == session_id;
    assert(given(s.sessions, s.records[i].session_id, s.records[i].record.seq));
    lemma_session_in(s.sessions, session_id);
    lemma_batches(open.records);
    lemma_fill_path(s, session_id, bs);
    lemma_fill_frame(s, session_id, bs);
    lemma_fill_keeps_wf(s, session_id, bs);
    let filled = s.fill_batches(session_id, bs).0;
    let way = filled.path(session_id)->Ok_0;
    let (closed, c) = filled.close_transcript(session_id, open.run_id);
    lemma_session_in(filled.sessions, session_id);
    let note = ends_on_user(filled.path_messages(session_id)->Ok_0);
    if note {
        let payload = PayloadView::Message(closing_note());
        law_append_extends_the_path(
            filled,
            session_id,
            closing_id(open.run_id),
            "message"@,
            payload,
            session_id,
        );
        law_append_entry_keeps_wf(filled, session_id, closing_id(open.run_id), "message"@, payload);
        lemma_same_ids(filled.sessions, closed.sessions, session_id);
        let e = closed.entries.last().entry;
        assert(closed.path(session_id)->Ok_0 == way.push(e));
        assert(way.push(e).drop_last() =~= way);
    }
    assert(c == Ok::<bool, StoreErrorView>(note));
    assert(closed.records == s.records);
    lemma_session_in(closed.sessions, session_id);
    lemma_finish_keeps_paths(closed, session_id, open.run_id, "aborted"@);
    let (n, r) = s.recover(session_id);
    assert(r is Ok);
    let last = n.path(session_id)->Ok_0;
    assert(old =~= last.take(old.len() as int)) by {
        assert(old =~= way.take(old.len() as int));
    }
    law_recovery_keeps_wf(s, session_id);
    law_finish_is_the_latest_outcome(closed, session_id, open.run_id, "aborted"@);
    law_recovery_is_idempotent(s, session_id);
    law_recovered_transcript_is_closed(s, session_id);
}

proof fn lemma_nothing_to_fill(s: StoreView, session_id: Seq<char>, bs: Seq<BatchView>)
    requires
        forall|i: int| 0 <= i < bs.len() ==> entry_in(s.entries, (#[trigger] bs[i]).id),
    ensures
        s.fill_batches(session_id, bs) == (s, Ok::<int, StoreErrorView>(0)),
    decreases bs.len(),
{
    if bs.len() > 0 {
        let rest = bs.drop_last();
        assert forall|i: int| 0 <= i < rest.len() implies entry_in(
            s.entries,
            (#[trigger] rest[i]).id,
        ) by {
            assert(rest[i] == bs[i]);
        }
        lemma_nothing_to_fill(s, session_id, rest);
        assert(bs[bs.len() - 1] == bs.last());
    }
}

proof fn lemma_fill_resumes(s: StoreView, session_id: Seq<char>, bs: Seq<BatchView>, k: int)
    requires
        0 <= k <= bs.len(),
        s.fill_batches(session_id, bs.take(k)).1 is Ok,
    ensures
        ({
            let mid = s.fill_batches(session_id, bs.take(k)).0;
            let (a, x) = mid.fill_batches(session_id, bs);
            let (b, y) = s.fill_batches(session_id, bs);
            a == b && (x is Ok <==> y is Ok) && (x is Err ==> x == y)
        }),
    decreases bs.len(),
{
    let mid = s.fill_batches(session_id, bs.take(k)).0;
    if k == bs.len() {
        assert(bs.take(k) =~= bs);
        assert forall|i: int| 0 <= i < bs.len() implies entry_in(
            mid.entries,
            (#[trigger] bs[i]).id,
        ) by {
            lemma_fill_fulfils(s, session_id, bs, i);
        }
        lemma_nothing_to_fill(mid, session_id, bs);
    } else {
        assert(bs.drop_last().take(k) =~= bs.take(k));
        lemma_fill_resumes(s, session_id, bs.drop_last(), k);
    }
}

/// A recovery that stopped after some of the results were filled in is taken up
/// by the next one, which leaves the session as one undisturbed recovery would
/// have.
pub proof fn law_recovery_resumes(s: StoreView, session_id: Seq<char>, k: int)
    requires
        s.open_run(session_id) matches Ok(Some(_)),
        ({
            let bs = batches(s.open_run(session_id)->Ok_0->0.records);
            0 <= k <= bs.len() && s.fill_batches(session_id, bs.take(k)).1 is Ok
        }),
    ensures
        ({
            let bs = batches(s.open_run(session_id)->Ok_0->0.records);
            s.fill_batches(session_id, bs.take(k)).0.recover(session_id).0 == s.recover(
                session_id,
            ).0
        }),
{
    let bs = batches(s.open_run(session_id)->Ok_0->0.records);
    lemma_fill_frame(s, session_id, bs.take(k));
    lemma_fill_resumes(s, session_id, bs, k);
}

/// A recovery that stopped after the closing note is taken up by the next one,
/// which leaves the session as one undisturbed recovery would have.
pub proof fn law_recovery_resumes_after_the_note(s: StoreView, session_id: Seq<char>)
    requires
        s.open_run(session_id) matches Ok(Some(_)),
        s.recover(session_id).1 is Ok,
        entry_in(
            before_closing(s, session_id).entries,
            closing_id(s.open_run(session_id)->Ok_0->0.run_id),
        ) ==> !ends_on_user(before_closing(s, session_id).path_messages(session_id)->Ok_0),
    ensures
        ({
            let run_id = s.open_run(session_id)->Ok_0->0.run_id;
            let closed = before_closing(s, session_id).close_transcript(session_id, run_id).0;
            closed.recover(session_id).0 == s.recover(session_id).0
        }),
{
    let open = s.open_run(session_id)->Ok_0->0;
    let bs = batches(open.records);
    let filled = before_closing(s, session_id);
    let closed = filled.close_transcript(session_id, open.run_id).0;
    lemma_fill_frame(s, session_id, bs);
    assert(closed.records == s.records);
    assert forall|i: int| 0 <= i < bs.len() implies entry_in(closed.entries, (#[trigger] bs[i]).id) by {
        lemma_fill_fulfils(s, session_id, bs, i);
        let k = choose|k: int|
            0 <= k < filled.entries.len() && (#[trigger] filled.entries[k]).entry.id == bs[i].id;
        assert(closed.entries[k] == filled.entries[k]);
    }
    lemma_nothing_to_fill(closed, session_id, bs);
    law_recovered_transcript_is_closed(s, session_id);
    lemma_finish_keeps_paths(closed, session_id, open.run_id, "aborted"@);
}

/// The intents of a batch are what the run's records say was started for its
/// results entry: each of them once, in the order of the records, and no other.
pub proof fn law_batch_is_what_was_started(records: Seq<RecordView>, i: int)
    requires
        0 <= i < batches(records).len(),
    ensures
        batches(records)[i].intents == records.filter(
            |r: RecordView|
                r.kind == "tool_started"@ && r.payload.str_field("results_entry_id"@) == Some(
                    batches(records)[i].id,
                ),
        ).map_values(|r: RecordView| r.payload),
{
    lemma_batch_intents(records, i, batches(records)[i].id);
}

proof fn lemma_batch_intents(records: Seq<RecordView>, i: int, id: Seq<char>)
    requires
        0 <= i < batches(records).len(),
        batches(records)[i].id == id,
    ensures
        batches(records)[i].intents == records.filter(
            |r: RecordView|
                r.kind == "tool_started"@ && r.payload.str_field("results_entry_id"@) == Some(id),
        ).map_values(|r: RecordView| r.payload),
    decreases records.len(),
{
    let f = |r: RecordView|
        r.kind == "tool_started"@ && r.payload.str_field("results_entry_id"@) == Some(id);
    let g = |r: RecordView| r.payload;
    reveal(Seq::filter);
    let front = records.drop_last();
    let before = batches(front);
    let now = batches(records);
    let last = records.last();
    lemma_batches(front);
    lemma_batches(records);
    lemma_batch_at(before, id);
    let said = last.payload.str_field("results_entry_id"@);
    if last.kind == "tool_started"@ && said is Some {
        lemma_batch_at(before, said->0);
    }
    assert(records.filter(f) == if f(last) {
        front.filter(f).push(last)
    } else {
        front.filter(f)
    });
    if f(last) {
        assert(records.filter(f).map_values(g) =~= front.filter(f).map_values(g).push(
            last.payload,
        ));
        match batch_at(before, id) {
            Some(j) => {
                assert(now[j].id == id);
                assert(now[i].id == now[j].id);
                lemma_batch_intents(front, j, id);
            },
            None => {
                assert(now[now.len() - 1].id == id);
                assert(now[i].id == now[now.len() - 1].id);
                lemma_no_batch(front, id);
                assert(front.filter(f).map_values(g) =~= Seq::<JsonView>::empty());
                assert(now[i].intents =~= Seq::<JsonView>::empty().push(last.payload));
            },
        }
    } else {
        if i < before.len() {
            assert(now[i].id == before[i].id);
            lemma_batch_intents(front, i, id);
            assert(now[i].intents == before[i].intents);
        }
    }
}

proof fn lemma_no_batch(records: Seq<RecordView>, id: Seq<char>)
    requires
        batch_at(batches(records), id) is None,
    ensures
        records.filter(
            |r: RecordView|
                r.kind == "tool_started"@ && r.payload.str_field("results_entry_id"@) == Some(id),
        ).len() == 0,
    decreases records.len(),
{
    let f = |r: RecordView|
        r.kind == "tool_started"@ && r.payload.str_field("results_entry_id"@) == Some(id);
    reveal(Seq::filter);
    if records.len() > 0 {
        let front = records.drop_last();
        let before = batches(front);
        let now = batches(records);
        let last = records.last();
        lemma_batch_at(before, id);
        lemma_batch_at(now, id);
        let said = last.payload.str_field("results_entry_id"@);
        if last.kind == "tool_started"@ && said is Some {
            lemma_batch_at(before, said->0);
        }
        if let Some(j) = batch_at(before, id) {
            assert(now[j].id == id);
        }
        if f(last) {
            assert(now[now.len() - 1].id == id);
        }
        lemma_no_batch(front, id);
    }
}

/// After a recovery every call that was started and not answered is answered,
/// in its place: the message of a batch has one result for each of its intents,
/// in order, each an error that names the very call it answers.
pub proof fn law_recovery_answers_each_call(s: StoreView, session_id: Seq<char>, k: int, i: int)
    requires
        s.wf(),
        s.open_run(session_id) matches Ok(Some(_)),
        s.path_messages(session_id) is Ok,
        ({
            let open = s.open_run(session_id)->Ok_0->0;
            let filled = before_closing(s, session_id);
            let gone = missing(s.entries, batches(open.records));
            &&& next_number(s, session_id) + gone.len() + 2 <= i64::MAX
            &&& !record_in(s.records, finish_id(open.run_id))
            &&& entry_in(filled.entries, closing_id(open.run_id)) ==> !ends_on_user(
                filled.path_messages(session_id)->Ok_0,
            )
            &&& 0 <= k < gone.len()
            &&& 0 <= i < gone[k].intents.len()
        }),
    ensures
        ({
            let open = s.open_run(session_id)->Ok_0->0;
            let batch = missing(s.entries, batches(open.records))[k];
            let at = s.path(session_id)->Ok_0.len() + k;
            &&& s.recover(session_id).0.path(session_id) matches Ok(way)
            &&& at < way.len()
            &&& way[at].id == batch.id
            &&& way[at].kind == "message"@
            &&& way[at].payload matches PayloadView::Message(m)
            &&& m.role == Role::User
            &&& m.content.len() == batch.intents.len()
            &&& m.content[i] matches BlockView::ToolResult { tool_use_id, content, is_error }
            &&& is_error
            &&& batch.intents[i].str_field("tool_use_id"@) matches Some(id) ==> tool_use_id == id
            &&& content == "interrupted: bullpen exited before this tool finished"@
        }),
{
    law_recovery(s, session_id);
    let open = s.open_run(session_id)->Ok_0->0;
    let gone = missing(s.entries, batches(open.records));
    let old = s.path(session_id)->Ok_0;
    let way = s.recover(session_id).0.path(session_id)->Ok_0;
    let rec = s.recover(session_id).1->Ok_0->0;
    let told = if rec.closed_with_note {
        way.drop_last()
    } else {
        way
    };
    assert(answers(told[old.len() + k], gone[k]));
    assert(told[old.len() + k] == way[old.len() + k]);
}

} // verus!
