//! What each operation leaves in the store's rows, field by field.
use vstd::prelude::*;
use vstd::string::*;

use super::{
    entry_in, lemma_same_ids, lemma_session_in, record_in, session_in, PayloadView, RecordRowView,
    RecordView, SessionInputState, SessionInputView, SessionRowView, SessionView, StoreErrorView,
    StoreView, TodoRowView, WorkerKind,
};
use super::inbox::{
    by_position, highest, input_at, lemma_input_at, lemma_oldest_at, oldest_at, options_verdict,
    position_place, prompt_verdict, DrainDecisionView,
};
use super::log::{run_records, seq_place};
use super::migrate::steps_after;
use super::sessions::{first_user, fresh_session, latest_first, latest_place, title_of};
use super::todos::{address, addressed_at, lemma_addressed_at, plan, todo_in};
use crate::json::JsonView;
use crate::llm::{MessageView, Role, Usage};
use crate::text::{lemma_lex_total, lemma_lex_transitive, lex_le};

verus! {

// ── Sessions ────────────────────────────────────────────────────────────────

/// A session begins empty: untitled, idle, unused, without process or worktree,
/// made and last changed at the same moment.
pub proof fn law_session_begins_empty(
    id: Seq<char>,
    parent: Option<Seq<char>>,
    cwd: Seq<char>,
    provider: Seq<char>,
    model: Seq<char>,
    now: Seq<char>,
)
    ensures
        ({
            let s = fresh_session(id, parent, cwd, provider, model, now);
            &&& s.id == id
            &&& s.parent_session_id == parent
            &&& s.cwd == cwd
            &&& s.provider == provider
            &&& s.model == model
            &&& s.created_at == now
            &&& s.updated_at == now
            &&& s.title.len() == 0
            &&& s.status == "idle"@
            &&& s.usage.input_tokens == 0 && s.usage.output_tokens == 0
            &&& s.pid is None
            &&& s.worktree_path is None
            &&& s.worktree_branch is None
        }),
{
}

/// A session that is created is there afterwards, as given, with nothing said or
/// open in it, and nothing else changed. An id that is taken is refused, except
/// that a child that is there already is handed back as it is.
pub proof fn law_created_session_is_there(s: StoreView, session: SessionView)
    ensures
        ({
            let (n, r) = s.create(session);
            let (m, t) = s.create_child(session);
            &&& s.get_session(session.id) is Err ==> {
                &&& r == Ok::<SessionView, StoreErrorView>(session)
                &&& n.get_session(session.id) == Ok::<SessionView, StoreErrorView>(session)
                &&& n.sessions.drop_last() == s.sessions
                &&& n.sessions.last().next_seq == 1
                &&& n.leaf(session.id) is None
                &&& n.sessions.last().open_operation_id is None
                &&& n.sessions.last().worker_generation is None
                &&& n.entries == s.entries
                &&& n.records == s.records
                &&& n.inputs == s.inputs
                &&& n.todos == s.todos
                &&& (m, t) == (n, r)
            }
            &&& s.get_session(session.id) is Ok ==> {
                &&& r is Err
                &&& n == s
                &&& m == s
                &&& t == s.get_session(session.id)
            }
        }),
{
    let n = s.create(session).0;
    assert(n.sessions.len() > s.sessions.len() ==> n.sessions.drop_last() =~= s.sessions);
}

/// A session that is found has the id that was asked for.
pub proof fn law_found_session_has_the_id(s: StoreView, id: Seq<char>)
    ensures
        s.get_session(id) matches Ok(found) ==> found.id == id,
        (exists|i: int| 0 <= i < s.sessions.len() && (#[trigger] s.sessions[i]).session.id == id)
            ==> s.get_session(id) is Ok,
{
    lemma_session_in(s.sessions, id);
}

/// Whether two states differ in one session's row at most.
pub open spec fn only_row(before: StoreView, after: StoreView, i: int) -> bool {
    &&& after.sessions.len() == before.sessions.len()
    &&& forall|k: int|
        0 <= k < before.sessions.len() && k != i ==> (#[trigger] after.sessions[k])
            == before.sessions[k]
    &&& after.entries == before.entries
    &&& after.records == before.records
    &&& after.inputs == before.inputs
    &&& after.todos == before.todos
}

/// Whether two rows agree on what a session is and on its history: all but its
/// state of running.
pub open spec fn same_history(a: SessionRowView, b: SessionRowView) -> bool {
    &&& a.next_seq == b.next_seq
    &&& a.leaf_id == b.leaf_id
    &&& a.open_operation_id == b.open_operation_id
    &&& a.session.id == b.session.id
    &&& a.session.cwd == b.session.cwd
    &&& a.session.provider == b.session.provider
    &&& a.session.model == b.session.model
    &&& a.session.created_at == b.session.created_at
    &&& a.session.parent_session_id == b.session.parent_session_id
}

/// A session's run status is what was set, with the process that was named; all
/// else stays.
pub proof fn law_run_status_is_set(
    s: StoreView,
    id: Seq<char>,
    status: Seq<char>,
    pid: Option<i64>,
    now: Seq<char>,
    i: int,
)
    requires
        session_in(s.sessions, id) == Some(i),
    ensures
        ({
            let n = s.set_run_status(id, status, pid, now);
            &&& only_row(s, n, i)
            &&& same_history(s.sessions[i], n.sessions[i])
            &&& n.sessions[i].session.status == status
            &&& n.sessions[i].session.pid == pid
            &&& n.sessions[i].session.updated_at == now
            &&& n.sessions[i].session.title == s.sessions[i].session.title
            &&& n.sessions[i].session.usage == s.sessions[i].session.usage
            &&& n.sessions[i].session.worktree_path == s.sessions[i].session.worktree_path
            &&& n.sessions[i].session.worktree_branch == s.sessions[i].session.worktree_branch
            &&& n.sessions[i].worker_generation == s.sessions[i].worker_generation
        }),
{
    lemma_session_in(s.sessions, id);
}

/// A session takes the usage it is given, and a title once: the first that is
/// given stays.
pub proof fn law_meta_is_set(
    s: StoreView,
    id: Seq<char>,
    usage: Usage,
    title: Seq<char>,
    now: Seq<char>,
    i: int,
)
    requires
        session_in(s.sessions, id) == Some(i),
    ensures
        ({
            let n = s.update_session_meta(id, usage, title, now);
            &&& only_row(s, n, i)
            &&& same_history(s.sessions[i], n.sessions[i])
            &&& n.sessions[i].session.usage == usage
            &&& n.sessions[i].session.updated_at == now
            &&& s.sessions[i].session.title.len() == 0 ==> n.sessions[i].session.title == title
            &&& s.sessions[i].session.title.len() > 0 ==> n.sessions[i].session.title
                == s.sessions[i].session.title
            &&& n.sessions[i].session.status == s.sessions[i].session.status
            &&& n.sessions[i].session.pid == s.sessions[i].session.pid
            &&& n.sessions[i].session.worktree_path == s.sessions[i].session.worktree_path
        }),
{
    lemma_session_in(s.sessions, id);
}

/// A session's worktree is what was recorded; all else stays, the time of its
/// last change too.
pub proof fn law_worktree_is_set(
    s: StoreView,
    id: Seq<char>,
    path: Seq<char>,
    branch: Seq<char>,
    i: int,
)
    requires
        session_in(s.sessions, id) == Some(i),
    ensures
        ({
            let n = s.set_worktree(id, path, branch);
            &&& only_row(s, n, i)
            &&& same_history(s.sessions[i], n.sessions[i])
            &&& n.sessions[i].session.worktree_path == Some(path)
            &&& n.sessions[i].session.worktree_branch == Some(branch)
            &&& n.sessions[i].session.status == s.sessions[i].session.status
            &&& n.sessions[i].session.title == s.sessions[i].session.title
            &&& n.sessions[i].session.usage == s.sessions[i].session.usage
            &&& n.sessions[i].session.updated_at == s.sessions[i].session.updated_at
            &&& n.sessions[i].session.pid == s.sessions[i].session.pid
        }),
{
    lemma_session_in(s.sessions, id);
}

/// A worker that starts makes the session running, under its process, kind and
/// generation; it is the current one then.
pub proof fn law_worker_start_is_recorded(
    s: StoreView,
    id: Seq<char>,
    pid: i64,
    kind: WorkerKind,
    generation: Seq<char>,
    now: Seq<char>,
)
    ensures
        ({
            let (n, r) = s.start_worker(id, pid, kind, generation, now);
            match session_in(s.sessions, id) {
                None => n == s && r == Err::<Seq<char>, StoreErrorView>(
                    StoreErrorView::NotFound(id),
                ),
                Some(i) => {
                    &&& r == Ok::<Seq<char>, StoreErrorView>(generation)
                    &&& only_row(s, n, i)
                    &&& same_history(s.sessions[i], n.sessions[i])
                    &&& n.sessions[i].session.status == "running"@
                    &&& n.sessions[i].session.pid == Some(pid)
                    &&& n.sessions[i].session.updated_at == now
                    &&& n.sessions[i].worker_generation == Some(generation)
                    &&& n.sessions[i].worker_kind == Some(kind)
                    &&& n.is_current(id, generation)
                    &&& n.sessions[i].session.title == s.sessions[i].session.title
                    &&& n.sessions[i].session.usage == s.sessions[i].session.usage
                },
            }
        }),
{
    lemma_session_in(s.sessions, id);
    let n = s.start_worker(id, pid, kind, generation, now).0;
    if session_in(s.sessions, id) is Some {
        lemma_same_ids(s.sessions, n.sessions, id);
    }
}

/// A worker that ends leaves the status it says and no process, and is current
/// no more; one that was superseded changes nothing.
pub proof fn law_worker_end_is_recorded(
    s: StoreView,
    id: Seq<char>,
    generation: Seq<char>,
    status: Seq<char>,
    now: Seq<char>,
)
    ensures
        ({
            let n = s.finish_worker(id, generation, status, now);
            &&& !s.is_current(id, generation) ==> n == s
            &&& s.is_current(id, generation) ==> {
                let i = session_in(s.sessions, id)->0;
                &&& only_row(s, n, i)
                &&& same_history(s.sessions[i], n.sessions[i])
                &&& n.sessions[i].session.status == status
                &&& n.sessions[i].session.pid is None
                &&& n.sessions[i].session.updated_at == now
                &&& n.sessions[i].worker_generation is None
                &&& n.sessions[i].worker_kind is None
                &&& !n.is_current(id, generation)
                &&& n.sessions[i].session.title == s.sessions[i].session.title
                &&& n.sessions[i].session.usage == s.sessions[i].session.usage
            }
        }),
{
    lemma_session_in(s.sessions, id);
    let n = s.finish_worker(id, generation, status, now);
    lemma_same_ids(s.sessions, n.sessions, id);
}

proof fn lemma_latest_place(list: Seq<SessionView>, at: Seq<char>)
    requires
        forall|i: int, j: int|
            0 <= i < j < list.len() ==> lex_le(
                (#[trigger] list[j]).updated_at,
                (#[trigger] list[i]).updated_at,
            ),
    ensures
        0 <= latest_place(list, at) <= list.len(),
        forall|i: int|
            0 <= i < latest_place(list, at) ==> lex_le(at, (#[trigger] list[i]).updated_at),
        forall|i: int|
            latest_place(list, at) <= i < list.len() ==> lex_le(
                (#[trigger] list[i]).updated_at,
                at,
            ),
    decreases list.len(),
{
    if list.len() > 0 {
        let last = list.last();
        if lex_le(at, last.updated_at) {
            assert forall|i: int| 0 <= i < list.len() implies lex_le(
                at,
                (#[trigger] list[i]).updated_at,
            ) by {
                if i < list.len() - 1 {
                    assert(lex_le(list[list.len() - 1].updated_at, list[i].updated_at));
                    lemma_lex_transitive(at, last.updated_at, list[i].updated_at, 0);
                }
            }
        } else {
            let front = list.drop_last();
            assert forall|i: int, j: int| 0 <= i < j < front.len() implies lex_le(
                (#[trigger] front[j]).updated_at,
                (#[trigger] front[i]).updated_at,
            ) by {
                assert(lex_le(list[j].updated_at, list[i].updated_at));
            }
            lemma_latest_place(front, at);
            lemma_lex_total(at, last.updated_at, 0);
            assert forall|i: int| 0 <= i < latest_place(list, at) implies lex_le(
                at,
                (#[trigger] list[i]).updated_at,
            ) by {
                assert(front[i] == list[i]);
            }
            assert forall|i: int| latest_place(list, at) <= i < list.len() implies lex_le(
                (#[trigger] list[i]).updated_at,
                at,
            ) by {
                if i < front.len() {
                    assert(front[i] == list[i]);
                }
            }
        }
    }
}

/// The list of sessions holds every session once, the one that changed last
/// first.
pub proof fn law_latest_session_comes_first(rows: Seq<SessionRowView>)
    ensures
        latest_first(rows).len() == rows.len(),
        latest_first(rows).to_multiset() == rows.map_values(
            |r: SessionRowView| r.session,
        ).to_multiset(),
        forall|i: int, j: int|
            0 <= i < j < latest_first(rows).len() ==> lex_le(
                (#[trigger] latest_first(rows)[j]).updated_at,
                (#[trigger] latest_first(rows)[i]).updated_at,
            ),
    decreases rows.len(),
{
    broadcast use vstd::seq_lib::group_to_multiset_ensures;

    let f = |r: SessionRowView| r.session;
    if rows.len() == 0 {
        assert(latest_first(rows) =~= rows.map_values(f));
    } else {
        let before = latest_first(rows.drop_last());
        let s = rows.last().session;
        let at = latest_place(before, s.updated_at);
        law_latest_session_comes_first(rows.drop_last());
        lemma_latest_place(before, s.updated_at);
        assert(rows.map_values(f) =~= rows.drop_last().map_values(f).push(s));
        let all = latest_first(rows);
        assert forall|i: int, j: int| 0 <= i < j < all.len() implies lex_le(
            (#[trigger] all[j]).updated_at,
            (#[trigger] all[i]).updated_at,
        ) by {
            let a = if i < at {
                i
            } else {
                i - 1
            };
            let b = if j < at {
                j
            } else {
                j - 1
            };
            if i != at {
                assert(all[i] == before[a]);
            }
            if j != at {
                assert(all[j] == before[b]);
            }
            if i != at && j != at {
                assert(lex_le(before[b].updated_at, before[a].updated_at));
            }
        }
    }
}

/// A session is titled by the first thing the user said in it: the first eighty
/// characters.
pub proof fn law_title_is_the_first_prompt(messages: Seq<MessageView>, k: int)
    requires
        0 <= k < messages.len(),
        messages[k].role == Role::User,
        forall|i: int| 0 <= i < k ==> (#[trigger] messages[i]).role != Role::User,
    ensures
        messages[k].text().len() <= 80 ==> title_of(messages) == messages[k].text(),
        messages[k].text().len() > 80 ==> title_of(messages).len() == 80 && title_of(
            messages,
        ).is_prefix_of(messages[k].text()),
{
    lemma_first_user(messages, k);
    let text = messages[k].text();
    assert(text.take(text.len() as int) =~= text);
    assert(text.len() >= 80 ==> text.take(80).len() == 80 && text.take(80) =~= text.subrange(0, 80));
}

proof fn lemma_first_user(messages: Seq<MessageView>, k: int)
    requires
        0 <= k < messages.len(),
        messages[k].role == Role::User,
        forall|i: int| 0 <= i < k ==> (#[trigger] messages[i]).role != Role::User,
    ensures
        first_user(messages) == Some(messages[k]),
    decreases messages.len(),
{
    if k > 0 {
        let rest = messages.drop_first();
        assert(messages[0].role != Role::User);
        assert forall|i: int| 0 <= i < k - 1 implies (#[trigger] rest[i]).role != Role::User by {
            assert(rest[i] == messages[i + 1]);
        }
        lemma_first_user(rest, k - 1);
    }
}

// ── The log ─────────────────────────────────────────────────────────────────

/// An entry is stored as given, under its session, after the one that was the
/// newest and with the next number, and is the newest itself then. An id that is
/// known changes nothing; a session that is not there is an error.
pub proof fn law_entry_is_stored_whole(
    s: StoreView,
    session_id: Seq<char>,
    id: Seq<char>,
    kind: Seq<char>,
    payload: PayloadView,
)
    ensures
        ({
            let (n, r) = s.append_entry(session_id, id, kind, payload);
            &&& entry_in(s.entries, id) ==> n == s && r is Ok
            &&& !entry_in(s.entries, id) ==> match session_in(s.sessions, session_id) {
                None => n == s && r is Err,
                Some(i) => if s.sessions[i].next_seq >= i64::MAX {
                    n == s && r is Err
                } else {
                    &&& r is Ok
                    &&& n.entries.len() == s.entries.len() + 1
                    &&& n.entries.drop_last() == s.entries
                    &&& n.entries.last().session_id == session_id
                    &&& n.entries.last().entry.id == id
                    &&& n.entries.last().entry.kind == kind
                    &&& n.entries.last().entry.payload == payload
                    &&& n.entries.last().entry.parent_id == s.leaf(session_id)
                    &&& n.entries.last().entry.seq == s.sessions[i].next_seq
                    &&& n.sessions[i].next_seq == s.sessions[i].next_seq + 1
                    &&& n.leaf(session_id) == Some(id)
                    &&& n.sessions[i].session == s.sessions[i].session
                    &&& n.sessions[i].open_operation_id == s.sessions[i].open_operation_id
                    &&& n.records == s.records
                    &&& n.inputs == s.inputs
                    &&& n.todos == s.todos
                },
            }
        }),
{
    let n = s.append_entry(session_id, id, kind, payload).0;
    lemma_session_in(s.sessions, session_id);
    if session_in(s.sessions, session_id) is Some {
        lemma_same_ids(s.sessions, n.sessions, session_id);
        if n.entries.len() > s.entries.len() {
            assert(n.entries.drop_last() =~= s.entries);
        }
    }
}

/// A record is stored as given, under its session and run, with the next number;
/// the conversation does not move. An id that is known changes nothing.
pub proof fn law_record_is_stored_whole(
    s: StoreView,
    session_id: Seq<char>,
    id: Seq<char>,
    run_id: Seq<char>,
    kind: Seq<char>,
    payload: JsonView,
)
    ensures
        ({
            let (n, r) = s.append_record(session_id, id, run_id, kind, payload);
            &&& record_in(s.records, id) ==> n == s && r is Ok
            &&& !record_in(s.records, id) ==> match session_in(s.sessions, session_id) {
                None => n == s && r is Err,
                Some(i) => if s.sessions[i].next_seq >= i64::MAX {
                    n == s && r is Err
                } else {
                    &&& r is Ok
                    &&& n.records.len() == s.records.len() + 1
                    &&& n.records.drop_last() == s.records
                    &&& n.records.last().session_id == session_id
                    &&& n.records.last().record.id == id
                    &&& n.records.last().record.run_id == run_id
                    &&& n.records.last().record.kind == kind
                    &&& n.records.last().record.payload == payload
                    &&& n.records.last().record.seq == s.sessions[i].next_seq
                    &&& n.sessions[i].next_seq == s.sessions[i].next_seq + 1
                    &&& n.leaf(session_id) == s.leaf(session_id)
                    &&& n.sessions[i].session == s.sessions[i].session
                    &&& n.entries == s.entries
                    &&& n.inputs == s.inputs
                    &&& n.todos == s.todos
                },
            }
        }),
{
    let n = s.append_record(session_id, id, run_id, kind, payload).0;
    lemma_session_in(s.sessions, session_id);
    if session_in(s.sessions, session_id) is Some {
        lemma_same_ids(s.sessions, n.sessions, session_id);
        if n.records.len() > s.records.len() {
            assert(n.records.drop_last() =~= s.records);
        }
    }
}

proof fn lemma_number_place(rs: Seq<RecordView>, seq: int)
    requires
        forall|i: int, j: int|
            0 <= i < j < rs.len() ==> (#[trigger] rs[i]).seq <= (#[trigger] rs[j]).seq,
    ensures
        0 <= seq_place(rs, seq) <= rs.len(),
        forall|i: int| 0 <= i < seq_place(rs, seq) ==> (#[trigger] rs[i]).seq <= seq,
        forall|i: int| seq_place(rs, seq) <= i < rs.len() ==> (#[trigger] rs[i]).seq > seq,
    decreases rs.len(),
{
    if rs.len() > 0 {
        if rs.last().seq <= seq {
            assert forall|i: int| 0 <= i < rs.len() implies (#[trigger] rs[i]).seq <= seq by {
                if i < rs.len() - 1 {
                    assert(rs[i].seq <= rs[rs.len() - 1].seq);
                }
            }
        } else {
            let front = rs.drop_last();
            assert forall|i: int, j: int| 0 <= i < j < front.len() implies (
            #[trigger] front[i]).seq <= (#[trigger] front[j]).seq by {
                assert(rs[i].seq <= rs[j].seq);
            }
            lemma_number_place(front, seq);
            assert forall|i: int| 0 <= i < seq_place(rs, seq) implies (#[trigger] rs[i]).seq
                <= seq by {
                assert(front[i] == rs[i]);
            }
            assert forall|i: int| seq_place(rs, seq) <= i < rs.len() implies (#[trigger] rs[i]).seq
                > seq by {
                if i < front.len() {
                    assert(front[i] == rs[i]);
                }
            }
        }
    }
}

/// A run's records are those that name the session and the run, all of them, in
/// the order of their numbers.
pub proof fn law_run_records_are_all_in_order(
    rows: Seq<RecordRowView>,
    session_id: Seq<char>,
    run_id: Seq<char>,
)
    ensures
        forall|i: int, j: int|
            0 <= i < j < run_records(rows, session_id, run_id).len() ==> (#[trigger] run_records(
                rows,
                session_id,
                run_id,
            )[i]).seq <= (#[trigger] run_records(rows, session_id, run_id)[j]).seq,
        run_records(rows, session_id, run_id).to_multiset() == rows.filter(
            |r: RecordRowView| r.session_id == session_id && r.record.run_id == run_id,
        ).map_values(|r: RecordRowView| r.record).to_multiset(),
    decreases rows.len(),
{
    broadcast use vstd::seq_lib::group_to_multiset_ensures;

    reveal(Seq::filter);
    let f = |r: RecordRowView| r.session_id == session_id && r.record.run_id == run_id;
    let g = |r: RecordRowView| r.record;
    let all = run_records(rows, session_id, run_id);
    if rows.len() == 0 {
        assert(all =~= rows.filter(f).map_values(g));
    } else {
        let front = rows.drop_last();
        let before = run_records(front, session_id, run_id);
        let row = rows.last();
        law_run_records_are_all_in_order(front, session_id, run_id);
        if f(row) {
            let at = seq_place(before, row.record.seq);
            lemma_number_place(before, row.record.seq);
            assert(rows.filter(f).map_values(g) =~= front.filter(f).map_values(g).push(row.record));
            assert forall|i: int, j: int| 0 <= i < j < all.len() implies (#[trigger] all[i]).seq
                <= (#[trigger] all[j]).seq by {
                let a = if i < at {
                    i
                } else {
                    i - 1
                };
                let b = if j < at {
                    j
                } else {
                    j - 1
                };
                if i != at {
                    assert(all[i] == before[a]);
                }
                if j != at {
                    assert(all[j] == before[b]);
                }
                if i != at && j != at {
                    assert(before[a].seq <= before[b].seq);
                }
            }
        }
    }
}

/// A run that is started records where the conversation stood: the newest entry,
/// or null in an empty one.
pub proof fn law_run_start_names_the_leaf(
    s: StoreView,
    session_id: Seq<char>,
    run_id: Seq<char>,
    payload: Map<Seq<char>, JsonView>,
)
    requires
        !record_in(s.records, run_id),
        s.start_operation(session_id, run_id, JsonView::Object(payload)).1 is Ok,
    ensures
        ({
            let (n, r) = s.start_operation(session_id, run_id, JsonView::Object(payload));
            let body = n.records.last().record.payload;
            &&& n.records.len() == s.records.len() + 1
            &&& n.records.drop_last() == s.records
            &&& n.records.last().record.kind == "operation_started"@
            &&& n.records.last().record.id == run_id
            &&& body.get("source_leaf_id"@) == Some(
                match s.leaf(session_id) {
                    Some(id) => JsonView::Str(id),
                    None => JsonView::Null,
                },
            )
            &&& forall|k: Seq<char>|
                k != "source_leaf_id"@ ==> (#[trigger] body.get(k)) == JsonView::Object(
                    payload,
                ).get(k)
            &&& n.entries == s.entries
            &&& session_in(s.sessions, session_id) matches Some(i)
                && n.sessions[i].open_operation_id == Some(run_id)
        }),
{
    let n = s.start_operation(session_id, run_id, JsonView::Object(payload)).0;
    let body = JsonView::Object(payload).with(
        "source_leaf_id"@,
        super::log::leaf_json(s.leaf(session_id)),
    );
    let mid = s.append_record(session_id, run_id, run_id, "operation_started"@, body).0;
    lemma_session_in(s.sessions, session_id);
    if session_in(s.sessions, session_id) is Some {
        lemma_same_ids(s.sessions, mid.sessions, session_id);
        lemma_same_ids(mid.sessions, n.sessions, session_id);
    }
    assert(n.records.drop_last() =~= s.records);
}

// ── The inbox ───────────────────────────────────────────────────────────────

proof fn lemma_top(rows: Seq<SessionInputView>, session_id: Seq<char>)
    ensures
        highest(rows, session_id) matches Some(p) ==> forall|j: int|
            0 <= j < rows.len() && (#[trigger] rows[j]).session_id == session_id
                ==> rows[j].position <= p,
        highest(rows, session_id) is None ==> forall|j: int|
            0 <= j < rows.len() ==> (#[trigger] rows[j]).session_id != session_id,
    decreases rows.len(),
{
    if rows.len() > 0 {
        let front = rows.drop_last();
        lemma_top(front, session_id);
        assert forall|j: int|
            0 <= j < rows.len() && (#[trigger] rows[j]).session_id == session_id implies highest(
            rows,
            session_id,
        ) is Some && rows[j].position <= highest(rows, session_id)->0 by {
            if j < front.len() {
                assert(front[j] == rows[j]);
            }
        }
    }
}

/// A prompt that is accepted waits behind every other of its session, as it was
/// given.
pub proof fn law_prompt_waits_behind_the_others(
    s: StoreView,
    session_id: Seq<char>,
    id: Seq<char>,
    prompt: PayloadView,
    options: JsonView,
    now: Seq<char>,
)
    requires
        s.enqueue(session_id, id, prompt, options, now).1 is Ok,
        input_at(s.inputs, id) is None,
    ensures
        ({
            let (n, r) = s.enqueue(session_id, id, prompt, options, now);
            let input = r->Ok_0;
            &&& n.inputs.len() == s.inputs.len() + 1
            &&& n.inputs.drop_last() == s.inputs
            &&& n.inputs.last() == input
            &&& input.id == id
            &&& input.session_id == session_id
            &&& input.prompt == prompt
            &&& input.options == options
            &&& input.enqueued_at == now
            &&& input.state == SessionInputState::Pending
            &&& input.operation_id is None
            &&& input.started_at is None
            &&& forall|j: int|
                0 <= j < s.inputs.len() && (#[trigger] s.inputs[j]).session_id == session_id
                    ==> s.inputs[j].position < input.position
            &&& n.sessions == s.sessions
            &&& n.entries == s.entries
            &&& n.records == s.records
            &&& n.todos == s.todos
        }),
{
    lemma_top(s.inputs, session_id);
    let n = s.enqueue(session_id, id, prompt, options, now).0;
    assert(n.inputs.drop_last() =~= s.inputs);
}

/// Only what a user says can wait, and only with options that are known.
pub proof fn law_only_prompts_wait(
    s: StoreView,
    session_id: Seq<char>,
    id: Seq<char>,
    prompt: PayloadView,
    options: JsonView,
    now: Seq<char>,
)
    ensures
        s.enqueue(session_id, id, prompt, options, now).1 is Ok ==> {
            &&& prompt.message() matches Ok(m)
            &&& m.role == Role::User
            &&& options matches JsonView::Object(fields)
            &&& options_verdict(options) is Ok
        },
        s.enqueue(session_id, id, prompt, options, now).1 is Err ==> s.enqueue(
            session_id,
            id,
            prompt,
            options,
            now,
        ).0 == s,
{
}

proof fn lemma_position_place(rs: Seq<SessionInputView>, position: int)
    requires
        forall|i: int, j: int|
            0 <= i < j < rs.len() ==> (#[trigger] rs[i]).position <= (#[trigger] rs[j]).position,
    ensures
        0 <= position_place(rs, position) <= rs.len(),
        forall|i: int| 0 <= i < position_place(rs, position) ==> (#[trigger] rs[i]).position
            <= position,
        forall|i: int| position_place(rs, position) <= i < rs.len() ==> (#[trigger] rs[i]).position
            > position,
    decreases rs.len(),
{
    if rs.len() > 0 {
        if rs.last().position <= position {
            assert forall|i: int| 0 <= i < rs.len() implies (#[trigger] rs[i]).position
                <= position by {
                if i < rs.len() - 1 {
                    assert(rs[i].position <= rs[rs.len() - 1].position);
                }
            }
        } else {
            let front = rs.drop_last();
            assert forall|i: int, j: int| 0 <= i < j < front.len() implies (
            #[trigger] front[i]).position <= (#[trigger] front[j]).position by {
                assert(rs[i].position <= rs[j].position);
            }
            lemma_position_place(front, position);
            assert forall|i: int| 0 <= i < position_place(rs, position) implies (
            #[trigger] rs[i]).position <= position by {
                assert(front[i] == rs[i]);
            }
            assert forall|i: int| position_place(rs, position) <= i < rs.len() implies (
            #[trigger] rs[i]).position > position by {
                if i < front.len() {
                    assert(front[i] == rs[i]);
                }
            }
        }
    }
}

/// A session's inbox lists its own prompts, all of them, in the order in which
/// they are to run.
pub proof fn law_inbox_is_in_order(rows: Seq<SessionInputView>, session_id: Seq<char>)
    ensures
        forall|i: int, j: int|
            0 <= i < j < by_position(rows, session_id).len() ==> (#[trigger] by_position(
                rows,
                session_id,
            )[i]).position <= (#[trigger] by_position(rows, session_id)[j]).position,
        by_position(rows, session_id).to_multiset() == rows.filter(
            |r: SessionInputView| r.session_id == session_id,
        ).to_multiset(),
    decreases rows.len(),
{
    broadcast use vstd::seq_lib::group_to_multiset_ensures;

    reveal(Seq::filter);
    let f = |r: SessionInputView| r.session_id == session_id;
    let all = by_position(rows, session_id);
    if rows.len() == 0 {
        assert(all =~= rows.filter(f));
    } else {
        let front = rows.drop_last();
        let before = by_position(front, session_id);
        let row = rows.last();
        law_inbox_is_in_order(front, session_id);
        if f(row) {
            let at = position_place(before, row.position);
            lemma_position_place(before, row.position);
            assert(rows.filter(f) =~= front.filter(f).push(row));
            assert forall|i: int, j: int| 0 <= i < j < all.len() implies (
            #[trigger] all[i]).position <= (#[trigger] all[j]).position by {
                let a = if i < at {
                    i
                } else {
                    i - 1
                };
                let b = if j < at {
                    j
                } else {
                    j - 1
                };
                if i != at {
                    assert(all[i] == before[a]);
                }
                if j != at {
                    assert(all[j] == before[b]);
                }
                if i != at && j != at {
                    assert(before[a].position <= before[b].position);
                }
            }
        }
    }
}

/// A prompt that starts becomes the session's next message, right after what was
/// the newest, in a run of its own that names it; both have the next numbers.
pub proof fn law_started_prompt_joins_the_conversation(
    s: StoreView,
    session_id: Seq<char>,
    expected: Seq<char>,
    run_id: Seq<char>,
    now: Seq<char>,
)
    ensures
        ({
            let (n, r) = s.start_oldest(session_id, expected, run_id, now);
            r is Ok && r->Ok_0 is Some ==> {
                let k = oldest_at(s.inputs, session_id)->0;
                let i = session_in(s.sessions, session_id)->0;
                let body = n.records.last().record.payload;
                &&& n.entries.len() == s.entries.len() + 1
                &&& n.entries.drop_last() == s.entries
                &&& n.entries.last().session_id == session_id
                &&& n.entries.last().entry.kind == "message"@
                &&& n.entries.last().entry.payload == s.inputs[k].prompt
                &&& n.entries.last().entry.parent_id == s.leaf(session_id)
                &&& n.leaf(session_id) == Some(n.entries.last().entry.id)
                &&& n.records.len() == s.records.len() + 1
                &&& n.records.drop_last() == s.records
                &&& n.records.last().session_id == session_id
                &&& n.records.last().record.id == run_id
                &&& n.records.last().record.run_id == run_id
                &&& n.records.last().record.kind == "operation_started"@
                &&& body.get("input_id"@) == Some(JsonView::Str(expected))
                &&& body.get("source_leaf_id"@) == Some(
                    match s.leaf(session_id) {
                        Some(id) => JsonView::Str(id),
                        None => JsonView::Null,
                    },
                )
                &&& n.records.last().record.seq == s.sessions[i].next_seq
                &&& n.entries.last().entry.seq == s.sessions[i].next_seq + 1
                &&& n.sessions[i].next_seq == s.sessions[i].next_seq + 2
                &&& n.sessions[i].open_operation_id == Some(run_id)
                &&& n.sessions[i].session == s.sessions[i].session
                &&& n.inputs[k].prompt == s.inputs[k].prompt
                &&& n.inputs[k].id == expected
                &&& n.inputs[k].started_at == Some(now)
                &&& n.todos == s.todos
            }
        }),
{
    let (n, r) = s.start_oldest(session_id, expected, run_id, now);
    lemma_session_in(s.sessions, session_id);
    lemma_oldest_at(s.inputs, session_id);
    reveal_strlit("input_id");
    reveal_strlit("source_leaf_id");
    assert("input_id"@.len() != "source_leaf_id"@.len());
    if r is Ok && r->Ok_0 is Some {
        lemma_same_ids(s.sessions, n.sessions, session_id);
        assert(n.entries.drop_last() =~= s.entries);
        assert(n.records.drop_last() =~= s.records);
    }
}

/// A worker with nothing open is handed the prompt that waits longest; only
/// where none waits does it retire, with the status it says.
pub proof fn law_worker_drains_before_it_retires(
    s: StoreView,
    session_id: Seq<char>,
    generation: Seq<char>,
    status: Seq<char>,
    now: Seq<char>,
)
    requires
        s.is_current(session_id, generation),
        s.open_operations(session_id).len() == 0,
    ensures
        ({
            let (n, r) = s.drain_or_retire(session_id, generation, status, now);
            let i = session_in(s.sessions, session_id)->0;
            let waiting = exists|j: int|
                0 <= j < s.inputs.len() && (#[trigger] s.inputs[j]).session_id == session_id
                    && s.inputs[j].state == SessionInputState::Pending;
            &&& r is Ok
            &&& waiting ==> {
                &&& r->Ok_0 matches DrainDecisionView::Pending(input)
                &&& n == s
                &&& s.inputs.contains(input)
                &&& input.session_id == session_id
                &&& input.state == SessionInputState::Pending
                &&& forall|j: int|
                    0 <= j < s.inputs.len() && (#[trigger] s.inputs[j]).session_id == session_id
                        && s.inputs[j].state == SessionInputState::Pending ==> input.position
                        <= s.inputs[j].position
            }
            &&& !waiting ==> {
                &&& r->Ok_0 is Retired
                &&& only_row(s, n, i)
                &&& n.sessions[i].session.status == status
                &&& n.sessions[i].session.pid is None
                &&& n.sessions[i].worker_generation is None
            }
        }),
{
    lemma_oldest_at(s.inputs, session_id);
    lemma_session_in(s.sessions, session_id);
    match oldest_at(s.inputs, session_id) {
        Some(k) => {
            assert(s.inputs[k].session_id == session_id);
            assert(s.inputs.contains(s.inputs[k]));
        },
        None => {},
    }
}

// ── The plan ────────────────────────────────────────────────────────────────

/// An item that is added stands last in the plan, as it was said, and pending.
pub proof fn law_added_item_stands_last(
    s: StoreView,
    session_id: Seq<char>,
    id: Seq<char>,
    content: Seq<char>,
)
    requires
        s.add_todo(session_id, id, content).1 is Ok,
        !todo_in(s.todos, id),
    ensures
        ({
            let n = s.add_todo(session_id, id, content).0;
            let after = plan(n.todos, session_id);
            &&& after.len() == plan(s.todos, session_id).len() + 1
            &&& after.drop_last() == plan(s.todos, session_id)
            &&& after.last().id == id
            &&& after.last().content == content
            &&& after.last().status == "pending"@
            &&& forall|other: Seq<char>|
                other != session_id ==> (#[trigger] plan(n.todos, other)) == plan(s.todos, other)
        }),
{
    let n = s.add_todo(session_id, id, content).0;
    assert(n.todos.drop_last() =~= s.todos);
    let before = plan(s.todos, session_id);
    assert(plan(n.todos, session_id).drop_last() =~= before);
}

proof fn lemma_all_addressed(
    rows: Seq<TodoRowView>,
    session_id: Seq<char>,
    prefix: Seq<char>,
    k: int,
)
    requires
        0 <= k < rows.len(),
        super::todos::addressed(rows[k], session_id, prefix),
    ensures
        addressed_at(rows, session_id, prefix).contains(k),
    decreases rows.len(),
{
    let all = addressed_at(rows, session_id, prefix);
    if k < rows.len() - 1 {
        let front = rows.drop_last();
        let before = addressed_at(front, session_id, prefix);
        assert(front[k] == rows[k]);
        lemma_all_addressed(front, session_id, prefix, k);
        let i = choose|i: int| 0 <= i < before.len() && before[i] == k;
        assert(all[i] == k);
    } else {
        assert(all[all.len() - 1] == k);
    }
}

/// An item is addressed by the session's own items alone, and by the beginning
/// of its id; it is found just where one item has it.
pub proof fn law_item_is_addressed(
    rows: Seq<TodoRowView>,
    session_id: Seq<char>,
    prefix: Seq<char>,
)
    ensures
        address(rows, session_id, prefix) matches Ok(at) ==> {
            &&& 0 <= at < rows.len()
            &&& rows[at].session_id == session_id
            &&& prefix.is_prefix_of(rows[at].todo.id)
            &&& forall|k: int|
                0 <= k < rows.len() && k != at && (#[trigger] rows[k]).session_id == session_id
                    ==> !prefix.is_prefix_of(rows[k].todo.id)
        },
        (forall|k: int|
            0 <= k < rows.len() && (#[trigger] rows[k]).session_id == session_id
                ==> !prefix.is_prefix_of(rows[k].todo.id)) ==> address(rows, session_id, prefix)
            == Err::<int, StoreErrorView>(StoreErrorView::NotFound(prefix)),
{
    let found = addressed_at(rows, session_id, prefix);
    lemma_addressed_at(rows, session_id, prefix);
    if found.len() == 1 {
        let at = found[0];
        assert forall|k: int|
            0 <= k < rows.len() && k != at && (#[trigger] rows[k]).session_id
                == session_id implies !prefix.is_prefix_of(rows[k].todo.id) by {
            if prefix.is_prefix_of(rows[k].todo.id) {
                lemma_all_addressed(rows, session_id, prefix, k);
            }
        }
    }
    if found.len() > 0 {
        assert(super::todos::addressed(rows[found[0]], session_id, prefix));
    }
}

/// A status is set on the item that is addressed; its words and its place stay.
/// No other item changes, except that starting one puts the one that was in
/// progress back to pending.
pub proof fn law_status_is_set(
    s: StoreView,
    session_id: Seq<char>,
    prefix: Seq<char>,
    status: Seq<char>,
    at: int,
    k: int,
)
    requires
        address(s.todos, session_id, prefix) == Ok::<int, StoreErrorView>(at),
        0 <= k < s.todos.len(),
    ensures
        ({
            let (n, r) = s.set_todo_status(session_id, prefix, status);
            &&& r is Ok
            &&& n.todos.len() == s.todos.len()
            &&& n.todos[k].session_id == s.todos[k].session_id
            &&& n.todos[k].todo.id == s.todos[k].todo.id
            &&& n.todos[k].todo.content == s.todos[k].todo.content
            &&& k == at ==> n.todos[k].todo.status == status
            &&& k != at && (status != "in_progress"@ || s.todos[k].session_id != session_id
                || s.todos[k].todo.status != "in_progress"@) ==> n.todos[k] == s.todos[k]
            &&& k != at && status == "in_progress"@ && s.todos[k].session_id == session_id
                && s.todos[k].todo.status == "in_progress"@ ==> n.todos[k].todo.status
                == "pending"@
            &&& n.sessions == s.sessions
            &&& n.entries == s.entries
            &&& n.records == s.records
            &&& n.inputs == s.inputs
        }),
{
}

/// Removing takes out the item that is addressed and leaves the others as they
/// were, in order.
pub proof fn law_item_is_removed(
    s: StoreView,
    session_id: Seq<char>,
    prefix: Seq<char>,
    at: int,
)
    requires
        address(s.todos, session_id, prefix) == Ok::<int, StoreErrorView>(at),
    ensures
        ({
            let (n, r) = s.remove_todo(session_id, prefix);
            &&& r is Ok
            &&& n.todos == s.todos.take(at) + s.todos.skip(at + 1)
            &&& n.sessions == s.sessions
            &&& n.entries == s.entries
            &&& n.records == s.records
            &&& n.inputs == s.inputs
        }),
{
    law_item_is_addressed(s.todos, session_id, prefix);
    assert(s.todos.remove(at) =~= s.todos.take(at) + s.todos.skip(at + 1));
}

// ── Migrations ──────────────────────────────────────────────────────────────

/// A store is migrated by every version above its own, each once, lowest first.
pub proof fn law_every_later_step_is_taken(version: int, upto: int)
    requires
        0 <= version <= upto <= i64::MAX,
    ensures
        steps_after(version, upto).len() == upto - version,
        forall|k: int|
            0 <= k < upto - version ==> (#[trigger] steps_after(version, upto)[k]) == version + 1
                + k,
    decreases upto,
{
    if upto > 0 && version < upto {
        law_every_later_step_is_taken(version, upto - 1);
    } else if upto > 0 {
        lemma_no_step(version, upto);
    }
}

proof fn lemma_no_step(version: int, upto: int)
    requires
        upto <= version,
    ensures
        steps_after(version, upto).len() == 0,
    decreases upto,
{
    if upto > 0 {
        lemma_no_step(version, upto - 1);
    }
}

/// A prompt is looked up by its id, among its session's own.
pub proof fn law_prompt_is_looked_up(s: StoreView, session_id: Seq<char>, id: Seq<char>)
    ensures
        s.inspect_input(session_id, id) matches Ok(input) ==> {
            &&& s.inputs.contains(input)
            &&& input.id == id
            &&& input.session_id == session_id
        },
        (forall|i: int| 0 <= i < s.inputs.len() ==> (#[trigger] s.inputs[i]).id != id)
            ==> s.inspect_input(session_id, id) is Err,
{
    lemma_input_at(s.inputs, id);
}

/// What goes wrong is told in words that hold what it is about.
pub proof fn law_errors_say_what_it_is(m: Seq<char>)
    ensures
        StoreErrorView::NotFound(m).words() == "no session matches `"@ + m + "`"@,
        StoreErrorView::Ambiguous(m).words() == "session id `"@ + m + "` is ambiguous"@,
        StoreErrorView::Corrupt(m).words() == "corrupt session state: "@ + m,
        StoreErrorView::Db(m).words() == "database error: "@ + m,
        StoreErrorView::Serde(m).words() == "serialization error: "@ + m,
        StoreErrorView::Io(m).words() == "io error: "@ + m,
{
}

// ── What is accepted ────────────────────────────────────────────────────────

/// A user's message with known options is accepted under a new id, while the
/// session is there and has places left.
pub proof fn law_prompt_is_accepted(
    s: StoreView,
    session_id: Seq<char>,
    id: Seq<char>,
    m: MessageView,
    fields: Map<Seq<char>, JsonView>,
    now: Seq<char>,
)
    requires
        m.role == Role::User,
        forall|k: Seq<char>|
            fields.dom().contains(k) ==> (k == "sandbox"@ || k == "sandbox_strict"@)
                && #[trigger] fields[k] is Bool,
        forall|i: int| 0 <= i < s.inputs.len() ==> (#[trigger] s.inputs[i]).id != id,
        s.get_session(session_id) is Ok,
        forall|i: int|
            0 <= i < s.inputs.len() && (#[trigger] s.inputs[i]).session_id == session_id
                ==> s.inputs[i].position < i64::MAX,
    ensures
        s.enqueue(session_id, id, PayloadView::Message(m), JsonView::Object(fields), now).1 is Ok,
{
    lemma_input_at(s.inputs, id);
    lemma_top(s.inputs, session_id);
    lemma_top_is_there(s.inputs, session_id);
    if exists|k: Seq<char>| #[trigger] super::inbox::first_bad(fields, k) {
        let k = choose|k: Seq<char>| #[trigger] super::inbox::first_bad(fields, k);
        assert(fields[k] is Bool);
    }
}

proof fn lemma_top_is_there(rows: Seq<SessionInputView>, session_id: Seq<char>)
    ensures
        highest(rows, session_id) matches Some(p) ==> exists|j: int|
            0 <= j < rows.len() && (#[trigger] rows[j]).session_id == session_id
                && rows[j].position == p,
    decreases rows.len(),
{
    if rows.len() > 0 {
        let front = rows.drop_last();
        lemma_top_is_there(front, session_id);
        if let Some(p) = highest(rows, session_id) {
            if highest(front, session_id) == Some(p) {
                let j = choose|j: int|
                    0 <= j < front.len() && (#[trigger] front[j]).session_id == session_id
                        && front[j].position == p;
                assert(rows[j] == front[j]);
            } else {
                assert(rows[rows.len() - 1].position == p);
            }
        }
    }
}

/// A run starts where none is open, the session is there and has a number left.
pub proof fn law_run_starts(s: StoreView, session_id: Seq<char>, run_id: Seq<char>, i: int)
    requires
        s.open_operations(session_id).len() == 0,
        session_in(s.sessions, session_id) == Some(i),
        s.sessions[i].next_seq < i64::MAX,
    ensures
        s.start_operation(session_id, run_id, JsonView::object()).1 == Ok::<
            Seq<char>,
            StoreErrorView,
        >(run_id),
        s.open_operations(session_id).len() == 0 ==> s.open_run(session_id) == Ok::<
            Option<super::OpenRunView>,
            StoreErrorView,
        >(None),
{
}

/// A run does not start while one is open.
pub proof fn law_open_run_bars_another(s: StoreView, session_id: Seq<char>, run_id: Seq<char>)
    requires
        s.open_operations(session_id).len() > 0,
    ensures
        s.start_operation(session_id, run_id, JsonView::object()).1 is Err,
        s.start_operation(session_id, run_id, JsonView::object()).0 == s,
{
}

/// A run ends where its session is there and has a number left; a run that is
/// open is reported with its records.
pub proof fn law_run_ends(
    s: StoreView,
    session_id: Seq<char>,
    run_id: Seq<char>,
    how: Seq<char>,
    i: int,
)
    requires
        session_in(s.sessions, session_id) == Some(i),
        s.sessions[i].next_seq < i64::MAX,
    ensures
        s.finish_operation(session_id, run_id, how).1 is Ok,
        s.open_operations(session_id).len() == 1 ==> (s.open_run(session_id) matches Ok(Some(open))
            && open.run_id == s.open_operations(session_id)[0].id && open.records == run_records(
            s.records,
            session_id,
            open.run_id,
        )),
        s.open_operations(session_id).len() > 1 ==> s.open_run(session_id) is Err,
{
}

/// The prompt that waits longest starts where it is the one expected, nothing is
/// open, and its ids and numbers are free.
pub proof fn law_waiting_prompt_starts(
    s: StoreView,
    session_id: Seq<char>,
    expected: Seq<char>,
    run_id: Seq<char>,
    now: Seq<char>,
    k: int,
    i: int,
)
    requires
        oldest_at(s.inputs, session_id) == Some(k),
        s.inputs[k].id == expected,
        options_verdict(s.inputs[k].options) is Ok,
        prompt_verdict(s.inputs[k].prompt) is Ok,
        s.open_operations(session_id).len() == 0,
        session_in(s.sessions, session_id) == Some(i),
        s.sessions[i].next_seq + 1 < i64::MAX,
        !record_in(s.records, run_id),
        !entry_in(s.entries, run_id + ":user"@),
    ensures
        s.start_oldest(session_id, expected, run_id, now).1 is Ok,
        s.start_oldest(session_id, expected, run_id, now).1->Ok_0 is Some,
{
}

/// Nothing starts where nothing waits.
pub proof fn law_nothing_waits(
    s: StoreView,
    session_id: Seq<char>,
    expected: Seq<char>,
    run_id: Seq<char>,
    now: Seq<char>,
)
    requires
        forall|j: int|
            0 <= j < s.inputs.len() && (#[trigger] s.inputs[j]).session_id == session_id
                ==> s.inputs[j].state != SessionInputState::Pending,
    ensures
        s.start_oldest(session_id, expected, run_id, now) == (
            s,
            Ok::<Option<SessionInputView>, StoreErrorView>(None),
        ),
        s.has_work(session_id) <==> s.open_operations(session_id).len() > 0,
{
    lemma_oldest_at(s.inputs, session_id);
}

/// An item is added wherever the session is there.
pub proof fn law_item_is_accepted(
    s: StoreView,
    session_id: Seq<char>,
    id: Seq<char>,
    content: Seq<char>,
)
    ensures
        s.get_session(session_id) is Ok ==> s.add_todo(session_id, id, content).1 is Ok,
        s.get_session(session_id) is Err && !todo_in(s.todos, id) ==> s.add_todo(
            session_id,
            id,
            content,
        ).1 is Err,
        s.add_todo(session_id, id, content).1 is Err ==> s.add_todo(session_id, id, content).0 == s,
{
}

/// A session is resolved by a prefix only to one whose id begins so; where two
/// do, or none, it is not.
pub proof fn law_prefix_resolves(s: StoreView, prefix: Seq<char>)
    ensures
        s.resolve_session(prefix) matches Ok(found) ==> prefix.is_prefix_of(found.id),
        (forall|i: int|
            0 <= i < s.sessions.len() ==> !prefix.is_prefix_of(
                (#[trigger] s.sessions[i]).session.id,
            )) ==> s.resolve_session(prefix) == Err::<SessionView, StoreErrorView>(
            StoreErrorView::NotFound(prefix),
        ),
{
    lemma_matching(s.sessions, prefix);
    let found = super::sessions::matching(s.sessions, prefix);
    if found.len() > 0 {
        assert(prefix.is_prefix_of(found[0].id));
        let i = choose|i: int|
            0 <= i < s.sessions.len() && (#[trigger] s.sessions[i]).session == found[0];
        assert(prefix.is_prefix_of(s.sessions[i].session.id));
    }
}

proof fn lemma_matching(rows: Seq<SessionRowView>, prefix: Seq<char>)
    ensures
        forall|k: int|
            0 <= k < super::sessions::matching(rows, prefix).len() ==> {
                &&& prefix.is_prefix_of((#[trigger] super::sessions::matching(rows, prefix)[k]).id)
                &&& exists|i: int|
                    0 <= i < rows.len() && (#[trigger] rows[i]).session
                        == super::sessions::matching(rows, prefix)[k]
            },
    decreases rows.len(),
{
    if rows.len() > 0 {
        let front = rows.drop_last();
        lemma_matching(front, prefix);
        let before = super::sessions::matching(front, prefix);
        let all = super::sessions::matching(rows, prefix);
        assert forall|k: int| 0 <= k < all.len() implies prefix.is_prefix_of((#[trigger] all[k]).id)
            && exists|i: int| 0 <= i < rows.len() && (#[trigger] rows[i]).session == all[k] by {
            if k < before.len() {
                assert(all[k] == before[k]);
                let i = choose|i: int|
                    0 <= i < front.len() && (#[trigger] front[i]).session == before[k];
                assert(rows[i].session == all[k]);
            } else {
                assert(rows[rows.len() - 1].session == all[k]);
            }
        }
    }
}

/// What a recovery leaves in the transcript says that the run was interrupted.
pub proof fn law_recovery_says_so(intent: JsonView, id: Seq<char>)
    requires
        intent.get("tool_use_id"@) == Some(JsonView::Str(id)),
    ensures
        super::recovery::closing_note().role == Role::Assistant,
        super::recovery::closing_note().text()
            == "[this run was interrupted and recovered; state above may be incomplete]"@,
        super::recovery::interrupted(intent) == (crate::llm::BlockView::ToolResult {
            tool_use_id: id,
            content: "interrupted: bullpen exited before this tool finished"@,
            is_error: true,
        }),
{
    reveal_with_fuel(crate::llm::block_texts, 2);
    let content = super::recovery::closing_note().content;
    assert(content.drop_last() =~= Seq::<crate::llm::BlockView>::empty());
}

/// A run that is open is reported with where the conversation stood when it
/// started.
pub proof fn law_open_run_knows_its_source(records: Seq<RecordView>, leaf: Seq<char>)
    requires
        records.len() > 0,
    ensures
        records[0].payload.get("source_leaf_id"@) == Some(JsonView::Str(leaf))
            ==> super::log::source_leaf(records) == Some(leaf),
        records[0].payload.get("source_leaf_id"@) == Some(JsonView::Null)
            ==> super::log::source_leaf(records) is None,
{
}

/// An option that is not known, or is not a boolean, is refused by its name.
pub proof fn law_bad_option_is_named(name: Seq<char>, value: JsonView)
    requires
        !(name == "sandbox"@ || name == "sandbox_strict"@) || !(value is Bool),
    ensures
        options_verdict(JsonView::Object(Map::empty().insert(name, value))) == Err::<
            (),
            StoreErrorView,
        >(
            StoreErrorView::Corrupt(
                if name != "sandbox"@ && name != "sandbox_strict"@ {
                    "unknown session input option `"@ + name + "`"@
                } else {
                    "session input option `"@ + name + "` must be boolean"@
                },
            ),
        ),
        options_verdict(JsonView::Object(Map::empty())) is Ok,
        options_verdict(JsonView::Null) is Err,
{
    let m = Map::<Seq<char>, JsonView>::empty().insert(name, value);
    lemma_lex_total(name, name, 0);
    assert(super::inbox::first_bad(m, name));
    let k = choose|k: Seq<char>| #[trigger] super::inbox::first_bad(m, k);
    assert(k == name);
    assert forall|k: Seq<char>| !#[trigger] super::inbox::first_bad(
        Map::<Seq<char>, JsonView>::empty(),
        k,
    ) by {}
}

} // verus!
