//! The conversation tree and the execution log.
use vstd::prelude::*;
use vstd::string::*;

use super::{
    entry_in, no_numbers, no_rows, outcome, record_in, session_in, Entry, EntryRow, EntryRowView,
    EntryView, OpenRun, OpenRunView, Payload, PayloadView, Record, RecordRow, RecordRowView,
    RecordView, SessionRowView, Store, StoreError, StoreErrorView, StoreView,
};
use crate::ids::{is_uuid, random_id};
use crate::json::{Json, JsonView};
use crate::llm::{Message, MessageView};
use crate::text::{lemma_step, opt_view, same, views};

verus! {

impl StoreView {
    /// The state and result of appending an entry at the session's leaf: the
    /// entry's parent is the leaf, its number is the session's next one, and
    /// it becomes the leaf. An id that is there already changes nothing.
    pub open spec fn append_entry(
        self,
        session_id: Seq<char>,
        id: Seq<char>,
        kind: Seq<char>,
        payload: PayloadView,
    ) -> (StoreView, Result<(), StoreErrorView>) {
        if entry_in(self.entries, id) {
            (self, Ok(()))
        } else {
            match session_in(self.sessions, session_id) {
                None => (self, Err(no_rows())),
                Some(i) => {
                    let row = self.sessions[i];
                    if row.next_seq >= i64::MAX {
                        (self, Err(no_numbers()))
                    } else {
                        let entry = EntryView {
                            id,
                            parent_id: row.leaf_id,
                            seq: row.next_seq,
                            kind,
                            payload,
                        };
                        (
                            StoreView {
                                sessions: self.sessions.update(
                                    i,
                                    SessionRowView {
                                        next_seq: row.next_seq + 1,
                                        leaf_id: Some(id),
                                        ..row
                                    },
                                ),
                                entries: self.entries.push(EntryRowView { session_id, entry }),
                                ..self
                            },
                            Ok(()),
                        )
                    }
                },
            }
        }
    }

    /// The state and result of appending a record with the session's next
    /// number. An id that is there already changes nothing.
    pub open spec fn append_record(
        self,
        session_id: Seq<char>,
        id: Seq<char>,
        run_id: Seq<char>,
        kind: Seq<char>,
        payload: JsonView,
    ) -> (StoreView, Result<(), StoreErrorView>) {
        if record_in(self.records, id) {
            (self, Ok(()))
        } else {
            match session_in(self.sessions, session_id) {
                None => (self, Err(no_rows())),
                Some(i) => {
                    let row = self.sessions[i];
                    if row.next_seq >= i64::MAX {
                        (self, Err(no_numbers()))
                    } else {
                        let record = RecordView { id, run_id, seq: row.next_seq, kind, payload };
                        (
                            StoreView {
                                sessions: self.sessions.update(
                                    i,
                                    SessionRowView { next_seq: row.next_seq + 1, ..row },
                                ),
                                records: self.records.push(RecordRowView { session_id, record }),
                                ..self
                            },
                            Ok(()),
                        )
                    }
                },
            }
        }
    }
}

impl Store {
    /// Whether some entry has this id.
    pub fn entry_exists(&self, id: &str) -> (r: bool)
        ensures
            r == entry_in(self@.entries, id@),
    {
        let mut i: usize = 0;
        while i < self.entries.len()
            invariant
                i <= self.entries@.len(),
                forall|j: int| 0 <= j < i ==> (#[trigger] self@.entries[j]).entry.id != id@,
            decreases self.entries@.len() - i,
        {
            if same(self.entries[i].entry.id.as_str(), id) {
                proof {
                    assert(self@.entries[i as int].entry.id == id@);
                }
                return true;
            }
            i += 1;
        }
        false
    }

    /// Whether some record has this id.
    pub fn record_exists(&self, id: &str) -> (r: bool)
        ensures
            r == record_in(self@.records, id@),
    {
        let mut i: usize = 0;
        while i < self.records.len()
            invariant
                i <= self.records@.len(),
                forall|j: int| 0 <= j < i ==> (#[trigger] self@.records[j]).record.id != id@,
            decreases self.records@.len() - i,
        {
            if same(self.records[i].record.id.as_str(), id) {
                proof {
                    assert(self@.records[i as int].record.id == id@);
                }
                return true;
            }
            i += 1;
        }
        false
    }

    /// Append an entry with a caller-provisioned id at the lane leaf and
    /// advance the leaf. Idempotent: if the id already exists, nothing is
    /// written. Callers never pass a parent — the leaf is the parent.
    pub fn append_entry(
        &mut self,
        session_id: &str,
        provisioned_id: &str,
        kind: &str,
        payload: &Payload,
    ) -> (r: Result<(), StoreError>)
        ensures
            (final(self)@, outcome(r)) == old(self)@.append_entry(
                session_id@,
                provisioned_id@,
                kind@,
                payload@,
            ),
    {
        if self.entry_exists(provisioned_id) {
            return Ok(());
        }
        let i = match self.session_index(session_id) {
            Some(i) => i,
            None => {
                return Err(StoreError::Db("Query returned no rows".to_owned()));
            },
        };
        let seq: i64 = self.sessions[i].next_seq;
        if seq >= i64::MAX {
            return Err(StoreError::Db(
                    "Invalid column type Real at index: 0, name: next_seq - 1".to_owned(),
                ));
        }
        let ghost before = self@;
        let entry = Entry {
            id: provisioned_id.to_owned(),
            parent_id: super::clone_opt(&self.sessions[i].leaf_id),
            seq,
            kind: kind.to_owned(),
            payload: payload.clone(),
        };
        let row = EntryRow { session_id: session_id.to_owned(), entry };
        let ghost rv = row@;
        self.entries.push(row);
        self.sessions[i].next_seq = seq + 1;
        self.sessions[i].leaf_id = Some(provisioned_id.to_owned());
        proof {
            let want = before.append_entry(session_id@, provisioned_id@, kind@, payload@).0;
            assert(self@.entries =~= want.entries);
            assert(self@.sessions =~= want.sessions);
        }
        Ok(())
    }

    /// Append an execution record. Idempotent on `id`.
    pub fn append_record(
        &mut self,
        session_id: &str,
        id: &str,
        run_id: &str,
        kind: &str,
        payload: &Json,
    ) -> (r: Result<(), StoreError>)
        ensures
            (final(self)@, outcome(r)) == old(self)@.append_record(
                session_id@,
                id@,
                run_id@,
                kind@,
                payload@,
            ),
    {
        if self.record_exists(id) {
            return Ok(());
        }
        let i = match self.session_index(session_id) {
            Some(i) => i,
            None => {
                return Err(StoreError::Db("Query returned no rows".to_owned()));
            },
        };
        let seq: i64 = self.sessions[i].next_seq;
        if seq >= i64::MAX {
            return Err(StoreError::Db(
                    "Invalid column type Real at index: 0, name: next_seq - 1".to_owned(),
                ));
        }
        let ghost before = self@;
        let record = Record {
            id: id.to_owned(),
            run_id: run_id.to_owned(),
            seq,
            kind: kind.to_owned(),
            payload: payload.clone(),
        };
        self.records.push(RecordRow { session_id: session_id.to_owned(), record });
        self.sessions[i].next_seq = seq + 1;
        proof {
            let want = before.append_record(session_id@, id@, run_id@, kind@, payload@).0;
            assert(self@.records =~= want.records);
            assert(self@.sessions =~= want.sessions);
        }
        Ok(())
    }
}

// ── The active path ─────────────────────────────────────────────────────────

/// The entries of a session, in the order they were written.
pub open spec fn session_entries(rows: Seq<EntryRowView>, session_id: Seq<char>) -> Seq<EntryView>
    decreases rows.len(),
{
    if rows.len() == 0 {
        Seq::empty()
    } else {
        let before = session_entries(rows.drop_last(), session_id);
        if rows.last().session_id == session_id {
            before.push(rows.last().entry)
        } else {
            before
        }
    }
}

/// Where the entry `id` stands.
pub open spec fn entry_at(es: Seq<EntryView>, id: Seq<char>) -> Option<int>
    decreases es.len(),
{
    if es.len() == 0 {
        None
    } else if es.last().id == id {
        Some(es.len() - 1)
    } else {
        entry_at(es.drop_last(), id)
    }
}

/// What `entry_at` says.
pub proof fn lemma_entry_at(es: Seq<EntryView>, id: Seq<char>)
    ensures
        match entry_at(es, id) {
            Some(i) => 0 <= i < es.len() && es[i].id == id && forall|j: int|
                i < j < es.len() ==> (#[trigger] es[j]).id != id,
            None => forall|i: int| 0 <= i < es.len() ==> (#[trigger] es[i]).id != id,
        },
    decreases es.len(),
{
    if es.len() > 0 {
        lemma_entry_at(es.drop_last(), id);
        assert forall|j: int| 0 <= j < es.len() - 1 implies #[trigger] es[j]
            == es.drop_last()[j] by {}
    }
}

/// The way from the root to `cursor`, each entry used once; the error is the
/// id that no entry has.
pub open spec fn chain(es: Seq<EntryView>, cursor: Option<Seq<char>>) -> Result<
    Seq<EntryView>,
    Seq<char>,
>
    decreases es.len(),
{
    match cursor {
        None => Ok(Seq::empty()),
        Some(id) => match entry_at(es, id) {
            None => Err(id),
            Some(i) => {
                proof {
                    lemma_entry_at(es, id);
                }
                match chain(es.remove(i), es[i].parent_id) {
                    Ok(way) => Ok(way.push(es[i])),
                    Err(missing) => Err(missing),
                }
            },
        },
    }
}

/// A way followed by `rest`.
spec fn onto(way: Result<Seq<EntryView>, Seq<char>>, rest: Seq<EntryView>) -> Result<
    Seq<EntryView>,
    Seq<char>,
> {
    match way {
        Ok(w) => Ok(w + rest),
        Err(missing) => Err(missing),
    }
}

/// What a path says when an entry is missing.
pub open spec fn missing_entry(id: Seq<char>) -> StoreErrorView {
    StoreErrorView::Corrupt("leaf path references missing entry "@ + id)
}

/// The messages on a path.
pub open spec fn messages_on(path: Seq<EntryView>) -> Result<Seq<MessageView>, StoreErrorView>
    decreases path.len(),
{
    if path.len() == 0 {
        Ok(Seq::empty())
    } else {
        match messages_on(path.drop_last()) {
            Err(e) => Err(e),
            Ok(before) => if path.last().kind == "message"@ {
                match path.last().payload.message() {
                    Ok(m) => Ok(before.push(m)),
                    Err(error) => Err(StoreErrorView::Serde(error)),
                }
            } else {
                Ok(before)
            },
        }
    }
}

impl StoreView {
    /// The leaf of a session.
    pub open spec fn leaf(self, session_id: Seq<char>) -> Option<Seq<char>> {
        match session_in(self.sessions, session_id) {
            Some(i) => self.sessions[i].leaf_id,
            None => None,
        }
    }

    /// The active path of a session, root to leaf.
    pub open spec fn path(self, session_id: Seq<char>) -> Result<Seq<EntryView>, StoreErrorView> {
        match chain(session_entries(self.entries, session_id), self.leaf(session_id)) {
            Ok(way) => Ok(way),
            Err(missing) => Err(missing_entry(missing)),
        }
    }

    /// The active path as messages.
    pub open spec fn path_messages(self, session_id: Seq<char>) -> Result<
        Seq<MessageView>,
        StoreErrorView,
    > {
        match self.path(session_id) {
            Ok(path) => messages_on(path),
            Err(e) => Err(e),
        }
    }
}

impl Store {
    /// The leaf of a session.
    pub fn leaf(&self, session_id: &str) -> (r: Option<String>)
        ensures
            opt_view(r) == self@.leaf(session_id@),
    {
        match self.session_index(session_id) {
            Some(i) => super::clone_opt(&self.sessions[i].leaf_id),
            None => None,
        }
    }

    fn entries_of(&self, session_id: &str) -> (r: Vec<Entry>)
        ensures
            views(r@) == session_entries(self@.entries, session_id@),
    {
        let mut out: Vec<Entry> = Vec::new();
        let ghost rows = self@.entries;
        let mut i: usize = 0;
        proof {
            assert(views(out@) =~= session_entries(rows.take(0), session_id@));
        }
        while i < self.entries.len()
            invariant
                rows == self@.entries,
                i <= self.entries@.len(),
                views(out@) == session_entries(rows.take(i as int), session_id@),
            decreases self.entries@.len() - i,
        {
            proof {
                lemma_step(rows, i as int);
                assert(rows[i as int] == self.entries@[i as int]@);
            }
            if same(self.entries[i].session_id.as_str(), session_id) {
                let ghost before = out@;
                let e = self.entries[i].entry.clone();
                let ghost ev = e@;
                out.push(e);
                proof {
                    assert(views(out@) =~= views(before).push(ev));
                }
            }
            i += 1;
        }
        proof {
            assert(rows.take(i as int) =~= rows);
        }
        out
    }

    /// The active path, root → leaf.
    pub fn path(&self, session_id: &str) -> (r: Result<Vec<Entry>, StoreError>)
        ensures
            match r {
                Ok(path) => self@.path(session_id@) == Ok::<Seq<EntryView>, StoreErrorView>(
                    views(path@),
                ),
                Err(e) => self@.path(session_id@) == Err::<Seq<EntryView>, StoreErrorView>(e@),
            },
    {
        let mut rest = self.entries_of(session_id);
        let mut cursor = self.leaf(session_id);
        let mut back: Vec<Entry> = Vec::new();
        let ghost whole = chain(views(rest@), opt_view(cursor));
        let ghost tail: Seq<EntryView> = Seq::empty();
        proof {
            if let Ok(w) = whole {
                assert(w + tail =~= w);
            }
        }
        loop
            invariant_except_break
                whole == onto(chain(views(rest@), opt_view(cursor)), tail),
                tail == views(back@).reverse(),
                self@.path(session_id@) == (match whole {
                    Ok(way) => Ok(way),
                    Err(missing) => Err(missing_entry(missing)),
                }),
            ensures
                whole == Ok::<Seq<EntryView>, Seq<char>>(tail),
                tail == views(back@).reverse(),
                self@.path(session_id@) == Ok::<Seq<EntryView>, StoreErrorView>(tail),
            decreases rest@.len(),
        {
            let id = match cursor {
                None => {
                    proof {
                        assert(Seq::<EntryView>::empty() + tail =~= tail);
                    }
                    break;
                },
                Some(id) => id,
            };
            let found = find_entry(&rest, id.as_str());
            let i = match found {
                Some(i) => i,
                None => {
                    return Err(
                        StoreError::Corrupt(
                            "leaf path references missing entry ".to_owned().concat(id.as_str()),
                        ),
                    );
                },
            };
            let ghost before = rest@;
            let ghost old_tail = tail;
            let ghost old_back = back@;
            let entry = rest.remove(i);
            let ghost ev = entry@;
            cursor = super::clone_opt(&entry.parent_id);
            back.push(entry);
            proof {
                assert(views(before)[i as int] == ev);
                assert(views(rest@) =~= views(before).remove(i as int));
                assert(views(back@) =~= views(old_back).push(ev));
                tail = seq![ev] + old_tail;
                assert(tail =~= views(back@).reverse());
                if let Ok(w) = chain(views(rest@), opt_view(cursor)) {
                    assert(w.push(ev) + old_tail =~= w + tail);
                }
            }
        }
        let mut path: Vec<Entry> = Vec::new();
        let ghost all = back@;
        while back.len() > 0
            invariant
                views(path@) + views(back@).reverse() == tail,
            decreases back@.len(),
        {
            let ghost b = back@;
            let ghost p = path@;
            match back.pop() {
                Some(e) => {
                    let ghost ev = e@;
                    path.push(e);
                    proof {
                        assert(views(path@) =~= views(p).push(ev));
                        assert(views(b) =~= views(back@).push(ev));
                        assert(views(b).reverse() =~= seq![ev] + views(back@).reverse());
                        assert(views(path@) + views(back@).reverse() =~= views(p) + views(
                            b,
                        ).reverse());
                    }
                },
                None => {},
            }
        }
        proof {
            assert(views(path@) + views(back@).reverse() =~= views(path@));
        }
        Ok(path)
    }

    /// The active path as provider messages (kind `"message"` only).
    pub fn path_messages(&self, session_id: &str) -> (r: Result<Vec<Message>, StoreError>)
        ensures
            match r {
                Ok(messages) => self@.path_messages(session_id@) == Ok::<
                    Seq<MessageView>,
                    StoreErrorView,
                >(views(messages@)),
                Err(e) => self@.path_messages(session_id@) == Err::<
                    Seq<MessageView>,
                    StoreErrorView,
                >(e@),
            },
    {
        let path = match self.path(session_id) {
            Ok(path) => path,
            Err(e) => {
                return Err(e);
            },
        };
        let ghost pv = views(path@);
        let mut out: Vec<Message> = Vec::new();
        let mut i: usize = 0;
        proof {
            assert(views(out@) =~= Seq::<MessageView>::empty());
        }
        while i < path.len()
            invariant
                pv == views(path@),
                i <= path@.len(),
                messages_on(pv.take(i as int)) == Ok::<Seq<MessageView>, StoreErrorView>(
                    views(out@),
                ),
                self@.path_messages(session_id@) == messages_on(pv),
            decreases path@.len() - i,
        {
            proof {
                lemma_step(pv, i as int);
                assert(pv[i as int] == path@[i as int]@);
            }
            if same(path[i].kind.as_str(), "message") {
                match path[i].payload.message() {
                    Ok(m) => {
                        let ghost before = out@;
                        let c = m.clone();
                        out.push(c);
                        proof {
                            assert(views(out@) =~= views(before).push(m@));
                        }
                    },
                    Err(error) => {
                        proof {
                            lemma_message_error(pv, i as int);
                        }
                        return Err(StoreError::Serde(error.to_owned()));
                    },
                }
            }
            i += 1;
        }
        proof {
            assert(pv.take(i as int) =~= pv);
        }
        Ok(out)
    }
}

/// A payload that is no message spoils the whole path.
proof fn lemma_message_error(path: Seq<EntryView>, i: int)
    requires
        0 <= i < path.len(),
        messages_on(path.take(i)) is Ok,
        path[i].kind == "message"@,
        path[i].payload.message() is Err,
    ensures
        messages_on(path) == Err::<Seq<MessageView>, StoreErrorView>(
            StoreErrorView::Serde(path[i].payload.message()->Err_0),
        ),
    decreases path.len(),
{
    if i == path.len() - 1 {
        assert(path.take(i) =~= path.drop_last());
    } else {
        assert(path.drop_last().take(i) =~= path.take(i));
        lemma_message_error(path.drop_last(), i);
    }
}

fn find_entry(es: &Vec<Entry>, id: &str) -> (r: Option<usize>)
    ensures
        match r {
            Some(i) => entry_at(views(es@), id@) == Some(i as int) && i < es@.len(),
            None => entry_at(views(es@), id@) is None,
        },
{
    let mut n: usize = es.len();
    let ghost all = views(es@);
    proof {
        assert(all.take(n as int) =~= all);
    }
    while n > 0
        invariant
            all == views(es@),
            n <= es@.len(),
            entry_at(all, id@) == entry_at(all.take(n as int), id@),
        decreases n,
    {
        n -= 1;
        proof {
            lemma_step(all, n as int);
            assert(all[n as int] == es@[n as int]@);
        }
        if same(es[n].id.as_str(), id) {
            return Some(n);
        }
    }
    None
}

// ── Operations ──────────────────────────────────────────────────────────────

/// Whether the session's log says that operation `id` is finished.
pub open spec fn finished_in(rows: Seq<RecordRowView>, session_id: Seq<char>, id: Seq<char>) -> bool {
    exists|i: int|
        0 <= i < rows.len() && (#[trigger] rows[i]).session_id == session_id && rows[i].record.kind
            == "operation_finished"@ && rows[i].record.run_id == id
}

/// Whether a row opens an operation of the session.
pub open spec fn starts_operation(row: RecordRowView, session_id: Seq<char>) -> bool {
    row.session_id == session_id && row.record.kind == "operation_started"@
}

/// The operations that `rows` starts and the log `all` does not finish.
pub open spec fn open_among(
    rows: Seq<RecordRowView>,
    all: Seq<RecordRowView>,
    session_id: Seq<char>,
) -> Seq<RecordView>
    decreases rows.len(),
{
    if rows.len() == 0 {
        Seq::empty()
    } else {
        let before = open_among(rows.drop_last(), all, session_id);
        let row = rows.last();
        if starts_operation(row, session_id) && !finished_in(all, session_id, row.record.id) {
            before.push(row.record)
        } else {
            before
        }
    }
}

/// Where a record numbered `seq` goes among records in order.
pub open spec fn seq_place(rs: Seq<RecordView>, seq: int) -> int
    decreases rs.len(),
{
    if rs.len() == 0 || rs.last().seq <= seq {
        rs.len() as int
    } else {
        seq_place(rs.drop_last(), seq)
    }
}

/// The place is a place.
pub proof fn lemma_seq_place(rs: Seq<RecordView>, seq: int)
    ensures
        0 <= seq_place(rs, seq) <= rs.len(),
    decreases rs.len(),
{
    if rs.len() > 0 {
        lemma_seq_place(rs.drop_last(), seq);
    }
}

/// The records of a run, by number.
pub open spec fn run_records(
    rows: Seq<RecordRowView>,
    session_id: Seq<char>,
    run_id: Seq<char>,
) -> Seq<RecordView>
    decreases rows.len(),
{
    if rows.len() == 0 {
        Seq::empty()
    } else {
        let before = run_records(rows.drop_last(), session_id, run_id);
        let row = rows.last();
        if row.session_id == session_id && row.record.run_id == run_id {
            before.insert(seq_place(before, row.record.seq), row.record)
        } else {
            before
        }
    }
}

/// The leaf that the first record of a run says it started from.
pub open spec fn source_leaf(records: Seq<RecordView>) -> Option<Seq<char>> {
    if records.len() == 0 {
        None
    } else {
        records[0].payload.str_field("source_leaf_id"@)
    }
}

/// What reduction says of more than one open operation.
pub open spec fn many_open(n: nat) -> StoreErrorView {
    StoreErrorView::Corrupt(
        crate::text::dec(n) + "+ open operations on one lane — impossible for a single writer"@,
    )
}

/// The record of a finish.
pub open spec fn finish_id(run_id: Seq<char>) -> Seq<char> {
    run_id + ":finished"@
}

/// A leaf as JSON.
pub open spec fn leaf_json(leaf: Option<Seq<char>>) -> JsonView {
    match leaf {
        Some(id) => JsonView::Str(id),
        None => JsonView::Null,
    }
}

impl StoreView {
    /// The operations of a session that are open.
    pub open spec fn open_operations(self, session_id: Seq<char>) -> Seq<RecordView> {
        open_among(self.records, self.records, session_id)
    }

    /// The lane's execution state derived from records.
    pub open spec fn open_run(self, session_id: Seq<char>) -> Result<
        Option<OpenRunView>,
        StoreErrorView,
    > {
        let open = self.open_operations(session_id);
        if open.len() == 0 {
            Ok(None)
        } else if open.len() == 1 {
            let records = run_records(self.records, session_id, open[0].id);
            Ok(
                Some(
                    OpenRunView {
                        run_id: open[0].id,
                        source_leaf_id: source_leaf(records),
                        records,
                    },
                ),
            )
        } else {
            Err(
                many_open(
                    if open.len() < 3 {
                        open.len()
                    } else {
                        3
                    },
                ),
            )
        }
    }

    /// The state after pointing the session's lane at an open operation.
    pub open spec fn mark_open(self, session_id: Seq<char>, run_id: Seq<char>) -> StoreView {
        match session_in(self.sessions, session_id) {
            Some(i) => StoreView {
                sessions: self.sessions.update(
                    i,
                    SessionRowView { open_operation_id: Some(run_id), ..self.sessions[i] },
                ),
                ..self
            },
            None => self,
        }
    }

    /// The state after clearing the lane's marker, where it points at `run_id`.
    pub open spec fn mark_closed(self, session_id: Seq<char>, run_id: Seq<char>) -> StoreView {
        match session_in(self.sessions, session_id) {
            Some(i) => if self.sessions[i].open_operation_id == Some(run_id) {
                StoreView {
                    sessions: self.sessions.update(
                        i,
                        SessionRowView { open_operation_id: None, ..self.sessions[i] },
                    ),
                    ..self
                }
            } else {
                self
            },
            None => self,
        }
    }

    /// The state and result of opening the operation `run_id`.
    pub open spec fn start_operation(
        self,
        session_id: Seq<char>,
        run_id: Seq<char>,
        payload: JsonView,
    ) -> (StoreView, Result<Seq<char>, StoreErrorView>) {
        match self.open_run(session_id) {
            Err(e) => (self, Err(e)),
            Ok(Some(_)) => (
                self,
                Err(
                    StoreErrorView::Corrupt(
                        "cannot start an operation while one is open (recover first)"@,
                    ),
                ),
            ),
            Ok(None) => {
                let body = payload.with("source_leaf_id"@, leaf_json(self.leaf(session_id)));
                let (next, r) = self.append_record(
                    session_id,
                    run_id,
                    run_id,
                    "operation_started"@,
                    body,
                );
                match r {
                    Err(e) => (next, Err(e)),
                    Ok(()) => (next.mark_open(session_id, run_id), Ok(run_id)),
                }
            },
        }
    }

    /// The state and result of closing the operation `run_id`.
    pub open spec fn finish_operation(
        self,
        session_id: Seq<char>,
        run_id: Seq<char>,
        how: Seq<char>,
    ) -> (StoreView, Result<(), StoreErrorView>) {
        let (next, r) = self.append_record(
            session_id,
            finish_id(run_id),
            run_id,
            "operation_finished"@,
            JsonView::object().with("outcome"@, JsonView::Str(how)),
        );
        match r {
            Err(e) => (next, Err(e)),
            Ok(()) => (next.mark_closed(session_id, run_id), Ok(())),
        }
    }
}

impl Store {
    fn is_finished(&self, session_id: &str, id: &str) -> (r: bool)
        ensures
            r == finished_in(self@.records, session_id@, id@),
    {
        let mut i: usize = 0;
        while i < self.records.len()
            invariant
                i <= self.records@.len(),
                forall|j: int|
                    0 <= j < i ==> !((#[trigger] self@.records[j]).session_id == session_id@
                        && self@.records[j].record.kind == "operation_finished"@
                        && self@.records[j].record.run_id == id@),
            decreases self.records@.len() - i,
        {
            let row = &self.records[i];
            proof {
                assert(self@.records[i as int] == row@);
            }
            if same(row.session_id.as_str(), session_id) && same(
                row.record.kind.as_str(),
                "operation_finished",
            ) && same(row.record.run_id.as_str(), id) {
                return true;
            }
            i += 1;
        }
        false
    }

    /// The operations of a session that are open.
    pub fn open_operations(&self, session_id: &str) -> (r: Vec<Record>)
        ensures
            views(r@) == self@.open_operations(session_id@),
    {
        let mut out: Vec<Record> = Vec::new();
        let ghost rows = self@.records;
        let mut i: usize = 0;
        proof {
            assert(views(out@) =~= open_among(rows.take(0), rows, session_id@));
        }
        while i < self.records.len()
            invariant
                rows == self@.records,
                i <= self.records@.len(),
                views(out@) == open_among(rows.take(i as int), rows, session_id@),
            decreases self.records@.len() - i,
        {
            let row = &self.records[i];
            proof {
                lemma_step(rows, i as int);
                assert(rows[i as int] == row@);
            }
            if same(row.session_id.as_str(), session_id) && same(
                row.record.kind.as_str(),
                "operation_started",
            ) && !self.is_finished(session_id, row.record.id.as_str()) {
                let ghost before = out@;
                let c = row.record.clone();
                let ghost cv = c@;
                out.push(c);
                proof {
                    assert(views(out@) =~= views(before).push(cv));
                }
            }
            i += 1;
        }
        proof {
            assert(rows.take(i as int) =~= rows);
        }
        out
    }

    fn records_of_run(&self, session_id: &str, run_id: &str) -> (r: Vec<Record>)
        ensures
            views(r@) == run_records(self@.records, session_id@, run_id@),
    {
        let mut out: Vec<Record> = Vec::new();
        let ghost rows = self@.records;
        let mut i: usize = 0;
        proof {
            assert(views(out@) =~= run_records(rows.take(0), session_id@, run_id@));
        }
        while i < self.records.len()
            invariant
                rows == self@.records,
                i <= self.records@.len(),
                views(out@) == run_records(rows.take(i as int), session_id@, run_id@),
            decreases self.records@.len() - i,
        {
            let row = &self.records[i];
            proof {
                lemma_step(rows, i as int);
                assert(rows[i as int] == row@);
            }
            if same(row.session_id.as_str(), session_id) && same(
                row.record.run_id.as_str(),
                run_id,
            ) {
                let ghost before = out@;
                let ghost bv = views(out@);
                let mut n: usize = out.len();
                proof {
                    assert(bv.take(n as int) =~= bv);
                }
                while n > 0 && out[n - 1].seq > row.record.seq
                    invariant
                        bv == views(out@),
                        n <= out@.len(),
                        seq_place(bv, row.record.seq as int) == seq_place(
                            bv.take(n as int),
                            row.record.seq as int,
                        ),
                    decreases n,
                {
                    n -= 1;
                    proof {
                        lemma_step(bv, n as int);
                    }
                }
                proof {
                    if n > 0 {
                        lemma_step(bv, n - 1);
                        assert(bv[n - 1] == out@[n - 1]@);
                    }
                }
                let c = row.record.clone();
                let ghost cv = c@;
                out.insert(n, c);
                proof {
                    assert(views(out@) =~= bv.insert(n as int, cv));
                }
            }
            i += 1;
        }
        proof {
            assert(rows.take(i as int) =~= rows);
        }
        out
    }

    /// Reduction, coarse level: the lane's execution state derived from
    /// records. No open operation is idle (`None`); one is suspended (`Some`);
    /// more are corruption that a single writer cannot produce.
    pub fn open_run(&self, session_id: &str) -> (r: Result<Option<OpenRun>, StoreError>)
        ensures
            match r {
                Ok(None) => self@.open_run(session_id@) == Ok::<
                    Option<OpenRunView>,
                    StoreErrorView,
                >(None),
                Ok(Some(run)) => self@.open_run(session_id@) == Ok::<
                    Option<OpenRunView>,
                    StoreErrorView,
                >(Some(run@)),
                Err(e) => self@.open_run(session_id@) == Err::<
                    Option<OpenRunView>,
                    StoreErrorView,
                >(e@),
            },
    {
        let open = self.open_operations(session_id);
        if open.len() == 0 {
            return Ok(None);
        }
        proof {
            assert(views(open@)[0] == open@[0]@);
        }
        if open.len() == 1 {
            let run_id = open[0].id.clone();
            let records = self.records_of_run(session_id, run_id.as_str());
            let source_leaf_id = if records.len() == 0 {
                None
            } else {
                proof {
                    assert(views(records@)[0] == records@[0]@);
                }
                match records[0].payload.str_field("source_leaf_id") {
                    Some(s) => Some(s.to_owned()),
                    None => None,
                }
            };
            return Ok(Some(OpenRun { run_id, source_leaf_id, records }));
        }
        let n: u64 = if open.len() < 3 {
            open.len() as u64
        } else {
            3
        };
        let count = crate::text::decimal(n);
        Err(
            StoreError::Corrupt(
                count.concat("+ open operations on one lane — impossible for a single writer"),
            ),
        )
    }

    /// Open the operation `run_id`: an `operation_started` record (its id is
    /// the run id) plus the lane's open-operation marker.
    pub fn start_operation_as(
        &mut self,
        session_id: &str,
        run_id: &str,
        payload: &Json,
    ) -> (r: Result<String, StoreError>)
        requires
            payload@ is Object || payload@ is Null,
        ensures
            (final(self)@, outcome(r)) == old(self)@.start_operation(
                session_id@,
                run_id@,
                payload@,
            ),
    {
        match self.open_run(session_id) {
            Err(e) => {
                return Err(e);
            },
            Ok(Some(_)) => {
                return Err(
                    StoreError::Corrupt(
                        "cannot start an operation while one is open (recover first)".to_owned(),
                    ),
                );
            },
            Ok(None) => {},
        }
        let leaf = match self.leaf(session_id) {
            Some(id) => Json::Str(id),
            None => Json::Null,
        };
        let body = payload.clone().with("source_leaf_id", leaf);
        match self.append_record(session_id, run_id, run_id, "operation_started", &body) {
            Err(e) => {
                return Err(e);
            },
            Ok(()) => {},
        }
        match self.session_index(session_id) {
            Some(i) => {
                let ghost before = self@;
                self.sessions[i].open_operation_id = Some(run_id.to_owned());
                proof {
                    assert(self@.sessions =~= before.mark_open(session_id@, run_id@).sessions);
                }
            },
            None => {},
        }
        Ok(run_id.to_owned())
    }

    /// Open a new operation under a fresh random id.
    pub fn start_operation(&mut self, session_id: &str, payload: &Json) -> (r: Result<
        String,
        StoreError,
    >)
        requires
            payload@ is Object || payload@ is Null,
        ensures
            exists|run_id: Seq<char>| #[trigger]
                is_uuid(run_id) && (final(self)@, outcome(r)) == old(self)@.start_operation(
                    session_id@,
                    run_id,
                    payload@,
                ),
    {
        let run_id = random_id();
        self.start_operation_as(session_id, run_id.as_str(), payload)
    }

    /// Close an operation and clear the lane marker. Idempotent.
    pub fn finish_operation(
        &mut self,
        session_id: &str,
        run_id: &str,
        how: &str,
    ) -> (r: Result<(), StoreError>)
        ensures
            (final(self)@, outcome(r)) == old(self)@.finish_operation(session_id@, run_id@, how@),
    {
        let id = run_id.to_owned().concat(":finished");
        let body = Json::object().with("outcome", Json::text(how));
        match self.append_record(session_id, id.as_str(), run_id, "operation_finished", &body) {
            Err(e) => {
                return Err(e);
            },
            Ok(()) => {},
        }
        match self.session_index(session_id) {
            Some(i) => {
                let ghost before = self@;
                let points = match &self.sessions[i].open_operation_id {
                    Some(id) => same(id.as_str(), run_id),
                    None => false,
                };
                proof {
                    assert(before.sessions[i as int] == self.sessions@[i as int]@);
                }
                if points {
                    self.sessions[i].open_operation_id = None;
                    proof {
                        assert(self@.sessions =~= before.mark_closed(session_id@, run_id@).sessions);
                    }
                }
            },
            None => {},
        }
        Ok(())
    }
}

// ── How runs ended ──────────────────────────────────────────────────────────

/// The record of the session's latest finished operation.
pub open spec fn latest_finish(rows: Seq<RecordRowView>, session_id: Seq<char>) -> Option<RecordView>
    decreases rows.len(),
{
    if rows.len() == 0 {
        None
    } else {
        let before = latest_finish(rows.drop_last(), session_id);
        let row = rows.last();
        if row.session_id == session_id && row.record.kind == "operation_finished"@ {
            match before {
                Some(b) => if b.seq <= row.record.seq {
                    Some(row.record)
                } else {
                    before
                },
                None => Some(row.record),
            }
        } else {
            before
        }
    }
}

impl StoreView {
    /// How the session's latest finished operation ended.
    pub open spec fn last_run_outcome(self, session_id: Seq<char>) -> Option<Seq<char>> {
        match latest_finish(self.records, session_id) {
            Some(record) => record.payload.str_field("outcome"@),
            None => None,
        }
    }
}

impl Store {
    /// How the session's latest finished operation ended.
    pub fn last_run_outcome(&self, session_id: &str) -> (r: Option<String>)
        ensures
            opt_view(r) == self@.last_run_outcome(session_id@),
    {
        let ghost rows = self@.records;
        let mut best: Option<usize> = None;
        let mut i: usize = 0;
        while i < self.records.len()
            invariant
                rows == self@.records,
                i <= self.records@.len(),
                match best {
                    Some(k) => k < self.records@.len() && latest_finish(
                        rows.take(i as int),
                        session_id@,
                    ) == Some(rows[k as int].record),
                    None => latest_finish(rows.take(i as int), session_id@) is None,
                },
            decreases self.records@.len() - i,
        {
            let row = &self.records[i];
            proof {
                lemma_step(rows, i as int);
                assert(rows[i as int] == row@);
            }
            if same(row.session_id.as_str(), session_id) && same(
                row.record.kind.as_str(),
                "operation_finished",
            ) {
                match best {
                    Some(k) => {
                        proof {
                            assert(rows[k as int] == self.records@[k as int]@);
                        }
                        if self.records[k].record.seq <= row.record.seq {
                            best = Some(i);
                        }
                    },
                    None => {
                        best = Some(i);
                    },
                }
            }
            i += 1;
        }
        proof {
            assert(rows.take(i as int) =~= rows);
        }
        match best {
            Some(k) => {
                proof {
                    assert(rows[k as int] == self.records@[k as int]@);
                }
                match self.records[k].record.payload.str_field("outcome") {
                    Some(s) => Some(s.to_owned()),
                    None => None,
                }
            },
            None => None,
        }
    }
}

} // verus!
