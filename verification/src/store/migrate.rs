//! Bringing an older database to the present shape.
use vstd::prelude::*;
use vstd::string::*;

use super::{
    entry_in, key_taken, lemma_same_ids, lemma_session_in, outcome, session_in, taken, EntryView,
    Payload, PayloadView, SessionRowView, Store, StoreError, StoreErrorView, StoreView,
};
use super::laws::law_append_extends_the_path;
use super::log::messages_on;
use crate::ids::{is_uuid, random_id};
use crate::llm::{Message, MessageView, Role};
use crate::text::{lemma_step, same, views};

verus! {

/// The shape that this version writes.
pub const SCHEMA_VERSION: i64 = 5;

/// The steps that bring a database of `version` to the present shape, in
/// order.
pub open spec fn steps_after(version: int, upto: int) -> Seq<i64>
    decreases upto,
{
    if upto <= 0 {
        Seq::empty()
    } else if version < upto {
        steps_after(version, upto - 1).push(upto as i64)
    } else {
        steps_after(version, upto - 1)
    }
}

/// The steps that bring a database of `version` to the present shape, in
/// order: each step up to the present one that is past `version`.
pub fn pending_steps(version: i64) -> (r: Vec<i64>)
    ensures
        r@ == steps_after(version as int, SCHEMA_VERSION as int),
{
    let mut out: Vec<i64> = Vec::new();
    let mut k: i64 = 0;
    proof {
        assert(out@ =~= steps_after(version as int, 0));
    }
    while k < SCHEMA_VERSION
        invariant
            0 <= k <= SCHEMA_VERSION,
            out@ == steps_after(version as int, k as int),
        decreases SCHEMA_VERSION - k,
    {
        k += 1;
        if version < k {
            out.push(k);
        }
    }
    out
}

/// The role a flat message was kept under.
pub fn role_of(role: &str) -> (r: Role)
    ensures
        r == (if role@ == "user"@ {
            Role::User
        } else {
            Role::Assistant
        }),
{
    if same(role, "user") {
        Role::User
    } else {
        Role::Assistant
    }
}

impl StoreView {
    /// The state with a session's leaf taken off.
    pub open spec fn without_leaf(self, session_id: Seq<char>) -> StoreView {
        match session_in(self.sessions, session_id) {
            Some(i) => StoreView {
                sessions: self.sessions.update(
                    i,
                    SessionRowView { leaf_id: None, ..self.sessions[i] },
                ),
                ..self
            },
            None => self,
        }
    }

    /// The state and result of turning a session's flat messages into a path
    /// of entries under the given ids.
    pub open spec fn import_messages(
        self,
        session_id: Seq<char>,
        ids: Seq<Seq<char>>,
        messages: Seq<MessageView>,
    ) -> (StoreView, Result<(), StoreErrorView>)
        decreases messages.len(),
    {
        if messages.len() == 0 {
            (self.without_leaf(session_id), Ok(()))
        } else {
            let (s, r) = self.import_messages(session_id, ids, messages.drop_last());
            match r {
                Err(e) => (s, Err(e)),
                Ok(()) => {
                    let id = ids[messages.len() - 1];
                    if entry_in(s.entries, id) {
                        (s, Err(key_taken("entries.id"@)))
                    } else {
                        s.append_entry(
                            session_id,
                            id,
                            "message"@,
                            PayloadView::Message(messages.last()),
                        )
                    }
                },
            }
        }
    }
}

/// A message that cannot be taken in stops the rest.
proof fn lemma_import_stops(
    s: StoreView,
    session_id: Seq<char>,
    ids: Seq<Seq<char>>,
    messages: Seq<MessageView>,
    n: int,
)
    requires
        0 <= n <= messages.len(),
        s.import_messages(session_id, ids, messages.take(n)).1 is Err,
    ensures
        s.import_messages(session_id, ids, messages) == s.import_messages(
            session_id,
            ids,
            messages.take(n),
        ),
    decreases messages.len() - n,
{
    if n < messages.len() {
        lemma_step(messages, n);
        assert(messages.take(n + 1).drop_last() =~= messages.take(n));
        lemma_import_stops(s, session_id, ids, messages, n + 1);
    } else {
        assert(messages.take(n) =~= messages);
    }
}

impl Store {
    /// Turn a session's flat messages into a path of entries under the given
    /// ids.
    pub fn import_messages_as(
        &mut self,
        session_id: &str,
        ids: &Vec<String>,
        messages: &Vec<Message>,
    ) -> (r: Result<(), StoreError>)
        requires
            ids@.len() == messages@.len(),
        ensures
            (final(self)@, outcome(r)) == old(self)@.import_messages(
                session_id@,
                views(ids@),
                views(messages@),
            ),
    {
        let ghost start = self@;
        let ghost iv = views(ids@);
        let ghost mv = views(messages@);
        match self.session_index(session_id) {
            Some(i) => {
                self.sessions[i].leaf_id = None;
            },
            None => {},
        }
        proof {
            assert(self@.sessions =~= start.without_leaf(session_id@).sessions);
            assert(mv.take(0) =~= Seq::<MessageView>::empty());
        }
        let mut k: usize = 0;
        while k < messages.len()
            invariant
                start == old(self)@,
                iv == views(ids@),
                mv == views(messages@),
                ids@.len() == messages@.len(),
                k <= messages@.len(),
                (self@, Ok::<(), StoreErrorView>(())) == start.import_messages(
                    session_id@,
                    iv,
                    mv.take(k as int),
                ),
            decreases messages@.len() - k,
        {
            proof {
                lemma_step(mv, k as int);
                assert(mv.take(k + 1).drop_last() =~= mv.take(k as int));
                assert(mv.take(k + 1).last() == mv[k as int]);
                assert(mv[k as int] == messages@[k as int]@);
                assert(iv[k as int] == ids@[k as int]@);
            }
            if self.entry_exists(ids[k].as_str()) {
                proof {
                    lemma_import_stops(start, session_id@, iv, mv, k + 1);
                }
                return Err(taken("entries.id"));
            }
            let payload = Payload::Message(messages[k].clone());
            match self.append_entry(session_id, ids[k].as_str(), "message", &payload) {
                Err(e) => {
                    proof {
                        lemma_import_stops(start, session_id@, iv, mv, k + 1);
                    }
                    return Err(e);
                },
                Ok(()) => {},
            }
            k += 1;
        }
        proof {
            assert(mv.take(k as int) =~= mv);
        }
        Ok(())
    }

    /// Turn a session's flat messages into a path of entries.
    pub fn import_messages(&mut self, session_id: &str, messages: &Vec<Message>) -> (r: Result<
        (),
        StoreError,
    >)
        ensures
            exists|ids: Seq<Seq<char>>| #[trigger]
                ids.len() == messages@.len() && (forall|i: int|
                    0 <= i < ids.len() ==> is_uuid(#[trigger] ids[i])) && (
                final(self)@,
                outcome(r),
                ) == old(self)@.import_messages(session_id@, ids, views(messages@)),
    {
        let mut ids: Vec<String> = Vec::new();
        while ids.len() < messages.len()
            invariant
                ids@.len() <= messages@.len(),
                forall|i: int| 0 <= i < ids@.len() ==> is_uuid(#[trigger] ids@[i]@),
            decreases messages@.len() - ids@.len(),
        {
            ids.push(random_id());
        }
        let r = self.import_messages_as(session_id, &ids, messages);
        proof {
            let iv = views(ids@);
            assert forall|i: int| 0 <= i < iv.len() implies is_uuid(#[trigger] iv[i]) by {
                assert(is_uuid(ids@[i]@));
            }
            assert(iv.len() == messages@.len());
        }
        r
    }
}

/// A session's flat messages become its conversation: what was said reads back
/// from the new path, in order.
pub proof fn law_imported_messages_read_back(
    s: StoreView,
    session_id: Seq<char>,
    ids: Seq<Seq<char>>,
    messages: Seq<MessageView>,
)
    requires
        session_in(s.sessions, session_id) is Some,
        s.import_messages(session_id, ids, messages).1 is Ok,
    ensures
        session_in(
            s.import_messages(session_id, ids, messages).0.sessions,
            session_id,
        ) is Some,
        s.import_messages(session_id, ids, messages).0.path(session_id) is Ok,
        s.import_messages(session_id, ids, messages).0.path_messages(session_id) == Ok::<
            Seq<MessageView>,
            StoreErrorView,
        >(messages),
    decreases messages.len(),
{
    lemma_session_in(s.sessions, session_id);
    if messages.len() == 0 {
        let n = s.without_leaf(session_id);
        lemma_same_ids(s.sessions, n.sessions, session_id);
        assert(n.path(session_id) == Ok::<Seq<EntryView>, StoreErrorView>(Seq::empty()));
        assert(messages =~= Seq::<MessageView>::empty());
    } else {
        let before = messages.drop_last();
        let (m, r) = s.import_messages(session_id, ids, before);
        law_imported_messages_read_back(s, session_id, ids, before);
        let id = ids[messages.len() - 1];
        let payload = PayloadView::Message(messages.last());
        law_append_extends_the_path(m, session_id, id, "message"@, payload, session_id);
        let n = m.append_entry(session_id, id, "message"@, payload).0;
        lemma_session_in(m.sessions, session_id);
        lemma_same_ids(m.sessions, n.sessions, session_id);
        let e = n.entries.last().entry;
        let way = m.path(session_id)->Ok_0;
        assert(n.path(session_id)->Ok_0 == way.push(e));
        assert(way.push(e).drop_last() =~= way);
        assert(messages_on(way.push(e)) == Ok::<Seq<MessageView>, StoreErrorView>(
            before.push(messages.last()),
        ));
        assert(before.push(messages.last()) =~= messages);
    }
}

} // verus!
