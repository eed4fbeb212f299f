//! Sessions: who they are, who works on them, who spawned them.
use vstd::prelude::*;
use vstd::string::*;

use super::{
    clone_opt, key_taken, outcome, session_in, taken, Session, SessionRow, SessionRowView, SessionView,
    Store, StoreError, StoreErrorView, StoreView, WorkerKind,
};
use crate::ids::{is_uuid, random_id};
use crate::llm::{Message, MessageView, Role, Usage};
use crate::text::{
    at_most, chars_of, lemma_step, lex_le, opt_view, same, slice, starts_with, views,
};

verus! {

// ── What the queries give ───────────────────────────────────────────────────

/// A session as it is created.
pub open spec fn fresh_session(
    id: Seq<char>,
    parent: Option<Seq<char>>,
    cwd: Seq<char>,
    provider: Seq<char>,
    model: Seq<char>,
    now: Seq<char>,
) -> SessionView {
    SessionView {
        id,
        title: Seq::empty(),
        cwd,
        provider,
        model,
        usage: Usage { input_tokens: 0, output_tokens: 0 },
        created_at: now,
        updated_at: now,
        parent_session_id: parent,
        status: "idle"@,
        pid: None,
        worktree_path: None,
        worktree_branch: None,
    }
}

/// The row of a new session.
pub open spec fn fresh_row(session: SessionView) -> SessionRowView {
    SessionRowView {
        session,
        next_seq: 1,
        leaf_id: None,
        open_operation_id: None,
        worker_generation: None,
        worker_kind: None,
    }
}

/// The sessions whose id begins with a prefix, in row order.
pub open spec fn matching(rows: Seq<SessionRowView>, prefix: Seq<char>) -> Seq<SessionView>
    decreases rows.len(),
{
    if rows.len() == 0 {
        Seq::empty()
    } else {
        let before = matching(rows.drop_last(), prefix);
        if prefix.is_prefix_of(rows.last().session.id) {
            before.push(rows.last().session)
        } else {
            before
        }
    }
}

/// The children of a session, in the order they were spawned.
pub open spec fn children(rows: Seq<SessionRowView>, parent: Seq<char>) -> Seq<SessionView>
    decreases rows.len(),
{
    if rows.len() == 0 {
        Seq::empty()
    } else {
        let before = children(rows.drop_last(), parent);
        if rows.last().session.parent_session_id == Some(parent) {
            before.push(rows.last().session)
        } else {
            before
        }
    }
}

/// Where a session updated at `at` goes in a list with the latest first.
pub open spec fn latest_place(list: Seq<SessionView>, at: Seq<char>) -> int
    decreases list.len(),
{
    if list.len() == 0 || lex_le(at, list.last().updated_at) {
        list.len() as int
    } else {
        latest_place(list.drop_last(), at)
    }
}

/// All sessions, the latest updated first; of those updated at one time the
/// earlier row first.
pub open spec fn latest_first(rows: Seq<SessionRowView>) -> Seq<SessionView>
    decreases rows.len(),
{
    if rows.len() == 0 {
        Seq::empty()
    } else {
        let before = latest_first(rows.drop_last());
        let s = rows.last().session;
        before.insert(latest_place(before, s.updated_at), s)
    }
}

impl StoreView {
    /// The session `id`.
    pub open spec fn get_session(self, id: Seq<char>) -> Result<SessionView, StoreErrorView> {
        match session_in(self.sessions, id) {
            Some(i) => Ok(self.sessions[i].session),
            None => Err(StoreErrorView::NotFound(id)),
        }
    }

    /// The one session whose id begins with a prefix.
    pub open spec fn resolve_session(self, prefix: Seq<char>) -> Result<
        SessionView,
        StoreErrorView,
    > {
        let found = matching(self.sessions, prefix);
        if found.len() == 0 {
            Err(StoreErrorView::NotFound(prefix))
        } else if found.len() == 1 {
            Ok(found[0])
        } else {
            Err(StoreErrorView::Ambiguous(prefix))
        }
    }

    /// The state and result of creating a session.
    pub open spec fn create(self, session: SessionView) -> (
        StoreView,
        Result<SessionView, StoreErrorView>,
    ) {
        if session_in(self.sessions, session.id) is Some {
            (self, Err(key_taken("sessions.id"@)))
        } else {
            (
                StoreView { sessions: self.sessions.push(fresh_row(session)), ..self },
                Ok(session),
            )
        }
    }

    /// The state and result of creating a pen child: an id that is there
    /// already gives the existing session back.
    pub open spec fn create_child(self, session: SessionView) -> (
        StoreView,
        Result<SessionView, StoreErrorView>,
    ) {
        match session_in(self.sessions, session.id) {
            Some(i) => (self, Ok(self.sessions[i].session)),
            None => self.create(session),
        }
    }

    /// The state after changing the session `id`, where it is there.
    pub open spec fn with_session(self, id: Seq<char>, row: SessionRowView) -> StoreView {
        match session_in(self.sessions, id) {
            Some(i) => StoreView { sessions: self.sessions.update(i, row), ..self },
            None => self,
        }
    }

    /// The row of a session.
    pub open spec fn row(self, id: Seq<char>) -> SessionRowView {
        self.sessions[session_in(self.sessions, id)->0]
    }

    /// The state after recording a run status.
    pub open spec fn set_run_status(
        self,
        id: Seq<char>,
        status: Seq<char>,
        pid: Option<i64>,
        now: Seq<char>,
    ) -> StoreView {
        let row = self.row(id);
        self.with_session(
            id,
            SessionRowView {
                session: SessionView { status, pid, updated_at: now, ..row.session },
                ..row
            },
        )
    }

    /// The state after rolling usage and title forward; a title once set
    /// stays.
    pub open spec fn update_session_meta(
        self,
        id: Seq<char>,
        usage: Usage,
        title: Seq<char>,
        now: Seq<char>,
    ) -> StoreView {
        let row = self.row(id);
        self.with_session(
            id,
            SessionRowView {
                session: SessionView {
                    usage,
                    title: if row.session.title.len() == 0 {
                        title
                    } else {
                        row.session.title
                    },
                    updated_at: now,
                    ..row.session
                },
                ..row
            },
        )
    }

    /// The state after recording a session's worktree.
    pub open spec fn set_worktree(self, id: Seq<char>, path: Seq<char>, branch: Seq<char>) -> StoreView {
        let row = self.row(id);
        self.with_session(
            id,
            SessionRowView {
                session: SessionView {
                    worktree_path: Some(path),
                    worktree_branch: Some(branch),
                    ..row.session
                },
                ..row
            },
        )
    }

    /// The state and result of registering a worker under `generation`.
    pub open spec fn start_worker(
        self,
        id: Seq<char>,
        pid: i64,
        kind: WorkerKind,
        generation: Seq<char>,
        now: Seq<char>,
    ) -> (StoreView, Result<Seq<char>, StoreErrorView>) {
        if session_in(self.sessions, id) is None {
            (self, Err(StoreErrorView::NotFound(id)))
        } else {
            let row = self.row(id);
            (
                self.with_session(
                    id,
                    SessionRowView {
                        session: SessionView {
                            status: "running"@,
                            pid: Some(pid),
                            updated_at: now,
                            ..row.session
                        },
                        worker_generation: Some(generation),
                        worker_kind: Some(kind),
                        ..row
                    },
                ),
                Ok(generation),
            )
        }
    }

    /// Whether `generation` is the session's current worker.
    pub open spec fn is_current(self, id: Seq<char>, generation: Seq<char>) -> bool {
        match session_in(self.sessions, id) {
            Some(i) => self.sessions[i].worker_generation == Some(generation),
            None => false,
        }
    }

    /// The state after a worker finished: only the current generation changes
    /// anything.
    pub open spec fn finish_worker(
        self,
        id: Seq<char>,
        generation: Seq<char>,
        status: Seq<char>,
        now: Seq<char>,
    ) -> StoreView {
        if self.is_current(id, generation) {
            self.retired(session_in(self.sessions, id)->0, status, now)
        } else {
            self
        }
    }
}

// ── The operations ──────────────────────────────────────────────────────────

impl Store {
    /// Create a session under the given id.
    pub fn create_session_as(
        &mut self,
        id: &str,
        cwd: &str,
        provider: &str,
        model: &str,
        now: &str,
    ) -> (r: Result<Session, StoreError>)
        ensures
            (final(self)@, outcome(r)) == old(self)@.create(
                fresh_session(id@, None, cwd@, provider@, model@, now@),
            ),
    {
        self.insert_session(id, None, cwd, provider, model, now)
    }

    fn insert_session(
        &mut self,
        id: &str,
        parent: Option<String>,
        cwd: &str,
        provider: &str,
        model: &str,
        now: &str,
    ) -> (r: Result<Session, StoreError>)
        ensures
            (final(self)@, outcome(r)) == old(self)@.create(
                fresh_session(id@, opt_view(parent), cwd@, provider@, model@, now@),
            ),
    {
        if self.session_index(id).is_some() {
            return Err(taken("sessions.id"));
        }
        let session = Session {
            id: id.to_owned(),
            title: String::new(),
            cwd: cwd.to_owned(),
            provider: provider.to_owned(),
            model: model.to_owned(),
            usage: Usage { input_tokens: 0, output_tokens: 0 },
            created_at: now.to_owned(),
            updated_at: now.to_owned(),
            parent_session_id: parent,
            status: "idle".to_owned(),
            pid: None,
            worktree_path: None,
            worktree_branch: None,
        };
        let copy = session.clone();
        let ghost before = self@;
        self.sessions.push(
            SessionRow {
                session,
                next_seq: 1,
                leaf_id: None,
                open_operation_id: None,
                worker_generation: None,
                worker_kind: None,
            },
        );
        proof {
            assert(copy@.title =~= Seq::<char>::empty());
            assert(self@.sessions =~= before.sessions.push(fresh_row(copy@)));
        }
        Ok(copy)
    }

    /// Create a session under a fresh random id.
    pub fn create_session(&mut self, cwd: &str, provider: &str, model: &str, now: &str) -> (r:
        Result<Session, StoreError>)
        ensures
            exists|id: Seq<char>| #[trigger]
                is_uuid(id) && (final(self)@, outcome(r)) == old(self)@.create(
                    fresh_session(id, None, cwd@, provider@, model@, now@),
                ),
    {
        let id = random_id();
        self.create_session_as(id.as_str(), cwd, provider, model, now)
    }

    /// Create a pen child with a caller-provided (deterministic) id.
    /// Idempotent: if the id already exists, the existing session is
    /// returned — this is how a replayed spawn reattaches to its child.
    pub fn create_child_session(
        &mut self,
        child_id: &str,
        parent_id: &str,
        cwd: &str,
        provider: &str,
        model: &str,
        now: &str,
    ) -> (r: Result<Session, StoreError>)
        ensures
            (final(self)@, outcome(r)) == old(self)@.create_child(
                fresh_session(child_id@, Some(parent_id@), cwd@, provider@, model@, now@),
            ),
    {
        match self.session_index(child_id) {
            Some(i) => {
                return Ok(self.sessions[i].session.clone());
            },
            None => {},
        }
        self.insert_session(child_id, Some(parent_id.to_owned()), cwd, provider, model, now)
    }

    /// The children a session has spawned.
    pub fn list_children(&self, parent_id: &str) -> (r: Vec<Session>)
        ensures
            views(r@) == children(self@.sessions, parent_id@),
    {
        let mut out: Vec<Session> = Vec::new();
        let ghost rows = self@.sessions;
        let mut i: usize = 0;
        proof {
            assert(views(out@) =~= children(rows.take(0), parent_id@));
        }
        while i < self.sessions.len()
            invariant
                rows == self@.sessions,
                i <= self.sessions@.len(),
                views(out@) == children(rows.take(i as int), parent_id@),
            decreases self.sessions@.len() - i,
        {
            let row = &self.sessions[i];
            proof {
                lemma_step(rows, i as int);
                assert(rows[i as int] == row@);
            }
            let is_child = match &row.session.parent_session_id {
                Some(p) => same(p.as_str(), parent_id),
                None => false,
            };
            if is_child {
                let ghost before = out@;
                let c = row.session.clone();
                let ghost cv = c@;
                out.push(c);
                proof {
                    assert(views(out@) =~= views(before).push(cv));
                }
            }
            i += 1;
        }
        proof {
            assert(rows.take(i as int) =~= rows);
        }
        out
    }

    /// How many children a session has spawned — the durable count budget.
    pub fn count_children(&self, parent_id: &str) -> (r: u64)
        ensures
            r == children(self@.sessions, parent_id@).len(),
    {
        let found = self.list_children(parent_id);
        proof {
            assert(views(found@).len() == found@.len());
        }
        found.len() as u64
    }

    /// Record the run status (and process id) for the dashboard.
    pub fn set_run_status(&mut self, session_id: &str, status: &str, pid: Option<i64>, now: &str)
        ensures
            final(self)@ == old(self)@.set_run_status(session_id@, status@, pid, now@),
    {
        match self.session_index(session_id) {
            Some(i) => {
                let ghost before = self@;
                self.sessions[i].session.status = status.to_owned();
                self.sessions[i].session.pid = pid;
                self.sessions[i].session.updated_at = now.to_owned();
                proof {
                    assert(self@.sessions =~= before.set_run_status(
                        session_id@,
                        status@,
                        pid,
                        now@,
                    ).sessions);
                }
            },
            None => {},
        }
    }

    /// The session `id`.
    pub fn get_session(&self, id: &str) -> (r: Result<Session, StoreError>)
        ensures
            outcome(r) == self@.get_session(id@),
    {
        match self.session_index(id) {
            Some(i) => Ok(self.sessions[i].session.clone()),
            None => Err(StoreError::NotFound(id.to_owned())),
        }
    }

    /// The one session whose id begins with `prefix`.
    pub fn resolve_session(&self, prefix: &str) -> (r: Result<Session, StoreError>)
        ensures
            outcome(r) == self@.resolve_session(prefix@),
    {
        let mut found: Vec<Session> = Vec::new();
        let ghost rows = self@.sessions;
        let mut i: usize = 0;
        proof {
            assert(views(found@) =~= matching(rows.take(0), prefix@));
        }
        while i < self.sessions.len()
            invariant
                rows == self@.sessions,
                i <= self.sessions@.len(),
                views(found@) == matching(rows.take(i as int), prefix@),
            decreases self.sessions@.len() - i,
        {
            let row = &self.sessions[i];
            proof {
                lemma_step(rows, i as int);
                assert(rows[i as int] == row@);
            }
            if starts_with(row.session.id.as_str(), prefix) {
                let ghost before = found@;
                let c = row.session.clone();
                let ghost cv = c@;
                found.push(c);
                proof {
                    assert(views(found@) =~= views(before).push(cv));
                }
            }
            i += 1;
        }
        proof {
            assert(rows.take(i as int) =~= rows);
            assert(views(found@).len() == found@.len());
        }
        if found.len() == 0 {
            Err(StoreError::NotFound(prefix.to_owned()))
        } else if found.len() == 1 {
            proof {
                assert(views(found@)[0] == found@[0]@);
            }
            Ok(found[0].clone())
        } else {
            Err(StoreError::Ambiguous(prefix.to_owned()))
        }
    }

    /// All sessions, the latest updated first.
    pub fn list_sessions(&self) -> (r: Vec<Session>)
        ensures
            views(r@) == latest_first(self@.sessions),
    {
        let mut out: Vec<Session> = Vec::new();
        let ghost rows = self@.sessions;
        let mut i: usize = 0;
        proof {
            assert(views(out@) =~= latest_first(rows.take(0)));
        }
        while i < self.sessions.len()
            invariant
                rows == self@.sessions,
                i <= self.sessions@.len(),
                views(out@) == latest_first(rows.take(i as int)),
            decreases self.sessions@.len() - i,
        {
            let session = &self.sessions[i].session;
            proof {
                lemma_step(rows, i as int);
                assert(rows[i as int].session == session@);
            }
            let ghost bv = views(out@);
            let mut n: usize = out.len();
            proof {
                assert(bv.take(n as int) =~= bv);
            }
            while n > 0 && !at_most(session.updated_at.as_str(), out[n - 1].updated_at.as_str())
                invariant
                    bv == views(out@),
                    n <= out@.len(),
                    latest_place(bv, session.updated_at@) == latest_place(
                        bv.take(n as int),
                        session.updated_at@,
                    ),
                decreases n,
            {
                n -= 1;
                proof {
                    lemma_step(bv, n as int);
                    assert(bv[n as int] == out@[n as int]@);
                }
            }
            proof {
                if n > 0 {
                    lemma_step(bv, n - 1);
                    assert(bv[n - 1] == out@[n - 1]@);
                }
            }
            let c = session.clone();
            let ghost cv = c@;
            out.insert(n, c);
            proof {
                assert(views(out@) =~= bv.insert(n as int, cv));
            }
            i += 1;
        }
        proof {
            assert(rows.take(i as int) =~= rows);
        }
        out
    }

    /// Roll cumulative usage and (first-user-message) title forward.
    pub fn update_session_meta(&mut self, session_id: &str, usage: Usage, title: &str, now: &str)
        ensures
            final(self)@ == old(self)@.update_session_meta(session_id@, usage, title@, now@),
    {
        match self.session_index(session_id) {
            Some(i) => {
                let ghost before = self@;
                self.sessions[i].session.usage = usage;
                if self.sessions[i].session.title.as_str().is_empty() {
                    self.sessions[i].session.title = title.to_owned();
                }
                self.sessions[i].session.updated_at = now.to_owned();
                proof {
                    assert(self@.sessions =~= before.update_session_meta(
                        session_id@,
                        usage,
                        title@,
                        now@,
                    ).sessions);
                }
            },
            None => {},
        }
    }

    /// Record where a session's own worktree is.
    pub fn set_worktree(&mut self, session_id: &str, path: &str, branch: &str)
        ensures
            final(self)@ == old(self)@.set_worktree(session_id@, path@, branch@),
    {
        match self.session_index(session_id) {
            Some(i) => {
                let ghost before = self@;
                self.sessions[i].session.worktree_path = Some(path.to_owned());
                self.sessions[i].session.worktree_branch = Some(branch.to_owned());
                proof {
                    assert(self@.sessions =~= before.set_worktree(
                        session_id@,
                        path@,
                        branch@,
                    ).sessions);
                }
            },
            None => {},
        }
    }

    /// Register a worker under the given generation.
    pub fn start_worker_as(
        &mut self,
        session_id: &str,
        pid: i64,
        kind: WorkerKind,
        generation: &str,
        now: &str,
    ) -> (r: Result<String, StoreError>)
        ensures
            (final(self)@, outcome(r)) == old(self)@.start_worker(
                session_id@,
                pid,
                kind,
                generation@,
                now@,
            ),
    {
        match self.session_index(session_id) {
            Some(i) => {
                let ghost before = self@;
                self.sessions[i].session.status = "running".to_owned();
                self.sessions[i].session.pid = Some(pid);
                self.sessions[i].session.updated_at = now.to_owned();
                self.sessions[i].worker_generation = Some(generation.to_owned());
                self.sessions[i].worker_kind = Some(kind);
                proof {
                    assert(self@.sessions =~= before.start_worker(
                        session_id@,
                        pid,
                        kind,
                        generation@,
                        now@,
                    ).0.sessions);
                }
                Ok(generation.to_owned())
            },
            None => Err(StoreError::NotFound(session_id.to_owned())),
        }
    }

    /// Register a worker under a fresh random generation.
    pub fn start_worker(&mut self, session_id: &str, pid: i64, kind: WorkerKind, now: &str) -> (r:
        Result<String, StoreError>)
        ensures
            exists|generation: Seq<char>| #[trigger]
                is_uuid(generation) && (final(self)@, outcome(r)) == old(self)@.start_worker(
                    session_id@,
                    pid,
                    kind,
                    generation,
                    now@,
                ),
    {
        let generation = random_id();
        self.start_worker_as(session_id, pid, kind, generation.as_str(), now)
    }

    /// End a worker's registration; whether it was still the current one.
    pub fn finish_worker(&mut self, session_id: &str, generation: &str, status: &str, now: &str) -> (r:
        bool)
        ensures
            final(self)@ == old(self)@.finish_worker(session_id@, generation@, status@, now@),
            r == old(self)@.is_current(session_id@, generation@),
    {
        match self.session_index(session_id) {
            Some(i) => {
                let ghost before = self@;
                proof {
                    assert(before.sessions[i as int] == self.sessions@[i as int]@);
                }
                let current = match &self.sessions[i].worker_generation {
                    Some(g) => same(g.as_str(), generation),
                    None => false,
                };
                if !current {
                    return false;
                }
                self.sessions[i].session.status = status.to_owned();
                self.sessions[i].session.pid = None;
                self.sessions[i].session.updated_at = now.to_owned();
                self.sessions[i].worker_generation = None;
                self.sessions[i].worker_kind = None;
                proof {
                    assert(self@.sessions =~= before.retired(i as int, status@, now@).sessions);
                }
                true
            },
            None => false,
        }
    }

    /// The current worker of a session and its kind.
    pub fn worker_registration(&self, session_id: &str) -> (r: Result<
        (Option<String>, Option<WorkerKind>),
        StoreError,
    >)
        ensures
            match r {
                Ok(v) => session_in(self@.sessions, session_id@) is Some && opt_view(v.0)
                    == self@.row(session_id@).worker_generation && v.1 == self@.row(
                    session_id@,
                ).worker_kind,
                Err(e) => session_in(self@.sessions, session_id@) is None && e@
                    == StoreErrorView::NotFound(session_id@),
            },
    {
        match self.session_index(session_id) {
            Some(i) => {
                proof {
                    assert(self@.sessions[i as int] == self.sessions@[i as int]@);
                }
                Ok((clone_opt(&self.sessions[i].worker_generation), self.sessions[i].worker_kind))
            },
            None => Err(StoreError::NotFound(session_id.to_owned())),
        }
    }

    /// The current worker of a session.
    pub fn worker_generation(&self, session_id: &str) -> (r: Result<Option<String>, StoreError>)
        ensures
            match r {
                Ok(v) => session_in(self@.sessions, session_id@) is Some && opt_view(v)
                    == self@.row(session_id@).worker_generation,
                Err(e) => session_in(self@.sessions, session_id@) is None && e@
                    == StoreErrorView::NotFound(session_id@),
            },
    {
        match self.worker_registration(session_id) {
            Ok(v) => Ok(v.0),
            Err(e) => Err(e),
        }
    }
}

// ── Titles ──────────────────────────────────────────────────────────────────

/// The first user message.
pub open spec fn first_user(messages: Seq<MessageView>) -> Option<MessageView>
    decreases messages.len(),
{
    if messages.len() == 0 {
        None
    } else if messages[0].role == Role::User {
        Some(messages[0])
    } else {
        first_user(messages.drop_first())
    }
}

/// The title that a conversation gets: the beginning of the first user
/// message's text.
pub open spec fn title_of(messages: Seq<MessageView>) -> Seq<char> {
    match first_user(messages) {
        Some(m) => m.text().take(
            if m.text().len() < 80 {
                m.text().len() as int
            } else {
                80
            },
        ),
        None => Seq::empty(),
    }
}

/// Extract a display title from the first user message on the path.
pub fn title_from(messages: &Vec<Message>) -> (r: String)
    ensures
        r@ == title_of(views(messages@)),
{
    let ghost all = views(messages@);
    let mut i: usize = 0;
    proof {
        assert(all.skip(0) =~= all);
    }
    while i < messages.len()
        invariant
            all == views(messages@),
            i <= messages@.len(),
            first_user(all) == first_user(all.skip(i as int)),
        decreases messages@.len() - i,
    {
        proof {
            assert(all.skip(i as int)[0] == messages@[i as int]@);
            assert(all.skip(i as int).drop_first() =~= all.skip(i + 1));
        }
        if messages[i].role == Role::User {
            let text = messages[i].text();
            let cs = chars_of(text.as_str());
            let n: usize = if cs.len() < 80 {
                cs.len()
            } else {
                80
            };
            let r = slice(&cs, 0, n);
            proof {
                assert(r@ =~= cs@.take(n as int));
            }
            return r;
        }
        i += 1;
    }
    String::new()
}

/// Where no other id begins so, the one that does is all there is.
proof fn lemma_only_match(rows: Seq<SessionRowView>, prefix: Seq<char>, at: int)
    requires
        0 <= at < rows.len(),
        prefix.is_prefix_of(rows[at].session.id),
        forall|i: int|
            0 <= i < rows.len() && i != at ==> !prefix.is_prefix_of((#[trigger] rows[i]).session.id),
    ensures
        matching(rows, prefix) == seq![rows[at].session],
    decreases rows.len(),
{
    let rest = rows.drop_last();
    if at == rows.len() - 1 {
        lemma_no_match(rest, prefix);
        assert(matching(rows, prefix) =~= seq![rows[at].session]);
    } else {
        lemma_only_match(rest, prefix, at);
        assert(!prefix.is_prefix_of(rows[rows.len() - 1].session.id));
    }
}

proof fn lemma_no_match(rows: Seq<SessionRowView>, prefix: Seq<char>)
    requires
        forall|i: int|
            0 <= i < rows.len() ==> !prefix.is_prefix_of((#[trigger] rows[i]).session.id),
    ensures
        matching(rows, prefix).len() == 0,
    decreases rows.len(),
{
    if rows.len() > 0 {
        lemma_no_match(rows.drop_last(), prefix);
        assert(!prefix.is_prefix_of(rows[rows.len() - 1].session.id));
    }
}

/// A session is found by any beginning of its id with which no other id begins.
pub proof fn law_unique_prefix_finds_the_session(s: StoreView, at: int, n: int)
    requires
        0 <= at < s.sessions.len(),
        0 <= n <= s.sessions[at].session.id.len(),
        forall|i: int|
            0 <= i < s.sessions.len() && i != at ==> !s.sessions[at].session.id.take(n).is_prefix_of(
                (#[trigger] s.sessions[i]).session.id,
            ),
    ensures
        s.resolve_session(s.sessions[at].session.id.take(n)) == Ok::<SessionView, StoreErrorView>(
            s.sessions[at].session,
        ),
{
    let id = s.sessions[at].session.id;
    assert(id.take(n).is_prefix_of(id)) by {
        assert(id.take(n) =~= id.take(id.take(n).len() as int));
    }
    lemma_only_match(s.sessions, id.take(n), at);
}

} // verus!
