//! Exclusive ownership and lifecycle for one persisted session worker.
//!
//! Serialized writes cannot stop two agent processes from building divergent
//! in-memory transcripts and calling providers for the same session. A
//! crash-released OS file lock provides that single-owner invariant; a
//! persisted generation makes terminal status updates stale-safe. The lock
//! itself is the caller's; here is what its owner does with the store.
use vstd::prelude::*;
use vstd::string::*;

use super::{session_in, Store, StoreError, StoreErrorView, StoreView, WorkerKind};
use super::home::{dir_of, store_dir};
use super::inbox::{DrainDecision, DrainDecisionView};
use crate::ids::is_uuid;
use crate::path::{join, joined};
use crate::text::{boundary_below, chars_of, floor_boundary, opt_view, same, slice};

verus! {

impl WorkerKind {
    /// The kind's stored name.
    pub open spec fn name(self) -> Seq<char> {
        match self {
            WorkerKind::NonDraining => "non_draining"@,
            WorkerKind::Draining => "draining"@,
        }
    }

    /// The kind's stored name.
    pub fn as_str(self) -> (r: &'static str)
        ensures
            r@ == self.name(),
    {
        match self {
            WorkerKind::NonDraining => "non_draining",
            WorkerKind::Draining => "draining",
        }
    }

    /// The kind of a stored name.
    pub fn from_str(value: &str) -> (r: Option<Self>)
        ensures
            match r {
                Some(kind) => kind.name() == value@,
                None => forall|kind: WorkerKind| #[trigger] kind.name() != value@,
            },
    {
        if same(value, "non_draining") {
            Some(WorkerKind::NonDraining)
        } else if same(value, "draining") {
            Some(WorkerKind::Draining)
        } else {
            None
        }
    }
}

/// A stored kind reads back as the kind that was stored.
pub proof fn law_worker_kind_names_differ(a: WorkerKind, b: WorkerKind)
    requires
        a.name() == b.name(),
    ensures
        a == b,
{
    reveal_strlit("non_draining");
    reveal_strlit("draining");
    assert("non_draining"@.len() != "draining"@.len());
}

/// Why a worker could not act.
#[derive(Debug)]
pub enum WorkerError {
    AlreadyRunning(String),
    Io(String),
    Store(StoreError),
    AlreadyStarted,
    NotStarted,
    StaleGeneration,
}

/// What a worker's error says.
pub enum WorkerErrorView {
    AlreadyRunning(Seq<char>),
    Io(Seq<char>),
    Store(StoreErrorView),
    AlreadyStarted,
    NotStarted,
    StaleGeneration,
}

impl View for WorkerError {
    type V = WorkerErrorView;

    open spec fn view(&self) -> WorkerErrorView {
        match self {
            WorkerError::AlreadyRunning(id) => WorkerErrorView::AlreadyRunning(id@),
            WorkerError::Io(m) => WorkerErrorView::Io(m@),
            WorkerError::Store(e) => WorkerErrorView::Store(e@),
            WorkerError::AlreadyStarted => WorkerErrorView::AlreadyStarted,
            WorkerError::NotStarted => WorkerErrorView::NotStarted,
            WorkerError::StaleGeneration => WorkerErrorView::StaleGeneration,
        }
    }
}

impl WorkerErrorView {
    /// The error in words.
    pub open spec fn words(self) -> Seq<char> {
        match self {
            WorkerErrorView::AlreadyRunning(id) => "session "@ + id
                + " already has a running worker"@,
            WorkerErrorView::Io(m) => "worker lock I/O error: "@ + m,
            WorkerErrorView::Store(e) => e.words(),
            WorkerErrorView::AlreadyStarted => "session worker lifecycle already started"@,
            WorkerErrorView::NotStarted => "session worker lifecycle was not started"@,
            WorkerErrorView::StaleGeneration => "session worker generation is no longer current"@,
        }
    }
}

impl WorkerError {
    /// The error in words.
    pub fn to_string(&self) -> (r: String)
        ensures
            r@ == self@.words(),
    {
        match self {
            WorkerError::AlreadyRunning(id) => "session ".to_owned().concat(id.as_str()).concat(
                " already has a running worker",
            ),
            WorkerError::Io(m) => "worker lock I/O error: ".to_owned().concat(m.as_str()),
            WorkerError::Store(e) => e.to_string(),
            WorkerError::AlreadyStarted => "session worker lifecycle already started".to_owned(),
            WorkerError::NotStarted => "session worker lifecycle was not started".to_owned(),
            WorkerError::StaleGeneration => "session worker generation is no longer current".to_owned(),
        }
    }
}

/// An id as it is shown: its first eight bytes.
pub open spec fn short(id: Seq<char>) -> Seq<char> {
    id.take(boundary_below(id, 8))
}

/// An id as it is shown.
pub fn short_id(id: &str) -> (r: String)
    ensures
        r@ == short(id@),
{
    let cs = chars_of(id);
    let n: usize = floor_boundary(&cs, 8);
    let r = slice(&cs, 0, n);
    proof {
        assert(r@ =~= short(id@));
    }
    r
}

/// What a second owner of a session is told.
pub fn already_running(session_id: &str) -> (r: WorkerError)
    ensures
        r@ == WorkerErrorView::AlreadyRunning(short(session_id@)),
{
    WorkerError::AlreadyRunning(short_id(session_id))
}

/// The lock file of a session, beside the database.
pub fn lock_path(db_path: &str, session_id: &str) -> (r: String)
    ensures
        r@ == joined(joined(store_dir(db_path@), "run"@), session_id@ + ".lock"@),
{
    let dir = dir_of(db_path);
    let run = join(dir.as_str(), "run");
    let name = session_id.to_owned().concat(".lock");
    join(run.as_str(), name.as_str())
}

/// The owner of a session's lock.
#[derive(Debug)]
pub struct SessionWorker {
    session_id: String,
    generation: Option<String>,
}

/// The owner of a session's lock, as a value.
pub struct SessionWorkerView {
    pub session_id: Seq<char>,
    pub generation: Option<Seq<char>>,
}

impl View for SessionWorker {
    type V = SessionWorkerView;

    closed spec fn view(&self) -> SessionWorkerView {
        SessionWorkerView {
            session_id: self.session_id@,
            generation: opt_view(self.generation),
        }
    }
}

impl SessionWorker {
    /// The owner of a lock just taken.
    pub fn from_lock(session_id: &str) -> (r: Self)
        ensures
            r@ == (SessionWorkerView { session_id: session_id@, generation: None }),
    {
        SessionWorker { session_id: session_id.to_owned(), generation: None }
    }

    /// Register a direct CLI or pen worker that cannot drain queued inputs.
    pub fn start(&mut self, store: &mut Store, pid: i64, now: &str) -> (r: Result<(), WorkerError>)
        ensures
            registered(
                old(self)@,
                final(self)@,
                old(store)@,
                final(store)@,
                pid,
                WorkerKind::NonDraining,
                now@,
                verdict(r),
            ),
    {
        self.start_as(store, pid, WorkerKind::NonDraining, now)
    }

    /// Register the hidden queue worker as a safe durable handoff target.
    pub fn start_draining(&mut self, store: &mut Store, pid: i64, now: &str) -> (r: Result<
        (),
        WorkerError,
    >)
        ensures
            registered(
                old(self)@,
                final(self)@,
                old(store)@,
                final(store)@,
                pid,
                WorkerKind::Draining,
                now@,
                verdict(r),
            ),
    {
        self.start_as(store, pid, WorkerKind::Draining, now)
    }

    fn start_as(&mut self, store: &mut Store, pid: i64, kind: WorkerKind, now: &str) -> (r: Result<
        (),
        WorkerError,
    >)
        ensures
            registered(
                old(self)@,
                final(self)@,
                old(store)@,
                final(store)@,
                pid,
                kind,
                now@,
                verdict(r),
            ),
    {
        if self.generation.is_some() {
            return Err(WorkerError::AlreadyStarted);
        }
        match store.start_worker(self.session_id.as_str(), pid, kind, now) {
            Ok(generation) => {
                self.generation = Some(generation);
                Ok(())
            },
            Err(e) => Err(WorkerError::Store(e)),
        }
    }

    /// The registration, once there is one.
    pub fn generation(&self) -> (r: Option<String>)
        ensures
            opt_view(r) == self@.generation,
    {
        super::clone_opt(&self.generation)
    }

    /// The session this worker owns.
    pub fn session_id(&self) -> (r: &str)
        ensures
            r@ == self@.session_id,
    {
        self.session_id.as_str()
    }

    /// Decide whether to drain another input or retire, retaining the file
    /// lock across the decision. A retired worker has nothing left to finish.
    pub fn drain_or_retire(&mut self, store: &mut Store, terminal_status: &str, now: &str) -> (r:
        Result<DrainDecision, WorkerError>)
        ensures
            final(self)@.session_id == old(self)@.session_id,
            match old(self)@.generation {
                None => r matches Err(e) && e@ == WorkerErrorView::NotStarted && final(store)@
                    == old(store)@ && final(self)@ == old(self)@,
                Some(g) => {
                    let (next, d) = old(store)@.drain_or_retire(
                        old(self)@.session_id,
                        g,
                        terminal_status@,
                        now@,
                    );
                    &&& final(store)@ == next
                    &&& match d {
                        Ok(DrainDecisionView::Retired) => r matches Ok(v) && v@
                            == DrainDecisionView::Retired && final(self)@.generation is None,
                        Ok(DrainDecisionView::Pending(input)) => r matches Ok(v) && v@
                            == DrainDecisionView::Pending(input) && final(self)@ == old(self)@,
                        Err(e) => r matches Err(v) && v@ == WorkerErrorView::Store(e)
                            && final(self)@ == old(self)@,
                    }
                },
            },
    {
        let generation = match &self.generation {
            Some(g) => g.clone(),
            None => {
                return Err(WorkerError::NotStarted);
            },
        };
        match store.drain_or_retire_worker(
            self.session_id.as_str(),
            generation.as_str(),
            terminal_status,
            now,
        ) {
            Err(e) => Err(WorkerError::Store(e)),
            Ok(DrainDecision::Pending(input)) => Ok(DrainDecision::Pending(input)),
            Ok(DrainDecision::Retired) => {
                self.generation = None;
                Ok(DrainDecision::Retired)
            },
        }
    }

    /// End the registration with a status.
    pub fn finish(&mut self, store: &mut Store, status: &str, now: &str) -> (r: Result<
        (),
        WorkerError,
    >)
        ensures
            final(self)@.session_id == old(self)@.session_id,
            match old(self)@.generation {
                None => r matches Err(e) && e@ == WorkerErrorView::NotStarted && final(store)@
                    == old(store)@ && final(self)@ == old(self)@,
                Some(g) => {
                    &&& final(store)@ == old(store)@.finish_worker(
                        old(self)@.session_id,
                        g,
                        status@,
                        now@,
                    )
                    &&& if old(store)@.is_current(old(self)@.session_id, g) {
                        r is Ok && final(self)@.generation is None
                    } else {
                        r matches Err(e) && e@ == WorkerErrorView::StaleGeneration && final(self)@
                            == old(self)@
                    }
                },
            },
    {
        let generation = match &self.generation {
            Some(g) => g.clone(),
            None => {
                return Err(WorkerError::NotStarted);
            },
        };
        if !store.finish_worker(self.session_id.as_str(), generation.as_str(), status, now) {
            return Err(WorkerError::StaleGeneration);
        }
        self.generation = None;
        Ok(())
    }

    /// What is left to do when the owner goes away: a registration that was
    /// never finished ends as failed.
    pub fn abandon(&mut self, store: &mut Store, now: &str)
        ensures
            final(self)@ == (SessionWorkerView {
                session_id: old(self)@.session_id,
                generation: None,
            }),
            final(store)@ == (match old(self)@.generation {
                Some(g) => old(store)@.finish_worker(
                    old(self)@.session_id,
                    g,
                    "failed"@,
                    now@,
                ),
                None => old(store)@,
            }),
    {
        match self.generation.take() {
            Some(g) => {
                let _current = store.finish_worker(
                    self.session_id.as_str(),
                    g.as_str(),
                    "failed",
                    now,
                );
            },
            None => {},
        }
    }
}

/// A result without a value.
pub open spec fn verdict(r: Result<(), WorkerError>) -> Result<(), WorkerErrorView> {
    match r {
        Ok(()) => Ok(()),
        Err(e) => Err(e@),
    }
}

/// What registering a worker does: a second registration is refused, the
/// first one takes a fresh generation and records it.
pub open spec fn registered(
    before: SessionWorkerView,
    after: SessionWorkerView,
    store: StoreView,
    next: StoreView,
    pid: i64,
    kind: WorkerKind,
    now: Seq<char>,
    r: Result<(), WorkerErrorView>,
) -> bool {
    if before.generation is Some {
        &&& r == Err::<(), WorkerErrorView>(WorkerErrorView::AlreadyStarted)
        &&& after == before
        &&& next == store
    } else {
        exists|g: Seq<char>|
            #![trigger is_uuid(g)]
            is_uuid(g) && next == store.start_worker(before.session_id, pid, kind, g, now).0
                && match store.start_worker(before.session_id, pid, kind, g, now).1 {
                Ok(_) => r is Ok && after == (SessionWorkerView { generation: Some(g), ..before }),
                Err(e) => r == Err::<(), WorkerErrorView>(WorkerErrorView::Store(e)) && after
                    == before,
            }
    }
}

/// A worker whose generation is no longer current changes nothing, however it
/// ends.
pub proof fn law_stale_worker_changes_nothing(
    s: StoreView,
    session_id: Seq<char>,
    generation: Seq<char>,
    status: Seq<char>,
    now: Seq<char>,
)
    requires
        !s.is_current(session_id, generation),
    ensures
        s.finish_worker(session_id, generation, status, now) == s,
        s.drain_or_retire(session_id, generation, status, now).0 == s,
        s.drain_or_retire(session_id, generation, status, now).1 is Err,
{
}

/// A new registration makes every other generation stale.
pub proof fn law_new_generation_supersedes(
    s: StoreView,
    session_id: Seq<char>,
    pid: i64,
    kind: WorkerKind,
    new: Seq<char>,
    other: Seq<char>,
    now: Seq<char>,
)
    requires
        session_in(s.sessions, session_id) is Some,
    ensures
        s.start_worker(session_id, pid, kind, new, now).0.is_current(session_id, other) <==> other
            == new,
{
    let next = s.start_worker(session_id, pid, kind, new, now).0;
    super::lemma_session_in(s.sessions, session_id);
    let i = session_in(s.sessions, session_id)->0;
    super::lemma_same_ids(s.sessions, next.sessions, session_id);
    assert(next.sessions[i].worker_generation == Some(new));
}

} // verus!
