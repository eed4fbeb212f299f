//! The job tool: the coordination plane, exposed to the model.
//!
//! `list` derives each child's state from its stored status plus process
//! liveness — the store is the source of truth, so a call after a crash sees
//! reality, not a stale in-process handle. `wait` polls that truth to a
//! terminal state and returns the child's recorded answer. `cancel` signals a
//! background child dispatched by this process; the child finishes as failed
//! and stays resumable, because cancellation is an outcome, not an erasure.
use vstd::prelude::*;
use vstd::string::*;

use super::pen::{answer_of, report, store_failed, store_failure};
use crate::json::{Json, JsonView};
use crate::llm::{ToolSpec, ToolSpecView};
use crate::store::{Session, SessionView, Store, StoreView};
use crate::store::status::{derived, AgentStatus};
use crate::store::worker::{short, short_id};
use crate::text::{
    dec, dec_int, decimal, decimal_int, lemma_step, pad, padded, same, starts_with, views,
};
use crate::tools::{required, required_str, tool_outcome, Tool, ToolError, ToolErrorView};
use crate::tools::catalog::{self, job_offer};

verus! {

pub const DEFAULT_WAIT_SECS: u64 = 900;

pub const MAX_WAIT_SECS: u64 = 3600;

pub const POLL_MILLIS: u64 = 250;

// ── Requests ────────────────────────────────────────────────────────────────

/// What a call asks for, as a value.
pub enum RequestView {
    List,
    Wait { prefix: Seq<char>, timeout_secs: int },
    Cancel { prefix: Seq<char> },
}

/// What a call asks for.
#[derive(Debug)]
pub enum Request {
    List,
    Wait { prefix: String, timeout_secs: u64 },
    Cancel { prefix: String },
}

impl View for Request {
    type V = RequestView;

    open spec fn view(&self) -> RequestView {
        match self {
            Request::List => RequestView::List,
            Request::Wait { prefix, timeout_secs } => RequestView::Wait {
                prefix: prefix@,
                timeout_secs: *timeout_secs as int,
            },
            Request::Cancel { prefix } => RequestView::Cancel { prefix: prefix@ },
        }
    }
}

/// How long a `wait` blocks, in seconds.
pub open spec fn wait_secs(input: JsonView) -> int {
    match input.nat_field("timeout_seconds"@) {
        Some(n) => if n <= MAX_WAIT_SECS {
            n
        } else {
            MAX_WAIT_SECS as int
        },
        None => DEFAULT_WAIT_SECS as int,
    }
}

/// What a call asks for.
pub open spec fn request_of(input: JsonView) -> Result<RequestView, ToolErrorView> {
    match required(input, "action"@) {
        Err(e) => Err(e),
        Ok(action) => if action == "list"@ {
            Ok(RequestView::List)
        } else if action == "wait"@ || action == "cancel"@ {
            match input.str_field("id"@) {
                None => Err(
                    ToolErrorView::InvalidInput("`"@ + action + "` needs an `id` prefix"@),
                ),
                Some(prefix) => if action == "wait"@ {
                    Ok(RequestView::Wait { prefix, timeout_secs: wait_secs(input) })
                } else {
                    Ok(RequestView::Cancel { prefix })
                },
            }
        } else {
            Err(
                ToolErrorView::InvalidInput(
                    "unknown action `"@ + action + "` (expected list, wait, or cancel)"@,
                ),
            )
        },
    }
}

/// What a call asks for.
pub fn request(input: &Json) -> (r: Result<Request, ToolError>)
    ensures
        tool_outcome(r) == request_of(input@),
{
    let action = match required_str(input, "action") {
        Err(e) => {
            return Err(e);
        },
        Ok(action) => action,
    };
    if same(action, "list") {
        return Ok(Request::List);
    }
    let waits = same(action, "wait");
    if !waits && !same(action, "cancel") {
        return Err(
            ToolError::InvalidInput(
                "unknown action `".to_owned().concat(action).concat(
                    "` (expected list, wait, or cancel)",
                ),
            ),
        );
    }
    let prefix = match input.str_field("id") {
        Some(prefix) => prefix.to_owned(),
        None => {
            return Err(
                ToolError::InvalidInput(
                    "`".to_owned().concat(action).concat("` needs an `id` prefix"),
                ),
            );
        },
    };
    if waits {
        let timeout_secs: u64 = match input.u64_field("timeout_seconds") {
            Some(n) => if n <= MAX_WAIT_SECS {
                n
            } else {
                MAX_WAIT_SECS
            },
            None => DEFAULT_WAIT_SECS,
        };
        Ok(Request::Wait { prefix, timeout_secs })
    } else {
        Ok(Request::Cancel { prefix })
    }
}

/// Whether a call can run beside others: `list` and `wait` only read, so
/// several waits can block side by side; `cancel` stays serial.
pub open spec fn runs_beside(input: JsonView) -> bool {
    input.str_field("action"@) == Some("list"@) || input.str_field("action"@) == Some("wait"@)
}

fn can_run_beside(input: &Json) -> (r: bool)
    ensures
        r == runs_beside(input@),
{
    match input.str_field("action") {
        Some(action) => same(action, "list") || same(action, "wait"),
        None => false,
    }
}

/// The tool over a session's children.
#[derive(Debug)]
pub struct JobTool {
    pub store_path: String,
    pub session_id: String,
}

impl JobTool {
    /// The tool over the children of a session in the store at a path.
    pub fn new(store_path: &str, session_id: &str) -> (r: Self)
        ensures
            r.store_path@ == store_path@,
            r.session_id@ == session_id@,
    {
        JobTool { store_path: store_path.to_owned(), session_id: session_id.to_owned() }
    }
}

impl Tool for JobTool {
    open spec fn offer(&self) -> ToolSpecView {
        job_offer()
    }

    open spec fn overlaps(&self, input: JsonView) -> bool {
        runs_beside(input)
    }

    open spec fn replays(&self) -> bool {
        false
    }

    fn name(&self) -> (r: &'static str) {
        "job"
    }

    fn spec(&self) -> (r: ToolSpec) {
        catalog::job()
    }

    fn parallel_safe(&self, input: &Json) -> (r: bool) {
        can_run_beside(input)
    }

    fn replay_safe(&self) -> (r: bool) {
        false
    }
}

// ── Children ────────────────────────────────────────────────────────────────

/// The children whose id begins with a prefix.
pub open spec fn children_with(list: Seq<SessionView>, prefix: Seq<char>) -> Seq<SessionView>
    decreases list.len(),
{
    if list.len() == 0 {
        Seq::empty()
    } else {
        let before = children_with(list.drop_last(), prefix);
        if prefix.is_prefix_of(list.last().id) {
            before.push(list.last())
        } else {
            before
        }
    }
}

/// The one child whose id begins with a prefix.
pub open spec fn child_of(list: Seq<SessionView>, prefix: Seq<char>) -> Result<
    SessionView,
    ToolErrorView,
> {
    let found = children_with(list, prefix);
    if found.len() == 0 {
        Err(
            ToolErrorView::InvalidInput(
                "no child of this session matches `"@ + prefix + "`"@,
            ),
        )
    } else if found.len() == 1 {
        Ok(found[0])
    } else {
        Err(
            ToolErrorView::InvalidInput(
                "child id `"@ + prefix + "` is ambiguous — use a longer prefix from `list`"@,
            ),
        )
    }
}

/// The one child whose id begins with a prefix.
pub fn resolve(list: &Vec<Session>, prefix: &str) -> (r: Result<Session, ToolError>)
    ensures
        tool_outcome(r) == child_of(views(list@), prefix@),
{
    let ghost all = views(list@);
    let mut found: Vec<Session> = Vec::new();
    let mut i: usize = 0;
    proof {
        assert(views(found@) =~= children_with(all.take(0), prefix@));
    }
    while i < list.len()
        invariant
            all == views(list@),
            i <= list@.len(),
            views(found@) == children_with(all.take(i as int), prefix@),
        decreases list@.len() - i,
    {
        proof {
            lemma_step(all, i as int);
            assert(all[i as int] == list@[i as int]@);
        }
        if starts_with(list[i].id.as_str(), prefix) {
            let ghost before = found@;
            let c = list[i].clone();
            let ghost cv = c@;
            found.push(c);
            proof {
                assert(views(found@) =~= views(before).push(cv));
            }
        }
        i += 1;
    }
    proof {
        assert(all.take(i as int) =~= all);
        assert(views(found@).len() == found@.len());
    }
    if found.len() == 0 {
        Err(
            ToolError::InvalidInput(
                "no child of this session matches `".to_owned().concat(prefix).concat("`"),
            ),
        )
    } else if found.len() == 1 {
        proof {
            assert(views(found@)[0] == found@[0]@);
        }
        Ok(found[0].clone())
    } else {
        Err(
            ToolError::InvalidInput(
                "child id `".to_owned().concat(prefix).concat(
                    "` is ambiguous — use a longer prefix from `list`",
                ),
            ),
        )
    }
}

/// A child's line.
pub open spec fn child_line(child: SessionView, alive: bool) -> Seq<char> {
    let title = if child.title.len() == 0 {
        "(no task recorded)"@
    } else {
        child.title
    };
    let mark = if child.worktree_path is Some {
        " · worktree"@
    } else {
        ""@
    };
    "  "@ + short(child.id) + " "@ + padded(derived(child.status, alive).name(), 9) + " "@ + title
        + mark + "\n"@
}

/// The lines of children.
pub open spec fn child_lines(list: Seq<SessionView>, alive: Seq<bool>) -> Seq<char>
    decreases list.len(),
{
    if list.len() == 0 {
        Seq::empty()
    } else {
        child_lines(list.drop_last(), alive) + child_line(list.last(), alive[list.len() - 1])
    }
}

/// The children in words.
pub open spec fn children_shown(list: Seq<SessionView>, alive: Seq<bool>) -> Seq<char> {
    if list.len() == 0 {
        "No children dispatched in this session."@
    } else {
        "Children ("@ + dec(list.len()) + "):\n"@ + child_lines(list, alive)
    }
}

/// The children in words; `alive` says of each whether its process lives.
pub fn render(list: &Vec<Session>, alive: &Vec<bool>) -> (r: String)
    requires
        alive@.len() == list@.len(),
    ensures
        r@ == children_shown(views(list@), alive@),
{
    if list.len() == 0 {
        return "No children dispatched in this session.".to_owned();
    }
    let ghost all = views(list@);
    let n = decimal(list.len() as u64);
    let mut out = "Children (".to_owned().concat(n.as_str()).concat("):\n");
    let ghost head = out@;
    let mut i: usize = 0;
    proof {
        assert(out@ =~= head + child_lines(all.take(0), alive@));
    }
    while i < list.len()
        invariant
            all == views(list@),
            alive@.len() == list@.len(),
            i <= list@.len(),
            out@ == head + child_lines(all.take(i as int), alive@),
        decreases list@.len() - i,
    {
        let child = &list[i];
        proof {
            lemma_step(all, i as int);
            assert(all[i as int] == child@);
        }
        let title = if child.title.as_str().is_empty() {
            "(no task recorded)"
        } else {
            child.title.as_str()
        };
        let mark = if child.worktree_path.is_some() {
            " · worktree"
        } else {
            ""
        };
        let id = short_id(child.id.as_str());
        let state = pad(crate::store::status::derive(child.status.as_str(), alive[i]).label(), 9);
        let line = "  ".to_owned().concat(id.as_str()).concat(" ").concat(state.as_str()).concat(
            " ",
        ).concat(title).concat(mark).concat("\n");
        out.append(line.as_str());
        proof {
            assert(out@ =~= head + child_lines(all.take(i + 1), alive@));
        }
        i += 1;
    }
    proof {
        assert(all.take(i as int) =~= all);
    }
    out
}

// ── Waiting and cancelling ──────────────────────────────────────────────────

impl StoreView {
    /// What one look at a child that is waited on comes to: nothing while it is
    /// not finished and time is left.
    pub open spec fn look(
        self,
        child_id: Seq<char>,
        alive: bool,
        expired: bool,
        timeout_secs: u64,
    ) -> Option<Result<Seq<char>, ToolErrorView>> {
        match self.get_session(child_id) {
            Err(e) => Some(Err(store_failure(e))),
            Ok(session) => match derived(session.status, alive) {
                AgentStatus::Completed => match self.path_messages(child_id) {
                    Err(e) => Some(Err(store_failure(e))),
                    Ok(messages) => Some(
                        Ok(
                            report(messages) + "\n\n[child "@ + short(child_id)
                                + " · completed]"@,
                        ),
                    ),
                },
                AgentStatus::Failed => Some(
                    Err(
                        ToolErrorView::Failed(
                            "child "@ + short(child_id)
                                + " failed or was interrupted; its session is saved — `agent` \
                                    with the same task continues it"@,
                        ),
                    ),
                ),
                _ => if expired {
                    Some(Err(ToolErrorView::Timeout(timeout_secs)))
                } else {
                    None
                },
            },
        }
    }
}

/// What one look comes to, as a value.
pub open spec fn look_outcome(r: Option<Result<String, ToolError>>) -> Option<
    Result<Seq<char>, ToolErrorView>,
> {
    match r {
        None => None,
        Some(Ok(s)) => Some(Ok(s@)),
        Some(Err(e)) => Some(Err(e@)),
    }
}

/// One look at a child that is waited on: its answer, its failure, that time
/// is up, or nothing. A child that has not started yet counts as working; the
/// deadline bounds it.
pub fn look(store: &Store, child_id: &str, alive: bool, expired: bool, timeout_secs: u64) -> (r:
    Option<Result<String, ToolError>>)
    ensures
        look_outcome(r) == store@.look(child_id@, alive, expired, timeout_secs),
{
    let session = match store.get_session(child_id) {
        Err(e) => {
            return Some(Err(store_failed(e)));
        },
        Ok(session) => session,
    };
    let id = short_id(child_id);
    match crate::store::status::derive(session.status.as_str(), alive) {
        AgentStatus::Completed => match store.path_messages(child_id) {
            Err(e) => Some(Err(store_failed(e))),
            Ok(messages) => {
                let answer = answer_of(&messages);
                Some(
                    Ok(
                        answer.concat("\n\n[child ").concat(id.as_str()).concat(
                            " · completed]",
                        ),
                    ),
                )
            },
        },
        AgentStatus::Failed => Some(
            Err(
                ToolError::Failed(
                    "child ".to_owned().concat(id.as_str()).concat(
                        " failed or was interrupted; its session is saved — `agent` with the \
                            same task continues it",
                    ),
                ),
            ),
        ),
        _ => if expired {
            Some(Err(ToolError::Timeout(timeout_secs)))
        } else {
            None
        },
    }
}

/// What cancelling a child says. `signalled` says whether this process had it
/// in flight and signalled it.
pub open spec fn cancel_said(child: SessionView, signalled: bool, alive: bool) -> Result<
    Seq<char>,
    ToolErrorView,
> {
    let id = short(child.id);
    if signalled {
        Ok(
            "cancel signalled for child "@ + id + "; its session is saved and resumable"@,
        )
    } else if derived(child.status, alive) == AgentStatus::Working {
        Err(
            ToolErrorView::Failed(
                "child "@ + id + " is running in another process (pid "@ + dec_int(
                    match child.pid {
                        Some(p) => p as int,
                        None => 0,
                    },
                ) + "); this session did not dispatch it, so cancel it there"@,
            ),
        )
    } else {
        Err(
            ToolErrorView::InvalidInput(
                "child "@ + id + " is not running ("@ + derived(child.status, alive).name()
                    + ")"@,
            ),
        )
    }
}

/// What cancelling a child says.
pub fn cancel_result(child: &Session, signalled: bool, alive: bool) -> (r: Result<
    String,
    ToolError,
>)
    ensures
        tool_outcome(r) == cancel_said(child@, signalled, alive),
{
    let id = short_id(child.id.as_str());
    if signalled {
        return Ok(
            "cancel signalled for child ".to_owned().concat(id.as_str()).concat(
                "; its session is saved and resumable",
            ),
        );
    }
    let state = crate::store::status::derive(child.status.as_str(), alive);
    if state == AgentStatus::Working {
        let pid = match child.pid {
            Some(p) => decimal_int(p),
            None => decimal_int(0),
        };
        Err(
            ToolError::Failed(
                "child ".to_owned().concat(id.as_str()).concat(
                    " is running in another process (pid ",
                ).concat(pid.as_str()).concat(
                    "); this session did not dispatch it, so cancel it there",
                ),
            ),
        )
    } else {
        Err(
            ToolError::InvalidInput(
                "child ".to_owned().concat(id.as_str()).concat(" is not running (").concat(
                    state.label(),
                ).concat(")"),
            ),
        )
    }
}

/// A child whose process died mid-run never reads as working, and a wait on it
/// ends at once.
pub proof fn law_crashed_child_reads_as_failed(
    s: StoreView,
    child_id: Seq<char>,
    expired: bool,
    timeout_secs: u64,
)
    requires
        s.get_session(child_id) is Ok,
        s.get_session(child_id)->Ok_0.status == "running"@,
    ensures
        derived(s.get_session(child_id)->Ok_0.status, false) == AgentStatus::Failed,
        s.look(child_id, false, expired, timeout_secs) is Some,
        s.look(child_id, false, expired, timeout_secs)->Some_0 is Err,
{
}

} // verus!
