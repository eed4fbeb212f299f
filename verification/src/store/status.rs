//! Deriving a session's dashboard state from its stored run status and
//! whether its process is still alive.
//!
//! The raw `status` column records what the run *intended* (running →
//! completed/failed). Combined with process liveness, that tells the whole
//! story: a session marked `running` whose process is gone crashed and is
//! recoverable, which is different from one that finished cleanly.
use vstd::prelude::*;

use super::Session;
use crate::text::same;

verus! {

/// The state of a session on the dashboard.
#[derive(Debug, Clone, Copy, PartialEq, Eq, Structural)]
pub enum AgentStatus {
    /// Never run, or finished and ready for another prompt.
    Idle,
    /// A process is actively working this session.
    Working,
    /// The last run finished successfully.
    Completed,
    /// The last run failed, or its process died mid-run (recoverable).
    Failed,
}

impl AgentStatus {
    /// The state's name.
    pub open spec fn name(self) -> Seq<char> {
        match self {
            AgentStatus::Idle => "Idle"@,
            AgentStatus::Working => "Working"@,
            AgentStatus::Completed => "Completed"@,
            AgentStatus::Failed => "Failed"@,
        }
    }

    /// The state's place in the grouping.
    pub open spec fn rank(self) -> int {
        match self {
            AgentStatus::Working => 0,
            AgentStatus::Idle => 1,
            AgentStatus::Failed => 2,
            AgentStatus::Completed => 3,
        }
    }

    /// The state's name.
    pub fn label(self) -> (r: &'static str)
        ensures
            r@ == self.name(),
    {
        match self {
            AgentStatus::Idle => "Idle",
            AgentStatus::Working => "Working",
            AgentStatus::Completed => "Completed",
            AgentStatus::Failed => "Failed",
        }
    }

    /// Grouping order for the dashboard: Working first, then Idle, then the
    /// finished states.
    pub fn group_rank(self) -> (r: u8)
        ensures
            r == self.rank(),
    {
        match self {
            AgentStatus::Working => 0,
            AgentStatus::Idle => 1,
            AgentStatus::Failed => 2,
            AgentStatus::Completed => 3,
        }
    }
}

/// Whether `pid` is a live process, from what signal 0 to it came to: it was
/// taken, or refused for want of permission. Only a positive pid names a
/// single process.
pub fn pid_alive(pid: i64, taken: bool, not_permitted: bool) -> (r: bool)
    ensures
        r == (pid > 0 && (taken || not_permitted)),
{
    pid > 0 && (taken || not_permitted)
}

/// The display state of a stored status.
pub open spec fn derived(status: Seq<char>, alive: bool) -> AgentStatus {
    if status == "running"@ {
        if alive {
            AgentStatus::Working
        } else {
            AgentStatus::Failed
        }
    } else if status == "completed"@ {
        AgentStatus::Completed
    } else if status == "failed"@ {
        AgentStatus::Failed
    } else {
        AgentStatus::Idle
    }
}

/// Derive the display state. `alive` is whether the session's recorded pid is
/// a live process (the caller checks the OS); it only matters while the
/// stored status is `running`.
pub fn derive(status: &str, alive: bool) -> (r: AgentStatus)
    ensures
        r == derived(status@, alive),
{
    if same(status, "running") {
        if alive {
            AgentStatus::Working
        } else {
            // Marked running but the process is gone: it crashed.
            AgentStatus::Failed
        }
    } else if same(status, "completed") {
        AgentStatus::Completed
    } else if same(status, "failed") {
        AgentStatus::Failed
    } else {
        AgentStatus::Idle
    }
}

/// The display state of a session.
pub fn for_session(session: &Session, alive: bool) -> (r: AgentStatus)
    ensures
        r == derived(session@.status, alive),
{
    self::derive(session.status.as_str(), alive)
}

/// Liveness only matters while the stored status is `running`.
pub proof fn law_liveness_only_matters_while_running(status: Seq<char>, a: bool, b: bool)
    requires
        status != "running"@,
    ensures
        derived(status, a) == derived(status, b),
{
}

/// Only a live process that says it is running counts as working.
pub proof fn law_working_is_running_and_alive(status: Seq<char>, alive: bool)
    ensures
        derived(status, alive) == AgentStatus::Working <==> status == "running"@ && alive,
{
    reveal_strlit("running");
    reveal_strlit("completed");
    reveal_strlit("failed");
}

/// The states stand in four different places.
pub proof fn law_group_order_is_strict(a: AgentStatus, b: AgentStatus)
    ensures
        a.rank() == b.rank() ==> a == b,
        AgentStatus::Working.rank() < AgentStatus::Idle.rank(),
        AgentStatus::Idle.rank() < AgentStatus::Failed.rank(),
        AgentStatus::Failed.rank() < AgentStatus::Completed.rank(),
{
}

} // verus!
