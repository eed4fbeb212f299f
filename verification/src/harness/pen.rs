//! The pen: durable subagents.
//!
//! A child is an ordinary session in the same store, linked to its parent and
//! named **deterministically** from the invocation. That single choice does
//! most of the work: a replayed spawn *reattaches* to the same child instead of
//! spawning a twin; a child whose process died mid-run is recovered like any
//! session, then *continued* rather than restarted.
//!
//! Budgets are durable too: the child count is a count of rows, not an
//! in-process counter, so a crash-restart loop cannot reset it.
use vstd::prelude::*;
use vstd::string::*;
use vstd::utf8::encode_utf8;

use super::prepare_session;
use super::job::JobTool;
use super::worktree::{
    branch_for, branch_of, dir_beside, worktree_path_for_store, Location, LocationView,
};
use crate::agent::{Agent, AgentConfig, AgentConfigView, AgentView, PhaseView};
use crate::ids::{derived_id, is_uuid, uuid_v5};
use crate::json::{Json, JsonView};
use crate::llm::{Message, MessageView, Role, ToolSpec, ToolSpecView, Usage};
use crate::path::{components, same_path};
use crate::sandbox::{default_roots, CapabilitiesView, Sandbox};
use crate::store::{session_in, Session, SessionView, Store, StoreError, StoreErrorView, StoreView};
use crate::store::sessions::{children, fresh_session};
use crate::store::worker::{short, short_id, SessionWorker, WorkerError, WorkerErrorView};
use crate::text::{dec, decimal, lemma_step, opt_view, same, views};
use crate::tools::{
    required, required_str, tool_outcome, Registry, Tool, ToolError, ToolErrorView, ToolInfoView,
};
use crate::tools::catalog::{self, agent_offer, inspect_tools, standard_tools};

verus! {

/// How a pen spawns children.
#[derive(Debug)]
pub struct PenConfig {
    pub store_path: String,
    pub workspace: String,
    /// Recorded on child session rows (matches the parent's provider).
    pub provider_name: String,
    pub model: String,
    /// Base system prompt; the pen appends the relief-agent role text.
    pub system: String,
    pub max_children: u64,
    pub child_timeout_secs: u64,
    pub child_max_turns: u32,
    /// Write-confinement applied to work children (inspect children are
    /// read-only regardless).
    pub sandbox: Option<Sandbox>,
}

impl PenConfig {
    /// A pen with the usual budgets and no sandbox.
    pub fn new(
        store_path: &str,
        workspace: &str,
        provider_name: &str,
        model: &str,
        system: &str,
    ) -> (r: Self)
        ensures
            r.store_path@ == store_path@,
            r.workspace@ == workspace@,
            r.provider_name@ == provider_name@,
            r.model@ == model@,
            r.system@ == system@,
            r.max_children == 20,
            r.child_timeout_secs == 900,
            r.child_max_turns == 200,
            r.sandbox is None,
    {
        PenConfig {
            store_path: store_path.to_owned(),
            workspace: workspace.to_owned(),
            provider_name: provider_name.to_owned(),
            model: model.to_owned(),
            system: system.to_owned(),
            max_children: 20,
            child_timeout_secs: 900,
            child_max_turns: 200,
            sandbox: None,
        }
    }

    /// This pen with its work children confined.
    pub fn with_sandbox(self, sandbox: Sandbox) -> (r: Self)
        ensures
            r == (PenConfig { sandbox: Some(sandbox), ..self }),
    {
        let mut p = self;
        p.sandbox = Some(sandbox);
        p
    }
}

// ── Identity ────────────────────────────────────────────────────────────────

/// A child's id.
pub open spec fn child_id_of(parent_session: Seq<char>, tool_call_id: Seq<char>) -> Seq<char> {
    uuid_v5(encode_utf8("bullpen:"@ + parent_session + ":"@ + tool_call_id))
}

/// Deterministic child identity: same parent and same tool call give the same
/// child.
pub fn child_session_id(parent_session: &str, tool_call_id: &str) -> (r: String)
    ensures
        r@ == child_id_of(parent_session@, tool_call_id@),
        is_uuid(r@),
{
    let name = "bullpen:".to_owned().concat(parent_session).concat(":").concat(tool_call_id);
    derived_id(name.as_str())
}

// ── Requests ────────────────────────────────────────────────────────────────

/// A child's capability set.
#[derive(Debug, Clone, Copy, PartialEq, Eq, Structural)]
pub enum Mode {
    /// Read-only tools: no shell, no writes, and never a nested pen.
    Inspect,
    /// Full workspace tools — still no nested pen.
    Work,
}

impl Mode {
    /// The mode's name.
    pub open spec fn name(self) -> Seq<char> {
        match self {
            Mode::Inspect => "inspect"@,
            Mode::Work => "work"@,
        }
    }

    /// The mode's name.
    pub fn label(self) -> (r: &'static str)
        ensures
            r@ == self.name(),
    {
        match self {
            Mode::Inspect => "inspect",
            Mode::Work => "work",
        }
    }
}

/// What a mode that there is not is told.
pub open spec fn unknown_mode(mode: Seq<char>) -> ToolErrorView {
    ToolErrorView::InvalidInput(
        "unknown mode `"@ + mode + "` (expected \"inspect\" or \"work\")"@,
    )
}

/// The mode of a name.
pub open spec fn mode_named(mode: Seq<char>) -> Option<Mode> {
    if mode == "inspect"@ {
        Some(Mode::Inspect)
    } else if mode == "work"@ {
        Some(Mode::Work)
    } else {
        None
    }
}

/// The tools of a mode.
pub fn registry_for_mode(mode: &str) -> (r: Result<Registry, ToolError>)
    ensures
        match r {
            Ok(reg) => reg.wf() && match mode_named(mode@) {
                Some(Mode::Inspect) => reg@ == inspect_tools(),
                Some(Mode::Work) => reg@ == standard_tools(),
                None => false,
            },
            Err(e) => mode_named(mode@) is None && e@ == unknown_mode(mode@),
        },
{
    if same(mode, "inspect") {
        Ok(Registry::inspect())
    } else if same(mode, "work") {
        Ok(Registry::standard())
    } else {
        Err(
            ToolError::InvalidInput(
                "unknown mode `".to_owned().concat(mode).concat(
                    "` (expected \"inspect\" or \"work\")",
                ),
            ),
        )
    }
}

/// The mode a call names; `inspect` where it does not say.
pub open spec fn mode_said(input: JsonView) -> Seq<char> {
    match input.str_field("mode"@) {
        Some(m) => m,
        None => "inspect"@,
    }
}

/// Whether a flag is set.
pub open spec fn flag(input: JsonView, key: Seq<char>) -> bool {
    input.bool_field(key) == Some(true)
}

fn flag_set(input: &Json, key: &str) -> (r: bool)
    ensures
        r == flag(input@, key@),
{
    match input.bool_field(key) {
        Some(b) => b,
        None => false,
    }
}

/// Whether a call can run beside others. Inspect children are read-only and
/// each writes only to its own session; isolated work children each change only
/// their own worktree; background dispatches only spawn and return. A work
/// child in the shared checkout stays serial.
pub open spec fn runs_beside(input: JsonView) -> bool {
    mode_said(input) == "inspect"@ || flag(input, "worktree"@) || flag(input, "background"@)
}

fn can_run_beside(input: &Json) -> (r: bool)
    ensures
        r == runs_beside(input@),
{
    let inspects = match input.str_field("mode") {
        Some(m) => same(m, "inspect"),
        None => true,
    };
    inspects || flag_set(input, "worktree") || flag_set(input, "background")
}

/// The tool that spawns children.
#[derive(Debug)]
pub struct PenTool {
    pub parent_session: String,
    pub config: PenConfig,
}

impl PenTool {
    /// The pen of a session.
    pub fn new(parent_session: &str, config: PenConfig) -> (r: Self)
        ensures
            r.parent_session@ == parent_session@,
            r.config == config,
    {
        PenTool { parent_session: parent_session.to_owned(), config }
    }

    /// The `job` tool over this pen's children.
    pub fn job_tool(&self) -> (r: JobTool)
        ensures
            r.store_path@ == self.config.store_path@,
            r.session_id@ == self.parent_session@,
    {
        JobTool::new(self.config.store_path.as_str(), self.parent_session.as_str())
    }
}

impl Tool for PenTool {
    open spec fn offer(&self) -> ToolSpecView {
        agent_offer()
    }

    open spec fn overlaps(&self, input: JsonView) -> bool {
        runs_beside(input)
    }

    open spec fn replays(&self) -> bool {
        false
    }

    fn name(&self) -> (r: &'static str) {
        "agent"
    }

    fn spec(&self) -> (r: ToolSpec) {
        catalog::agent()
    }

    fn parallel_safe(&self, input: &Json) -> (r: bool) {
        can_run_beside(input)
    }

    fn replay_safe(&self) -> (r: bool) {
        false
    }
}

/// A spawn, as a value.
pub struct SpawnView {
    pub prompt: Seq<char>,
    pub mode: Mode,
    pub worktree: bool,
    pub background: bool,
}

/// A spawn: the task, the capability set, and how the child runs.
#[derive(Debug)]
pub struct Spawn {
    pub prompt: String,
    pub mode: Mode,
    pub worktree: bool,
    pub background: bool,
}

impl View for Spawn {
    type V = SpawnView;

    open spec fn view(&self) -> SpawnView {
        SpawnView {
            prompt: self.prompt@,
            mode: self.mode,
            worktree: self.worktree,
            background: self.background,
        }
    }
}

/// The spawn a call asks for.
pub open spec fn spawn_of(input: JsonView) -> Result<SpawnView, ToolErrorView> {
    match required(input, "prompt"@) {
        Err(e) => Err(e),
        Ok(prompt) => if flag(input, "worktree"@) && mode_said(input) != "work"@ {
            Err(
                ToolErrorView::InvalidInput(
                    "worktree isolation is for `work` children; inspect children read the shared \
                        checkout"@,
                ),
            )
        } else {
            match mode_named(mode_said(input)) {
                None => Err(unknown_mode(mode_said(input))),
                Some(mode) => Ok(
                    SpawnView {
                        prompt,
                        mode,
                        worktree: flag(input, "worktree"@),
                        background: flag(input, "background"@),
                    },
                ),
            }
        },
    }
}

/// The spawn a call asks for.
pub fn spawn_request(input: &Json) -> (r: Result<Spawn, ToolError>)
    ensures
        tool_outcome(r) == spawn_of(input@),
{
    let prompt = match required_str(input, "prompt") {
        Err(e) => {
            return Err(e);
        },
        Ok(prompt) => prompt,
    };
    let said = match input.str_field("mode") {
        Some(m) => m,
        None => "inspect",
    };
    let worktree = flag_set(input, "worktree");
    let background = flag_set(input, "background");
    if worktree && !same(said, "work") {
        return Err(
            ToolError::InvalidInput(
                "worktree isolation is for `work` children; inspect children read the shared \
                    checkout".to_owned(),
            ),
        );
    }
    let mode = if same(said, "inspect") {
        Mode::Inspect
    } else if same(said, "work") {
        Mode::Work
    } else {
        return Err(
            ToolError::InvalidInput(
                "unknown mode `".to_owned().concat(said).concat(
                    "` (expected \"inspect\" or \"work\")",
                ),
            ),
        );
    };
    Ok(Spawn { prompt: prompt.to_owned(), mode, worktree, background })
}

// ── Spawning ────────────────────────────────────────────────────────────────

/// What a failed store operation is told as.
pub open spec fn store_failure(e: StoreErrorView) -> ToolErrorView {
    ToolErrorView::Failed("store: "@ + e.words())
}

/// What a failed store operation is told as.
pub fn store_failed(e: StoreError) -> (r: ToolError)
    ensures
        r@ == store_failure(e@),
{
    let words = e.to_string();
    ToolError::Failed("store: ".to_owned().concat(words.as_str()))
}

/// The final report on a path: its last assistant message.
pub open spec fn report(messages: Seq<MessageView>) -> Seq<char>
    decreases messages.len(),
{
    if messages.len() == 0 {
        Seq::empty()
    } else if messages.last().role == Role::Assistant {
        messages.last().text()
    } else {
        report(messages.drop_last())
    }
}

/// The final report on a path: its last assistant message.
pub fn answer_of(messages: &Vec<Message>) -> (r: String)
    ensures
        r@ == report(views(messages@)),
{
    let ghost all = views(messages@);
    let mut n: usize = messages.len();
    proof {
        assert(all.take(n as int) =~= all);
    }
    while n > 0
        invariant
            all == views(messages@),
            n <= messages@.len(),
            report(all) == report(all.take(n as int)),
        decreases n,
    {
        n -= 1;
        proof {
            lemma_step(all, n as int);
            assert(all[n as int] == messages@[n as int]@);
        }
        if messages[n].role == Role::Assistant {
            return messages[n].text();
        }
    }
    let empty = String::new();
    proof {
        assert(empty@ =~= Seq::<char>::empty());
    }
    empty
}

/// What a spawn comes to, as a value.
pub enum SpawnedView {
    /// The call is answered without a run.
    Report(Seq<char>),
    /// The child is to run.
    Run(SessionView),
}

/// What a spawn comes to.
#[derive(Debug)]
pub enum Spawned {
    /// The call is answered without a run.
    Report(String),
    /// The child is to run.
    Run(Session),
}

impl View for Spawned {
    type V = SpawnedView;

    open spec fn view(&self) -> SpawnedView {
        match self {
            Spawned::Report(s) => SpawnedView::Report(s@),
            Spawned::Run(s) => SpawnedView::Run(s@),
        }
    }
}

/// What a spawn past the budget is told.
pub open spec fn budget_spent(used: nat, max: nat) -> ToolErrorView {
    ToolErrorView::Failed(
        "child budget exhausted ("@ + dec(used) + " of "@ + dec(max) + " used for this session)"@,
    )
}

/// What a spawn that finds its child finished says.
pub open spec fn reattached(answer: Seq<char>, child_id: Seq<char>) -> Seq<char> {
    answer + "\n\n[child "@ + short(child_id) + " · reattached to completed run]"@
}

/// What a spawn of a child that is in flight says.
pub open spec fn in_flight_report(child_id: Seq<char>) -> Seq<char> {
    "child "@ + short(child_id)
        + " is already running in the background; use the job tool to wait on or cancel it"@
}

impl StoreView {
    /// The state and result of spawning a child. The budget applies to new
    /// children only; a child that finished is reported, not run again.
    pub open spec fn spawn_child(
        self,
        child: SessionView,
        parent: Seq<char>,
        max_children: nat,
        in_flight: bool,
    ) -> (StoreView, Result<SpawnedView, ToolErrorView>) {
        if in_flight {
            (self, Ok(SpawnedView::Report(in_flight_report(child.id))))
        } else {
            match session_in(self.sessions, child.id) {
                None => if children(self.sessions, parent).len() >= max_children {
                    (self, Err(budget_spent(children(self.sessions, parent).len(), max_children)))
                } else {
                    (self.create_child(child).0, Ok(SpawnedView::Run(child)))
                },
                Some(i) => if self.last_run_outcome(child.id) == Some("completed"@) {
                    match self.path_messages(child.id) {
                        Err(e) => (self, Err(store_failure(e))),
                        Ok(messages) => (
                            self,
                            Ok(SpawnedView::Report(reattached(report(messages), child.id))),
                        ),
                    }
                } else {
                    (self, Ok(SpawnedView::Run(self.sessions[i].session)))
                },
            }
        }
    }
}

/// Spawn a child, or report what there is of it. `in_flight` says whether this
/// process already runs it.
pub fn spawn_child(
    store: &mut Store,
    config: &PenConfig,
    parent: &str,
    call_id: &str,
    in_flight: bool,
    now: &str,
) -> (r: Result<Spawned, ToolError>)
    ensures
        (final(store)@, tool_outcome(r)) == old(store)@.spawn_child(
            fresh_session(
                child_id_of(parent@, call_id@),
                Some(parent@),
                config.workspace@,
                config.provider_name@,
                config.model@,
                now@,
            ),
            parent@,
            config.max_children as nat,
            in_flight,
        ),
{
    let child_id = child_session_id(parent, call_id);
    let shown = short_id(child_id.as_str());
    if in_flight {
        return Ok(
            Spawned::Report(
                "child ".to_owned().concat(shown.as_str()).concat(
                    " is already running in the background; use the job tool to wait on or \
                        cancel it",
                ),
            ),
        );
    }
    let exists = store.session_index(child_id.as_str()).is_some();
    if !exists {
        let used: u64 = store.count_children(parent);
        if used >= config.max_children {
            let a = decimal(used);
            let b = decimal(config.max_children);
            return Err(
                ToolError::Failed(
                    "child budget exhausted (".to_owned().concat(a.as_str()).concat(" of ").concat(
                        b.as_str(),
                    ).concat(" used for this session)"),
                ),
            );
        }
    }
    let child = match store.create_child_session(
        child_id.as_str(),
        parent,
        config.workspace.as_str(),
        config.provider_name.as_str(),
        config.model.as_str(),
        now,
    ) {
        Err(e) => {
            return Err(store_failed(e));
        },
        Ok(child) => child,
    };
    if exists {
        let done = match store.last_run_outcome(child_id.as_str()) {
            Some(how) => same(how.as_str(), "completed"),
            None => false,
        };
        if done {
            return match store.path_messages(child_id.as_str()) {
                Err(e) => Err(store_failed(e)),
                Ok(messages) => {
                    let answer = answer_of(&messages);
                    Ok(
                        Spawned::Report(
                            answer.concat("\n\n[child ").concat(shown.as_str()).concat(
                                " · reattached to completed run]",
                            ),
                        ),
                    )
                },
            };
        }
    }
    Ok(Spawned::Run(child))
}

// ── Placing ─────────────────────────────────────────────────────────────────

/// Whether a child is to get a worktree that it does not have yet.
pub fn needs_worktree(child: &Session, asked: bool) -> (r: bool)
    ensures
        r == (asked && child@.worktree_path is None),
{
    asked && child.worktree_path.is_none()
}

/// Record a child's new worktree and say where it goes. It is recorded before
/// it is created: a failed creation leaves a row naming a missing directory,
/// which resume refuses, never a row naming none.
pub fn record_worktree(store: &mut Store, store_path: &str, child_id: &str) -> (r: (String, String))
    ensures
        r.0@ == dir_beside(store_path@, child_id@),
        r.1@ == branch_of(child_id@),
        final(store)@ == old(store)@.set_worktree(child_id@, r.0@, r.1@),
{
    let path = worktree_path_for_store(store_path, child_id);
    let branch = branch_for(child_id);
    store.set_worktree(child_id, path.as_str(), branch.as_str());
    (path, branch)
}

/// Where a child runs, as a value.
pub enum PlaceView {
    At(Seq<char>),
    Restore { path: Seq<char>, branch: Seq<char> },
}

/// Where a child runs.
#[derive(Debug)]
pub enum Place {
    At(String),
    /// The worktree has to be restored first.
    Restore { path: String, branch: String },
}

impl View for Place {
    type V = PlaceView;

    open spec fn view(&self) -> PlaceView {
        match self {
            Place::At(path) => PlaceView::At(path@),
            Place::Restore { path, branch } => PlaceView::Restore { path: path@, branch: branch@ },
        }
    }
}

/// Where a child runs, by where its worktree was found.
pub open spec fn place_of(location: LocationView, workspace: Seq<char>) -> Result<
    PlaceView,
    ToolErrorView,
> {
    match location {
        LocationView::Shared => Ok(PlaceView::At(workspace)),
        LocationView::Use(path) => Ok(PlaceView::At(path)),
        LocationView::Recreate { path, branch } => Ok(PlaceView::Restore { path, branch }),
        LocationView::Fail { path, branch } => Err(
            ToolErrorView::Failed(
                "child worktree "@ + path + " and branch "@ + branch
                    + " are both gone; restore them or use a new task"@,
            ),
        ),
        LocationView::Occupied { path, branch } => Err(
            ToolErrorView::Failed(
                "something that is not the child's worktree occupies "@ + path
                    + "; move it aside or use a new task"@,
            ),
        ),
    }
}

/// Where a child runs, by where its worktree was found.
pub fn place_child(location: Location, workspace: &str) -> (r: Result<Place, ToolError>)
    ensures
        tool_outcome(r) == place_of(location@, workspace@),
{
    match location {
        Location::Shared => Ok(Place::At(workspace.to_owned())),
        Location::Use(path) => Ok(Place::At(path)),
        Location::Recreate { path, branch } => Ok(Place::Restore { path, branch }),
        Location::Fail { path, branch } => Err(
            ToolError::Failed(
                "child worktree ".to_owned().concat(path.as_str()).concat(" and branch ").concat(
                    branch.as_str(),
                ).concat(" are both gone; restore them or use a new task"),
            ),
        ),
        Location::Occupied { path, branch } => Err(
            ToolError::Failed(
                "something that is not the child's worktree occupies ".to_owned().concat(
                    path.as_str(),
                ).concat("; move it aside or use a new task"),
            ),
        ),
    }
}

// ── Running ─────────────────────────────────────────────────────────────────

/// What a background dispatch says.
pub fn dispatched(child_id: &str, mode: Mode, isolated: bool) -> (r: String)
    ensures
        r@ == "dispatched child "@ + short(child_id@) + " in the background (mode "@ + mode.name()
            + (if isolated {
            " · isolated worktree"@
        } else {
            ""@
        }) + "); use the job tool to list, wait on, or cancel it"@,
{
    let shown = short_id(child_id);
    let mark = if isolated {
        " · isolated worktree"
    } else {
        ""
    };
    "dispatched child ".to_owned().concat(shown.as_str()).concat(
        " in the background (mode ",
    ).concat(mode.label()).concat(mark).concat(
        "); use the job tool to list, wait on, or cancel it",
    )
}

/// The task a child gets: its prompt, or to go on with what was interrupted.
pub open spec fn task_for(transcript: Seq<MessageView>, prompt: Seq<char>) -> Seq<char> {
    if transcript.len() == 0 {
        prompt
    } else {
        "The previous attempt above was interrupted. Continue and complete the original task, \
            then give your final report."@
    }
}

/// The task a child gets.
pub fn child_task(transcript: &Vec<Message>, prompt: &str) -> (r: String)
    ensures
        r@ == task_for(views(transcript@), prompt@),
{
    if transcript.len() == 0 {
        prompt.to_owned()
    } else {
        "The previous attempt above was interrupted. Continue and complete the original task, \
            then give your final report.".to_owned()
    }
}

/// The system prompt a child gets.
pub open spec fn system_for(base: Seq<char>, mode: Mode) -> Seq<char> {
    base
        + "\n\nYou are a bullpen relief agent handling one delegated task. Work it to completion \
            and end with a final report — your last message goes back to the coordinating agent, \
            which cannot see your intermediate steps."@
        + (match mode {
        Mode::Inspect => " You have read-only tools."@,
        Mode::Work => ""@,
    })
}

/// The system prompt a child gets.
pub fn child_system(base: &str, mode: Mode) -> (r: String)
    ensures
        r@ == system_for(base@, mode),
{
    let more = match mode {
        Mode::Inspect => " You have read-only tools.",
        Mode::Work => "",
    };
    base.to_owned().concat(
        "\n\nYou are a bullpen relief agent handling one delegated task. Work it to completion \
            and end with a final report — your last message goes back to the coordinating agent, \
            which cannot see your intermediate steps.",
    ).concat(more)
}

/// A child's confinement: a child in the shared checkout has its parent's; an
/// isolated one has the same network policy on its own worktree, widened to
/// the git directories that it commits through.
pub open spec fn confinement(
    parent: CapabilitiesView,
    cwd: Seq<char>,
    workspace: Seq<char>,
    tmpdir: Option<Seq<char>>,
    git_roots: Seq<Seq<char>>,
) -> CapabilitiesView {
    if components(cwd) == components(workspace) {
        parent
    } else {
        CapabilitiesView {
            write_roots: default_roots(cwd, tmpdir) + git_roots,
            allow_network: parent.allow_network,
        }
    }
}

/// A child's confinement.
pub fn child_sandbox(
    parent: Sandbox,
    cwd: &str,
    workspace: &str,
    tmpdir: Option<String>,
    git_roots: Vec<String>,
) -> (r: Sandbox)
    ensures
        r@ == confinement(parent@, cwd@, workspace@, opt_view(tmpdir), views(git_roots@)),
{
    if same_path(cwd, workspace) {
        return parent;
    }
    let base = if parent.capabilities().allow_network {
        Sandbox::workspace(cwd, tmpdir)
    } else {
        Sandbox::strict(cwd, tmpdir)
    };
    base.allowing_writes(git_roots)
}

/// How a child's run ended, as a value.
pub enum RanView {
    Answered(Seq<char>),
    Failed(Seq<char>),
    TimedOut,
    Cancelled,
}

/// How a child's run ended.
#[derive(Debug)]
pub enum Ran {
    Answered(String),
    /// The agent's error in words.
    Failed(String),
    TimedOut,
    Cancelled,
}

impl View for Ran {
    type V = RanView;

    open spec fn view(&self) -> RanView {
        match self {
            Ran::Answered(s) => RanView::Answered(s@),
            Ran::Failed(s) => RanView::Failed(s@),
            Ran::TimedOut => RanView::TimedOut,
            Ran::Cancelled => RanView::Cancelled,
        }
    }
}

/// What a child's run says.
pub open spec fn child_report(
    child_id: Seq<char>,
    mode: Mode,
    ran: RanView,
    usage: Usage,
    recovered: bool,
    timeout_secs: nat,
) -> Result<Seq<char>, ToolErrorView> {
    let id = short(child_id);
    match ran {
        RanView::Answered(answer) => Ok(
            answer + "\n\n[child "@ + id + " · mode "@ + mode.name() + " · "@ + dec(
                usage.input_tokens as nat,
            ) + " in / "@ + dec(usage.output_tokens as nat) + " out tokens"@ + (if recovered {
                " · recovered"@
            } else {
                ""@
            }) + "]"@,
        ),
        RanView::Failed(e) => Err(
            ToolErrorView::Failed(
                "child "@ + id + " failed: "@ + e + " (session is saved and resumable)"@,
            ),
        ),
        RanView::TimedOut => Err(
            ToolErrorView::Failed(
                "child "@ + id + " timed out after "@ + dec(timeout_secs)
                    + "s; its session is saved and recoverable — calling agent again with the \
                        same task will continue it"@,
            ),
        ),
        RanView::Cancelled => Err(
            ToolErrorView::Failed(
                "child "@ + id + " was cancelled; its session is saved and resumable"@,
            ),
        ),
    }
}

/// What a child's run says.
pub fn child_outcome(
    child_id: &str,
    mode: Mode,
    ran: Ran,
    usage: Usage,
    recovered: bool,
    timeout_secs: u64,
) -> (r: Result<String, ToolError>)
    ensures
        tool_outcome(r) == child_report(
            child_id@,
            mode,
            ran@,
            usage,
            recovered,
            timeout_secs as nat,
        ),
{
    let id = short_id(child_id);
    match ran {
        Ran::Answered(answer) => {
            let a = decimal(usage.input_tokens);
            let b = decimal(usage.output_tokens);
            let mark = if recovered {
                " · recovered"
            } else {
                ""
            };
            Ok(
                answer.concat("\n\n[child ").concat(id.as_str()).concat(" · mode ").concat(
                    mode.label(),
                ).concat(" · ").concat(a.as_str()).concat(" in / ").concat(b.as_str()).concat(
                    " out tokens",
                ).concat(mark).concat("]"),
            )
        },
        Ran::Failed(e) => Err(
            ToolError::Failed(
                "child ".to_owned().concat(id.as_str()).concat(" failed: ").concat(
                    e.as_str(),
                ).concat(" (session is saved and resumable)"),
            ),
        ),
        Ran::TimedOut => {
            let secs = decimal(timeout_secs);
            Err(
                ToolError::Failed(
                    "child ".to_owned().concat(id.as_str()).concat(" timed out after ").concat(
                        secs.as_str(),
                    ).concat(
                        "s; its session is saved and recoverable — calling agent again with the \
                            same task will continue it",
                    ),
                ),
            )
        },
        Ran::Cancelled => Err(
            ToolError::Failed(
                "child ".to_owned().concat(id.as_str()).concat(
                    " was cancelled; its session is saved and resumable",
                ),
            ),
        ),
    }
}

/// The status a child's run leaves behind.
pub open spec fn status_left(answered: bool) -> Seq<char> {
    if answered {
        "completed"@
    } else {
        "failed"@
    }
}

/// The status a child's run leaves behind.
pub fn child_status(outcome: &Result<String, ToolError>) -> (r: &'static str)
    ensures
        r@ == status_left(outcome is Ok),
{
    match outcome {
        Ok(_) => "completed",
        Err(_) => "failed",
    }
}

/// A child that is ready to run: its loop, its task, and whether a run that a
/// previous process left open was closed first.
#[derive(Debug)]
pub struct ChildRun {
    pub agent: Agent,
    pub task: String,
    pub recovered: bool,
}

/// The tools of a mode.
pub open spec fn tools_for(mode: Mode) -> Seq<ToolInfoView> {
    match mode {
        Mode::Inspect => inspect_tools(),
        Mode::Work => standard_tools(),
    }
}

/// Begin the run of a child whose worker is registered: recover what a previous
/// process left open, then set up the loop on the rebuilt transcript.
pub fn begin_child(store: &mut Store, config: &PenConfig, child: &Session, spawn: &Spawn) -> (r:
    Result<ChildRun, ToolError>)
    ensures
        final(store)@ == old(store)@.recover(child@.id).0,
        match (old(store)@.recover(child@.id).1, final(store)@.path_messages(child@.id)) {
            (Err(e), _) => r matches Err(x) && x@ == store_failure(e),
            (Ok(_), Err(e)) => r matches Err(x) && x@ == store_failure(e),
            (Ok(recovery), Ok(messages)) => r matches Ok(run) && run.agent@ == (AgentView {
                tools: tools_for(spawn@.mode),
                config: AgentConfigView {
                    model: config.model@,
                    system: system_for(config.system@, spawn@.mode),
                    max_tokens: 8_192,
                    max_turns: config.child_max_turns,
                    max_parallel_tools: 8,
                },
                messages,
                usage: child@.usage,
                phase: PhaseView::Idle,
            }) && run.task@ == task_for(messages, spawn@.prompt) && run.recovered == (recovery
                is Some),
        },
{
    let (transcript, recovery) = match prepare_session(store, child.id.as_str()) {
        Err(e) => {
            return Err(store_failed(e));
        },
        Ok(v) => v,
    };
    let task = child_task(&transcript, spawn.prompt.as_str());
    let registry = match spawn.mode {
        Mode::Inspect => Registry::inspect(),
        Mode::Work => Registry::standard(),
    };
    let mut settings = AgentConfig::default();
    settings.model = config.model.clone();
    settings.system = child_system(config.system.as_str(), spawn.mode);
    settings.max_turns = config.child_max_turns;
    let agent = Agent::new(registry, settings).with_transcript(transcript, child.usage);
    let recovered = recovery.is_some();
    Ok(ChildRun { agent, task, recovered })
}

/// What is said where a child's registration fails.
pub open spec fn worker_failure(child_id: Seq<char>, e: WorkerErrorView) -> ToolErrorView {
    ToolErrorView::Failed("child "@ + short(child_id) + ": "@ + e.words())
}

/// What is said where a child's registration fails.
pub fn worker_failed(child_id: &str, e: WorkerError) -> (r: ToolError)
    ensures
        r@ == worker_failure(child_id@, e@),
{
    let id = short_id(child_id);
    ToolError::Failed(
        "child ".to_owned().concat(id.as_str()).concat(": ").concat(e.to_string().as_str()),
    )
}

/// End the run of a child: record how it ended, then report it. What is
/// reported is what is recorded; a worker that was superseded reports nothing
/// else.
pub fn end_child(
    store: &mut Store,
    worker: &mut SessionWorker,
    mode: Mode,
    ran: Ran,
    usage: Usage,
    recovered: bool,
    timeout_secs: u64,
    now: &str,
) -> (r: Result<String, ToolError>)
    ensures
        final(worker)@.session_id == old(worker)@.session_id,
        match old(worker)@.generation {
            None => r matches Err(e) && e@ == worker_failure(
                old(worker)@.session_id,
                WorkerErrorView::NotStarted,
            ) && final(store)@ == old(store)@ && final(worker)@ == old(worker)@,
            Some(g) => {
                let id = old(worker)@.session_id;
                let said = child_report(id, mode, ran@, usage, recovered, timeout_secs as nat);
                &&& final(store)@ == old(store)@.finish_worker(
                    id,
                    g,
                    status_left(said is Ok),
                    now@,
                )
                &&& if old(store)@.is_current(id, g) {
                    tool_outcome(r) == said && final(worker)@.generation is None
                } else {
                    r matches Err(e) && e@ == worker_failure(
                        id,
                        WorkerErrorView::StaleGeneration,
                    ) && final(worker)@ == old(worker)@
                }
            },
        },
{
    let child_id = worker.session_id().to_owned();
    let outcome = child_outcome(child_id.as_str(), mode, ran, usage, recovered, timeout_secs);
    let status = child_status(&outcome);
    match worker.finish(store, status, now) {
        Err(e) => Err(worker_failed(child_id.as_str(), e)),
        Ok(()) => outcome,
    }
}

// ── Laws ────────────────────────────────────────────────────────────────────

/// A replayed spawn reattaches: the second spawn of a child never makes a twin
/// and never meets the budget; unless it answers, it runs the very session that
/// is there.
pub proof fn law_replayed_spawn_reattaches(
    s: StoreView,
    child: SessionView,
    again: SessionView,
    parent: Seq<char>,
    max_children: nat,
    in_flight: bool,
)
    requires
        s.spawn_child(child, parent, max_children, false).1 is Ok,
        again.id == child.id,
    ensures
        ({
            let once = s.spawn_child(child, parent, max_children, false).0;
            let (twice, r) = once.spawn_child(again, parent, max_children, in_flight);
            &&& twice == once
            &&& match r {
                Ok(SpawnedView::Run(session)) => session.id == child.id && session_in(
                    once.sessions,
                    child.id,
                ) is Some && session == once.sessions[session_in(
                    once.sessions,
                    child.id,
                )->Some_0].session,
                Ok(SpawnedView::Report(_)) => true,
                Err(e) => once.path_messages(child.id) is Err,
            }
        }),
{
    let once = s.spawn_child(child, parent, max_children, false).0;
    crate::store::lemma_session_in(s.sessions, child.id);
    crate::store::lemma_session_in(once.sessions, child.id);
    if session_in(s.sessions, child.id) is None {
        assert(once.sessions.last().session == child);
        assert(once.sessions[once.sessions.len() - 1].session.id == child.id);
    }
}

/// A child that completed is reported from its record: no run is made, and
/// nothing changes.
pub proof fn law_completed_child_is_not_run_again(
    s: StoreView,
    child: SessionView,
    parent: Seq<char>,
    max_children: nat,
    in_flight: bool,
)
    requires
        session_in(s.sessions, child.id) is Some,
        s.last_run_outcome(child.id) == Some("completed"@),
    ensures
        !(s.spawn_child(child, parent, max_children, in_flight).1 matches Ok(SpawnedView::Run(_))),
        s.spawn_child(child, parent, max_children, in_flight).0 == s,
{
}

/// A call that is made again after its child completed reattaches: it is
/// answered by what the child said last, without a run, however much of the
/// budget is used; and no child is added.
pub proof fn law_repeated_call_is_answered_from_the_record(
    s: StoreView,
    child: SessionView,
    parent: Seq<char>,
    call_id: Seq<char>,
    max_children: nat,
)
    requires
        child.id == child_id_of(parent, call_id),
        session_in(s.sessions, child.id) is Some,
        s.last_run_outcome(child.id) == Some("completed"@),
        s.path_messages(child.id) is Ok,
    ensures
        ({
            let (n, r) = s.spawn_child(child, parent, max_children, false);
            &&& r == Ok::<SpawnedView, ToolErrorView>(
                SpawnedView::Report(
                    reattached(
                        report(s.path_messages(child.id)->Ok_0),
                        child_id_of(parent, call_id),
                    ),
                ),
            )
            &&& n == s
            &&& children(n.sessions, parent) == children(s.sessions, parent)
        }),
{
}

/// What a child is reported to have said is the text of the last message that
/// the assistant wrote.
pub proof fn law_report_is_the_last_answer(messages: Seq<MessageView>, i: int)
    requires
        0 <= i < messages.len(),
        messages[i].role == Role::Assistant,
        forall|j: int| i < j < messages.len() ==> (#[trigger] messages[j]).role != Role::Assistant,
    ensures
        report(messages) == messages[i].text(),
    decreases messages.len(),
{
    if i < messages.len() - 1 {
        let rest = messages.drop_last();
        assert(messages[messages.len() - 1].role != Role::Assistant);
        assert forall|j: int| i < j < rest.len() implies (#[trigger] rest[j]).role
            != Role::Assistant by {
            assert(rest[j] == messages[j]);
        }
        law_report_is_the_last_answer(rest, i);
    }
}

proof fn lemma_children_push(
    rows: Seq<crate::store::SessionRowView>,
    row: crate::store::SessionRowView,
    parent: Seq<char>,
)
    ensures
        children(rows.push(row), parent).len() == children(rows, parent).len() + (
        if row.session.parent_session_id == Some(parent) {
            1int
        } else {
            0int
        }),
{
    assert(rows.push(row).drop_last() =~= rows);
}

/// The budget is durable: however often and from whichever process children
/// are spawned, a session that stayed within its budget stays within it.
pub proof fn law_budget_is_durable(
    s: StoreView,
    child: SessionView,
    parent: Seq<char>,
    max_children: nat,
    in_flight: bool,
)
    requires
        children(s.sessions, parent).len() <= max_children,
    ensures
        children(
            s.spawn_child(child, parent, max_children, in_flight).0.sessions,
            parent,
        ).len() <= max_children,
{
    let n = s.spawn_child(child, parent, max_children, in_flight).0;
    if !in_flight && session_in(s.sessions, child.id) is None && children(
        s.sessions,
        parent,
    ).len() < max_children {
        lemma_children_push(
            s.sessions,
            crate::store::sessions::fresh_row(child),
            parent,
        );
    }
}

/// What a child reports is what the store says of it: a run that answered is
/// recorded as completed, any other as failed, and in both the worker is gone.
pub proof fn law_reported_outcome_is_recorded(
    s: StoreView,
    child_id: Seq<char>,
    generation: Seq<char>,
    mode: Mode,
    ran: RanView,
    usage: Usage,
    recovered: bool,
    timeout_secs: nat,
    now: Seq<char>,
)
    requires
        s.is_current(child_id, generation),
    ensures
        ({
            let said = child_report(child_id, mode, ran, usage, recovered, timeout_secs);
            let after = s.finish_worker(child_id, generation, status_left(said is Ok), now);
            let at = session_in(after.sessions, child_id);
            &&& at is Some
            &&& after.sessions[at->0].session.status == (if ran is Answered {
                "completed"@
            } else {
                "failed"@
            })
            &&& after.sessions[at->0].session.pid is None
            &&& after.sessions[at->0].worker_generation is None
        }),
{
    let said = child_report(child_id, mode, ran, usage, recovered, timeout_secs);
    let after = s.finish_worker(child_id, generation, status_left(said is Ok), now);
    crate::store::lemma_session_in(s.sessions, child_id);
    crate::store::lemma_same_ids(s.sessions, after.sessions, child_id);
}

} // verus!
