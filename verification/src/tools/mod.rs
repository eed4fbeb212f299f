//! Executable capabilities.
//!
//! Tools are composed into a [`Registry`] by the application, never by the
//! agent loop. The runtime, not the model, owns the parallel-safety decision.
//! Here is what the tools decide and say; what they run, read and write is
//! the caller's.
use vstd::prelude::*;
use vstd::string::*;

use crate::json::{Json, JsonView};
use crate::llm::{ToolSpec, ToolSpecView};
use crate::path::{join, joined};
use crate::sandbox::{opt_views, permitted, profile_text, CapabilitiesView, Sandbox};
use crate::text::{
    at_most, boundary_below, byte_len, char_width, chars_of, dec, decimal, floor_boundary,
    lemma_boundary_below, lemma_byte_len_monotone, lemma_encode_push, lemma_lex_antisymmetric,
    lemma_lex_total, lemma_lex_transitive, lemma_step, len_of, lex_le, opt_view, same, slice, views,
};

pub mod archive;
pub mod ask;
pub mod ast;
pub mod bash;
pub mod catalog;
pub mod fs;
pub mod fs_laws;
pub mod github;
pub mod laws;
pub mod offer_laws;
pub mod process;
pub mod read;
pub mod search;
pub mod sqlite;

verus! {

// ── Errors ──────────────────────────────────────────────────────────────────

/// Why a tool call failed.
#[derive(Debug)]
pub enum ToolError {
    InvalidInput(String),
    Failed(String),
    Timeout(u64),
}

/// What a tool's error says.
pub enum ToolErrorView {
    InvalidInput(Seq<char>),
    Failed(Seq<char>),
    Timeout(u64),
}

impl View for ToolError {
    type V = ToolErrorView;

    open spec fn view(&self) -> ToolErrorView {
        match self {
            ToolError::InvalidInput(m) => ToolErrorView::InvalidInput(m@),
            ToolError::Failed(m) => ToolErrorView::Failed(m@),
            ToolError::Timeout(n) => ToolErrorView::Timeout(*n),
        }
    }
}

impl ToolErrorView {
    /// The error in words.
    pub open spec fn words(self) -> Seq<char> {
        match self {
            ToolErrorView::InvalidInput(m) => "invalid input: "@ + m,
            ToolErrorView::Failed(m) => m,
            ToolErrorView::Timeout(n) => "timed out after "@ + dec(n as nat) + " seconds"@,
        }
    }
}

impl ToolError {
    /// The error in words.
    pub fn to_string(&self) -> (r: String)
        ensures
            r@ == self@.words(),
    {
        match self {
            ToolError::InvalidInput(m) => "invalid input: ".to_owned().concat(m.as_str()),
            ToolError::Failed(m) => m.clone(),
            ToolError::Timeout(n) => {
                let d = decimal(*n);
                "timed out after ".to_owned().concat(d.as_str()).concat(" seconds")
            },
        }
    }
}

/// The result of a tool call, as a value.
pub open spec fn tool_outcome<T: View>(r: Result<T, ToolError>) -> Result<T::V, ToolErrorView> {
    match r {
        Ok(v) => Ok(v@),
        Err(e) => Err(e@),
    }
}

/// What a call without a required text says.
pub open spec fn missing_field(key: Seq<char>) -> ToolErrorView {
    ToolErrorView::InvalidInput("missing required string field `"@ + key + "`"@)
}

/// A required text field of a call's input.
pub open spec fn required(input: JsonView, key: Seq<char>) -> Result<Seq<char>, ToolErrorView> {
    match input.str_field(key) {
        Some(s) => Ok(s),
        None => Err(missing_field(key)),
    }
}

/// A required text field of a call's input.
pub fn required_str<'a>(input: &'a Json, key: &str) -> (r: Result<&'a str, ToolError>)
    ensures
        match r {
            Ok(s) => required(input@, key@) == Ok::<Seq<char>, ToolErrorView>(s@),
            Err(e) => required(input@, key@) == Err::<Seq<char>, ToolErrorView>(e@),
        },
{
    match input.str_field(key) {
        Some(s) => Ok(s),
        None => Err(
            ToolError::InvalidInput(
                "missing required string field `".to_owned().concat(key).concat("`"),
            ),
        ),
    }
}

// ── Paths and the sandbox ───────────────────────────────────────────────────

/// A possibly-relative path under the workspace.
pub fn resolve_path(workspace: &str, raw: &str) -> (r: String)
    ensures
        r@ == joined(workspace@, raw@),
{
    join(workspace, raw)
}

/// What a refused write says.
pub open spec fn write_refused(path: Seq<char>) -> ToolErrorView {
    ToolErrorView::Failed("sandbox: writing outside the workspace is not permitted: "@ + path)
}

/// Where a session's tools work: the workspace, and the sandbox where there is
/// one.
#[derive(Debug)]
pub struct ToolCtx {
    pub workspace: String,
    pub sandbox: Option<Sandbox>,
}

/// Where a session's tools work, as a value.
pub struct ToolCtxView {
    pub workspace: Seq<char>,
    pub sandbox: Option<CapabilitiesView>,
}

impl View for ToolCtx {
    type V = ToolCtxView;

    open spec fn view(&self) -> ToolCtxView {
        ToolCtxView { workspace: self.workspace@, sandbox: opt_view(self.sandbox) }
    }
}

impl ToolCtxView {
    /// Whether there are as many resolved roots as the sandbox has.
    pub open spec fn fits(self, roots: int) -> bool {
        match self.sandbox {
            Some(caps) => roots == caps.write_roots.len(),
            None => true,
        }
    }
}

impl ToolCtx {
    /// A workspace without a sandbox.
    pub fn new(workspace: &str) -> (r: Self)
        ensures
            r@ == (ToolCtxView { workspace: workspace@, sandbox: None }),
    {
        ToolCtx { workspace: workspace.to_owned(), sandbox: None }
    }

    /// This workspace confined by a sandbox.
    pub fn with_sandbox(self, sandbox: Sandbox) -> (r: Self)
        ensures
            r@ == (ToolCtxView { workspace: self@.workspace, sandbox: Some(sandbox@) }),
    {
        ToolCtx { workspace: self.workspace, sandbox: Some(sandbox) }
    }

    /// Reject a write that the sandbox disallows; without one every write is
    /// allowed. `probes` and `roots` are as for [`Sandbox::allows_write`].
    pub fn check_write(
        &self,
        path: &str,
        probes: &Vec<Option<String>>,
        roots: &Vec<Option<String>>,
    ) -> (r: Result<(), ToolError>)
        requires
            self@.fits(roots@.len() as int),
        ensures
            match r {
                Ok(()) => self@.sandbox is None || permitted(
                    path@,
                    opt_views(probes@),
                    opt_views(roots@),
                ),
                Err(e) => self@.sandbox is Some && !permitted(
                    path@,
                    opt_views(probes@),
                    opt_views(roots@),
                ) && e@ == write_refused(path@),
            },
    {
        match &self.sandbox {
            None => Ok(()),
            Some(sandbox) => if sandbox.allows_write(path, probes, roots) {
                Ok(())
            } else {
                Err(
                    ToolError::Failed(
                        "sandbox: writing outside the workspace is not permitted: ".to_owned().concat(
                            path,
                        ),
                    ),
                )
            },
        }
    }

    /// What the sandbox says of the network, where there is one.
    pub fn network(&self) -> (r: Option<bool>)
        ensures
            r == match self@.sandbox {
                Some(caps) => Some(caps.allow_network),
                None => None,
            },
    {
        match &self.sandbox {
            Some(sandbox) => Some(sandbox.capabilities().allow_network),
            None => None,
        }
    }

    /// The program and arguments that run a shell command: confined where there
    /// is a sandbox that the operating system enforces.
    pub fn shell(&self, command: &str, os: &str, roots: &Vec<Option<String>>) -> (r: (
        String,
        Vec<String>,
    ))
        requires
            self@.fits(roots@.len() as int),
        ensures
            match self@.sandbox {
                Some(caps) => if os@ == "macos"@ {
                    r.0@ == "sandbox-exec"@ && views(r.1@) == seq![
                        "-p"@,
                        profile_text(caps, opt_views(roots@)),
                        "bash"@,
                        "-c"@,
                        command@,
                    ]
                } else {
                    r.0@ == "bash"@ && views(r.1@) == seq!["-c"@, command@]
                },
                None => r.0@ == "bash"@ && views(r.1@) == seq!["-c"@, command@],
            },
    {
        match &self.sandbox {
            Some(sandbox) => sandbox.wrap_bash(command, os, roots),
            None => bash::plain_bash(command),
        }
    }
}

// ── Tools ───────────────────────────────────────────────────────────────────

/// A tool the loop can call. What a call does is the business of the tool's own
/// module; this is what the loop has to know beforehand.
pub trait Tool {
    /// What the model is offered.
    spec fn offer(&self) -> ToolSpecView;

    /// Whether a call with this input can run beside other such calls.
    spec fn overlaps(&self, input: JsonView) -> bool;

    /// Whether a call can be repeated after a crash.
    spec fn replays(&self) -> bool;

    /// The tool's name.
    fn name(&self) -> (r: &'static str)
        ensures
            r@ == self.offer().name,
    ;

    /// What the model is offered.
    fn spec(&self) -> (r: ToolSpec)
        ensures
            r@ == self.offer(),
    ;

    /// Whether this concrete invocation is safe to run concurrently with other
    /// parallel-safe calls. The runtime owns this decision: arguments cannot
    /// declare themselves parallel-safe. Tools that change things, and shell
    /// execution, stay serial.
    fn parallel_safe(&self, input: &Json) -> (r: bool)
        ensures
            r == self.overlaps(input@),
    ;

    /// Whether re-executing this tool with the same input after a crash is safe.
    fn replay_safe(&self) -> (r: bool)
        ensures
            r == self.replays(),
    ;
}

// ── The registry ────────────────────────────────────────────────────────────

/// A tool as the loop knows it.
#[derive(Debug)]
pub struct ToolInfo {
    pub spec: ToolSpec,
    /// Whether re-executing the tool with the same input after a crash is
    /// safe (no side effects).
    pub replay_safe: bool,
}

/// What the loop knows of a tool.
pub struct ToolInfoView {
    pub spec: ToolSpecView,
    pub replay_safe: bool,
}

impl View for ToolInfo {
    type V = ToolInfoView;

    open spec fn view(&self) -> ToolInfoView {
        ToolInfoView { spec: self.spec@, replay_safe: self.replay_safe }
    }
}

impl ToolInfo {
    /// What the loop knows of a tool.
    pub fn of<T: Tool>(tool: &T) -> (r: Self)
        ensures
            r@ == (ToolInfoView { spec: tool.offer(), replay_safe: tool.replays() }),
    {
        ToolInfo { spec: tool.spec(), replay_safe: tool.replay_safe() }
    }
}

/// The tools on offer, sorted by name, no name twice.
#[derive(Debug)]
pub struct Registry {
    tools: Vec<ToolInfo>,
}

impl View for Registry {
    type V = Seq<ToolInfoView>;

    closed spec fn view(&self) -> Seq<ToolInfoView> {
        views(self.tools@)
    }
}

/// Whether tools are sorted by name, no name twice.
pub open spec fn sorted(tools: Seq<ToolInfoView>) -> bool {
    forall|i: int, j: int|
        0 <= i < j < tools.len() ==> lex_le(
            (#[trigger] tools[i]).spec.name,
            (#[trigger] tools[j]).spec.name,
        ) && tools[i].spec.name != tools[j].spec.name
}

/// Where the tool `name` stands.
pub open spec fn tool_at(tools: Seq<ToolInfoView>, name: Seq<char>) -> Option<int>
    decreases tools.len(),
{
    if tools.len() == 0 {
        None
    } else if tools.last().spec.name == name {
        Some(tools.len() - 1)
    } else {
        tool_at(tools.drop_last(), name)
    }
}

/// What `tool_at` says.
pub proof fn lemma_tool_at(tools: Seq<ToolInfoView>, name: Seq<char>)
    ensures
        match tool_at(tools, name) {
            Some(i) => 0 <= i < tools.len() && tools[i].spec.name == name,
            None => forall|i: int| 0 <= i < tools.len() ==> (#[trigger] tools[i]).spec.name != name,
        },
    decreases tools.len(),
{
    if tools.len() > 0 {
        lemma_tool_at(tools.drop_last(), name);
        assert forall|j: int| 0 <= j < tools.len() - 1 implies #[trigger] tools[j]
            == tools.drop_last()[j] by {}
    }
}

/// The tool `name`, if it is on offer.
pub open spec fn tool_named(tools: Seq<ToolInfoView>, name: Seq<char>) -> Option<ToolInfoView> {
    match tool_at(tools, name) {
        Some(i) => Some(tools[i]),
        None => None,
    }
}

/// The tools with one more; a tool of the same name gives way.
pub open spec fn with_tool(tools: Seq<ToolInfoView>, tool: ToolInfoView) -> Seq<ToolInfoView>
    decreases tools.len(),
{
    if tools.len() == 0 {
        seq![tool]
    } else if tools.last().spec.name == tool.spec.name {
        tools.drop_last().push(tool)
    } else if lex_le(tools.last().spec.name, tool.spec.name) {
        tools.push(tool)
    } else {
        with_tool(tools.drop_last(), tool).push(tools.last())
    }
}

/// The offers, in order.
pub open spec fn specs_of(tools: Seq<ToolInfoView>) -> Seq<ToolSpecView> {
    tools.map_values(|t: ToolInfoView| t.spec)
}

/// Registering a tool puts it in its place and leaves the rest as it was.
proof fn lemma_with_tool(tools: Seq<ToolInfoView>, tool: ToolInfoView)
    requires
        sorted(tools),
    ensures
        sorted(with_tool(tools, tool)),
        forall|i: int|
            0 <= i < with_tool(tools, tool).len() ==> (#[trigger] with_tool(tools, tool)[i]) == tool
                || exists|j: int|
                0 <= j < tools.len() && #[trigger] tools[j] == with_tool(tools, tool)[i],
        with_tool(tools, tool).len() >= 1,
    decreases tools.len(),
{
    let n = with_tool(tools, tool);
    let name = tool.spec.name;
    if tools.len() > 0 {
        let rest = tools.drop_last();
        let last = tools.last();
        assert forall|j: int| 0 <= j < rest.len() implies #[trigger] tools[j] == rest[j] by {}
        if last.spec.name == name {
            assert forall|i: int, j: int| 0 <= i < j < n.len() implies lex_le(
                (#[trigger] n[i]).spec.name,
                (#[trigger] n[j]).spec.name,
            ) && n[i].spec.name != n[j].spec.name by {
                assert(n[i] == tools[i]);
                if j < rest.len() {
                    assert(n[j] == tools[j]);
                } else {
                    assert(lex_le(tools[i].spec.name, tools[tools.len() - 1].spec.name));
                }
            }
            assert forall|i: int| 0 <= i < n.len() implies (#[trigger] n[i]) == tool || exists|
                j: int,
            |
                0 <= j < tools.len() && #[trigger] tools[j] == n[i] by {
                if i < rest.len() {
                    assert(tools[i] == n[i]);
                }
            }
        } else if lex_le(last.spec.name, name) {
            assert forall|i: int, j: int| 0 <= i < j < n.len() implies lex_le(
                (#[trigger] n[i]).spec.name,
                (#[trigger] n[j]).spec.name,
            ) && n[i].spec.name != n[j].spec.name by {
                assert(n[i] == tools[i]);
                if j < tools.len() {
                    assert(n[j] == tools[j]);
                } else if i < tools.len() - 1 {
                    let m = tools[tools.len() - 1].spec.name;
                    assert(lex_le(tools[i].spec.name, m) && tools[i].spec.name != m);
                    lemma_lex_transitive(tools[i].spec.name, m, name, 0);
                    if tools[i].spec.name == name {
                        assert(m.take(0) =~= name.take(0));
                        lemma_lex_antisymmetric(m, name, 0);
                    }
                }
            }
            assert forall|i: int| 0 <= i < n.len() implies (#[trigger] n[i]) == tool || exists|
                j: int,
            |
                0 <= j < tools.len() && #[trigger] tools[j] == n[i] by {
                if i < tools.len() {
                    assert(tools[i] == n[i]);
                }
            }
        } else {
            assert(sorted(rest)) by {
                assert forall|i: int, j: int| 0 <= i < j < rest.len() implies lex_le(
                    (#[trigger] rest[i]).spec.name,
                    (#[trigger] rest[j]).spec.name,
                ) && rest[i].spec.name != rest[j].spec.name by {
                    assert(rest[i] == tools[i] && rest[j] == tools[j]);
                }
            }
            lemma_with_tool(rest, tool);
            let m = with_tool(rest, tool);
            lemma_lex_total(last.spec.name, name, 0);
            assert forall|i: int, j: int| 0 <= i < j < n.len() implies lex_le(
                (#[trigger] n[i]).spec.name,
                (#[trigger] n[j]).spec.name,
            ) && n[i].spec.name != n[j].spec.name by {
                assert(n[i] == m[i]);
                if j < m.len() {
                    assert(n[j] == m[j]);
                } else if m[i] != tool {
                    let k = choose|k: int| 0 <= k < rest.len() && #[trigger] rest[k] == m[i];
                    assert(tools[k] == rest[k]);
                    assert(tools[tools.len() - 1] == last);
                }
            }
            assert forall|i: int| 0 <= i < n.len() implies (#[trigger] n[i]) == tool || exists|
                j: int,
            |
                0 <= j < tools.len() && #[trigger] tools[j] == n[i] by {
                if i < m.len() {
                    assert(n[i] == m[i]);
                    if m[i] != tool {
                        let k = choose|k: int| 0 <= k < rest.len() && #[trigger] rest[k] == m[i];
                        assert(tools[k] == n[i]);
                    }
                } else {
                    assert(tools[tools.len() - 1] == n[i]);
                }
            }
        }
    }
}

impl Registry {
    /// Whether the tools are in order.
    pub open spec fn wf(self) -> bool {
        sorted(self@)
    }

    /// A registry without tools.
    pub fn new() -> (r: Self)
        ensures
            r.wf(),
            r@.len() == 0,
    {
        Registry { tools: Vec::new() }
    }

    /// Offer a tool; one of the same name gives way.
    pub fn register(&mut self, tool: ToolInfo)
        requires
            old(self).wf(),
        ensures
            final(self).wf(),
            final(self)@ == with_tool(old(self)@, tool@),
    {
        let ghost before = self@;
        let ghost tv = tool@;
        let mut n: usize = self.tools.len();
        proof {
            assert(before.take(n as int) =~= before);
            lemma_with_tool(before, tv);
            assert(before.skip(n as int) =~= Seq::<ToolInfoView>::empty());
            assert(with_tool(before, tv) =~= with_tool(before.take(n as int), tv) + before.skip(
                n as int,
            ));
        }
        while n > 0 && !at_most(
            self.tools[n - 1].spec.name.as_str(),
            tool.spec.name.as_str(),
        )
            invariant
                before == views(self.tools@),
                tv == tool@,
                n <= self.tools@.len(),
                with_tool(before, tv) == with_tool(before.take(n as int), tv) + before.skip(
                    n as int,
                ),
            decreases n,
        {
            proof {
                lemma_step(before, n - 1);
                assert(before[n - 1] == self.tools@[n - 1]@);
                lemma_lex_total(before[n - 1].spec.name, before[n - 1].spec.name, 0);
                assert(before.take(n - 1).push(before[n - 1]) =~= before.take(n as int));
                assert(with_tool(before.take(n - 1), tv).push(before[n - 1]) + before.skip(
                    n as int,
                ) =~= with_tool(before.take(n - 1), tv) + before.skip(n - 1));
            }
            n -= 1;
        }
        proof {
            if n > 0 {
                lemma_step(before, n - 1);
                assert(before[n - 1] == self.tools@[n - 1]@);
            }
        }
        if n > 0 && same(self.tools[n - 1].spec.name.as_str(), tool.spec.name.as_str()) {
            self.tools.set(n - 1, tool);
            proof {
                assert(views(self.tools@) =~= with_tool(before, tv));
            }
        } else {
            self.tools.insert(n, tool);
            proof {
                assert(views(self.tools@) =~= with_tool(before, tv));
            }
        }
    }

    fn index(&self, name: &str) -> (r: Option<usize>)
        ensures
            match r {
                Some(i) => tool_at(self@, name@) == Some(i as int) && i < self.tools@.len(),
                None => tool_at(self@, name@) is None,
            },
    {
        let mut n: usize = self.tools.len();
        let ghost all = self@;
        proof {
            assert(all.take(n as int) =~= all);
        }
        while n > 0
            invariant
                all == self@,
                n <= self.tools@.len(),
                tool_at(all, name@) == tool_at(all.take(n as int), name@),
            decreases n,
        {
            n -= 1;
            proof {
                lemma_step(all, n as int);
                assert(all[n as int] == self.tools@[n as int]@);
            }
            if same(self.tools[n].spec.name.as_str(), name) {
                return Some(n);
            }
        }
        None
    }

    /// The tool `name`, if it is on offer.
    pub fn get(&self, name: &str) -> (r: Option<&ToolInfo>)
        ensures
            match r {
                Some(t) => tool_named(self@, name@) == Some(t@),
                None => tool_named(self@, name@) is None,
            },
    {
        match self.index(name) {
            Some(i) => Some(&self.tools[i]),
            None => None,
        }
    }

    /// Tool specs in stable (sorted) order for provider requests.
    pub fn specs(&self) -> (r: Vec<ToolSpec>)
        ensures
            views(r@) == specs_of(self@),
    {
        let mut out: Vec<ToolSpec> = Vec::new();
        let ghost want = specs_of(self@);
        let mut i: usize = 0;
        while i < self.tools.len()
            invariant
                want == specs_of(self@),
                self@ == views(self.tools@),
                i <= self.tools@.len(),
                views(out@) == want.take(i as int),
            decreases self.tools@.len() - i,
        {
            let ghost before = out@;
            let c = self.tools[i].spec.clone();
            let ghost cv = c@;
            out.push(c);
            proof {
                lemma_step(want, i as int);
                assert(self@[i as int] == self.tools@[i as int]@);
                assert(views(out@) =~= views(before).push(cv));
            }
            i += 1;
        }
        proof {
            assert(want.take(i as int) =~= want);
        }
        out
    }
}

/// A registered tool is found under its name, and no other name is affected.
pub proof fn law_registered_tool_is_found(
    tools: Seq<ToolInfoView>,
    tool: ToolInfoView,
    name: Seq<char>,
)
    ensures
        tool_named(with_tool(tools, tool), tool.spec.name) == Some(tool),
        name != tool.spec.name ==> tool_named(with_tool(tools, tool), name) == tool_named(
            tools,
            name,
        ),
    decreases tools.len(),
{
    let n = with_tool(tools, tool);
    if tools.len() == 0 {
        assert(n.drop_last() =~= tools);
    } else if tools.last().spec.name == tool.spec.name {
        assert(n.drop_last() =~= tools.drop_last());
        lemma_tool_at(tools.drop_last(), name);
    } else if lex_le(tools.last().spec.name, tool.spec.name) {
        assert(n.drop_last() =~= tools);
        lemma_tool_at(tools, name);
    } else {
        law_registered_tool_is_found(tools.drop_last(), tool, name);
        assert(n.drop_last() =~= with_tool(tools.drop_last(), tool));
        lemma_tool_at(n.drop_last(), name);
        lemma_tool_at(n.drop_last(), tool.spec.name);
        lemma_tool_at(tools.drop_last(), name);
    }
}

// ── Long output ─────────────────────────────────────────────────────────────

/// The first character boundary, counted in characters from `n` on, at or
/// above byte `min`.
pub open spec fn boundary_above(s: Seq<char>, min: int, n: int) -> int
    decreases s.len() - n,
{
    if n < 0 || n >= s.len() || byte_len(s.take(n)) >= min {
        n
    } else {
        boundary_above(s, min, n + 1)
    }
}

/// A text of more than `max` bytes with its middle left out: what fits into
/// half of `max` at either end, around a marker.
pub open spec fn middle_cut(s: Seq<char>, max: int) -> Seq<char> {
    if byte_len(s) <= max {
        s
    } else {
        let keep = max / 2;
        let head = boundary_below(s, keep);
        let tail = boundary_above(s, byte_len(s) - keep, 0);
        s.take(head) + "\n\n[... output truncated: "@ + dec(
            (byte_len(s.take(tail)) - byte_len(s.take(head))) as nat,
        ) + " of "@ + dec(byte_len(s)) + " bytes elided ...]\n\n"@ + s.skip(tail)
    }
}

fn ceil_boundary(cs: &Vec<char>, min: usize) -> (r: (usize, usize))
    requires
        min <= byte_len(cs@),
        byte_len(cs@) <= usize::MAX,
    ensures
        r.0 == boundary_above(cs@, min as int, 0),
        r.0 <= cs@.len(),
        r.1 == byte_len(cs@.take(r.0 as int)),
        r.1 >= min,
{
    let mut used: usize = 0;
    let mut i: usize = 0;
    proof {
        assert(cs@.take(0) =~= Seq::<char>::empty());
    }
    while i < cs.len() && used < min
        invariant
            i <= cs@.len(),
            byte_len(cs@) <= usize::MAX,
            used == byte_len(cs@.take(i as int)),
            boundary_above(cs@, min as int, 0) == boundary_above(cs@, min as int, i as int),
        decreases cs@.len() - i,
    {
        proof {
            lemma_step(cs@, i as int);
            lemma_encode_push(cs@.take(i as int), cs@[i as int]);
            lemma_byte_len_monotone(cs@, i + 1, cs@.len() as int);
            assert(cs@.take(cs@.len() as int) =~= cs@);
        }
        used += char_width(cs[i]);
        i += 1;
    }
    proof {
        assert(cs@.take(cs@.len() as int) =~= cs@);
    }
    (i, used)
}

/// Cap text for the transcript, keeping the head and tail around a marker.
pub fn truncate_middle(s: String, max_bytes: usize) -> (r: String)
    ensures
        r@ == middle_cut(s@, max_bytes as int),
{
    let total: usize = len_of(s.as_str());
    if total <= max_bytes {
        return s;
    }
    let cs = chars_of(s.as_str());
    let keep: usize = max_bytes / 2;
    let head: usize = floor_boundary(&cs, keep);
    let (tail, tail_start) = ceil_boundary(&cs, total - keep);
    let head_text = slice(&cs, 0, head);
    let head_end: usize = len_of(head_text.as_str());
    let tail_text = slice(&cs, tail, cs.len());
    proof {
        assert(head_text@ =~= s@.take(head as int));
        assert(tail_text@ =~= s@.skip(tail as int));
        assert(head_end <= keep);
    }
    let elided = decimal((tail_start - head_end) as u64);
    let of = decimal(total as u64);
    head_text.concat("\n\n[... output truncated: ").concat(elided.as_str()).concat(" of ").concat(
        of.as_str(),
    ).concat(" bytes elided ...]\n\n").concat(tail_text.as_str())
}

/// A cut text begins and ends as the whole text does, and short text stays.
pub proof fn law_truncation_keeps_head_and_tail(s: Seq<char>, max: int)
    requires
        0 <= max,
    ensures
        byte_len(s) <= max ==> middle_cut(s, max) == s,
        byte_len(s) > max ==> {
            let head = s.take(boundary_below(s, max / 2));
            let tail = s.skip(boundary_above(s, byte_len(s) - max / 2, 0));
            &&& head.is_prefix_of(middle_cut(s, max))
            &&& tail.is_suffix_of(middle_cut(s, max))
            &&& byte_len(head) <= max / 2
        },
{
    if byte_len(s) > max {
        let n = boundary_below(s, max / 2);
        lemma_boundary_below(s, max / 2);
        let head = s.take(n);
        let tail = s.skip(boundary_above(s, byte_len(s) - max / 2, 0));
        let m = middle_cut(s, max);
        assert(m.take(head.len() as int) =~= head);
        assert(m.subrange(m.len() - tail.len(), m.len() as int) =~= tail);
    }
}

} // verus!
