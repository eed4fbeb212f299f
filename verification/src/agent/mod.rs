//! The agent loop.
//!
//! The loop owns the transcript, provider calls, tool-use continuation and
//! the events of a run, and nothing else. It is a machine: it says what to do
//! next (write to the journal, call the provider, run tools), its driver does
//! it and hands the outcome back.
//!
//! # Transcript invariants
//!
//! - Every `tool_use` block gets exactly one matching `tool_result`, in the
//!   model's request order, even when a tool fails or is unknown.
//! - An assistant message and its tool results are appended together, never
//!   separately, so the transcript is always structurally valid for the next
//!   provider call.
use vstd::prelude::*;
use vstd::string::*;

use crate::json::{Json, JsonView};
use crate::llm::{
    block_texts, calls_in, clone_messages, is_result, texts_of, BlockView, ContentBlock, Message,
    MessageView, ProviderError, ProviderErrorView, Request, RequestView, Response, ResponseView,
    Role, StopReason, ToolUseView, Usage,
};
use crate::text::{
    boundary_below, byte_len, chars_of, floor_boundary, join, join_with, lemma_step, len_of, slice,
    views,
};
use crate::tools::{specs_of, tool_named, Registry, ToolError, ToolInfoView};

use journal::{JournalError, RunOutcome, ToolIntent, ToolIntentView};

pub mod journal;
pub mod laws;

verus! {

/// Cap on any single tool result entering the transcript: 256 KiB.
pub const MAX_TOOL_RESULT_BYTES: usize = 262_144;

/// What a run is configured with.
#[derive(Debug)]
pub struct AgentConfig {
    pub model: String,
    pub system: String,
    pub max_tokens: u32,
    /// Runaway-loop fuse, not a work budget.
    pub max_turns: u32,
    /// Concurrency cap for adjacent parallel-safe tool calls in one batch.
    pub max_parallel_tools: usize,
}

/// What a run is configured with, as a value.
pub struct AgentConfigView {
    pub model: Seq<char>,
    pub system: Seq<char>,
    pub max_tokens: u32,
    pub max_turns: u32,
    pub max_parallel_tools: usize,
}

impl View for AgentConfig {
    type V = AgentConfigView;

    open spec fn view(&self) -> AgentConfigView {
        AgentConfigView {
            model: self.model@,
            system: self.system@,
            max_tokens: self.max_tokens,
            max_turns: self.max_turns,
            max_parallel_tools: self.max_parallel_tools,
        }
    }
}

impl Default for AgentConfig {
    fn default() -> (r: Self)
        ensures
            r@.model.len() == 0,
            r@.system.len() == 0,
            r.max_tokens == 8_192,
            r.max_turns == 500,
            r.max_parallel_tools == 8,
    {
        AgentConfig {
            model: String::new(),
            system: String::new(),
            max_tokens: 8_192,
            max_turns: 500,
            max_parallel_tools: 8,
        }
    }
}

/// Everything observable about a running turn.
#[derive(Debug)]
pub enum Event {
    AssistantText { text: String },
    ToolStart { id: String, name: String, input: Json },
    ToolEnd { id: String, name: String, output: String, is_error: bool },
    TurnDone { usage: Usage },
}

/// What an event says.
pub enum EventView {
    AssistantText { text: Seq<char> },
    ToolStart { id: Seq<char>, name: Seq<char>, input: JsonView },
    ToolEnd { id: Seq<char>, name: Seq<char>, output: Seq<char>, is_error: bool },
    TurnDone { usage: Usage },
}

impl View for Event {
    type V = EventView;

    open spec fn view(&self) -> EventView {
        match self {
            Event::AssistantText { text } => EventView::AssistantText { text: text@ },
            Event::ToolStart { id, name, input } => EventView::ToolStart {
                id: id@,
                name: name@,
                input: input@,
            },
            Event::ToolEnd { id, name, output, is_error } => EventView::ToolEnd {
                id: id@,
                name: name@,
                output: output@,
                is_error: *is_error,
            },
            Event::TurnDone { usage } => EventView::TurnDone { usage: *usage },
        }
    }
}

/// Why a run failed.
#[derive(Debug)]
pub enum AgentError {
    Provider(ProviderError),
    Truncated { partial: String },
    MaxTurns(u32),
    Journal(JournalError),
}

/// What a run's error says.
pub enum AgentErrorView {
    Provider(ProviderErrorView),
    Truncated { partial: Seq<char> },
    MaxTurns(u32),
    Journal(Seq<char>),
}

impl View for AgentError {
    type V = AgentErrorView;

    open spec fn view(&self) -> AgentErrorView {
        match self {
            AgentError::Provider(e) => AgentErrorView::Provider(e@),
            AgentError::Truncated { partial } => AgentErrorView::Truncated { partial: partial@ },
            AgentError::MaxTurns(n) => AgentErrorView::MaxTurns(*n),
            AgentError::Journal(e) => AgentErrorView::Journal(e@),
        }
    }
}

impl AgentErrorView {
    /// The error in words.
    pub open spec fn words(self) -> Seq<char> {
        match self {
            AgentErrorView::Provider(e) => e.words(),
            AgentErrorView::Truncated { partial } =>
                "provider stopped at max_tokens; partial output preserved"@,
            AgentErrorView::MaxTurns(n) => "exceeded "@ + crate::text::dec(n as nat)
                + " provider turns (runaway fuse)"@,
            AgentErrorView::Journal(m) => "journal error: "@ + m,
        }
    }

    /// How a run that ends this way is recorded.
    pub open spec fn outcome(self) -> RunOutcome {
        match self {
            AgentErrorView::Truncated { partial } => RunOutcome::Truncated,
            _ => RunOutcome::Failed,
        }
    }
}

impl AgentError {
    /// The error in words.
    pub fn to_string(&self) -> (r: String)
        ensures
            r@ == self@.words(),
    {
        match self {
            AgentError::Provider(e) => e.to_string(),
            AgentError::Truncated { partial: _ } =>
                "provider stopped at max_tokens; partial output preserved".to_owned(),
            AgentError::MaxTurns(n) => {
                let d = crate::text::decimal(*n as u64);
                "exceeded ".to_owned().concat(d.as_str()).concat(" provider turns (runaway fuse)")
            },
            AgentError::Journal(e) => e.to_string(),
        }
    }

    fn outcome(&self) -> (r: RunOutcome)
        ensures
            r == self@.outcome(),
    {
        match self {
            AgentError::Truncated { partial: _ } => RunOutcome::Truncated,
            _ => RunOutcome::Failed,
        }
    }
}

// ── Tool results ────────────────────────────────────────────────────────────

/// A result as it enters the transcript: cut at a character boundary, with a
/// note, where it is longer than the cap.
pub open spec fn capped(s: Seq<char>) -> Seq<char> {
    if byte_len(s) > MAX_TOOL_RESULT_BYTES {
        s.take(boundary_below(s, MAX_TOOL_RESULT_BYTES as int))
            + "\n[result truncated at 256 KiB]"@
    } else {
        s
    }
}

/// A result as it enters the transcript.
pub fn cap_result(s: String) -> (r: String)
    ensures
        r@ == capped(s@),
{
    if len_of(s.as_str()) > MAX_TOOL_RESULT_BYTES {
        let cs = chars_of(s.as_str());
        let end: usize = floor_boundary(&cs, MAX_TOOL_RESULT_BYTES);
        let head = slice(&cs, 0, end);
        proof {
            assert(head@ =~= s@.take(end as int));
        }
        head.concat("\n[result truncated at 256 KiB]")
    } else {
        s
    }
}

/// What a tool that is not on offer answers.
pub fn unknown_tool(name: &str) -> (r: (String, bool))
    ensures
        r.0@ == "unknown tool: "@ + name@,
        r.1,
{
    ("unknown tool: ".to_owned().concat(name), true)
}

/// What a tool's result enters the transcript as: its output, or its error in
/// words.
pub fn tool_output(result: Result<String, ToolError>) -> (r: (String, bool))
    ensures
        match result {
            Ok(output) => r.0@ == output@ && !r.1,
            Err(e) => r.0@ == e@.words() && r.1,
        },
{
    match result {
        Ok(output) => (output, false),
        Err(e) => (e.to_string(), true),
    }
}

/// The event of a tool call that starts.
pub fn tool_start(intent: &ToolIntent) -> (r: Event)
    ensures
        r@ == (EventView::ToolStart {
            id: intent@.tool_use_id,
            name: intent@.name,
            input: intent@.input,
        }),
{
    Event::ToolStart {
        id: intent.tool_use_id.clone(),
        name: intent.name.clone(),
        input: intent.input.clone(),
    }
}

/// The event of a tool call that ended.
pub fn tool_end(intent: &ToolIntent, output: &str, is_error: bool) -> (r: Event)
    ensures
        r@ == (EventView::ToolEnd {
            id: intent@.tool_use_id,
            name: intent@.name,
            output: output@,
            is_error,
        }),
{
    Event::ToolEnd {
        id: intent.tool_use_id.clone(),
        name: intent.name.clone(),
        output: output.to_owned(),
        is_error,
    }
}

/// The intent of a tool call.
pub open spec fn intent_of(call: ToolUseView, tools: Seq<ToolInfoView>) -> ToolIntentView {
    ToolIntentView {
        tool_use_id: call.id,
        name: call.name,
        input: call.input,
        replay_safe: match tool_named(tools, call.name) {
            Some(t) => t.replay_safe,
            None => false,
        },
    }
}

/// The intents of an assistant message, in request order.
pub open spec fn intents_of(content: Seq<BlockView>, tools: Seq<ToolInfoView>) -> Seq<
    ToolIntentView,
> {
    calls_in(content).map_values(|c: ToolUseView| intent_of(c, tools))
}

/// An output and whether it is an error.
pub struct OutputView {
    pub text: Seq<char>,
    pub is_error: bool,
}

/// A tool call's output and whether it is an error.
#[derive(Debug)]
pub struct Output {
    pub text: String,
    pub is_error: bool,
}

impl View for Output {
    type V = OutputView;

    open spec fn view(&self) -> OutputView {
        OutputView { text: self.text@, is_error: self.is_error }
    }
}

/// The result block that answers an intent.
pub open spec fn result_of(intent: ToolIntentView, output: OutputView) -> BlockView {
    BlockView::ToolResult {
        tool_use_id: intent.tool_use_id,
        content: capped(output.text),
        is_error: output.is_error,
    }
}

/// The message that answers a batch, in request order.
pub open spec fn results_of(intents: Seq<ToolIntentView>, outputs: Seq<OutputView>) -> MessageView {
    MessageView {
        role: Role::User,
        content: Seq::new(intents.len(), |i: int| result_of(intents[i], outputs[i])),
    }
}

// ── Scheduling ──────────────────────────────────────────────────────────────

/// A run of adjacent calls that execute together.
#[derive(Debug, Clone, Copy)]
pub struct Group {
    pub start: usize,
    pub end: usize,
    /// Whether the calls may overlap.
    pub concurrent: bool,
}

/// Whether groups cover `n` calls in order, without gap or overlap.
pub open spec fn covers(groups: Seq<Group>, n: int) -> bool {
    &&& forall|i: int|
        0 <= i < groups.len() ==> (#[trigger] groups[i]).start < groups[i].end
    &&& forall|i: int, j: int|
        0 <= i && j == i + 1 && j < groups.len() ==> (#[trigger] groups[i]).end == (
        #[trigger] groups[j]).start
    &&& groups.len() > 0 ==> groups[0].start == 0 && groups.last().end == n
    &&& groups.len() == 0 ==> n == 0
}

/// Whether a group is a maximal run of parallel-safe calls, or one call that
/// is not.
pub open spec fn well_grouped(g: Group, parallel: Seq<bool>) -> bool {
    if g.concurrent {
        &&& forall|k: int| g.start <= k < g.end ==> #[trigger] parallel[k]
        &&& g.start > 0 ==> !parallel[g.start - 1]
        &&& g.end < parallel.len() ==> !parallel[g.end as int]
    } else {
        g.end == g.start + 1 && !parallel[g.start as int]
    }
}

/// Cut a batch of calls into maximal *adjacent* runs of parallel-safe ones,
/// which execute concurrently, and single calls that run serially in place.
pub fn schedule(parallel: &Vec<bool>) -> (r: Vec<Group>)
    ensures
        covers(r@, parallel@.len() as int),
        forall|i: int| 0 <= i < r@.len() ==> well_grouped(#[trigger] r@[i], parallel@),
{
    let mut out: Vec<Group> = Vec::new();
    let mut idx: usize = 0;
    while idx < parallel.len()
        invariant
            idx <= parallel@.len(),
            covers(out@, idx as int),
            forall|i: int| 0 <= i < out@.len() ==> well_grouped(#[trigger] out@[i], parallel@),
            0 < idx < parallel@.len() ==> !parallel@[idx - 1] || !parallel@[idx as int],
        decreases parallel@.len() - idx,
    {
        let ghost before = out@;
        let g;
        if parallel[idx] {
            let mut end: usize = idx + 1;
            while end < parallel.len() && parallel[end]
                invariant
                    idx < end <= parallel@.len(),
                    forall|k: int| idx <= k < end ==> #[trigger] parallel@[k],
                decreases parallel@.len() - end,
            {
                end += 1;
            }
            g = Group { start: idx, end, concurrent: true };
        } else {
            g = Group { start: idx, end: idx + 1, concurrent: false };
        }
        out.push(g);
        proof {
            assert forall|i: int, j: int|
                0 <= i && j == i + 1 && j < out@.len() implies (#[trigger] out@[i]).end == (
            #[trigger] out@[j]).start by {
                assert(out@[i] == before[i]);
                if j < before.len() {
                    assert(out@[j] == before[j]);
                }
            }
            assert forall|i: int| 0 <= i < out@.len() implies (#[trigger] out@[i]).start
                < out@[i].end && well_grouped(out@[i], parallel@) by {
                if i < before.len() {
                    assert(out@[i] == before[i]);
                }
            }
        }
        idx = g.end;
    }
    out
}

// ── The machine ─────────────────────────────────────────────────────────────

/// What a run waits for.
#[derive(Debug)]
pub enum Phase {
    /// Nothing: no run is under way.
    Idle,
    /// The journal, on the start of a run.
    Starting { user: Message },
    /// The journal, on a step.
    Stepping { attempt: u32 },
    /// The provider.
    Completing { attempt: u32 },
    /// The journal, on an assistant message.
    Recording {
        attempt: u32,
        assistant: Message,
        text: String,
        truncated: bool,
        intents: Vec<ToolIntent>,
    },
    /// The journal, on a batch of intents.
    Batching { attempt: u32, assistant: Message, intents: Vec<ToolIntent> },
    /// The tools.
    Executing { attempt: u32, assistant: Message, intents: Vec<ToolIntent> },
    /// The journal, on the results of a batch.
    Answering { attempt: u32, assistant: Message, results: Message },
    /// The journal, on the end of a run that completed.
    Finishing { answer: String },
    /// The journal, on the end of a run that failed.
    Failing { error: AgentError },
}

/// What a run waits for, as a value.
pub enum PhaseView {
    Idle,
    Starting { user: MessageView },
    Stepping { attempt: u32 },
    Completing { attempt: u32 },
    Recording {
        attempt: u32,
        assistant: MessageView,
        text: Seq<char>,
        truncated: bool,
        intents: Seq<ToolIntentView>,
    },
    Batching { attempt: u32, assistant: MessageView, intents: Seq<ToolIntentView> },
    Executing { attempt: u32, assistant: MessageView, intents: Seq<ToolIntentView> },
    Answering { attempt: u32, assistant: MessageView, results: MessageView },
    Finishing { answer: Seq<char> },
    Failing { error: AgentErrorView },
}

impl View for Phase {
    type V = PhaseView;

    open spec fn view(&self) -> PhaseView {
        match self {
            Phase::Idle => PhaseView::Idle,
            Phase::Starting { user } => PhaseView::Starting { user: user@ },
            Phase::Stepping { attempt } => PhaseView::Stepping { attempt: *attempt },
            Phase::Completing { attempt } => PhaseView::Completing { attempt: *attempt },
            Phase::Recording { attempt, assistant, text, truncated, intents } =>
                PhaseView::Recording {
                attempt: *attempt,
                assistant: assistant@,
                text: text@,
                truncated: *truncated,
                intents: views(intents@),
            },
            Phase::Batching { attempt, assistant, intents } => PhaseView::Batching {
                attempt: *attempt,
                assistant: assistant@,
                intents: views(intents@),
            },
            Phase::Executing { attempt, assistant, intents } => PhaseView::Executing {
                attempt: *attempt,
                assistant: assistant@,
                intents: views(intents@),
            },
            Phase::Answering { attempt, assistant, results } => PhaseView::Answering {
                attempt: *attempt,
                assistant: assistant@,
                results: results@,
            },
            Phase::Finishing { answer } => PhaseView::Finishing { answer: answer@ },
            Phase::Failing { error } => PhaseView::Failing { error: error@ },
        }
    }
}

impl PhaseView {
    /// Whether the journal's word is awaited.
    pub open spec fn awaits_journal(self) -> bool {
        match self {
            PhaseView::Idle => false,
            PhaseView::Completing { .. } => false,
            PhaseView::Executing { .. } => false,
            _ => true,
        }
    }
}

/// What to do next.
#[derive(Debug)]
pub enum Action {
    /// Journal: a run was accepted with this user message.
    RunStarted(Message),
    /// Journal: about to make provider request number `attempt` (from one).
    StepAttempt(u32),
    /// Call the provider.
    Complete(Request),
    /// Journal: the provider produced this assistant message.
    AssistantMessage(Message),
    /// Journal: about to execute these tools. Must be durable before any
    /// effect runs.
    ToolBatch(Vec<ToolIntent>),
    /// Run the tools and hand back their outputs in this order.
    Execute(Vec<ToolIntent>),
    /// Journal: the batch finished with these results.
    ToolResults(Message),
    /// Journal: the run ended.
    RunFinished(RunOutcome, Usage),
    /// The run is over.
    Done(Result<String, AgentError>),
}

/// What to do next, as a value.
pub enum ActionView {
    RunStarted(MessageView),
    StepAttempt(u32),
    Complete(RequestView),
    AssistantMessage(MessageView),
    ToolBatch(Seq<ToolIntentView>),
    Execute(Seq<ToolIntentView>),
    ToolResults(MessageView),
    RunFinished(RunOutcome, Usage),
    Done(Result<Seq<char>, AgentErrorView>),
}

impl View for Action {
    type V = ActionView;

    open spec fn view(&self) -> ActionView {
        match self {
            Action::RunStarted(m) => ActionView::RunStarted(m@),
            Action::StepAttempt(n) => ActionView::StepAttempt(*n),
            Action::Complete(r) => ActionView::Complete(r@),
            Action::AssistantMessage(m) => ActionView::AssistantMessage(m@),
            Action::ToolBatch(b) => ActionView::ToolBatch(views(b@)),
            Action::Execute(b) => ActionView::Execute(views(b@)),
            Action::ToolResults(m) => ActionView::ToolResults(m@),
            Action::RunFinished(o, u) => ActionView::RunFinished(*o, *u),
            Action::Done(r) => ActionView::Done(
                match r {
                    Ok(s) => Ok(s@),
                    Err(e) => Err(e@),
                },
            ),
        }
    }
}

/// One step: what became observable, and what to do next.
#[derive(Debug)]
pub struct Step {
    pub events: Vec<Event>,
    pub action: Action,
}

/// One step, as a value.
pub struct StepView {
    pub events: Seq<EventView>,
    pub action: ActionView,
}

impl View for Step {
    type V = StepView;

    open spec fn view(&self) -> StepView {
        StepView { events: views(self.events@), action: self.action@ }
    }
}

/// A step that only says what to do.
pub open spec fn quietly(action: ActionView) -> StepView {
    StepView { events: Seq::empty(), action }
}

/// The loop's state.
#[derive(Debug)]
pub struct Agent {
    registry: Registry,
    config: AgentConfig,
    messages: Vec<Message>,
    usage: Usage,
    phase: Phase,
}

/// The loop's state, as a value.
pub struct AgentView {
    pub tools: Seq<ToolInfoView>,
    pub config: AgentConfigView,
    pub messages: Seq<MessageView>,
    pub usage: Usage,
    pub phase: PhaseView,
}

impl View for Agent {
    type V = AgentView;

    closed spec fn view(&self) -> AgentView {
        AgentView {
            tools: self.registry@,
            config: self.config@,
            messages: views(self.messages@),
            usage: self.usage,
            phase: self.phase@,
        }
    }
}

impl AgentView {
    /// The request of the next provider call.
    pub open spec fn request(self) -> RequestView {
        RequestView {
            model: self.config.model,
            system: self.config.system,
            messages: self.messages,
            tools: specs_of(self.tools),
            max_tokens: self.config.max_tokens,
        }
    }

    /// The run fails with `error`: its end goes to the journal.
    pub open spec fn fail(self, error: AgentErrorView) -> (AgentView, StepView) {
        (
            AgentView { phase: PhaseView::Failing { error }, ..self },
            quietly(ActionView::RunFinished(error.outcome(), self.usage)),
        )
    }

    /// Provider request number `attempt`, or the fuse.
    pub open spec fn attempt(self, attempt: int) -> (AgentView, StepView) {
        if attempt <= self.config.max_turns {
            (
                AgentView { phase: PhaseView::Stepping { attempt: attempt as u32 }, ..self },
                quietly(ActionView::StepAttempt(attempt as u32)),
            )
        } else {
            self.fail(AgentErrorView::MaxTurns(self.config.max_turns))
        }
    }

    /// A run begins with a user's text.
    pub open spec fn send(self, text: Seq<char>) -> (AgentView, StepView) {
        let user = MessageView { role: Role::User, content: seq![BlockView::Text { text }] };
        (
            AgentView { phase: PhaseView::Starting { user }, ..self },
            quietly(ActionView::RunStarted(user)),
        )
    }

    /// The journal took what it was asked to write.
    pub open spec fn journaled(self) -> (AgentView, StepView) {
        match self.phase {
            PhaseView::Starting { user } => (AgentView {
                messages: self.messages.push(user),
                ..self
            }).attempt(1),
            PhaseView::Stepping { attempt } => (
                AgentView { phase: PhaseView::Completing { attempt }, ..self },
                quietly(ActionView::Complete(self.request())),
            ),
            PhaseView::Recording { attempt, assistant, text, truncated, intents } => {
                if intents.len() > 0 {
                    (
                        AgentView {
                            phase: PhaseView::Batching { attempt, assistant, intents },
                            ..self
                        },
                        quietly(ActionView::ToolBatch(intents)),
                    )
                } else {
                    let told = AgentView { messages: self.messages.push(assistant), ..self };
                    let (next, step) = if truncated {
                        told.fail(AgentErrorView::Truncated { partial: text })
                    } else {
                        (
                            AgentView { phase: PhaseView::Finishing { answer: text }, ..told },
                            quietly(ActionView::RunFinished(RunOutcome::Completed, self.usage)),
                        )
                    };
                    (
                        next,
                        StepView {
                            events: seq![EventView::TurnDone { usage: self.usage }],
                            action: step.action,
                        },
                    )
                }
            },
            PhaseView::Batching { attempt, assistant, intents } => (
                AgentView { phase: PhaseView::Executing { attempt, assistant, intents }, ..self },
                quietly(ActionView::Execute(intents)),
            ),
            PhaseView::Answering { attempt, assistant, results } => (AgentView {
                messages: self.messages.push(assistant).push(results),
                ..self
            }).attempt(attempt + 1),
            PhaseView::Finishing { answer } => (
                AgentView { phase: PhaseView::Idle, ..self },
                quietly(ActionView::Done(Ok(answer))),
            ),
            PhaseView::Failing { error } => (
                AgentView { phase: PhaseView::Idle, ..self },
                quietly(ActionView::Done(Err(error))),
            ),
            _ => (self, quietly(ActionView::Done(Ok(Seq::empty())))),
        }
    }

    /// The journal failed, and so does the run. The end of a run is recorded
    /// once: where that very record fails it is not tried again, the operation
    /// stays open, and recovery closes it. While a failure is being recorded it
    /// is the failure that is reported.
    pub open spec fn journal_failed(self, message: Seq<char>) -> (AgentView, StepView) {
        match self.phase {
            PhaseView::Finishing { answer } => (
                AgentView { phase: PhaseView::Idle, ..self },
                quietly(ActionView::Done(Err(AgentErrorView::Journal(message)))),
            ),
            PhaseView::Failing { error } => (
                AgentView { phase: PhaseView::Idle, ..self },
                quietly(ActionView::Done(Err(error))),
            ),
            _ => self.fail(AgentErrorView::Journal(message)),
        }
    }

    /// The provider answered.
    pub open spec fn responded(self, response: ResponseView) -> (AgentView, StepView) {
        match self.phase {
            PhaseView::Completing { attempt } => {
                let text = join(block_texts(response.content), "\n"@);
                let assistant = MessageView { role: Role::Assistant, content: response.content };
                (
                    AgentView {
                        usage: self.usage.plus(response.usage),
                        phase: PhaseView::Recording {
                            attempt,
                            assistant,
                            text,
                            truncated: response.stop_reason is MaxTokens,
                            intents: intents_of(response.content, self.tools),
                        },
                        ..self
                    },
                    StepView {
                        events: if text.len() > 0 {
                            seq![EventView::AssistantText { text }]
                        } else {
                            Seq::empty()
                        },
                        action: ActionView::AssistantMessage(assistant),
                    },
                )
            },
            _ => (self, quietly(ActionView::Done(Ok(Seq::empty())))),
        }
    }

    /// The tools ran.
    pub open spec fn ran(self, outputs: Seq<OutputView>) -> (AgentView, StepView) {
        match self.phase {
            PhaseView::Executing { attempt, assistant, intents } => {
                let results = results_of(intents, outputs);
                (
                    AgentView {
                        phase: PhaseView::Answering { attempt, assistant, results },
                        ..self
                    },
                    quietly(ActionView::ToolResults(results)),
                )
            },
            _ => (self, quietly(ActionView::Done(Ok(Seq::empty())))),
        }
    }
}

/// A copy of a list of intents.
pub fn clone_intents(intents: &Vec<ToolIntent>) -> (r: Vec<ToolIntent>)
    ensures
        views(r@) == views(intents@),
{
    let mut out: Vec<ToolIntent> = Vec::new();
    let mut i: usize = 0;
    while i < intents.len()
        invariant
            i <= intents@.len(),
            views(out@) == views(intents@).take(i as int),
        decreases intents@.len() - i,
    {
        let ghost before = out@;
        let c = intents[i].clone();
        let ghost cv = c@;
        out.push(c);
        proof {
            lemma_step(views(intents@), i as int);
            assert(views(out@) =~= views(before).push(cv));
        }
        i += 1;
    }
    proof {
        assert(views(intents@).take(i as int) =~= views(intents@));
    }
    out
}

/// The intents of an assistant message.
fn collect_intents(content: &Vec<ContentBlock>, registry: &Registry) -> (r: Vec<ToolIntent>)
    ensures
        views(r@) == intents_of(views(content@), registry@),
{
    let mut out: Vec<ToolIntent> = Vec::new();
    let ghost all = views(content@);
    let ghost tools = registry@;
    let mut i: usize = 0;
    proof {
        assert(views(out@) =~= intents_of(all.take(0), tools));
    }
    while i < content.len()
        invariant
            all == views(content@),
            tools == registry@,
            i <= content@.len(),
            views(out@) == intents_of(all.take(i as int), tools),
        decreases content@.len() - i,
    {
        proof {
            lemma_step(all, i as int);
            assert(all[i as int] == content@[i as int]@);
        }
        let ghost before = views(out@);
        match &content[i] {
            ContentBlock::ToolUse { id, name, input } => {
                let replay_safe = match registry.get(name.as_str()) {
                    Some(t) => t.replay_safe,
                    None => false,
                };
                let intent = ToolIntent {
                    tool_use_id: id.clone(),
                    name: name.clone(),
                    input: input.clone(),
                    replay_safe,
                };
                let ghost iv = intent@;
                out.push(intent);
                proof {
                    let call = ToolUseView { id: id@, name: name@, input: input@ };
                    assert(iv == intent_of(call, tools));
                    assert(calls_in(all.take(i + 1)) == calls_in(all.take(i as int)).push(call));
                    assert(views(out@) =~= before.push(iv));
                    assert(intents_of(all.take(i + 1), tools) =~= before.push(iv));
                }
            },
            _ => {},
        }
        i += 1;
    }
    proof {
        assert(all.take(i as int) =~= all);
    }
    out
}

/// The message that answers a batch.
fn collect_results(intents: &Vec<ToolIntent>, outputs: Vec<Output>) -> (r: Message)
    requires
        intents@.len() == outputs@.len(),
    ensures
        r@ == results_of(views(intents@), views(outputs@)),
{
    let mut results: Vec<ContentBlock> = Vec::new();
    let ghost want = results_of(views(intents@), views(outputs@)).content;
    let mut i: usize = 0;
    while i < intents.len()
        invariant
            want == results_of(views(intents@), views(outputs@)).content,
            intents@.len() == outputs@.len(),
            i <= intents@.len(),
            results@.len() == i,
            forall|j: int| 0 <= j < i ==> #[trigger] results@[j]@ == want[j],
        decreases intents@.len() - i,
    {
        let block = ContentBlock::ToolResult {
            tool_use_id: intents[i].tool_use_id.clone(),
            content: cap_result(outputs[i].text.clone()),
            is_error: outputs[i].is_error,
        };
        proof {
            assert(views(intents@)[i as int] == intents@[i as int]@);
            assert(views(outputs@)[i as int] == outputs@[i as int]@);
            assert(want[i as int] == result_of(
                views(intents@)[i as int],
                views(outputs@)[i as int],
            ));
        }
        results.push(block);
        i += 1;
    }
    proof {
        assert(views(results@) =~= want);
        assert forall|j: int| 0 <= j < results@.len() implies is_result(
            #[trigger] results@[j]@,
        ) by {
            assert(results@[j]@ == want[j]);
        }
    }
    Message::tool_results(results)
}

fn no_events() -> (r: Vec<Event>)
    ensures
        views(r@) == Seq::<EventView>::empty(),
{
    let r: Vec<Event> = Vec::new();
    proof {
        assert(views(r@) =~= Seq::<EventView>::empty());
    }
    r
}

fn say(action: Action) -> (r: Step)
    ensures
        r@ == quietly(action@),
{
    Step { events: no_events(), action }
}

impl Agent {
    /// A loop with an empty transcript.
    pub fn new(registry: Registry, config: AgentConfig) -> (r: Self)
        ensures
            r@ == (AgentView {
                tools: registry@,
                config: config@,
                messages: Seq::empty(),
                usage: Usage { input_tokens: 0, output_tokens: 0 },
                phase: PhaseView::Idle,
            }),
    {
        let messages: Vec<Message> = Vec::new();
        proof {
            assert(views(messages@) =~= Seq::<MessageView>::empty());
        }
        Agent {
            registry,
            config,
            messages,
            usage: Usage { input_tokens: 0, output_tokens: 0 },
            phase: Phase::Idle,
        }
    }

    /// Restore a transcript (resume). The caller is responsible for handing
    /// back messages that came from [`Agent::messages`].
    pub fn with_transcript(self, messages: Vec<Message>, usage: Usage) -> (r: Self)
        ensures
            r@ == (AgentView { messages: views(messages@), usage, ..self@ }),
    {
        Agent { messages, usage, ..self }
    }

    /// The transcript.
    pub fn messages(&self) -> (r: &Vec<Message>)
        ensures
            views(r@) == self@.messages,
    {
        &self.messages
    }

    /// The tokens consumed.
    pub fn usage(&self) -> (r: Usage)
        ensures
            r == self@.usage,
    {
        self.usage
    }

    /// The most calls that may overlap in a batch, at least one.
    pub fn parallelism(&self) -> (r: usize)
        ensures
            r == (if self@.config.max_parallel_tools == 0 {
                1
            } else {
                self@.config.max_parallel_tools
            }),
    {
        if self.config.max_parallel_tools == 0 {
            1
        } else {
            self.config.max_parallel_tools
        }
    }

    /// Whether a response's tokens can still be counted.
    pub fn can_count(&self, usage: Usage) -> (r: bool)
        ensures
            r == self@.usage.fits(usage),
    {
        u64::MAX - self.usage.input_tokens >= usage.input_tokens && u64::MAX
            - self.usage.output_tokens >= usage.output_tokens
    }

    fn fail(&mut self, error: AgentError) -> (r: Step)
        ensures
            (final(self)@, r@) == old(self)@.fail(error@),
    {
        let outcome = error.outcome();
        self.phase = Phase::Failing { error };
        say(Action::RunFinished(outcome, self.usage))
    }

    /// Begin a run: append the user text, then alternate provider calls and
    /// tool execution until the provider ends its turn.
    pub fn send(&mut self, text: &str) -> (r: Step)
        requires
            old(self)@.phase is Idle,
        ensures
            (final(self)@, r@) == old(self)@.send(text@),
    {
        let user = Message::user_text(text);
        let copy = user.clone();
        self.phase = Phase::Starting { user };
        proof {
            assert(copy@ == (MessageView {
                role: Role::User,
                content: seq![BlockView::Text { text: text@ }],
            }));
        }
        say(Action::RunStarted(copy))
    }

    /// The journal answered.
    pub fn journaled(&mut self, outcome: Result<(), JournalError>) -> (r: Step)
        requires
            old(self)@.phase.awaits_journal(),
        ensures
            (final(self)@, r@) == (match outcome {
                Ok(()) => old(self)@.journaled(),
                Err(e) => old(self)@.journal_failed(e@),
            }),
    {
        match outcome {
            Ok(()) => self.journal_took(),
            Err(e) => self.journal_refused(e),
        }
    }

    fn journal_refused(&mut self, e: JournalError) -> (r: Step)
        requires
            old(self)@.phase.awaits_journal(),
        ensures
            (final(self)@, r@) == old(self)@.journal_failed(e@),
    {
        let mut phase = Phase::Idle;
        std::mem::swap(&mut self.phase, &mut phase);
        match phase {
            Phase::Finishing { answer: _ } => say(Action::Done(Err(AgentError::Journal(e)))),
            Phase::Failing { error } => say(Action::Done(Err(error))),
            _ => self.fail(AgentError::Journal(e)),
        }
    }

    fn journal_took(&mut self) -> (r: Step)
        requires
            old(self)@.phase.awaits_journal(),
        ensures
            (final(self)@, r@) == old(self)@.journaled(),
    {
        let mut phase = Phase::Idle;
        std::mem::swap(&mut self.phase, &mut phase);
        let ghost start = old(self)@;
        match phase {
            Phase::Starting { user } => {
                let ghost before = self.messages@;
                let ghost uv = user@;
                self.messages.push(user);
                proof {
                    assert(views(self.messages@) =~= views(before).push(uv));
                }
                self.next_attempt(0)
            },
            Phase::Stepping { attempt } => {
                self.phase = Phase::Completing { attempt };
                let request = Request {
                    model: self.config.model.clone(),
                    system: self.config.system.clone(),
                    messages: clone_messages(&self.messages),
                    tools: self.registry.specs(),
                    max_tokens: self.config.max_tokens,
                };
                say(Action::Complete(request))
            },
            Phase::Recording { attempt, assistant, text, truncated, intents } => {
                if intents.len() > 0 {
                    let copy = clone_intents(&intents);
                    proof {
                        assert(views(intents@).len() > 0);
                    }
                    self.phase = Phase::Batching { attempt, assistant, intents };
                    say(Action::ToolBatch(copy))
                } else {
                    let ghost before = self.messages@;
                    let ghost av = assistant@;
                    proof {
                        assert(views(intents@).len() == 0);
                    }
                    self.messages.push(assistant);
                    proof {
                        assert(views(self.messages@) =~= views(before).push(av));
                    }
                    let mut events: Vec<Event> = Vec::new();
                    events.push(Event::TurnDone { usage: self.usage });
                    proof {
                        assert(views(events@) =~= seq![EventView::TurnDone { usage: self.usage }]);
                    }
                    if truncated {
                        let step = self.fail(AgentError::Truncated { partial: text });
                        Step { events, action: step.action }
                    } else {
                        self.phase = Phase::Finishing { answer: text };
                        Step {
                            events,
                            action: Action::RunFinished(RunOutcome::Completed, self.usage),
                        }
                    }
                }
            },
            Phase::Batching { attempt, assistant, intents } => {
                let copy = clone_intents(&intents);
                self.phase = Phase::Executing { attempt, assistant, intents };
                say(Action::Execute(copy))
            },
            Phase::Answering { attempt, assistant, results } => {
                let ghost before = self.messages@;
                let ghost av = assistant@;
                let ghost rv = results@;
                self.messages.push(assistant);
                self.messages.push(results);
                proof {
                    assert(views(self.messages@) =~= views(before).push(av).push(rv));
                }
                self.next_attempt(attempt)
            },
            Phase::Finishing { answer } => say(Action::Done(Ok(answer))),
            Phase::Failing { error } => say(Action::Done(Err(error))),
            _ => say(Action::Done(Ok(String::new()))),
        }
    }

    /// Provider request after number `attempt`, or the fuse.
    fn next_attempt(&mut self, attempt: u32) -> (r: Step)
        ensures
            (final(self)@, r@) == old(self)@.attempt(attempt + 1),
    {
        if attempt < self.config.max_turns {
            let n: u32 = attempt + 1;
            self.phase = Phase::Stepping { attempt: n };
            say(Action::StepAttempt(n))
        } else {
            let n: u32 = self.config.max_turns;
            self.fail(AgentError::MaxTurns(n))
        }
    }

    /// The provider answered.
    pub fn responded(&mut self, outcome: Result<Response, ProviderError>) -> (r: Step)
        requires
            old(self)@.phase is Completing,
            outcome matches Ok(response) ==> old(self)@.usage.fits(response@.usage),
        ensures
            (final(self)@, r@) == (match outcome {
                Ok(response) => old(self)@.responded(response@),
                Err(e) => old(self)@.fail(AgentErrorView::Provider(e@)),
            }),
    {
        let response = match outcome {
            Ok(response) => response,
            Err(e) => {
                return self.fail(AgentError::Provider(e));
            },
        };
        let attempt: u32 = match self.phase {
            Phase::Completing { attempt } => attempt,
            _ => 0,
        };
        self.usage.add_assign(response.usage);
        let parts = texts_of(&response.content);
        let text = join_with(&parts, "\n");
        let mut events = no_events();
        if !text.as_str().is_empty() {
            events.push(Event::AssistantText { text: text.clone() });
            proof {
                assert(views(events@) =~= seq![EventView::AssistantText { text: text@ }]);
            }
        }
        let intents = collect_intents(&response.content, &self.registry);
        let truncated = match response.stop_reason {
            StopReason::MaxTokens => true,
            _ => false,
        };
        let assistant = Message { role: Role::Assistant, content: response.content };
        let copy = assistant.clone();
        self.phase = Phase::Recording { attempt, assistant, text, truncated, intents };
        Step { events, action: Action::AssistantMessage(copy) }
    }

    /// How many outputs are awaited.
    pub open spec fn awaited(self) -> int {
        match self@.phase {
            PhaseView::Executing { attempt, assistant, intents } => intents.len() as int,
            _ => 0,
        }
    }

    /// The tools ran; `outputs` in request order.
    pub fn ran(&mut self, outputs: Vec<Output>) -> (r: Step)
        requires
            old(self)@.phase is Executing,
            outputs@.len() == old(self).awaited(),
        ensures
            (final(self)@, r@) == old(self)@.ran(views(outputs@)),
    {
        let mut phase = Phase::Idle;
        std::mem::swap(&mut self.phase, &mut phase);
        match phase {
            Phase::Executing { attempt, assistant, intents } => {
                proof {
                    assert(views(intents@).len() == intents@.len());
                }
                let results = collect_results(&intents, outputs);
                let copy = results.clone();
                self.phase = Phase::Answering { attempt, assistant, results };
                say(Action::ToolResults(copy))
            },
            _ => say(Action::Done(Ok(String::new()))),
        }
    }
}

} // verus!
