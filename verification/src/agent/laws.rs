//! What holds of every run, whatever the provider, the tools and the journal
//! answer.
use vstd::prelude::*;

use super::{
    capped, covers, intent_of, intents_of, result_of, results_of, well_grouped, ActionView,
    AgentErrorView, AgentView, EventView, Group, OutputView, PhaseView, StepView,
    MAX_TOOL_RESULT_BYTES,
};
use super::journal::{RunOutcome, ToolIntentView};
use crate::llm::{
    block_texts, calls_in, BlockView, MessageView, ProviderErrorView, ResponseView, Role, ToolUseView,
};
use crate::llm::wire_laws::{lemma_rank_of_front, rank};
use crate::text::{boundary_below, byte_len, join, lemma_boundary_below};
use crate::tools::tool_named;

verus! {

/// What a run's driver hands to the loop.
pub enum Input {
    Send(Seq<char>),
    Journaled,
    JournalFailed(Seq<char>),
    Responded(ResponseView),
    ProviderFailed(ProviderErrorView),
    Ran(Seq<OutputView>),
}

impl AgentView {
    /// Whether the loop is waiting for this.
    pub open spec fn awaits(self, input: Input) -> bool {
        match input {
            Input::Send(_) => self.phase is Idle,
            Input::Journaled => self.phase.awaits_journal(),
            Input::JournalFailed(_) => self.phase.awaits_journal(),
            Input::Responded(_) => self.phase is Completing,
            Input::ProviderFailed(_) => self.phase is Completing,
            Input::Ran(outputs) => match self.phase {
                PhaseView::Executing { attempt, assistant, intents } => intents.len()
                    == outputs.len(),
                _ => false,
            },
        }
    }

    /// The loop's answer.
    pub open spec fn next(self, input: Input) -> (AgentView, StepView) {
        match input {
            Input::Send(text) => self.send(text),
            Input::Journaled => self.journaled(),
            Input::JournalFailed(message) => self.journal_failed(message),
            Input::Responded(response) => self.responded(response),
            Input::ProviderFailed(e) => self.fail(AgentErrorView::Provider(e)),
            Input::Ran(outputs) => self.ran(outputs),
        }
    }
}

/// Whether a message answers tool calls: one result for each, in order.
pub open spec fn answers(message: MessageView, calls: Seq<ToolUseView>) -> bool {
    &&& message.role == Role::User
    &&& message.content.len() == calls.len()
    &&& forall|k: int|
        0 <= k < calls.len() ==> match #[trigger] message.content[k] {
            BlockView::ToolResult { tool_use_id, content, is_error } => tool_use_id == calls[k].id,
            _ => false,
        }
}

/// The tool calls a message makes.
pub open spec fn calls_of(message: MessageView) -> Seq<ToolUseView> {
    if message.role == Role::Assistant {
        calls_in(message.content)
    } else {
        Seq::empty()
    }
}

/// Whether every message with tool calls is followed by the message that
/// answers them.
pub open spec fn paired(messages: Seq<MessageView>) -> bool {
    forall|i: int|
        0 <= i < messages.len() && calls_of(#[trigger] messages[i]).len() > 0 ==> i + 1
            < messages.len() && answers(messages[i + 1], calls_of(messages[i]))
}

/// Whether intents are those of an assistant message.
pub open spec fn intended(
    assistant: MessageView,
    intents: Seq<ToolIntentView>,
    v: AgentView,
) -> bool {
    assistant.role == Role::Assistant && intents == intents_of(assistant.content, v.tools)
}

/// What each phase knows.
pub open spec fn phase_ok(v: AgentView) -> bool {
    match v.phase {
        PhaseView::Starting { user } => user.role == Role::User,
        PhaseView::Recording { attempt, assistant, text, truncated, intents } => intended(
            assistant,
            intents,
            v,
        ),
        PhaseView::Batching { attempt, assistant, intents } => intended(assistant, intents, v),
        PhaseView::Executing { attempt, assistant, intents } => intended(assistant, intents, v),
        PhaseView::Answering { attempt, assistant, results } => assistant.role == Role::Assistant
            && answers(results, calls_in(assistant.content)),
        _ => true,
    }
}

/// The loop's invariant: the transcript is structurally valid for the next
/// provider call.
pub open spec fn valid(v: AgentView) -> bool {
    paired(v.messages) && phase_ok(v)
}

/// Results in request order answer the calls they were made for.
proof fn lemma_results_answer(
    content: Seq<BlockView>,
    v: AgentView,
    outputs: Seq<OutputView>,
)
    ensures
        answers(results_of(intents_of(content, v.tools), outputs), calls_in(content)),
{
    let calls = calls_in(content);
    let intents = intents_of(content, v.tools);
    let message = results_of(intents, outputs);
    assert forall|k: int| 0 <= k < calls.len() implies match #[trigger] message.content[k] {
        BlockView::ToolResult { tool_use_id, content, is_error } => tool_use_id == calls[k].id,
        _ => false,
    } by {
        assert(message.content[k] == result_of(intents[k], outputs[k]));
        assert(intents[k] == intent_of(calls[k], v.tools));
    }
}

/// A message without calls may follow a valid transcript.
proof fn lemma_paired_push(messages: Seq<MessageView>, m: MessageView)
    requires
        paired(messages),
        calls_of(m).len() == 0,
    ensures
        paired(messages.push(m)),
{
    let n = messages.push(m);
    assert forall|i: int| 0 <= i < n.len() && calls_of(#[trigger] n[i]).len() > 0 implies i + 1
        < n.len() && answers(n[i + 1], calls_of(n[i])) by {
        assert(n[i] == messages[i]);
        assert(n[i + 1] == messages[i + 1]);
    }
}

/// A message with calls and its answer may follow a valid transcript.
proof fn lemma_paired_pair(messages: Seq<MessageView>, m: MessageView, r: MessageView)
    requires
        paired(messages),
        m.role == Role::Assistant,
        answers(r, calls_in(m.content)),
    ensures
        paired(messages.push(m).push(r)),
{
    let n = messages.push(m).push(r);
    assert forall|i: int| 0 <= i < n.len() && calls_of(#[trigger] n[i]).len() > 0 implies i + 1
        < n.len() && answers(n[i + 1], calls_of(n[i])) by {
        if i < messages.len() {
            assert(n[i] == messages[i]);
            assert(n[i + 1] == messages[i + 1]);
        } else if i == messages.len() {
            assert(n[i] == m);
            assert(n[i + 1] == r);
        } else {
            assert(n[i] == r);
        }
    }
}

/// Every tool call gets exactly one result, in request order, right after it:
/// no step of a run breaks this.
pub proof fn law_transcript_stays_valid(v: AgentView, input: Input)
    requires
        valid(v),
        v.awaits(input),
    ensures
        valid(v.next(input).0),
{
    match (input, v.phase) {
        (Input::Journaled, PhaseView::Starting { user }) => {
            lemma_paired_push(v.messages, user);
        },
        (
            Input::Journaled,
            PhaseView::Recording { attempt, assistant, text, truncated, intents },
        ) => {
            if intents.len() == 0 {
                assert(intents.len() == calls_in(assistant.content).len());
                lemma_paired_push(v.messages, assistant);
            }
        },
        (Input::Journaled, PhaseView::Answering { attempt, assistant, results }) => {
            lemma_paired_pair(v.messages, assistant, results);
        },
        (Input::Ran(outputs), PhaseView::Executing { attempt, assistant, intents }) => {
            lemma_results_answer(assistant.content, v, outputs);
        },
        _ => {},
    }
}

/// An assistant message that calls tools enters the transcript only together
/// with its results; the transcript only ever grows.
pub proof fn law_calls_and_results_enter_together(v: AgentView, input: Input)
    requires
        valid(v),
        v.awaits(input),
    ensures
        ({
            let n = v.next(input).0;
            ||| n.messages == v.messages
            ||| exists|m: MessageView| #[trigger]
                v.messages.push(m) == n.messages && calls_of(m).len() == 0
            ||| exists|m: MessageView, r: MessageView| #[trigger]
                v.messages.push(m).push(r) == n.messages && answers(r, calls_of(m))
        }),
{
    let n = v.next(input).0;
    match (input, v.phase) {
        (Input::Journaled, PhaseView::Starting { user }) => {
            assert(v.messages.push(user) == n.messages);
        },
        (
            Input::Journaled,
            PhaseView::Recording { attempt, assistant, text, truncated, intents },
        ) => {
            if intents.len() == 0 {
                assert(intents.len() == calls_in(assistant.content).len());
                assert(v.messages.push(assistant) == n.messages);
            }
        },
        (Input::Journaled, PhaseView::Answering { attempt, assistant, results }) => {
            assert(v.messages.push(assistant).push(results) == n.messages);
        },
        _ => {},
    }
}

/// Tools run only once the journal took exactly their intents.
pub proof fn law_effects_follow_durable_intents(v: AgentView, input: Input)
    requires
        v.awaits(input),
    ensures
        v.next(input).1.action matches ActionView::Execute(batch) ==> {
            &&& input is Journaled
            &&& v.phase matches PhaseView::Batching { attempt, assistant, intents }
            &&& intents == batch
        },
        v.next(input).0.phase matches PhaseView::Batching { attempt, assistant, intents }
            ==> v.next(input).1.action == ActionView::ToolBatch(intents),
{
}

/// The provider is called only once the journal took the step.
pub proof fn law_provider_is_called_after_the_step_is_durable(v: AgentView, input: Input)
    requires
        v.awaits(input),
    ensures
        v.next(input).1.action matches ActionView::Complete(request) ==> {
            &&& input is Journaled
            &&& v.phase is Stepping
            &&& request == v.request()
        },
        v.next(input).0.phase matches PhaseView::Stepping { attempt } ==> v.next(input).1.action
            == ActionView::StepAttempt(attempt),
{
}

/// Whether a run's end is being recorded.
pub open spec fn ending(phase: PhaseView) -> bool {
    phase is Finishing || phase is Failing
}

/// Whether inputs drive the loop through what is left of a run: each is waited
/// for, and the last of them, and no other, ends the run.
pub open spec fn drives(v: AgentView, inputs: Seq<Input>) -> bool
    decreases inputs.len(),
{
    inputs.len() > 0 && v.awaits(inputs[0]) && if inputs.len() == 1 {
        v.next(inputs[0]).1.action is Done
    } else {
        !(v.next(inputs[0]).1.action is Done) && drives(v.next(inputs[0]).0, inputs.drop_first())
    }
}

/// The ends of runs that the journal is asked to record along inputs.
pub open spec fn ends_recorded(v: AgentView, inputs: Seq<Input>) -> Seq<RunOutcome>
    decreases inputs.len(),
{
    if inputs.len() == 0 {
        Seq::empty()
    } else {
        let rest = ends_recorded(v.next(inputs[0]).0, inputs.drop_first());
        match v.next(inputs[0]).1.action {
            ActionView::RunFinished(outcome, usage) => seq![outcome] + rest,
            _ => rest,
        }
    }
}

/// What the loop asks for last along inputs.
pub open spec fn last_action(v: AgentView, inputs: Seq<Input>) -> ActionView
    decreases inputs.len(),
{
    if inputs.len() <= 1 {
        v.next(inputs[0]).1.action
    } else {
        last_action(v.next(inputs[0]).0, inputs.drop_first())
    }
}

/// Whether a result goes with the end that was recorded: an answer with a
/// completed run, a cut answer with a truncated one, any other error with a
/// failed one, except where the journal refused the record of completion.
pub open spec fn agrees(
    result: Result<Seq<char>, AgentErrorView>,
    recorded: RunOutcome,
    last: Input,
) -> bool {
    match result {
        Ok(_) => recorded == RunOutcome::Completed,
        Err(e) => recorded == e.outcome() || (recorded == RunOutcome::Completed && e is Journal
            && last is JournalFailed),
    }
}

/// Once the end is being recorded, one input is left and nothing more is
/// recorded.
proof fn lemma_end_is_last(v: AgentView, inputs: Seq<Input>)
    requires
        ending(v.phase),
        drives(v, inputs),
    ensures
        inputs.len() == 1,
        v.awaits(inputs[0]),
        ends_recorded(v, inputs) == Seq::<RunOutcome>::empty(),
{
    assert(v.next(inputs[0]).1.action is Done);
    reveal_with_fuel(ends_recorded, 2);
}

proof fn lemma_one_end(v: AgentView, inputs: Seq<Input>)
    requires
        !ending(v.phase),
        drives(v, inputs),
    ensures
        ends_recorded(v, inputs).len() == 1,
        last_action(v, inputs) matches ActionView::Done(result) && agrees(
            result,
            ends_recorded(v, inputs)[0],
            inputs.last(),
        ),
    decreases inputs.len(),
{
    let n = v.next(inputs[0]).0;
    let rest = inputs.drop_first();
    law_recorded_outcome_is_reported(v, inputs[0]);
    assert(v.next(inputs[0]).1.action is RunFinished <==> ending(n.phase));
    assert(!(v.next(inputs[0]).1.action is Done));
    assert(rest.last() == inputs.last());
    if ending(n.phase) {
        lemma_end_is_last(n, rest);
        assert(rest.last() == rest[0]);
        assert(last_action(v, inputs) == last_action(n, rest));
        assert(last_action(n, rest) == n.next(rest[0]).1.action);
        assert(ends_recorded(v, inputs) =~= seq![
            v.next(inputs[0]).1.action->RunFinished_0,
        ]);
    } else {
        lemma_one_end(n, rest);
    }
}

/// The end of a run goes to the journal exactly once on every path, whatever the
/// provider, the tools and the journal answer: as completed where the answer is
/// returned, as truncated where it was cut, as failed for every other error. The
/// one error that follows a record of completion is the journal's own, where it
/// refused that record.
pub proof fn law_end_is_recorded_exactly_once(v: AgentView, inputs: Seq<Input>)
    requires
        v.phase is Idle,
        drives(v, inputs),
    ensures
        ends_recorded(v, inputs).len() == 1,
        last_action(v, inputs) matches ActionView::Done(result) && agrees(
            result,
            ends_recorded(v, inputs)[0],
            inputs.last(),
        ),
{
    lemma_one_end(v, inputs);
}

/// The outcome that is recorded is the outcome that is reported.
pub proof fn law_recorded_outcome_is_reported(v: AgentView, input: Input)
    requires
        v.awaits(input),
    ensures
        v.next(input).1.action matches ActionView::RunFinished(outcome, usage) ==> {
            &&& usage == v.next(input).0.usage
            &&& match v.next(input).0.phase {
                PhaseView::Finishing { answer } => outcome == RunOutcome::Completed,
                PhaseView::Failing { error } => outcome == error.outcome() && outcome
                    != RunOutcome::Completed,
                _ => false,
            }
        },
{
}

/// The number of the provider request a run is at.
pub open spec fn at_attempt(phase: PhaseView) -> Option<u32> {
    match phase {
        PhaseView::Stepping { attempt } => Some(attempt),
        PhaseView::Completing { attempt } => Some(attempt),
        PhaseView::Recording { attempt, assistant, text, truncated, intents } => Some(attempt),
        PhaseView::Batching { attempt, assistant, intents } => Some(attempt),
        PhaseView::Executing { attempt, assistant, intents } => Some(attempt),
        PhaseView::Answering { attempt, assistant, results } => Some(attempt),
        _ => None,
    }
}

/// The fuse: a run begins with request number one, goes on with the next
/// number only after a batch was answered, and never passes the limit.
pub proof fn law_turn_fuse(v: AgentView, input: Input)
    requires
        v.awaits(input),
        at_attempt(v.phase) matches Some(n) ==> 1 <= n <= v.config.max_turns,
    ensures
        v.next(input).0.config == v.config,
        at_attempt(v.next(input).0.phase) matches Some(n) ==> {
            &&& 1 <= n <= v.config.max_turns
            &&& match at_attempt(v.phase) {
                Some(m) => n == m || (n == m + 1 && v.phase is Answering),
                None => n == 1 && v.phase is Starting,
            }
        },
{
}

/// A batch is cut into groups in exactly one way: two groupings of the same
/// calls have the same groups.
pub proof fn law_schedule_is_determined(
    a: Seq<Group>,
    b: Seq<Group>,
    parallel: Seq<bool>,
    i: int,
)
    requires
        covers(a, parallel.len() as int),
        covers(b, parallel.len() as int),
        forall|k: int| 0 <= k < a.len() ==> well_grouped(#[trigger] a[k], parallel),
        forall|k: int| 0 <= k < b.len() ==> well_grouped(#[trigger] b[k], parallel),
        0 <= i < a.len(),
    ensures
        i < b.len(),
        a[i] == b[i],
    decreases i,
{
    if i == 0 {
        lemma_end_within(a, parallel.len() as int, 0);
        if b.len() > 0 {
            lemma_end_within(b, parallel.len() as int, 0);
        }
        lemma_same_group(a[0], b[0], parallel);
    } else {
        law_schedule_is_determined(a, b, parallel, i - 1);
        assert(a[i - 1].end == a[i].start);
        lemma_end_within(a, parallel.len() as int, i);
        if i >= b.len() {
            assert(b[i - 1] == b.last());
        } else {
            assert(b[i - 1].end == b[i].start);
            lemma_end_within(b, parallel.len() as int, i);
            lemma_same_group(a[i], b[i], parallel);
        }
    }
}

/// Every group ends within the calls.
proof fn lemma_end_within(groups: Seq<Group>, n: int, i: int)
    requires
        covers(groups, n),
        0 <= i < groups.len(),
    ensures
        groups[i].start < groups[i].end <= n,
    decreases groups.len() - i,
{
    if i < groups.len() - 1 {
        lemma_end_within(groups, n, i + 1);
        assert(groups[i].end == groups[i + 1].start);
    }
}

proof fn lemma_same_group(x: Group, y: Group, parallel: Seq<bool>)
    requires
        x.start == y.start,
        x.start < x.end <= parallel.len(),
        y.start < y.end <= parallel.len(),
        well_grouped(x, parallel),
        well_grouped(y, parallel),
    ensures
        x == y,
{
    let s = x.start as int;
    assert(x.concurrent == parallel[s]);
    assert(y.concurrent == parallel[s]);
    if x.concurrent {
        if x.end < y.end {
            assert(parallel[x.end as int]);
        }
        if y.end < x.end {
            assert(parallel[y.end as int]);
        }
    }
}

/// No result in the transcript is longer than the cap and its note.
pub proof fn law_results_are_capped(s: Seq<char>)
    ensures
        byte_len(s) <= MAX_TOOL_RESULT_BYTES ==> capped(s) == s,
        byte_len(s) > MAX_TOOL_RESULT_BYTES ==> exists|head: Seq<char>| #[trigger]
            head.is_prefix_of(s) && byte_len(head) <= MAX_TOOL_RESULT_BYTES && capped(s) == head
                + "\n[result truncated at 256 KiB]"@,
{
    if byte_len(s) > MAX_TOOL_RESULT_BYTES {
        let n = boundary_below(s, MAX_TOOL_RESULT_BYTES as int);
        lemma_boundary_below(s, MAX_TOOL_RESULT_BYTES as int);
        let head = s.take(n);
        assert(s.take(head.len() as int) =~= head);
        assert(head.is_prefix_of(s));
    }
}

/// The provider is asked with what the session is configured to: whenever a step
/// asks for a completion, it carries the configured model, system prompt and token
/// limit, the whole transcript, and the description of every registered tool, in
/// order.
pub proof fn law_request_carries_the_session(v: AgentView, input: Input)
    requires
        v.awaits(input),
    ensures
        v.next(input).1.action matches ActionView::Complete(request) ==> {
            &&& request.model == v.config.model
            &&& request.system == v.config.system
            &&& request.max_tokens == v.config.max_tokens
            &&& request.messages == v.messages
            &&& request.tools.len() == v.tools.len()
            &&& forall|i: int|
                0 <= i < v.tools.len() ==> (#[trigger] request.tools[i]) == v.tools[i].spec
        },
        input is Journaled && v.phase is Stepping ==> v.next(input).1.action is Complete,
{
}

/// A step changes neither what the session is configured to nor its tools, and
/// only a response adds to what it has used: exactly the response's tokens.
pub proof fn law_steps_keep_the_session(v: AgentView, input: Input)
    requires
        v.awaits(input),
    ensures
        v.next(input).0.config == v.config,
        v.next(input).0.tools == v.tools,
        !(input is Responded) ==> v.next(input).0.usage == v.usage,
        input matches Input::Responded(response) ==> {
            &&& v.usage.input_tokens + response.usage.input_tokens <= u64::MAX
                ==> v.next(input).0.usage.input_tokens == v.usage.input_tokens
                + response.usage.input_tokens
            &&& v.usage.output_tokens + response.usage.output_tokens <= u64::MAX
                ==> v.next(input).0.usage.output_tokens == v.usage.output_tokens
                + response.usage.output_tokens
        },
{
}

/// What the user says is recorded first, then joins the end of the transcript,
/// and the first request of the run ends with it.
pub proof fn law_prompt_reaches_the_provider(v: AgentView, text: Seq<char>)
    requires
        v.phase is Idle,
        v.config.max_turns >= 1,
    ensures
        ({
            let (asked, first) = v.send(text);
            let (stepping, second) = asked.journaled();
            let (completing, third) = stepping.journaled();
            &&& first.action matches ActionView::RunStarted(m)
            &&& m.role == Role::User
            &&& m.content == seq![BlockView::Text { text }]
            &&& asked.messages == v.messages
            &&& second.action == ActionView::StepAttempt(1)
            &&& third.action matches ActionView::Complete(request)
            &&& request.system == v.config.system
            &&& request.model == v.config.model
            &&& request.messages.len() == v.messages.len() + 1
            &&& request.messages.drop_last() == v.messages
            &&& request.messages.last() == m
            &&& completing.messages == request.messages
        }),
{
    let (asked, first) = v.send(text);
    let (stepping, second) = asked.journaled();
    let (completing, third) = stepping.journaled();
    assert(v.messages.push(asked.phase->Starting_user).drop_last() =~= v.messages);
}

/// A response is recorded as it came, and what it says is what the user is told
/// of it, where it says anything.
pub proof fn law_response_is_recorded(v: AgentView, response: ResponseView)
    requires
        v.phase is Completing,
    ensures
        ({
            let step = v.responded(response).1;
            let said = join(block_texts(response.content), "\n"@);
            &&& step.action matches ActionView::AssistantMessage(m)
            &&& m.role == Role::Assistant
            &&& m.content == response.content
            &&& step.events == (if said.len() > 0 {
                seq![EventView::AssistantText { text: said }]
            } else {
                Seq::empty()
            })
            &&& v.responded(response).0.messages == v.messages
        }),
{
}

/// A response without tool calls ends the run: once it is recorded it joins the
/// transcript, the usage so far is told, and the run's result is its text, or
/// the error that holds its text where it was cut.
pub proof fn law_answer_ends_the_run(v: AgentView, response: ResponseView)
    requires
        v.phase is Completing,
        forall|k: int| 0 <= k < response.content.len() ==> !((#[trigger] response.content[k]) is ToolUse),
    ensures
        ({
            let recording = v.responded(response).0;
            let (ending, last) = recording.journaled();
            let (idle, done) = ending.journaled();
            let said = join(block_texts(response.content), "\n"@);
            &&& ending.messages.len() == v.messages.len() + 1
            &&& ending.messages.drop_last() == v.messages
            &&& ending.messages.last().role == Role::Assistant
            &&& ending.messages.last().content == response.content
            &&& last.events == seq![EventView::TurnDone { usage: recording.usage }]
            &&& idle.phase is Idle
            &&& idle.messages == ending.messages
            &&& if response.stop_reason is MaxTokens {
                &&& last.action == ActionView::RunFinished(RunOutcome::Truncated, recording.usage)
                &&& done.action == ActionView::Done(
                    Err(AgentErrorView::Truncated { partial: said }),
                )
            } else {
                &&& last.action == ActionView::RunFinished(RunOutcome::Completed, recording.usage)
                &&& done.action == ActionView::Done(Ok(said))
            }
        }),
{
    lemma_no_calls(response.content);
    let m = MessageView { role: Role::Assistant, content: response.content };
    assert(v.messages.push(m).drop_last() =~= v.messages);
}

/// Content without tool calls asks for none.
proof fn lemma_no_calls(content: Seq<BlockView>)
    requires
        forall|k: int| 0 <= k < content.len() ==> !((#[trigger] content[k]) is ToolUse),
    ensures
        calls_in(content).len() == 0,
    decreases content.len(),
{
    if content.len() > 0 {
        let front = content.drop_last();
        assert forall|k: int| 0 <= k < front.len() implies !((#[trigger] front[k]) is ToolUse) by {
            assert(front[k] == content[k]);
        }
        lemma_no_calls(front);
        assert(!(content[content.len() - 1] is ToolUse));
    }
}

/// Calls are taken from the content in order, one for each.
proof fn lemma_call_at(content: Seq<BlockView>, k: int)
    requires
        0 <= k < content.len(),
        content[k] is ToolUse,
    ensures
        ({
            let at = rank(content, k, |b: BlockView| b is ToolUse) as int;
            &&& 0 <= at < calls_in(content).len()
            &&& calls_in(content)[at].id == content[k]->ToolUse_id
            &&& calls_in(content)[at].name == content[k]->ToolUse_name
            &&& calls_in(content)[at].input == content[k]->ToolUse_input
        }),
    decreases content.len(),
{
    let f = |b: BlockView| b is ToolUse;
    let front = content.drop_last();
    lemma_call_count(content);
    lemma_call_count(front);
    lemma_rank_of_front(content, front, k, f);
    if k < content.len() - 1 {
        assert(front[k] == content[k]);
        lemma_call_at(front, k);
    } else {
        lemma_rank_of_front(content, front, content.len() - 1, f);
    }
}

proof fn lemma_call_count(content: Seq<BlockView>)
    ensures
        calls_in(content).len() == rank(content, content.len() as int, |b: BlockView| b is ToolUse),
    decreases content.len(),
{
    if content.len() > 0 {
        let f = |b: BlockView| b is ToolUse;
        lemma_call_count(content.drop_last());
        lemma_rank_of_front(content, content.drop_last(), content.len() - 1, f);
    }
}

/// Each tool call of a response becomes one intent, in the order of the calls:
/// its id, name and input are the call's, and it may be replayed just where a
/// tool of that name is registered and says so. The same intents are recorded
/// and then run.
pub proof fn law_each_call_becomes_an_intent(v: AgentView, response: ResponseView, k: int)
    requires
        v.phase is Completing,
        0 <= k < response.content.len(),
        response.content[k] is ToolUse,
    ensures
        ({
            let recording = v.responded(response).0;
            let (batching, first) = recording.journaled();
            let (executing, second) = batching.journaled();
            let at = rank(response.content, k, |b: BlockView| b is ToolUse) as int;
            let call = response.content[k];
            &&& first.action matches ActionView::ToolBatch(intents)
            &&& second.action == ActionView::Execute(intents)
            &&& intents.len() == rank(
                response.content,
                response.content.len() as int,
                |b: BlockView| b is ToolUse,
            )
            &&& 0 <= at < intents.len()
            &&& intents[at].tool_use_id == call->ToolUse_id
            &&& intents[at].name == call->ToolUse_name
            &&& intents[at].input == call->ToolUse_input
            &&& intents[at].replay_safe == match tool_named(v.tools, call->ToolUse_name) {
                Some(t) => t.replay_safe,
                None => false,
            }
            &&& batching.messages == v.messages
            &&& executing.messages == v.messages
        }),
{
    lemma_call_at(response.content, k);
    lemma_call_count(response.content);
}

/// Each call is answered under its own id with its own output: as it is where it
/// fits, cut at the cap where it does not, and as an error just where the tool
/// failed. The calling message and its results then join the transcript
/// together, and the next request has the next number, unless the fuse blows.
pub proof fn law_each_output_becomes_a_result(v: AgentView, outputs: Seq<OutputView>)
    requires
        v.phase is Executing,
        outputs.len() == v.phase->Executing_intents.len(),
    ensures
        ({
            let intents = v.phase->Executing_intents;
            let (answering, first) = v.ran(outputs);
            let (stepping, second) = answering.journaled();
            let attempt = v.phase->Executing_attempt;
            &&& first.action matches ActionView::ToolResults(m)
            &&& m.role == Role::User
            &&& m.content.len() == outputs.len()
            &&& forall|i: int|
                0 <= i < outputs.len() ==> {
                    &&& (#[trigger] m.content[i]) matches BlockView::ToolResult {
                        tool_use_id,
                        content,
                        is_error,
                    }
                    &&& tool_use_id == intents[i].tool_use_id
                    &&& is_error == outputs[i].is_error
                    &&& byte_len(outputs[i].text) <= MAX_TOOL_RESULT_BYTES ==> content
                        == outputs[i].text
                    &&& byte_len(outputs[i].text) > MAX_TOOL_RESULT_BYTES ==> content
                        == outputs[i].text.take(
                        boundary_below(outputs[i].text, MAX_TOOL_RESULT_BYTES as int),
                    ) + "\n[result truncated at 256 KiB]"@
                }
            &&& stepping.messages.len() == v.messages.len() + 2
            &&& stepping.messages.take(v.messages.len() as int) == v.messages
            &&& stepping.messages[v.messages.len() as int] == v.phase->Executing_assistant
            &&& stepping.messages.last() == m
            &&& attempt < v.config.max_turns ==> second.action == ActionView::StepAttempt(
                (attempt + 1) as u32,
            )
            &&& attempt >= v.config.max_turns ==> {
                &&& second.action == ActionView::RunFinished(RunOutcome::Failed, v.usage)
                &&& stepping.journaled().1.action == ActionView::Done(
                    Err(AgentErrorView::MaxTurns(v.config.max_turns)),
                )
            }
        }),
{
    let intents = v.phase->Executing_intents;
    let stepping = v.ran(outputs).0.journaled().0;
    assert(stepping.messages.take(v.messages.len() as int) =~= v.messages);
    let m = v.ran(outputs).0.phase->Answering_results;
    assert forall|i: int| 0 <= i < outputs.len() implies (#[trigger] m.content[i]) == result_of(
        intents[i],
        outputs[i],
    ) by {}
}

/// What goes wrong is what the run fails with: a provider's error, or the
/// journal's words; the transcript stays as it was.
pub proof fn law_failures_are_reported(v: AgentView, input: Input)
    requires
        v.awaits(input),
    ensures
        input matches Input::ProviderFailed(e) ==> {
            let (failing, step) = v.next(input);
            &&& step.action == ActionView::RunFinished(RunOutcome::Failed, v.usage)
            &&& failing.journaled().1.action == ActionView::Done(Err(AgentErrorView::Provider(e)))
            &&& failing.messages == v.messages
        },
        input matches Input::JournalFailed(m) ==> {
            let (failing, step) = v.next(input);
            &&& failing.messages == v.messages
            &&& !ending(v.phase) ==> {
                &&& step.action == ActionView::RunFinished(RunOutcome::Failed, v.usage)
                &&& failing.journaled().1.action == ActionView::Done(
                    Err(AgentErrorView::Journal(m)),
                )
            }
            &&& v.phase is Finishing ==> step.action == ActionView::Done(
                Err(AgentErrorView::Journal(m)),
            )
            &&& v.phase matches PhaseView::Failing { error } ==> step.action == ActionView::Done(
                Err(error),
            )
        },
{
}

} // verus!
