use bullpen::agent::journal::{JournalError, NullJournal, RunOutcome, ToolIntent};
use bullpen::agent::{
    cap_result, schedule, tool_end, tool_output, tool_start, unknown_tool, Action, Agent,
    AgentConfig, AgentError, Event, Output, MAX_TOOL_RESULT_BYTES,
};
use bullpen::json::{parse, Json};
use bullpen::llm::{
    ContentBlock, ProviderError, Request, Response, StopReason, ToolSpec, Usage,
};
use bullpen::tools::{Registry, ToolError, ToolInfo};

fn json(text: &str) -> Json {
    parse(text).unwrap()
}

fn response(content: Vec<ContentBlock>, stop_reason: StopReason) -> Response {
    Response {
        content,
        stop_reason,
        usage: Usage {
            input_tokens: 10,
            output_tokens: 5,
        },
    }
}

fn text_response(text: &str, stop_reason: StopReason) -> Response {
    response(vec![ContentBlock::Text { text: text.into() }], stop_reason)
}

fn call(id: &str, name: &str, value: u64) -> ContentBlock {
    ContentBlock::ToolUse {
        id: id.into(),
        name: name.into(),
        input: json(&format!("{{\"value\": {value}}}")),
    }
}

fn tool_response(id: &str, name: &str, value: u64) -> Response {
    response(
        vec![
            ContentBlock::Text {
                text: "calling".into(),
            },
            call(id, name, value),
        ],
        StopReason::ToolUse,
    )
}

fn agent_with(config: AgentConfig) -> Agent {
    let mut registry = Registry::new();
    registry.register(ToolInfo {
        spec: ToolSpec {
            name: "echo".into(),
            description: "echoes".into(),
            input_schema: json("{\"type\": \"object\"}"),
        },
        replay_safe: false,
    });
    Agent::new(registry, config)
}

fn agent() -> Agent {
    agent_with(AgentConfig::default())
}

/// What a run needs from outside, and what it did there.
struct World {
    script: Vec<Response>,
    seen: Vec<Request>,
    calls: Vec<String>,
    events: Vec<Event>,
    failing: Option<&'static str>,
}

impl World {
    fn new(mut script: Vec<Response>) -> Self {
        script.reverse();
        World {
            script,
            seen: Vec::new(),
            calls: Vec::new(),
            events: Vec::new(),
            failing: None,
        }
    }

    fn record(&mut self, what: String) -> Result<(), JournalError> {
        let refused = self.failing == Some(what.as_str());
        self.calls.push(what);
        if refused {
            Err(JournalError("disk full".into()))
        } else {
            NullJournal.record()
        }
    }

    fn run_tool(&mut self, known: bool, intent: &ToolIntent) -> Output {
        self.events.push(tool_start(intent));
        let (text, is_error) = if known {
            let value = intent.input.get("value").and_then(|v| v.as_u64()).unwrap();
            tool_output(Ok(format!("echo: {value}")))
        } else {
            unknown_tool(&intent.name)
        };
        self.events.push(tool_end(intent, &text, is_error));
        Output { text, is_error }
    }

    fn drive(&mut self, agent: &mut Agent, text: &str) -> Result<String, AgentError> {
        let mut step = agent.send(text);
        loop {
            self.events.append(&mut step.events);
            step = match step.action {
                Action::RunStarted(_) => {
                    let r = self.record("run_started".into());
                    agent.journaled(r)
                }
                Action::StepAttempt(n) => {
                    let r = self.record(format!("step:{n}"));
                    agent.journaled(r)
                }
                Action::AssistantMessage(_) => {
                    let r = self.record("assistant".into());
                    agent.journaled(r)
                }
                Action::ToolBatch(intents) => {
                    let r = self.record(format!("intents:{}", intents.len()));
                    agent.journaled(r)
                }
                Action::ToolResults(_) => {
                    let r = self.record("results".into());
                    agent.journaled(r)
                }
                Action::RunFinished(outcome, _) => {
                    let r = self.record(format!("finished:{}", outcome.as_str()));
                    agent.journaled(r)
                }
                Action::Complete(request) => {
                    self.seen.push(request);
                    let answer = self
                        .script
                        .pop()
                        .ok_or_else(|| ProviderError::Failure("script exhausted".into()));
                    agent.responded(answer)
                }
                Action::Execute(intents) => {
                    let outputs = intents
                        .iter()
                        .map(|intent| self.run_tool(intent.name == "echo", intent))
                        .collect();
                    agent.ran(outputs)
                }
                Action::Done(result) => return result,
            };
        }
    }
}

#[test]
fn simple_text_turn() {
    let mut world = World::new(vec![text_response("hello", StopReason::EndTurn)]);
    let mut agent = agent();
    let out = world.drive(&mut agent, "hi").unwrap();
    assert_eq!(out, "hello");
    assert_eq!(agent.messages().len(), 2);
    assert_eq!(agent.usage().output_tokens, 5);
}

#[test]
fn tool_roundtrip_pairs_result_with_use() {
    let mut world = World::new(vec![
        tool_response("tu_1", "echo", 42),
        text_response("done", StopReason::EndTurn),
    ]);
    let mut agent = agent();
    let out = world.drive(&mut agent, "go").unwrap();
    assert_eq!(out, "done");

    // user, assistant(tool_use), user(tool_result), assistant
    let msgs = agent.messages();
    assert_eq!(msgs.len(), 4);
    let ContentBlock::ToolResult {
        tool_use_id,
        content,
        is_error,
    } = &msgs[2].content[0]
    else {
        panic!("expected tool result, got {:?}", msgs[2]);
    };
    assert_eq!(tool_use_id, "tu_1");
    assert_eq!(content, "echo: 42");
    assert!(!is_error);

    // The second provider call must have seen the paired result.
    assert_eq!(world.seen[1].messages.len(), 3);
}

#[test]
fn unknown_tool_yields_error_result_and_loop_continues() {
    let mut world = World::new(vec![
        tool_response("tu_1", "nonexistent", 0),
        text_response("recovered", StopReason::EndTurn),
    ]);
    let mut agent = agent();
    let out = world.drive(&mut agent, "go").unwrap();
    assert_eq!(out, "recovered");
    let ContentBlock::ToolResult {
        is_error, content, ..
    } = &agent.messages()[2].content[0]
    else {
        panic!("expected tool result");
    };
    assert!(is_error);
    assert!(content.contains("unknown tool"));
}

#[test]
fn max_tokens_stop_is_distinct_error_with_partial() {
    let mut world = World::new(vec![text_response("cut off", StopReason::MaxTokens)]);
    let err = world.drive(&mut agent(), "go").unwrap_err();
    let AgentError::Truncated { partial } = err else {
        panic!("expected Truncated, got {err:?}");
    };
    assert_eq!(partial, "cut off");
    assert_eq!(world.calls.last().unwrap(), "finished:truncated");
}

#[test]
fn max_turns_fuse_trips() {
    // A provider that always asks for another tool call.
    let script = (0..3)
        .map(|i| tool_response(&format!("tu_{i}"), "echo", i))
        .collect();
    let mut world = World::new(script);
    let mut config = AgentConfig::default();
    config.max_turns = 3;
    let mut agent = agent_with(config);
    let err = world.drive(&mut agent, "go").unwrap_err();
    assert!(matches!(err, AgentError::MaxTurns(3)));
    // Fuse or not, the transcript stays structurally valid: every assistant
    // tool_use message is followed by its results message.
    for pair in agent.messages().windows(2) {
        if pair[0]
            .content
            .iter()
            .any(|b| matches!(b, ContentBlock::ToolUse { .. }))
        {
            assert!(pair[1]
                .content
                .iter()
                .all(|b| matches!(b, ContentBlock::ToolResult { .. })));
        }
    }
}

#[test]
fn batches_keep_request_order() {
    let batch = response(
        vec![
            call("tu_1", "echo", 1),
            call("tu_2", "echo", 2),
            call("tu_3", "echo", 3),
        ],
        StopReason::ToolUse,
    );
    let mut world = World::new(vec![batch, text_response("done", StopReason::EndTurn)]);
    let mut agent = agent();
    world.drive(&mut agent, "go").unwrap();
    let results: Vec<String> = agent.messages()[2]
        .content
        .iter()
        .map(|b| match b {
            ContentBlock::ToolResult { content, .. } => content.clone(),
            other => panic!("expected result, got {other:?}"),
        })
        .collect();
    assert_eq!(results, vec!["echo: 1", "echo: 2", "echo: 3"]);
}

#[test]
fn adjacent_parallel_safe_calls_share_a_group_and_the_rest_stay_serial() {
    let groups: Vec<(usize, usize, bool)> = schedule(&vec![true, true, false, true, false, false])
        .iter()
        .map(|g| (g.start, g.end, g.concurrent))
        .collect();
    assert_eq!(
        groups,
        vec![
            (0, 2, true),
            (2, 3, false),
            (3, 4, true),
            (4, 5, false),
            (5, 6, false)
        ]
    );
    assert!(schedule(&Vec::new()).is_empty());
}

#[test]
fn parallelism_is_at_least_one() {
    let mut config = AgentConfig::default();
    assert_eq!(config.max_parallel_tools, 8);
    config.max_parallel_tools = 0;
    assert_eq!(agent_with(config).parallelism(), 1);
}

#[test]
fn journal_sees_protocol_in_intent_order() {
    let mut world = World::new(vec![
        tool_response("tu_1", "echo", 1),
        text_response("done", StopReason::EndTurn),
    ]);
    world.drive(&mut agent(), "go").unwrap();
    assert_eq!(
        world.calls,
        vec![
            "run_started",
            "step:1",
            "assistant",
            "intents:1",
            "results",
            "step:2",
            "assistant",
            "finished:completed",
        ]
    );
}

#[test]
fn journal_failure_faults_the_run() {
    let mut world = World::new(vec![text_response("hi", StopReason::EndTurn)]);
    world.failing = Some("run_started");
    let err = world.drive(&mut agent(), "go").unwrap_err();
    assert!(matches!(err, AgentError::Journal(_)));
    assert!(world.seen.is_empty());
}

#[test]
fn a_run_that_fails_to_start_is_recorded_as_failed_once() {
    let mut world = World::new(vec![text_response("hi", StopReason::EndTurn)]);
    world.failing = Some("run_started");
    assert!(world.drive(&mut agent(), "go").is_err());
    assert_eq!(world.calls, vec!["run_started", "finished:failed"]);
}

#[test]
fn an_end_that_cannot_be_recorded_is_not_recorded_again() {
    let mut world = World::new(vec![text_response("hi", StopReason::EndTurn)]);
    world.failing = Some("finished:completed");
    let err = world.drive(&mut agent(), "go").unwrap_err();
    assert!(matches!(err, AgentError::Journal(_)));
    assert_eq!(
        world.calls,
        vec!["run_started", "step:1", "assistant", "finished:completed"]
    );

    // Nor where the run failed: the failure itself is what is reported.
    let mut world = World::new(vec![]);
    world.failing = Some("finished:failed");
    let err = world.drive(&mut agent(), "go").unwrap_err();
    assert!(matches!(err, AgentError::Provider(_)));
    assert_eq!(world.calls, vec!["run_started", "step:1", "finished:failed"]);
}

#[test]
fn no_tool_runs_before_its_intent_is_durable() {
    let mut world = World::new(vec![tool_response("tu_1", "echo", 1)]);
    world.failing = Some("intents:1");
    let err = world.drive(&mut agent(), "go").unwrap_err();
    assert!(matches!(err, AgentError::Journal(_)));
    assert!(!world
        .events
        .iter()
        .any(|e| matches!(e, Event::ToolStart { .. })));
}

#[test]
fn a_provider_failure_ends_the_run() {
    let mut world = World::new(vec![]);
    let err = world.drive(&mut agent(), "go").unwrap_err();
    assert!(matches!(err, AgentError::Provider(_)));
    assert_eq!(world.calls.last().unwrap(), "finished:failed");
}

#[test]
fn events_stream_covers_tool_lifecycle() {
    let mut world = World::new(vec![
        tool_response("tu_1", "echo", 1),
        text_response("done", StopReason::EndTurn),
    ]);
    world.drive(&mut agent(), "go").unwrap();
    let kinds: Vec<&str> = world
        .events
        .iter()
        .map(|ev| match ev {
            Event::AssistantText { .. } => "text",
            Event::ToolStart { .. } => "tool_start",
            Event::ToolEnd { .. } => "tool_end",
            Event::TurnDone { .. } => "done",
        })
        .collect();
    assert_eq!(
        kinds,
        vec!["text", "tool_start", "tool_end", "text", "done"]
    );
}

#[test]
fn results_are_capped() {
    assert_eq!(cap_result("short".into()), "short");
    let capped = cap_result("☃".repeat(MAX_TOOL_RESULT_BYTES));
    assert!(capped.ends_with("\n[result truncated at 256 KiB]"));
    assert!(capped.len() <= MAX_TOOL_RESULT_BYTES + 40);
    let (text, is_error) = tool_output(Err(ToolError::Failed("no".into())));
    assert_eq!((text.as_str(), is_error), ("no", true));
}

#[test]
fn outcomes_are_stable_strings() {
    assert_eq!(RunOutcome::Completed.as_str(), "completed");
    assert_eq!(RunOutcome::Truncated.as_str(), "truncated");
    assert_eq!(RunOutcome::Failed.as_str(), "failed");
}
