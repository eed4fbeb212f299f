use bullpen::json::{parse, to_text, Json};
use bullpen::llm::anthropic::{Anthropic, AuthStyle, WireBlock};
use bullpen::llm::chatcompletions::{ChatCompletions, WireChoice, WireToolCall};
use bullpen::llm::codex::{
    build_request, parse_stream, replayable_reasoning, to_input, to_response, Codex, CodexToken,
    CODEX_ENDPOINT,
};
use bullpen::llm::retry::{
    after_attempt, delay, retry_after, retryable_status, Attempt, Duration, Next,
};
use bullpen::llm::sse::data_lines;
use bullpen::llm::{
    ContentBlock, Message, ProviderError, Request, Response, Role, StopReason, ToolSpec, Usage,
};
use bullpen::llm::{anthropic, chatcompletions};

fn json(text: &str) -> Json {
    parse(text).unwrap()
}

/// The value at a path of field names and list places.
fn at<'a>(v: &'a Json, path: &[&str]) -> &'a Json {
    let mut here = v;
    for step in path {
        here = match step.parse::<usize>() {
            Ok(i) => &here.as_array().unwrap()[i],
            Err(_) => here.get(step).unwrap(),
        };
    }
    here
}

fn text_at<'a>(v: &'a Json, path: &[&str]) -> &'a str {
    at(v, path).as_str().unwrap()
}

fn usage(input_tokens: u64, output_tokens: u64) -> Usage {
    Usage {
        input_tokens,
        output_tokens,
    }
}

// ── Retries and streams ─────────────────────────────────────────────────────

#[test]
fn statuses() {
    assert!(retryable_status(429));
    assert!(retryable_status(529));
    assert!(retryable_status(500));
    assert!(retryable_status(503));
    assert!(!retryable_status(400));
    assert!(!retryable_status(401));
    assert!(!retryable_status(404));
}

#[test]
fn backoff_caps() {
    assert_eq!(delay(0, None), Duration::from_millis(500));
    assert_eq!(delay(1, None), Duration::from_millis(1000));
    assert_eq!(delay(10, None), Duration::from_millis(16_000));
    assert_eq!(
        delay(0, Some(Duration::from_secs(3))),
        Duration::from_secs(3)
    );
}

#[test]
fn extracts_data_skips_noise() {
    let body = "event: ping\n\ndata: {\"a\":1}\n\ndata:\n\ndata: [DONE]\n\ndata:{\"b\":2}\n";
    let got = data_lines(body);
    assert_eq!(got, vec!["{\"a\":1}", "{\"b\":2}"]);
}

#[test]
fn attempts_end_after_the_last_retry() {
    assert!(matches!(after_attempt(0, Attempt::Success), Next::Accept));
    let busy = || Attempt::Status {
        status: 429,
        retry_after: Some(7),
    };
    match after_attempt(0, busy()) {
        Next::Retry(wait) => assert_eq!(wait, Duration::from_secs(7)),
        other => panic!("{other:?}"),
    }
    assert!(matches!(after_attempt(4, busy()), Next::GiveUp));
    let refused = Attempt::Status {
        status: 401,
        retry_after: None,
    };
    assert!(matches!(after_attempt(0, refused), Next::GiveUp));
}

// ── The Messages API ────────────────────────────────────────────────────────

#[test]
fn retry_after_names_whole_seconds() {
    assert_eq!(retry_after(None), None);
    assert_eq!(retry_after(Some("7")), Some(7));
    assert_eq!(retry_after(Some("+7")), "+7".parse().ok());
    for header in ["", "soon", "-1", "1.5", " 7", "18446744073709551616"] {
        assert_eq!(retry_after(Some(header)), header.parse().ok(), "{header:?}");
        assert_eq!(retry_after(Some(header)), None, "{header:?}");
    }
}

fn messages_request() -> Request {
    Request {
        model: "sonnet-5".into(),
        system: "be terse".into(),
        messages: vec![
            Message::user_text("hi"),
            Message {
                role: Role::Assistant,
                content: vec![
                    ContentBlock::Text {
                        text: "checking".into(),
                    },
                    ContentBlock::ToolUse {
                        id: "tu_1".into(),
                        name: "bash".into(),
                        input: json("{\"command\": \"ls\"}"),
                    },
                ],
            },
            Message::tool_results(vec![ContentBlock::ToolResult {
                tool_use_id: "tu_1".into(),
                content: "README.md".into(),
                is_error: false,
            }]),
        ],
        tools: vec![ToolSpec {
            name: "bash".into(),
            description: "run a command".into(),
            input_schema: json("{\"type\": \"object\"}"),
        }],
        max_tokens: 512,
    }
}

#[test]
fn anthropic_request_wire_shape() {
    let wire = anthropic::to_wire(&messages_request(), false);
    assert_eq!(text_at(&wire, &["model"]), "sonnet-5");
    assert_eq!(text_at(&wire, &["system"]), "be terse");
    assert_eq!(text_at(&wire, &["messages", "0", "role"]), "user");
    assert_eq!(
        text_at(&wire, &["messages", "1", "content", "1", "type"]),
        "tool_use"
    );
    assert_eq!(
        text_at(&wire, &["messages", "2", "content", "0", "type"]),
        "tool_result"
    );
    assert_eq!(
        text_at(&wire, &["messages", "2", "content", "0", "tool_use_id"]),
        "tu_1"
    );
    // is_error: false is elided from the wire
    assert!(at(&wire, &["messages", "2", "content", "0"])
        .get("is_error")
        .is_none());
    assert_eq!(text_at(&wire, &["tools", "0", "name"]), "bash");
    assert_eq!(at(&wire, &["max_tokens"]).as_u64(), Some(512));
}

#[test]
fn caching_marks_system_prompt() {
    let plain = anthropic::to_wire(&messages_request(), false);
    assert_eq!(text_at(&plain, &["system"]), "be terse");

    let cached = anthropic::to_wire(&messages_request(), true);
    assert_eq!(text_at(&cached, &["system", "0", "type"]), "text");
    assert_eq!(text_at(&cached, &["system", "0", "text"]), "be terse");
    assert_eq!(
        text_at(&cached, &["system", "0", "cache_control", "type"]),
        "ephemeral"
    );
}

#[test]
fn glm_and_kimi_reuse_the_wire() {
    let glm = Anthropic::glm("k");
    assert_eq!(glm.name(), "glm");
    assert_eq!(glm.auth, AuthStyle::XApiKey);
    let kimi = Anthropic::kimi("k");
    assert_eq!(kimi.name(), "kimi");
    assert_eq!(kimi.auth, AuthStyle::Bearer);
    assert_eq!(
        kimi.auth_header(),
        ("authorization".to_string(), "Bearer k".to_string())
    );
    // Both produce identical wire bodies to Anthropic proper.
    let wire = anthropic::to_wire(&messages_request(), false);
    assert_eq!(at(&wire, &["messages"]).as_array().unwrap().len(), 3);
}

#[test]
fn response_parses_tool_use() {
    let wire = anthropic::WireResponse {
        content: vec![
            WireBlock::Text {
                text: "running".into(),
            },
            WireBlock::ToolUse {
                id: "tu_9".into(),
                name: "bash".into(),
                input: json("{\"command\": \"pwd\"}"),
            },
        ],
        stop_reason: Some("tool_use".into()),
        usage: usage(10, 20),
    };
    let resp = anthropic::from_wire(&wire).unwrap();
    assert!(matches!(resp.stop_reason, StopReason::ToolUse));
    assert_eq!(resp.content.len(), 2);
    assert_eq!(resp.usage.output_tokens, 20);
    let calls = resp.tool_uses();
    assert_eq!(calls.len(), 1);
    assert_eq!(calls[0].id, "tu_9");
}

#[test]
fn response_unknown_blocks_dropped() {
    let wire = anthropic::WireResponse {
        content: vec![
            WireBlock::Unknown,
            WireBlock::Text {
                text: "done".into(),
            },
        ],
        stop_reason: Some("end_turn".into()),
        usage: usage(1, 2),
    };
    let resp = anthropic::from_wire(&wire).unwrap();
    assert_eq!(resp.content.len(), 1);
    assert!(matches!(resp.stop_reason, StopReason::EndTurn));
}

#[test]
fn response_missing_stop_reason_is_malformed() {
    let wire = anthropic::WireResponse {
        content: vec![],
        stop_reason: None,
        usage: usage(0, 0),
    };
    assert!(matches!(
        anthropic::from_wire(&wire),
        Err(ProviderError::Malformed(_))
    ));
}

// ── Chat completions ────────────────────────────────────────────────────────

fn chat_request() -> Request {
    Request {
        model: "m".into(),
        system: "be terse".into(),
        messages: vec![
            Message::user_text("hi"),
            Message {
                role: Role::Assistant,
                content: vec![
                    ContentBlock::Text {
                        text: "checking".into(),
                    },
                    ContentBlock::ToolUse {
                        id: "call_1".into(),
                        name: "bash".into(),
                        input: json("{\"command\": \"ls\"}"),
                    },
                    ContentBlock::Opaque {
                        provider: "codex".into(),
                        data: json("{\"type\": \"reasoning\"}"),
                    },
                ],
            },
            Message {
                role: Role::User,
                content: vec![
                    ContentBlock::ToolResult {
                        tool_use_id: "call_1".into(),
                        content: "README.md".into(),
                        is_error: false,
                    },
                    ContentBlock::Text {
                        text: "now continue".into(),
                    },
                ],
            },
        ],
        tools: vec![ToolSpec {
            name: "bash".into(),
            description: "run".into(),
            input_schema: json("{\"type\": \"object\"}"),
        }],
        max_tokens: 512,
    }
}

#[test]
fn chatcompletions_request_wire_shape() {
    let wire = chatcompletions::to_wire(&chat_request());
    // system, user, assistant(+tool_calls), tool, user
    assert_eq!(at(&wire, &["messages"]).as_array().unwrap().len(), 5);
    assert_eq!(text_at(&wire, &["messages", "0", "role"]), "system");
    assert_eq!(text_at(&wire, &["messages", "2", "role"]), "assistant");
    assert_eq!(
        text_at(&wire, &["messages", "2", "tool_calls", "0", "id"]),
        "call_1"
    );
    assert_eq!(
        text_at(
            &wire,
            &["messages", "2", "tool_calls", "0", "function", "arguments"]
        ),
        "{\"command\":\"ls\"}"
    );
    // an opaque block from another provider is not serialized anywhere
    assert!(!to_text(&wire).contains("reasoning"));
    // the tool result precedes the follow-up user text and carries the call id
    assert_eq!(text_at(&wire, &["messages", "3", "role"]), "tool");
    assert_eq!(text_at(&wire, &["messages", "3", "tool_call_id"]), "call_1");
    assert_eq!(text_at(&wire, &["messages", "4", "role"]), "user");
    assert_eq!(text_at(&wire, &["messages", "4", "content"]), "now continue");
    assert_eq!(text_at(&wire, &["tools", "0", "function", "name"]), "bash");
}

fn only_choice(choice: WireChoice, usage: Option<Usage>) -> Response {
    chatcompletions::from_wire(&chatcompletions::WireResponse {
        choices: vec![choice],
        usage,
    })
    .unwrap()
}

#[test]
fn response_with_tool_calls() {
    let resp = only_choice(
        WireChoice {
            content: None,
            tool_calls: vec![WireToolCall {
                id: "call_9".into(),
                name: "bash".into(),
                arguments: "{\"command\":\"pwd\"}".into(),
            }],
            finish_reason: Some("tool_calls".into()),
        },
        Some(usage(7, 3)),
    );
    assert!(matches!(resp.stop_reason, StopReason::ToolUse));
    let ContentBlock::ToolUse { id, name, input } = &resp.content[0] else {
        panic!("expected tool use");
    };
    assert_eq!(id, "call_9");
    assert_eq!(name, "bash");
    assert_eq!(text_at(input, &["command"]), "pwd");
    assert_eq!(resp.usage.input_tokens, 7);
}

#[test]
fn arguments_that_are_no_json_are_malformed() {
    let wire = chatcompletions::WireResponse {
        choices: vec![WireChoice {
            content: None,
            tool_calls: vec![WireToolCall {
                id: "call_9".into(),
                name: "bash".into(),
                arguments: "{".into(),
            }],
            finish_reason: Some("tool_calls".into()),
        }],
        usage: None,
    };
    assert!(matches!(
        chatcompletions::from_wire(&wire),
        Err(ProviderError::Malformed(_))
    ));
}

#[test]
fn response_plain_text() {
    let resp = only_choice(
        WireChoice {
            content: Some("hello".into()),
            tool_calls: vec![],
            finish_reason: Some("stop".into()),
        },
        None,
    );
    assert!(matches!(resp.stop_reason, StopReason::EndTurn));
    assert_eq!(resp.content.len(), 1);
    assert!(matches!(&resp.content[0], ContentBlock::Text { text } if text == "hello"));
}

#[test]
fn length_finish_maps_to_max_tokens() {
    let resp = only_choice(
        WireChoice {
            content: Some("cut".into()),
            tool_calls: vec![],
            finish_reason: Some("length".into()),
        },
        None,
    );
    assert!(matches!(resp.stop_reason, StopReason::MaxTokens));
}

#[test]
fn empty_choices_malformed() {
    let wire = chatcompletions::WireResponse {
        choices: vec![],
        usage: None,
    };
    assert!(chatcompletions::from_wire(&wire).is_err());
}

#[test]
fn chat_requests_go_below_the_base_url() {
    assert_eq!(
        ChatCompletions::openrouter("k").url(),
        "https://openrouter.ai/api/v1/chat/completions"
    );
    assert_eq!(ChatCompletions::new("n", "http://h", "k").name(), "n");
}

// ── Codex ───────────────────────────────────────────────────────────────────

fn codex_request() -> Request {
    Request {
        model: "m".into(),
        system: "be terse".into(),
        messages: vec![
            Message::user_text("hi"),
            Message {
                role: Role::Assistant,
                content: vec![
                    ContentBlock::Opaque {
                        provider: "codex".into(),
                        data: json(
                            "{\"type\": \"reasoning\", \"id\": \"rs_1\", \
                             \"encrypted_content\": \"abc\", \"summary\": []}",
                        ),
                    },
                    ContentBlock::Text {
                        text: "running".into(),
                    },
                    ContentBlock::ToolUse {
                        id: "call_1".into(),
                        name: "bash".into(),
                        input: json("{\"command\": \"ls\"}"),
                    },
                ],
            },
            Message::tool_results(vec![ContentBlock::ToolResult {
                tool_use_id: "call_1".into(),
                content: String::new(),
                is_error: false,
            }]),
        ],
        tools: vec![ToolSpec {
            name: "bash".into(),
            description: "run".into(),
            input_schema: json("{\"type\": \"object\"}"),
        }],
        max_tokens: 256,
    }
}

#[test]
fn request_shape() {
    let wire = build_request(&codex_request());
    assert_eq!(text_at(&wire, &["instructions"]), "be terse");
    assert_eq!(at(&wire, &["store"]).as_bool(), Some(false));
    assert_eq!(at(&wire, &["stream"]).as_bool(), Some(true));
    assert_eq!(
        text_at(&wire, &["include", "0"]),
        "reasoning.encrypted_content"
    );
    // Responses tools are flat, not nested under "function".
    assert_eq!(text_at(&wire, &["tools", "0", "name"]), "bash");

    // user message, reasoning replay, assistant text, function_call, output
    assert_eq!(at(&wire, &["input"]).as_array().unwrap().len(), 5);
    assert_eq!(text_at(&wire, &["input", "0", "type"]), "message");
    assert_eq!(text_at(&wire, &["input", "1", "type"]), "reasoning");
    assert_eq!(text_at(&wire, &["input", "2", "type"]), "message");
    assert_eq!(text_at(&wire, &["input", "3", "type"]), "function_call");
    assert_eq!(
        text_at(&wire, &["input", "3", "arguments"]),
        "{\"command\":\"ls\"}"
    );
    // empty output must still be present
    assert_eq!(
        text_at(&wire, &["input", "4", "type"]),
        "function_call_output"
    );
    assert_eq!(text_at(&wire, &["input", "4", "output"]), "");
}

#[test]
fn foreign_and_invalid_opaque_not_replayed() {
    let mut req = codex_request();
    req.messages[1].content[0] = ContentBlock::Opaque {
        provider: "someone-else".into(),
        data: json("{\"type\": \"reasoning\", \"id\": \"x\", \"encrypted_content\": \"y\"}"),
    };
    let wire = build_request(&req);
    assert!(!at(&wire, &["input"])
        .as_array()
        .unwrap()
        .iter()
        .any(|i| i.str_field("type") == Some("reasoning")));

    // summary present but not an array: not replayable
    assert!(!replayable_reasoning(&json(
        "{\"type\": \"reasoning\", \"id\": \"x\", \"encrypted_content\": \"y\", \"summary\": null}"
    )));
    assert!(replayable_reasoning(&json(
        "{\"type\": \"reasoning\", \"id\": \"x\", \"encrypted_content\": \"y\"}"
    )));
}

#[test]
fn reasoning_is_replayed_where_it_stood() {
    let reasoning = "{\"type\": \"reasoning\", \"id\": \"rs_1\", \"encrypted_content\": \"zzz\"}";
    let says = |text: &str| {
        format!(
            "{{\"type\": \"message\", \"content\": \
             [{{\"type\": \"output_text\", \"text\": \"{text}\"}}]}}"
        )
    };
    let items = [
        says("first"),
        reasoning.to_string(),
        "{\"type\": \"function_call\", \"call_id\": \"c1\", \"name\": \"bash\", \
          \"arguments\": \"{}\"}"
            .to_string(),
        says("second"),
        // No encrypted content: the backend would refuse it.
        "{\"type\": \"reasoning\", \"id\": \"rs_2\"}".to_string(),
        says("third"),
        reasoning.replace("rs_1", "rs_3"),
    ];
    let body = json(&format!("{{\"output\": [{}]}}", items.join(",")));
    let answer = to_response(&body).unwrap();
    let sent = to_input(&vec![Message {
        role: Role::Assistant,
        content: answer.content,
    }]);
    let shapes: Vec<String> = sent
        .iter()
        .map(|item| match item.str_field("type").unwrap() {
            "reasoning" => item.str_field("id").unwrap().to_string(),
            "function_call" => item.str_field("call_id").unwrap().to_string(),
            _ => at(item, &["content"])
                .as_array()
                .unwrap()
                .iter()
                .map(|part| part.str_field("text").unwrap())
                .collect::<Vec<_>>()
                .join("+"),
        })
        .collect();
    assert_eq!(shapes, vec!["first", "rs_1", "c1", "second+third", "rs_3"]);
    assert_eq!(to_text(&sent[1]), to_text(&json(reasoning)));
}

fn read(stream: &str) -> Result<Response, ProviderError> {
    parse_stream(stream).unwrap()
}

#[test]
fn parses_codex_sse_stream() {
    let stream = "event: response.created\n\
        data: {\"type\":\"response.created\"}\n\n\
        data: {\"type\":\"response.output_item.done\",\"item\":{\"type\":\"reasoning\",\"id\":\"rs_1\",\"encrypted_content\":\"zzz\",\"summary\":[]}}\n\n\
        data: {\"type\":\"response.output_item.done\",\"item\":{\"type\":\"message\",\"role\":\"assistant\",\"content\":[{\"type\":\"output_text\",\"text\":\"checking\"}]}}\n\n\
        data: {\"type\":\"response.output_item.done\",\"item\":{\"type\":\"function_call\",\"call_id\":\"call_7\",\"name\":\"bash\",\"arguments\":\"{\\\"command\\\":\\\"pwd\\\"}\"}}\n\n\
        data: {\"type\":\"response.completed\",\"response\":{\"status\":\"completed\",\"output\":[],\"usage\":{\"input_tokens\":11,\"output_tokens\":22}}}\n\n";
    let resp = read(stream).unwrap();
    assert!(matches!(resp.stop_reason, StopReason::ToolUse));
    assert_eq!(resp.usage.input_tokens, 11);
    assert_eq!(resp.content.len(), 3);
    assert!(
        matches!(&resp.content[0], ContentBlock::Opaque { provider, .. } if provider == "codex")
    );
    assert!(matches!(&resp.content[1], ContentBlock::Text { text } if text == "checking"));
    let ContentBlock::ToolUse { id, name, input } = &resp.content[2] else {
        panic!("expected tool use");
    };
    assert_eq!((id.as_str(), name.as_str()), ("call_7", "bash"));
    assert_eq!(text_at(input, &["command"]), "pwd");
}

#[test]
fn failed_event_is_error() {
    let stream = "data: {\"type\":\"response.failed\",\"response\":{\"error\":{\"message\":\"quota exhausted\"}}}\n";
    let err = read(stream).unwrap_err();
    assert!(err.to_string().contains("quota exhausted"));
}

#[test]
fn incomplete_max_tokens_maps() {
    let stream = "data: {\"type\":\"response.output_item.done\",\"item\":{\"type\":\"message\",\"role\":\"assistant\",\"content\":[{\"type\":\"output_text\",\"text\":\"cut\"}]}}\n\n\
        data: {\"type\":\"response.incomplete\",\"response\":{\"status\":\"incomplete\",\"incomplete_details\":{\"reason\":\"max_output_tokens\"},\"output\":[]}}\n\n";
    let resp = read(stream).unwrap();
    assert!(matches!(resp.stop_reason, StopReason::MaxTokens));
}

#[test]
fn non_sse_body_parses_directly() {
    let body = r#"{"status":"completed","output":[{"type":"message","role":"assistant","content":[{"type":"output_text","text":"hi"}]}],"usage":{"input_tokens":1,"output_tokens":2}}"#;
    let resp = read(body).unwrap();
    assert_eq!(resp.content.len(), 1);
    assert!(matches!(&resp.content[0], ContentBlock::Text { text } if text == "hi"));
    assert!(matches!(resp.stop_reason, StopReason::EndTurn));
}

#[test]
fn stream_without_completed_is_error() {
    let stream = "data: {\"type\":\"response.created\"}\n";
    assert!(read(stream).is_err());
}

#[test]
fn codex_requests_carry_the_account() {
    let codex = Codex::new();
    assert_eq!(codex.url(), CODEX_ENDPOINT);
    let codex = codex.with_endpoint("http://h/responses");
    assert_eq!(codex.url(), "http://h/responses");
    let token = CodexToken {
        access_token: "at".into(),
        account_id: "acct".into(),
    };
    let headers = codex.headers(&token);
    assert!(headers.contains(&("Authorization".to_string(), "Bearer at".to_string())));
    assert!(headers.contains(&("chatgpt-account-id".to_string(), "acct".to_string())));
}
