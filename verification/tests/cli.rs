use bullpen::agent::{Event, MAX_TOOL_RESULT_BYTES};
use bullpen::cli::agents::{
    arrange, header, input_title, latest, list_lines, load_rows, peek_lines, row_line, Action, App,
    Key, ListLine, PeekLine, Row, Tone,
};
use bullpen::cli::bg::{enqueue, kick_failure, log_path, worker_args};
use bullpen::cli::json::{
    dispatched_json, event_json, result_json, stream_line, KIND_ASSISTANT_TEXT, KIND_DISPATCHED,
    KIND_RESULT, KIND_TOOL_END, KIND_TOOL_START, KIND_TURN_DONE,
};
use bullpen::cli::{footer, progress, run_failure, session_line, system_prompt};
use bullpen::json::{parse, same_json, Json};
use bullpen::llm::{ContentBlock, Message, Role, Usage};
use bullpen::store::status::{for_session, pid_alive, AgentStatus};
use bullpen::store::{Session, Store};

const NOW: &str = "2026-01-01 00:00:00";

fn json(text: &str) -> Json {
    parse(text).unwrap()
}

fn usage(input_tokens: u64, output_tokens: u64) -> Usage {
    Usage {
        input_tokens,
        output_tokens,
    }
}

fn is(value: &Json, text: &str) {
    assert!(same_json(value, &json(text)), "{value:?}");
}

// ── The stream ──────────────────────────────────────────────────────────────

#[test]
fn event_kinds_are_stable_wire_strings() {
    assert_eq!(KIND_ASSISTANT_TEXT, "assistant_text");
    assert_eq!(KIND_TOOL_START, "tool_start");
    assert_eq!(KIND_TOOL_END, "tool_end");
    assert_eq!(KIND_TURN_DONE, "turn_done");
    assert_eq!(KIND_RESULT, "result");
    assert_eq!(KIND_DISPATCHED, "dispatched");
}

#[test]
fn assistant_text_carries_the_turn_text() {
    is(
        &event_json(&Event::AssistantText {
            text: "hello".into(),
        }),
        "{\"kind\": \"assistant_text\", \"text\": \"hello\"}",
    );
}

#[test]
fn tool_start_emits_its_input_as_a_json_value_when_small() {
    is(
        &event_json(&Event::ToolStart {
            id: "t1".into(),
            name: "bash".into(),
            input: json("{\"command\": \"ls\"}"),
        }),
        "{\"kind\": \"tool_start\", \"id\": \"t1\", \"name\": \"bash\", \
          \"input\": {\"command\": \"ls\"}, \"input_truncated\": false}",
    );
}

#[test]
fn tool_start_input_over_the_cap_becomes_a_truncated_string() {
    let event = Event::ToolStart {
        id: "t1".into(),
        name: "bash".into(),
        input: Json::object().with("command", Json::text(&"x".repeat(MAX_TOOL_RESULT_BYTES))),
    };
    let value = event_json(&event);
    assert_eq!(value.bool_field("input_truncated"), Some(true));
    let input = value.str_field("input").unwrap();
    assert!(input.len() <= MAX_TOOL_RESULT_BYTES);
    assert!(input.starts_with(r#"{"command":"xxx"#));
}

#[test]
fn tool_end_output_is_truncated_on_a_char_boundary() {
    let event = Event::ToolEnd {
        id: "t1".into(),
        name: "bash".into(),
        // Three-byte chars: the cap lands mid-character.
        output: "☃".repeat(MAX_TOOL_RESULT_BYTES),
        is_error: false,
    };
    let value = event_json(&event);
    assert_eq!(value.bool_field("output_truncated"), Some(true));
    let output = value.str_field("output").unwrap();
    assert!(output.len() <= MAX_TOOL_RESULT_BYTES);
    assert!(output.chars().all(|c| c == '☃'));
}

#[test]
fn tool_end_flags_provider_errors() {
    is(
        &event_json(&Event::ToolEnd {
            id: "t1".into(),
            name: "bash".into(),
            output: "no such file".into(),
            is_error: true,
        }),
        "{\"kind\": \"tool_end\", \"id\": \"t1\", \"name\": \"bash\", \
          \"output\": \"no such file\", \"output_truncated\": false, \"is_error\": true}",
    );
}

#[test]
fn turn_done_carries_cumulative_usage() {
    is(
        &event_json(&Event::TurnDone {
            usage: usage(120, 34),
        }),
        "{\"kind\": \"turn_done\", \"usage\": {\"input_tokens\": 120, \"output_tokens\": 34}}",
    );
}

#[test]
fn result_carries_the_full_session_id_not_the_display_prefix() {
    let id = "0123456789abcdef0123456789abcdef";
    is(
        &result_json(id, "the answer", usage(9, 4), None),
        &format!(
            "{{\"kind\": \"result\", \"session_id\": \"{id}\", \"text\": \"the answer\", \
              \"usage\": {{\"input_tokens\": 9, \"output_tokens\": 4}}, \
              \"error\": false, \"message\": null}}"
        ),
    );
}

#[test]
fn result_on_error_keeps_the_partial_text_and_sets_the_error_flag() {
    is(
        &result_json("abc", "half an ans", usage(9, 4), Some("provider stopped")),
        "{\"kind\": \"result\", \"session_id\": \"abc\", \"text\": \"half an ans\", \
          \"usage\": {\"input_tokens\": 9, \"output_tokens\": 4}, \
          \"error\": true, \"message\": \"provider stopped\"}",
    );
}

#[test]
fn dispatched_carries_the_full_ids_and_pid() {
    let session_id = "0123456789abcdef0123456789abcdef";
    let input_id = "fedcba9876543210fedcba9876543210";
    is(
        &dispatched_json(session_id, input_id, 4242),
        &format!(
            "{{\"kind\": \"dispatched\", \"session_id\": \"{session_id}\", \
              \"input_id\": \"{input_id}\", \"pid\": 4242}}"
        ),
    );
}

#[test]
fn a_value_is_one_line() {
    assert_eq!(stream_line(&json("{\"a\": [1, \"x\\ny\"]}")), "{\"a\":[1,\"x\\ny\"]}\n");
}

// ── The dashboard ───────────────────────────────────────────────────────────

fn session(id: &str, updated: &str) -> Session {
    Session {
        id: id.to_string(),
        title: String::new(),
        cwd: "/tmp".into(),
        provider: "codex".into(),
        model: "m".into(),
        usage: Usage::default(),
        created_at: updated.into(),
        updated_at: updated.into(),
        parent_session_id: None,
        status: "idle".into(),
        pid: None,
        worktree_path: None,
        worktree_branch: None,
    }
}

fn row(id: &str, status: AgentStatus, updated: &str) -> Row {
    Row {
        session: session(id, updated),
        status,
    }
}

fn rendered(lines: &[PeekLine]) -> Vec<String> {
    lines.iter().map(|l| l.text.clone()).collect()
}

#[test]
fn arrange_groups_working_first_then_newest() {
    let rows = vec![
        row("done-old", AgentStatus::Completed, "2026-08-07 10:00"),
        row("work-a", AgentStatus::Working, "2026-08-07 09:00"),
        row("done-new", AgentStatus::Completed, "2026-08-07 11:00"),
        row("fail", AgentStatus::Failed, "2026-08-07 09:30"),
        row("work-b", AgentStatus::Working, "2026-08-07 12:00"),
    ];
    let ordered: Vec<String> = arrange(&rows).into_iter().map(|r| r.session.id).collect();
    assert_eq!(
        ordered,
        vec![
            // Working, newest first
            "work-b", "work-a", // then Failed
            "fail",   // then Completed, newest first
            "done-new", "done-old",
        ]
    );
}

#[test]
fn rows_pair_sessions_with_their_states() {
    let mut running = session("aaaaaaaa", "2026-08-07 10:00");
    running.status = "running".into();
    let mut crashed = session("bbbbbbbb", "2026-08-07 11:00");
    crashed.status = "running".into();
    assert_eq!(for_session(&running, true), AgentStatus::Working);
    let rows = load_rows(&vec![crashed, running], &vec![false, true]);
    let shown: Vec<(String, AgentStatus)> = rows
        .iter()
        .map(|r| (r.session.id.clone(), r.status))
        .collect();
    assert_eq!(
        shown,
        vec![
            ("aaaaaaaa".to_string(), AgentStatus::Working),
            ("bbbbbbbb".to_string(), AgentStatus::Failed)
        ]
    );
    assert_eq!(header(&rows), "· 2 sessions · 1 working");
}

#[test]
fn the_list_heads_every_group_once() {
    let rows = arrange(&vec![
        row("aaaaaaaa1", AgentStatus::Idle, "3"),
        row("bbbbbbbb1", AgentStatus::Idle, "2"),
        row("cccccccc1", AgentStatus::Completed, "1"),
    ]);
    let lines = list_lines(&rows, 1);
    assert_eq!(lines.len(), 5);
    assert!(matches!(&lines[0], ListLine::Group(AgentStatus::Idle)));
    assert!(matches!(&lines[2], ListLine::Session { selected: true, .. }));
    assert!(matches!(&lines[3], ListLine::Group(AgentStatus::Completed)));
    let mut s = session("0123456789ab", "t");
    s.title = "t".repeat(60);
    s.parent_session_id = Some("p".into());
    s.usage = usage(12, 3);
    assert_eq!(
        row_line(&s, true),
        format!("› 01234567  codex           12/3       {} ↳", "t".repeat(48))
    );
}

#[test]
fn peek_lines_shows_the_worktree_for_an_isolated_session() {
    let mut s = session("0123456789ab", "2026-08-07 10:00");
    s.worktree_path = Some("/h/.bullpen/worktrees/0123456789ab".into());
    let lines = rendered(&peek_lines(&s, "output"));
    assert_eq!(lines[1], "worktree /h/.bullpen/worktrees/0123456789ab");
}

#[test]
fn peek_lines_says_nothing_about_worktrees_for_a_shared_cwd_session() {
    let s = session("0123456789ab", "2026-08-07 10:00");
    let lines = peek_lines(&s, "output");
    assert_eq!(lines[0].tone, Tone::Bold);
    let lines = rendered(&lines);
    assert!(!lines.iter().any(|l| l.contains("worktree")), "{lines:?}");
    assert!(lines.contains(&"output".to_string()), "{lines:?}");
}

#[test]
fn the_panel_shows_what_the_assistant_said_last() {
    let said = |text: &str| Message {
        role: Role::Assistant,
        content: vec![ContentBlock::Text { text: text.into() }],
    };
    assert_eq!(latest(&Vec::new()), "(no output yet)");
    assert_eq!(
        latest(&vec![said("one"), said("two"), Message::user_text("more")]),
        "two"
    );
    assert_eq!(latest(&vec![said("one"), said("")]), "(no output yet)");
}

fn app_with(n: usize) -> App {
    let mut app = App::new();
    app.refresh(
        (0..n)
            .map(|i| row(&format!("id{i}"), AgentStatus::Idle, "t"))
            .collect(),
    );
    app
}

#[test]
fn the_selection_stays_on_the_list() {
    let mut app = app_with(2);
    app.press(Key::Up);
    assert_eq!(app.selected, 0);
    app.press(Key::Down);
    app.press(Key::Down);
    assert_eq!(app.selected, 1);
    app.refresh(vec![row("id0", AgentStatus::Idle, "t")]);
    assert_eq!(app.selected, 0);
    assert_eq!(app.selected_session().unwrap().id, "id0");
    app.refresh(vec![]);
    assert!(app.selected_session().is_none());
}

#[test]
fn space_peeks_only_while_nothing_is_typed() {
    let mut app = app_with(1);
    app.press(Key::Char(' '));
    assert!(app.peek);
    app.press(Key::Esc);
    assert!(!app.peek);
    app.press(Key::Char('a'));
    app.press(Key::Char(' '));
    assert!(!app.peek);
    assert_eq!(app.input, "a ");
    app.press(Key::Backspace);
    assert_eq!(app.input, "a");
    assert!(matches!(app.press(Key::Esc), Action::Stay));
    assert_eq!(app.input, "");
    assert!(matches!(app.press(Key::Esc), Action::Quit));
    assert!(matches!(app.press(Key::Interrupt), Action::Quit));
}

#[test]
fn a_prompt_has_to_say_something() {
    let mut app = app_with(0);
    for c in " fix ".chars() {
        app.press(Key::Char(c));
    }
    assert!(matches!(app.press(Key::Enter), Action::Stay));
    assert_eq!(app.error.as_deref(), Some("prompt too short — describe the task"));
    app.press(Key::Char('i'));
    app.press(Key::Char('t'));
    match app.press(Key::Enter) {
        Action::Dispatch(prompt) => assert_eq!(prompt, "fix it"),
        other => panic!("{other:?}"),
    }
    assert_eq!(app.input, "");
    app.dispatch_failed("no");
    assert_eq!(app.error.as_deref(), Some("dispatch failed: no"));
    assert_eq!(input_title(app.error.as_deref()), " dispatch · dispatch failed: no ");
}

// ── Background dispatch ─────────────────────────────────────────────────────

#[test]
fn detached_worker_argv_contains_identity_but_no_prompt() {
    assert_eq!(
        worker_args("session-123"),
        vec!["session-worker", "session-123"]
    );
}

#[test]
fn a_prompt_is_queued_before_its_worker_starts() {
    let mut store = Store::new();
    let s = store.create_session("/tmp", "codex", "m", NOW).unwrap();
    let id = enqueue(&mut store, &s.id, "do it", &json("{}"), NOW).unwrap();
    let input = store.oldest_pending_input(&s.id).unwrap();
    assert_eq!(input.id, id);
    // A failed kick leaves the input pending and the session as it was.
    assert_eq!(store.get_session(&s.id).unwrap().status, "idle");
    let said = kick_failure(&id, "no");
    assert!(said.contains(&id) && said.ends_with(": no"), "{said}");
    assert_eq!(log_path("/h/.bullpen", "s1"), "/h/.bullpen/logs/s1.log");
}

#[test]
fn only_a_positive_pid_can_be_alive() {
    assert!(pid_alive(7, true, false));
    assert!(pid_alive(7, false, true));
    assert!(!pid_alive(7, false, false));
    assert!(!pid_alive(0, true, false));
    assert!(!pid_alive(-1, true, false));
}

// ── Texts ───────────────────────────────────────────────────────────────────

#[test]
fn runs_say_where_they_are_and_how_they_end() {
    assert!(system_prompt("/ws").contains("Working directory: /ws\n"));
    assert_eq!(
        footer("0123456789ab", usage(9, 4)),
        "\n[session 01234567 · 9 in / 4 out tokens]"
    );
    assert_eq!(
        run_failure("0123456789ab", "no"),
        "agent error (session 01234567 saved): no"
    );
    let mut s = session("0123456789ab", NOW);
    s.usage = usage(9, 4);
    assert_eq!(
        session_line(&s),
        format!("01234567  {NOW}       9/4       (untitled)")
    );
}

#[test]
fn progress_shows_tools_and_their_failures() {
    let start = Event::ToolStart {
        id: "t".into(),
        name: "bash".into(),
        input: json("{\"command\": \"ls\"}"),
    };
    assert_eq!(progress(&start).unwrap(), "→ bash {\"command\":\"ls\"}");
    let end = |is_error: bool| Event::ToolEnd {
        id: "t".into(),
        name: "bash".into(),
        output: "x".into(),
        is_error,
    };
    assert_eq!(progress(&end(true)).unwrap(), "✗ bash failed");
    assert!(progress(&end(false)).is_none());
}
