use bullpen::auth::AuthFile;
use bullpen::json::{parse, same_json, Json};
use bullpen::llm::{same_message, ContentBlock, Message, Role};
use bullpen::store::home::{default_path, dir_of, resolve_home};
use bullpen::store::inbox::DrainDecision;
use bullpen::store::migrate::{pending_steps, role_of, SCHEMA_VERSION};
use bullpen::store::recovery::recover;
use bullpen::store::status::AgentStatus;
use bullpen::store::worker::{already_running, lock_path, SessionWorker, WorkerError};
use bullpen::store::{Payload, Session, SessionInputState, Store, StoreError, WorkerKind};

#[test]
fn liveness_only_matters_while_running() {
    assert_eq!(bullpen::store::status::derive("running", true), AgentStatus::Working);
    assert_eq!(bullpen::store::status::derive("running", false), AgentStatus::Failed); // crashed
    assert_eq!(bullpen::store::status::derive("completed", false), AgentStatus::Completed);
    assert_eq!(bullpen::store::status::derive("failed", true), AgentStatus::Failed);
    assert_eq!(bullpen::store::status::derive("idle", false), AgentStatus::Idle);
    assert_eq!(bullpen::store::status::derive("anything-else", true), AgentStatus::Idle);
}

#[test]
fn group_order_puts_working_first() {
    let mut states = [
        AgentStatus::Completed,
        AgentStatus::Working,
        AgentStatus::Failed,
        AgentStatus::Idle,
    ];
    states.sort_by_key(|s| s.group_rank());
    assert_eq!(
        states,
        [
            AgentStatus::Working,
            AgentStatus::Idle,
            AgentStatus::Failed,
            AgentStatus::Completed
        ]
    );
}

const NOW: &str = "2026-01-01 00:00:00";
const LATER: &str = "2026-01-01 00:00:01";

fn json(text: &str) -> Json {
    parse(text).unwrap()
}

fn prompt(text: &str) -> Payload {
    Payload::Message(Message::user_text(text))
}

fn said(text: &str) -> Message {
    Message {
        role: Role::Assistant,
        content: vec![ContentBlock::Text { text: text.into() }],
    }
}

fn new_session(store: &mut Store) -> Session {
    store.create_session("/tmp", "anthropic", "m", NOW).unwrap()
}

// ── Home ────────────────────────────────────────────────────────────────────

#[test]
fn lib_unset_bullpen_home_still_resolves_under_dot_bullpen() {
    let home = resolve_home(None, Some("/h".into()));
    assert_eq!(default_path(&home), "/h/.bullpen/bullpen.db");
    assert_eq!(AuthFile::default_path(&home), "/h/.bullpen/auth.json");
    // No $HOME either: the relative fallback.
    let home = resolve_home(None, None);
    assert_eq!(default_path(&home), "./.bullpen/bullpen.db");
    assert_eq!(AuthFile::default_path(&home), "./.bullpen/auth.json");
}

#[test]
fn lib_bullpen_home_overrides_the_default_directory() {
    let home = resolve_home(Some("/tmp/pen".into()), Some("/h".into()));
    assert_eq!(default_path(&home), "/tmp/pen/bullpen.db");
    assert_eq!(AuthFile::default_path(&home), "/tmp/pen/auth.json");
    let home = resolve_home(Some("".into()), Some("/h".into()));
    assert_eq!(default_path(&home), "/h/.bullpen/bullpen.db");
    assert_eq!(AuthFile::default_path(&home), "/h/.bullpen/auth.json");
}

#[test]
fn a_store_lies_in_the_directory_of_its_database() {
    assert_eq!(dir_of("/h/.bullpen/bullpen.db"), "/h/.bullpen");
    assert_eq!(
        lock_path("/h/.bullpen/bullpen.db", "s1"),
        "/h/.bullpen/run/s1.lock"
    );
}

// ── The log ─────────────────────────────────────────────────────────────────

#[test]
fn entry_chain_roundtrip() {
    let mut store = Store::new();
    let s = new_session(&mut store);

    let m1 = Message::user_text("hello");
    let m2 = said("hi");
    store
        .append_entry(&s.id, "e1", "message", &Payload::Message(m1.clone()))
        .unwrap();
    store
        .append_entry(&s.id, "e2", "message", &Payload::Message(m2.clone()))
        .unwrap();

    assert_eq!(store.leaf(&s.id).as_deref(), Some("e2"));
    let messages = store.path_messages(&s.id).unwrap();
    assert_eq!(messages.len(), 2);
    assert!(same_message(&messages[0], &m1));
    assert!(same_message(&messages[1], &m2));
}

#[test]
fn provisioned_append_is_idempotent() {
    let mut store = Store::new();
    let s = new_session(&mut store);
    let payload = prompt("once");
    store.append_entry(&s.id, "e1", "message", &payload).unwrap();
    store.append_entry(&s.id, "e1", "message", &payload).unwrap();
    assert_eq!(store.path(&s.id).unwrap().len(), 1);

    let attempt = json("{\"n\": 1}");
    store
        .append_record(&s.id, "r1", "run", "step_attempt", &attempt)
        .unwrap();
    store
        .append_record(&s.id, "r1", "run", "step_attempt", &attempt)
        .unwrap();
    assert_eq!(store.records.len(), 1);
    assert!(store.record_exists("r1"));
    assert!(!store.record_exists("r2"));
    assert!(store.entry_exists("e1"));
}

#[test]
fn operation_lifecycle_and_reduction() {
    let mut store = Store::new();
    let s = new_session(&mut store);
    assert!(store.open_run(&s.id).unwrap().is_none());

    let run = store
        .start_operation(&s.id, &json("{\"prompt\": \"go\"}"))
        .unwrap();
    let open = store.open_run(&s.id).unwrap().expect("suspended");
    assert_eq!(open.run_id, run);
    assert_eq!(open.records.len(), 1);

    // A second start while open is refused, not silently allowed.
    assert!(matches!(
        store.start_operation(&s.id, &json("{}")),
        Err(StoreError::Corrupt(_))
    ));

    store.finish_operation(&s.id, &run, "completed").unwrap();
    assert!(store.open_run(&s.id).unwrap().is_none());
    // Finishing again is idempotent.
    store.finish_operation(&s.id, &run, "completed").unwrap();
    assert_eq!(store.last_run_outcome(&s.id).as_deref(), Some("completed"));
}

#[test]
fn seq_is_shared_and_monotonic_across_tables() {
    let mut store = Store::new();
    let s = new_session(&mut store);
    store
        .append_entry(&s.id, "e1", "message", &prompt("a"))
        .unwrap();
    let run = store.start_operation(&s.id, &json("{}")).unwrap();
    store
        .append_entry(&s.id, "e2", "message", &prompt("b"))
        .unwrap();

    let entry_seqs: Vec<i64> = store.path(&s.id).unwrap().iter().map(|e| e.seq).collect();
    let record_seq = store.open_run(&s.id).unwrap().unwrap().records[0].seq;
    assert_eq!(entry_seqs, vec![1, 3]);
    assert_eq!(record_seq, 2);
    store.finish_operation(&s.id, &run, "completed").unwrap();
}

#[test]
fn migrates_v2_sessions_into_entry_tree() {
    let mut store = Store::new();
    store
        .create_session_as("s1", "/tmp", "anthropic", "m", NOW)
        .unwrap();
    let hi = vec![ContentBlock::Text { text: "hi".into() }];
    let old = vec![
        Message {
            role: role_of("user"),
            content: hi.clone(),
        },
        Message {
            role: role_of("assistant"),
            content: hi,
        },
    ];
    store.import_messages("s1", &old).unwrap();

    let messages = store.path_messages("s1").unwrap();
    assert_eq!(messages.len(), 2);
    assert_eq!(messages[0].role, Role::User);
    assert_eq!(messages[1].role, Role::Assistant);
    assert!(store.open_run("s1").unwrap().is_none());
}

#[test]
fn every_later_schema_step_is_pending() {
    assert_eq!(pending_steps(SCHEMA_VERSION), Vec::<i64>::new());
    assert_eq!(pending_steps(0).last(), Some(&SCHEMA_VERSION));
    assert_eq!(pending_steps(SCHEMA_VERSION - 1), vec![SCHEMA_VERSION]);
}

#[test]
fn a_broken_chain_is_corrupt() {
    let mut store = Store::new();
    let s = new_session(&mut store);
    store
        .append_entry(&s.id, "e1", "message", &prompt("a"))
        .unwrap();
    store
        .append_entry(&s.id, "e2", "message", &prompt("b"))
        .unwrap();
    store.entries.remove(0);
    assert!(matches!(store.path(&s.id), Err(StoreError::Corrupt(_))));
}

// ── Recovery ────────────────────────────────────────────────────────────────

fn crashed_mid_batch(store: &mut Store) -> (String, String) {
    let s = new_session(store);
    let run = store.start_operation(&s.id, &json("{}")).unwrap();
    store
        .append_entry(&s.id, "e-user", "message", &prompt("go"))
        .unwrap();
    let assistant = Message {
        role: Role::Assistant,
        content: vec![ContentBlock::ToolUse {
            id: "tu_1".into(),
            name: "bash".into(),
            input: json("{\"command\": \"make deploy\"}"),
        }],
    };
    store
        .append_entry(&s.id, "e-assistant", "message", &Payload::Message(assistant))
        .unwrap();
    store
        .append_record(
            &s.id,
            "r-intent",
            &run,
            "tool_started",
            &json(
                "{\"tool_use_id\": \"tu_1\", \"name\": \"bash\", \
                 \"input\": {\"command\": \"make deploy\"}, \"replay_safe\": false, \
                 \"results_entry_id\": \"e-results\"}",
            ),
        )
        .unwrap();
    (s.id, run)
}

#[test]
fn recovers_crashed_batch_with_synthetic_results() {
    let mut store = Store::new();
    let (session, run) = crashed_mid_batch(&mut store);

    let recovery = recover(&mut store, &session).unwrap().expect("suspended run");
    assert_eq!(recovery.run_id, run);
    assert_eq!(recovery.interrupted_tools, 1);
    assert!(recovery.closed_with_note);

    // The transcript is structurally valid: tool_use paired with an
    // interrupted result, then a closing assistant message.
    let messages = store.path_messages(&session).unwrap();
    assert_eq!(messages.len(), 4);
    let ContentBlock::ToolResult {
        tool_use_id,
        is_error,
        content,
    } = &messages[2].content[0]
    else {
        panic!("expected synthetic tool result");
    };
    assert_eq!(tool_use_id, "tu_1");
    assert!(is_error);
    assert!(content.contains("interrupted"));
    assert_eq!(messages[3].role, Role::Assistant);

    // Reduction is idle again; a new run can start.
    assert!(store.open_run(&session).unwrap().is_none());
    store.start_operation(&session, &json("{}")).unwrap();
}

#[test]
fn recovery_is_idempotent() {
    let mut store = Store::new();
    let (session, _) = crashed_mid_batch(&mut store);

    recover(&mut store, &session).unwrap().unwrap();
    // A crash during recovery means recovery runs again.
    assert!(recover(&mut store, &session).unwrap().is_none());
    assert_eq!(store.path_messages(&session).unwrap().len(), 4);
}

#[test]
fn a_recovery_cut_short_is_taken_up_again() {
    let mut store = Store::new();
    let (session, run) = crashed_mid_batch(&mut store);
    let before = store.path(&session).unwrap().len();
    store
        .append_record(
            &session,
            "r-second",
            &run,
            "tool_started",
            &json("{\"tool_use_id\": \"tu_2\", \"results_entry_id\": \"e-second\"}"),
        )
        .unwrap();
    // The first recovery got as far as the first batch.
    let answered = Message::tool_results(vec![ContentBlock::ToolResult {
        tool_use_id: "tu_1".into(),
        content: "interrupted: bullpen exited before this tool finished".into(),
        is_error: true,
    }]);
    store
        .append_entry(&session, "e-results", "message", &Payload::Message(answered))
        .unwrap();

    let recovery = recover(&mut store, &session).unwrap().unwrap();
    assert_eq!(recovery.run_id, run);
    assert_eq!(recovery.interrupted_tools, 1);
    let ids: Vec<String> = store
        .path(&session)
        .unwrap()
        .into_iter()
        .skip(before)
        .map(|e| e.id)
        .collect();
    assert_eq!(ids, vec!["e-results".to_string(), "e-second".into(), format!("{run}:closing")]);
    assert_eq!(store.last_run_outcome(&session).as_deref(), Some("aborted"));
    assert!(store.open_run(&session).unwrap().is_none());
}

#[test]
fn fulfilled_intents_are_left_alone() {
    let mut store = Store::new();
    let (session, run) = crashed_mid_batch(&mut store);
    // The results actually landed before the crash.
    let results = Message::tool_results(vec![ContentBlock::ToolResult {
        tool_use_id: "tu_1".into(),
        content: "deployed".into(),
        is_error: false,
    }]);
    store
        .append_entry(&session, "e-results", "message", &Payload::Message(results))
        .unwrap();

    let recovery = recover(&mut store, &session).unwrap().unwrap();
    assert_eq!(recovery.run_id, run);
    assert_eq!(recovery.interrupted_tools, 0);
    // The real result survives untouched; the closing note is still appended
    // because the leaf ended on a user(tool-results) message.
    let messages = store.path_messages(&session).unwrap();
    let ContentBlock::ToolResult {
        content, is_error, ..
    } = &messages[2].content[0]
    else {
        panic!("expected result");
    };
    assert_eq!(content, "deployed");
    assert!(!is_error);
}

#[test]
fn crash_before_any_entry_just_closes() {
    let mut store = Store::new();
    let s = new_session(&mut store);
    store.start_operation(&s.id, &json("{}")).unwrap();

    let recovery = recover(&mut store, &s.id).unwrap().unwrap();
    assert_eq!(recovery.interrupted_tools, 0);
    assert!(!recovery.closed_with_note);
    assert!(store.open_run(&s.id).unwrap().is_none());
    assert!(store.path_messages(&s.id).unwrap().is_empty());
}

#[test]
fn idle_session_needs_no_recovery() {
    let mut store = Store::new();
    let s = new_session(&mut store);
    assert!(recover(&mut store, &s.id).unwrap().is_none());
}

// ── The inbox ───────────────────────────────────────────────────────────────

#[test]
fn duplicate_provisioned_id_enqueues_once() {
    let mut store = Store::new();
    let session = new_session(&mut store);

    let options = json("{\"sandbox\": true}");
    let first = store
        .enqueue_input_for_worker(&session.id, "input-1", &prompt("once"), &options, NOW)
        .unwrap()
        .input;
    let duplicate = store
        .enqueue_input_for_worker(&session.id, "input-1", &prompt("once"), &options, LATER)
        .unwrap()
        .input;

    assert_eq!(first.position, 1);
    assert!(same_json(&first.options, &options));
    assert_eq!(duplicate.position, first.position);
    assert_eq!(store.list_inputs(&session.id).len(), 1);
    assert!(matches!(
        store.enqueue_input_for_worker(
            &session.id,
            "input-1",
            &prompt("once"),
            &json("{\"sandbox\": false}"),
            NOW,
        ),
        Err(StoreError::Corrupt(_))
    ));
    assert!(matches!(
        store.enqueue_input_for_worker(&session.id, "input-1", &prompt("different"), &options, NOW),
        Err(StoreError::Corrupt(_))
    ));
}

#[test]
fn a_prompt_is_the_same_only_with_all_its_fields() {
    let mut store = Store::new();
    let session = new_session(&mut store);
    let loose = |note: &str| Payload::Loose {
        message: Message::user_text("once"),
        raw: json(&format!(
            "{{\"role\": \"user\", \"content\": [{{\"type\": \"text\", \"text\": \"once\"}}], \
             \"note\": {note}}}"
        )),
    };
    store
        .enqueue_input(&session.id, "input-1", &loose("0.0"), NOW)
        .unwrap();
    store
        .enqueue_input(&session.id, "input-1", &loose("-0.0"), NOW)
        .unwrap();
    for other in [loose("1.0"), prompt("once")] {
        assert!(matches!(
            store.enqueue_input(&session.id, "input-1", &other, NOW),
            Err(StoreError::Corrupt(_))
        ));
    }
    // What started keeps those fields, and reads as the message.
    store
        .start_oldest_pending_input(&session.id, "input-1", NOW)
        .unwrap()
        .unwrap();
    let path = store.path(&session.id).unwrap();
    assert!(matches!(&path[0].payload, Payload::Loose { raw, .. } if raw.get("note").is_some()));
    let messages = store.path_messages(&session.id).unwrap();
    assert!(same_message(&messages[0], &Message::user_text("once")));
}

#[test]
fn a_payload_that_is_no_message_says_why() {
    let mut store = Store::new();
    let session = new_session(&mut store);
    let other = Payload::Other {
        raw: json("{\"role\": \"user\"}"),
        error: "missing field `content`".into(),
    };
    let said = "serialization error: missing field `content`";
    let err = store
        .enqueue_input(&session.id, "input-1", &other, NOW)
        .unwrap_err();
    assert_eq!(err.to_string(), said);
    // Another kind of entry may carry it; a message may not.
    store
        .append_entry(&session.id, "e-note", "note", &other)
        .unwrap();
    assert!(store.path_messages(&session.id).unwrap().is_empty());
    store
        .append_entry(&session.id, "e-message", "message", &other)
        .unwrap();
    let err = store.path_messages(&session.id).unwrap_err();
    assert_eq!(err.to_string(), said);
}

#[test]
fn enqueue_atomically_reports_worker_registration() {
    let mut store = Store::new();
    let session = new_session(&mut store);

    store
        .enqueue_input_for_worker(&session.id, "input-1", &prompt("first"), &json("{}"), NOW)
        .unwrap();

    let generation = store
        .start_worker(&session.id, 42, WorkerKind::NonDraining, NOW)
        .unwrap();
    store
        .enqueue_input_for_worker(&session.id, "input-2", &prompt("second"), &json("{}"), NOW)
        .unwrap();
    assert_eq!(
        store.worker_generation(&session.id).unwrap(),
        Some(generation)
    );
}

#[test]
fn drain_rejects_stale_generation_without_mutating_lifecycle() {
    let mut store = Store::new();
    let session = new_session(&mut store);
    let stale = store
        .start_worker(&session.id, 11, WorkerKind::NonDraining, NOW)
        .unwrap();
    let current = store
        .start_worker(&session.id, 22, WorkerKind::NonDraining, NOW)
        .unwrap();

    assert!(matches!(
        store.drain_or_retire_worker(&session.id, &stale, "completed", NOW),
        Err(StoreError::StaleWorkerGeneration)
    ));
    assert_eq!(store.worker_generation(&session.id).unwrap(), Some(current));
    let session = store.get_session(&session.id).unwrap();
    assert_eq!(session.status, "running");
    assert_eq!(session.pid, Some(22));
}

#[test]
fn drain_refuses_retirement_while_an_operation_is_open() {
    let mut store = Store::new();
    let session = new_session(&mut store);
    let generation = store
        .start_worker(&session.id, 42, WorkerKind::NonDraining, NOW)
        .unwrap();
    store.start_operation(&session.id, &json("{}")).unwrap();

    assert!(matches!(
        store.drain_or_retire_worker(&session.id, &generation, "completed", NOW),
        Err(StoreError::Corrupt(_))
    ));
    assert_eq!(
        store.worker_generation(&session.id).unwrap().as_deref(),
        Some(generation.as_str())
    );
}

#[test]
fn enqueue_committed_before_drain_is_visible_to_current_generation() {
    let mut store = Store::new();
    let session = new_session(&mut store);
    let generation = store
        .start_worker(&session.id, 42, WorkerKind::NonDraining, NOW)
        .unwrap();
    store
        .enqueue_input_for_worker(&session.id, "input-1", &prompt("visible"), &json("{}"), NOW)
        .unwrap();

    let decision = store
        .drain_or_retire_worker(&session.id, &generation, "completed", NOW)
        .unwrap();
    let DrainDecision::Pending(input) = decision else {
        panic!("pending input must prevent retirement");
    };
    assert_eq!(input.id, "input-1");
    assert_eq!(
        store.worker_generation(&session.id).unwrap().as_deref(),
        Some(generation.as_str())
    );
}

#[test]
fn retirement_committed_before_enqueue_requires_a_successor() {
    let mut store = Store::new();
    let session = new_session(&mut store);
    let generation = store
        .start_worker(&session.id, 42, WorkerKind::NonDraining, NOW)
        .unwrap();
    assert!(matches!(
        store
            .drain_or_retire_worker(&session.id, &generation, "completed", NOW)
            .unwrap(),
        DrainDecision::Retired
    ));

    let enqueue = store
        .enqueue_input_for_worker(
            &session.id,
            "input-1",
            &prompt("successor"),
            &json("{}"),
            NOW,
        )
        .unwrap();
    assert_eq!(enqueue.input.id, "input-1");
    let retired = store.get_session(&session.id).unwrap();
    assert_eq!(retired.status, "completed");
    assert_eq!(retired.pid, None);
    assert_eq!(
        store.worker_registration(&session.id).unwrap(),
        (None, None)
    );
}

#[test]
fn enqueue_allocates_unique_fifo_positions() {
    let mut store = Store::new();
    let session = new_session(&mut store);
    let other = new_session(&mut store);
    for index in 0..8 {
        let input = store
            .enqueue_input(
                &session.id,
                &format!("input-{index}"),
                &prompt(&index.to_string()),
                NOW,
            )
            .unwrap();
        assert_eq!(input.position, index + 1);
    }
    let elsewhere = store
        .enqueue_input(&other.id, "other", &prompt("other"), NOW)
        .unwrap();
    assert_eq!(elsewhere.position, 1);

    let positions: Vec<i64> = store
        .list_inputs(&session.id)
        .iter()
        .map(|input| input.position)
        .collect();
    assert_eq!(positions, (1..=8).collect::<Vec<i64>>());
}

#[test]
fn pending_input_survives_reopen_and_exposes_inspection_timestamps() {
    let mut store = Store::new();
    let session = new_session(&mut store);
    store
        .enqueue_input(&session.id, "input-1", &prompt("persist"), NOW)
        .unwrap();

    let store = Store {
        sessions: store.sessions,
        entries: store.entries,
        records: store.records,
        inputs: store.inputs,
        todos: store.todos,
    };
    let input = store.inspect_input(&session.id, "input-1").unwrap();
    assert_eq!(input.state, SessionInputState::Pending);
    assert!(!input.enqueued_at.is_empty());
    assert_eq!(input.started_at, None);
}

#[test]
fn only_the_oldest_pending_input_can_start() {
    let mut store = Store::new();
    let session = new_session(&mut store);
    store
        .enqueue_input(&session.id, "first", &prompt("first"), NOW)
        .unwrap();
    store
        .enqueue_input(&session.id, "second", &prompt("second"), NOW)
        .unwrap();

    assert!(matches!(
        store.start_oldest_pending_input(&session.id, "second", NOW),
        Err(StoreError::Corrupt(_))
    ));
    let started = store
        .start_oldest_pending_input(&session.id, "first", NOW)
        .unwrap()
        .unwrap();
    assert_eq!(started.id, "first");
    assert_eq!(
        store.inspect_input(&session.id, "second").unwrap().state,
        SessionInputState::Pending
    );
}

#[test]
fn start_atomically_creates_one_operation_and_one_user_entry() {
    let mut store = Store::new();
    let session = new_session(&mut store);
    store
        .enqueue_input(&session.id, "input-1", &prompt("go"), NOW)
        .unwrap();

    let started = store
        .start_oldest_pending_input(&session.id, "input-1", LATER)
        .unwrap()
        .unwrap();
    let run = store.open_run(&session.id).unwrap().unwrap();
    assert_eq!(started.operation_id.as_deref(), Some(run.run_id.as_str()));
    assert_eq!(started.started_at.as_deref(), Some(LATER));
    assert_eq!(run.records.len(), 1);
    assert_eq!(run.records[0].payload.str_field("input_id"), Some("input-1"));
    let messages = store.path_messages(&session.id).unwrap();
    assert_eq!(messages.len(), 1);
    assert_eq!(messages[0].role, Role::User);
    assert_eq!(messages[0].text(), "go");
    assert!(store
        .start_oldest_pending_input(&session.id, "input-1", NOW)
        .unwrap()
        .is_none());
    assert_eq!(store.path_messages(&session.id).unwrap().len(), 1);
}

#[test]
fn failed_start_rolls_back_every_write_and_leaves_input_pending() {
    let mut store = Store::new();
    let session = new_session(&mut store);
    store
        .enqueue_input(&session.id, "input-1", &prompt("rollback"), NOW)
        .unwrap();
    // Fail the entry insert after the operation record took the last number.
    store.sessions[0].next_seq = i64::MAX;

    assert!(matches!(
        store.start_oldest_pending_input(&session.id, "input-1", NOW),
        Err(StoreError::Db(_))
    ));
    let input = store.inspect_input(&session.id, "input-1").unwrap();
    assert_eq!(input.state, SessionInputState::Pending);
    assert_eq!(input.operation_id, None);
    assert_eq!(input.started_at, None);
    assert!(store.path_messages(&session.id).unwrap().is_empty());
    assert!(store.open_run(&session.id).unwrap().is_none());
    assert_eq!(store.records.len(), 0);
}

#[test]
fn input_options_fail_closed_on_invalid_shapes_and_types() {
    let mut store = Store::new();
    let session = new_session(&mut store);
    let invalid = [
        "null",
        "[]",
        "\"sandboxed\"",
        "{\"sandbox\": null}",
        "{\"sandbox\": \"true\"}",
        "{\"sandbox_strict\": 1}",
        "{\"unknown\": true}",
    ];

    for (index, options) in invalid.iter().enumerate() {
        assert!(matches!(
            store.enqueue_input_for_worker(
                &session.id,
                &format!("invalid-{index}"),
                &prompt("blocked"),
                &json(options),
                NOW,
            ),
            Err(StoreError::Corrupt(_))
        ));
    }
    assert!(store.list_inputs(&session.id).is_empty());
}

#[test]
fn execution_revalidates_durable_input_options_before_writes() {
    let mut store = Store::new();
    let session = new_session(&mut store);
    store
        .enqueue_input_for_worker(
            &session.id,
            "input-1",
            &prompt("blocked"),
            &json("{\"sandbox\": true}"),
            NOW,
        )
        .unwrap();
    store.inputs[0].options = Json::Null;

    assert!(matches!(
        store.start_oldest_pending_input(&session.id, "input-1", NOW),
        Err(StoreError::Corrupt(_))
    ));
    assert_eq!(
        store.inspect_input(&session.id, "input-1").unwrap().state,
        SessionInputState::Pending
    );
    assert!(store.open_run(&session.id).unwrap().is_none());
    assert!(store.path_messages(&session.id).unwrap().is_empty());
}

#[test]
fn enqueue_rejects_non_user_messages() {
    let mut store = Store::new();
    let session = new_session(&mut store);
    let assistant = Payload::Message(Message {
        role: Role::Assistant,
        content: vec![],
    });

    assert!(matches!(
        store.enqueue_input(&session.id, "input-1", &assistant, NOW),
        Err(StoreError::Corrupt(_))
    ));
    assert!(store.list_inputs(&session.id).is_empty());
}

#[test]
fn started_input_does_not_prevent_execution_log_deletion() {
    let mut store = Store::new();
    let session = new_session(&mut store);
    store
        .enqueue_input(&session.id, "input-1", &prompt("keep conversation"), NOW)
        .unwrap();
    store
        .start_oldest_pending_input(&session.id, "input-1", NOW)
        .unwrap()
        .unwrap();

    store.records.clear();

    assert_eq!(store.path_messages(&session.id).unwrap().len(), 1);
    assert_eq!(
        store.inspect_input(&session.id, "input-1").unwrap().state,
        SessionInputState::Started
    );
}

#[test]
fn recovery_after_started_input_never_duplicates_prompt() {
    let mut store = Store::new();
    let session = new_session(&mut store);
    store
        .enqueue_input(&session.id, "input-1", &prompt("recover me"), NOW)
        .unwrap();
    let started = store
        .start_oldest_pending_input(&session.id, "input-1", NOW)
        .unwrap()
        .unwrap();

    let recovery = recover(&mut store, &session.id).unwrap().unwrap();
    assert_eq!(
        started.operation_id.as_deref(),
        Some(recovery.run_id.as_str())
    );
    assert!(recover(&mut store, &session.id).unwrap().is_none());
    let messages = store.path_messages(&session.id).unwrap();
    assert_eq!(
        messages
            .iter()
            .filter(|message| message.text() == "recover me")
            .count(),
        1
    );
    assert_eq!(messages.len(), 2);
    let input = store.inspect_input(&session.id, "input-1").unwrap();
    assert_eq!(input.state, SessionInputState::Started);
    assert!(store
        .start_oldest_pending_input(&session.id, "input-1", NOW)
        .unwrap()
        .is_none());
}

// ── Sessions and workers ────────────────────────────────────────────────────

#[test]
fn a_session_is_found_by_a_unique_prefix_of_its_id() {
    let mut store = Store::new();
    store
        .create_session_as("aa11", "/tmp", "anthropic", "m", NOW)
        .unwrap();
    store
        .create_session_as("aa22", "/tmp", "anthropic", "m", LATER)
        .unwrap();
    assert_eq!(store.resolve_session("aa1").unwrap().id, "aa11");
    assert!(matches!(
        store.resolve_session("aa"),
        Err(StoreError::Ambiguous(_))
    ));
    assert!(matches!(
        store.resolve_session("bb"),
        Err(StoreError::NotFound(_))
    ));
    let ids: Vec<String> = store.list_sessions().into_iter().map(|s| s.id).collect();
    assert_eq!(ids, vec!["aa22", "aa11"]);
}

#[test]
fn a_prefix_is_taken_letter_for_letter() {
    let mut store = Store::new();
    store
        .create_session_as("aa11", "/tmp", "anthropic", "m", NOW)
        .unwrap();
    for prefix in ["%", "_a", "AA", "a%1", "aa11x"] {
        assert!(
            matches!(store.resolve_session(prefix), Err(StoreError::NotFound(_))),
            "{prefix}"
        );
    }
    for prefix in ["a", "aa1", "aa11"] {
        assert_eq!(store.resolve_session(prefix).unwrap().id, "aa11");
    }
}

#[test]
fn the_database_names_the_key_that_is_taken() {
    let mut store = Store::new();
    store
        .create_session_as("aa11", "/tmp", "anthropic", "m", NOW)
        .unwrap();
    let err = store
        .create_session_as("aa11", "/tmp", "anthropic", "m", NOW)
        .unwrap_err();
    assert_eq!(
        err.to_string(),
        "database error: UNIQUE constraint failed: sessions.id"
    );
}

#[test]
fn fresh_sessions_get_different_ids() {
    let mut store = Store::new();
    let a = new_session(&mut store);
    let b = new_session(&mut store);
    assert_eq!(a.id.len(), 36);
    assert_ne!(a.id, b.id);
    assert_eq!(a.status, "idle");
}

#[test]
fn a_second_owner_is_told_who_it_is() {
    assert_eq!(
        already_running("0123456789abcdef").to_string(),
        "session 01234567 already has a running worker"
    );
}

#[test]
fn only_the_current_generation_finishes_a_worker() {
    let mut store = Store::new();
    let session = new_session(&mut store);
    let mut first = SessionWorker::from_lock(&session.id);
    first.start(&mut store, 11, NOW).unwrap();
    assert!(matches!(
        first.start(&mut store, 11, NOW),
        Err(WorkerError::AlreadyStarted)
    ));
    let mut second = SessionWorker::from_lock(&session.id);
    assert!(matches!(
        second.finish(&mut store, "completed", NOW),
        Err(WorkerError::NotStarted)
    ));
    second.start_draining(&mut store, 22, NOW).unwrap();
    assert!(matches!(
        first.finish(&mut store, "completed", NOW),
        Err(WorkerError::StaleGeneration)
    ));
    assert_eq!(store.get_session(&session.id).unwrap().status, "running");
    second.finish(&mut store, "completed", LATER).unwrap();
    let done = store.get_session(&session.id).unwrap();
    assert_eq!(done.status, "completed");
    assert_eq!(done.pid, None);
}

#[test]
fn worker_kinds_are_stable_strings() {
    for kind in [WorkerKind::NonDraining, WorkerKind::Draining] {
        assert_eq!(WorkerKind::from_str(kind.as_str()), Some(kind));
    }
    assert_eq!(WorkerKind::from_str("other"), None);
}
