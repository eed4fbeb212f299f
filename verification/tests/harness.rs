use bullpen::agent::journal::{JournalError, RunOutcome};
use bullpen::agent::{Action, Agent, AgentConfig, AgentError, Output};
use bullpen::harness::job::{cancel_result, look, render, request, resolve, Request};
use bullpen::harness::pen::{
    begin_child, child_outcome, child_sandbox, child_session_id, child_status, child_task,
    dispatched, end_child, needs_worktree, place_child, record_worktree, registry_for_mode,
    spawn_child, spawn_request, Mode, PenConfig, PenTool, Place, Ran, Spawned,
};
use bullpen::harness::todo::{todo_id, TodoTool};
use bullpen::harness::worktree::{
    branch_for, decide, git_worktree_add, git_write_roots, head_branch, inspect, locate, repo_root,
    rev_parse_dir, worktree_dir, worktree_path, worktree_path_for_store, Candidate, Found,
    GitOutput, Location,
};
use bullpen::harness::{prepare_session, StoreJournal};
use bullpen::json::{parse, Json};
use bullpen::llm::{
    same_message, ContentBlock, Message, ProviderError, Response, Role, StopReason, Usage,
};
use bullpen::path::same_path;
use bullpen::sandbox::Sandbox;
use bullpen::store::home::default_path;
use bullpen::store::worker::SessionWorker;
use bullpen::store::{Payload, Session, Store, WorkerKind};
use bullpen::tools::{Registry, Tool, ToolError};

const ID: &str = "0123456789abcdef0123456789abcdef";

#[test]
fn branch_name_carries_the_whole_session_id_not_the_short_prefix() {
    assert_eq!(branch_for(ID), format!("bullpen/{ID}"));
    assert_ne!(
        branch_for("0123456789abcdef00000000deadbeef"),
        branch_for("0123456789abcdef11111111deadbeef")
    );
}

#[test]
fn worktree_dir_lives_under_bullpen_home_not_the_repo() {
    assert_eq!(
        worktree_dir("/h/.bullpen", ID),
        "/h/.bullpen/worktrees/0123456789abcdef0123456789abcdef"
    );
}

#[test]
fn a_store_and_its_home_name_one_worktree() {
    for dir in ["/h/.bullpen", "rel", "", "/"] {
        assert_eq!(
            worktree_path_for_store(&default_path(dir), ID),
            worktree_path(dir, ID),
            "{dir:?}"
        );
    }
    // A directory may be spelled with more than it needs: it is the same path.
    for dir in ["/h/", "/h/.", "./", "a//./"] {
        assert!(
            same_path(
                &worktree_path_for_store(&default_path(dir), ID),
                &worktree_path(dir, ID)
            ),
            "{dir:?}"
        );
    }
    assert_eq!(worktree_path_for_store("bullpen.db", ID), format!("worktrees/{ID}"));
}

#[test]
fn decide_falls_back_to_the_shared_cwd_only_when_nothing_was_recorded() {
    assert!(matches!(decide(None, Candidate::Gone, false), Location::Shared));
}

#[test]
fn decide_uses_the_recorded_directory_when_it_is_still_that_worktree() {
    match decide(Some(("/w/a", "bullpen/a")), Candidate::Live, false) {
        Location::Use(path) => assert_eq!(path, "/w/a"),
        other => panic!("{other:?}"),
    }
}

#[test]
fn decide_recreates_from_the_branch_when_only_the_directory_is_gone() {
    match decide(Some(("/w/a", "bullpen/a")), Candidate::Gone, true) {
        Location::Recreate { path, branch } => {
            assert_eq!(path, "/w/a");
            assert_eq!(branch, "bullpen/a");
        }
        other => panic!("{other:?}"),
    }
}

#[test]
fn missing_branch_fails_rather_than_falling_back_to_the_callers_cwd() {
    match decide(Some(("/w/a", "bullpen/a")), Candidate::Gone, false) {
        Location::Fail { path, branch } => {
            assert_eq!(path, "/w/a");
            assert_eq!(branch, "bullpen/a");
        }
        other => panic!("{other:?}"),
    }
}

#[test]
fn a_foreign_directory_at_the_recorded_path_is_refused_even_with_the_branch() {
    match decide(Some(("/w/a", "bullpen/a")), Candidate::Foreign, true) {
        Location::Occupied { path, branch } => {
            assert_eq!(path, "/w/a");
            assert_eq!(branch, "bullpen/a");
        }
        other => panic!("{other:?}"),
    }
}

const NOW: &str = "2026-01-01 00:00:00";

fn json(text: &str) -> Json {
    parse(text).unwrap()
}

fn parent(store: &mut Store) -> String {
    store.create_session("/tmp", "fake", "test-model", NOW).unwrap().id
}

// ── Worktrees ───────────────────────────────────────────────────────────────

fn git(success: bool, stdout: &str, stderr: &str) -> Result<GitOutput, String> {
    Ok(GitOutput {
        success,
        stdout: stdout.into(),
        stderr: stderr.into(),
    })
}

#[test]
fn non_repo_error_names_the_directory_and_refuses_to_degrade() {
    let err = repo_root("/some/dir", git(false, "", "fatal: not a git repository")).unwrap_err();
    assert!(err.contains("/some/dir"), "{err}");
    assert!(err.contains("not fall back"), "{err}");
    assert_eq!(repo_root("/some/dir", git(true, "/some\n", "")).unwrap(), "/some");
}

/// A directory at the recorded path of session `s1`, as git describes it.
fn found() -> Found {
    Found {
        exists: true,
        is_dir: true,
        common_dir: Some("/repo/.git".into()),
        anchor_common_dir: Some("/repo/.git".into()),
        top_level: Some("/w/s1".into()),
        path: "/w/s1".into(),
        head: Some("bullpen/s1".into()),
    }
}

fn at(found: &Found, branch_exists: bool) -> Location {
    locate(
        Some("/w/s1"),
        Some("bullpen/s1"),
        inspect(found, "bullpen/s1"),
        branch_exists,
    )
}

#[test]
fn locate_accepts_only_a_real_worktree_of_the_sessions_own_repository() {
    assert!(matches!(at(&found(), true), Location::Use(path) if path == "/w/s1"));

    // A worktree of some other repository, at the same recorded path.
    let mut other = found();
    other.anchor_common_dir = Some("/other/.git".into());
    assert!(matches!(at(&other, true), Location::Occupied { .. }));

    // An ordinary directory restored where the worktree used to be: the
    // branch still exists, and it is still refused rather than run in.
    let mut plain = found();
    plain.common_dir = None;
    plain.top_level = None;
    plain.head = None;
    assert!(matches!(at(&plain, true), Location::Occupied { .. }));

    let mut gone = found();
    gone.exists = false;
    gone.is_dir = false;
    gone.common_dir = None;
    gone.top_level = None;
    gone.head = None;
    assert!(matches!(at(&gone, true), Location::Recreate { .. }));
    assert!(matches!(at(&gone, false), Location::Fail { .. }));
}

#[test]
fn a_worktree_of_the_same_repo_on_another_branch_is_not_this_session() {
    let mut other = found();
    other.head = Some("someone-elses-branch".into());
    assert!(matches!(at(&other, true), Location::Occupied { .. }));
}

#[test]
fn a_regular_file_at_the_recorded_path_is_occupied_not_gone() {
    let mut file = found();
    file.is_dir = false;
    file.common_dir = None;
    file.top_level = None;
    file.head = None;
    assert!(matches!(at(&file, true), Location::Occupied { .. }));
}

#[test]
fn a_detached_worktree_at_the_recorded_path_is_not_this_session() {
    let mut detached = found();
    detached.head = head_branch(git(true, "HEAD\n", ""));
    assert!(matches!(at(&detached, true), Location::Occupied { .. }));
}

#[test]
fn an_ordinary_checkout_needs_no_write_roots_beyond_itself() {
    let dir = rev_parse_dir("/repo", git(true, ".git\n", ""));
    assert!(git_write_roots(dir.clone(), dir).is_empty());
    // Nor does a directory that is not a repository at all.
    assert!(git_write_roots(None, None).is_empty());
}

#[test]
fn a_linked_worktree_needs_the_main_repositorys_git_dirs() {
    assert_eq!(
        git_write_roots(
            Some("/repo/.git/worktrees/s1".into()),
            Some("/repo/.git".into())
        ),
        vec!["/repo/.git/worktrees/s1", "/repo/.git"]
    );
}

#[test]
fn worktrees_lie_beside_the_store() {
    assert_eq!(
        worktree_path_for_store("/h/.bullpen/bullpen.db", "s1"),
        worktree_path("/h/.bullpen", "s1")
    );
    assert!(git_worktree_add("/w/s1", git(true, "", "")).is_ok());
    let err = git_worktree_add("/w/s1", git(false, "", "already exists")).unwrap_err();
    assert!(err.contains("/w/s1") && err.contains("already exists"), "{err}");
}

// ── The plan ────────────────────────────────────────────────────────────────

fn plan_setup() -> (Store, TodoTool) {
    let mut store = Store::new();
    let session = parent(&mut store);
    (store, TodoTool::new("/h/t.db", &session))
}

#[test]
fn add_appends_and_renders_the_plan() {
    let (mut store, tool) = plan_setup();
    let out = tool
        .run(
            &mut store,
            "c1",
            &json("{\"action\": \"add\", \"items\": [\"read\", \"write\"]}"),
        )
        .unwrap();
    assert!(out.contains("Plan (0 of 2 done):"), "{out}");
    assert!(out.contains("[ ] read"), "{out}");
    assert!(out.contains("[ ] write"), "{out}");
}

#[test]
fn replayed_add_does_not_duplicate() {
    let (mut store, tool) = plan_setup();
    let input = json("{\"action\": \"add\", \"items\": [\"once\"]}");
    tool.run(&mut store, "c1", &input).unwrap();
    let out = tool.run(&mut store, "c1", &input).unwrap();
    assert!(out.contains("of 1 done"), "{out}");
}

#[test]
fn start_and_done_by_prefix_keep_one_item_active() {
    let (mut store, tool) = plan_setup();
    tool.run(
        &mut store,
        "c1",
        &json("{\"action\": \"add\", \"items\": [\"a\", \"b\"]}"),
    )
    .unwrap();
    let first = todo_id(&tool.session_id, "c1", 0)[..8].to_string();
    let second = todo_id(&tool.session_id, "c1", 1)[..8].to_string();
    let act = |action: &str, id: &str| {
        json(&format!("{{\"action\": \"{action}\", \"id\": \"{id}\"}}"))
    };

    let out = tool.run(&mut store, "c2", &act("start", &first)).unwrap();
    assert!(out.contains(&format!("{first} [>] a")), "{out}");

    // Starting the second returns the first to pending.
    let out = tool.run(&mut store, "c3", &act("start", &second)).unwrap();
    assert!(out.contains(&format!("{first} [ ] a")), "{out}");
    assert!(out.contains(&format!("{second} [>] b")), "{out}");

    let out = tool.run(&mut store, "c4", &act("done", &second)).unwrap();
    assert!(out.contains("Plan (1 of 2 done):"), "{out}");
    assert!(out.contains(&format!("{second} [x] b")), "{out}");
}

#[test]
fn remove_and_empty_render() {
    let (mut store, tool) = plan_setup();
    tool.run(
        &mut store,
        "c1",
        &json("{\"action\": \"add\", \"items\": [\"only\"]}"),
    )
    .unwrap();
    let id = todo_id(&tool.session_id, "c1", 0)[..8].to_string();
    let out = tool
        .run(
            &mut store,
            "c2",
            &json(&format!("{{\"action\": \"remove\", \"id\": \"{id}\"}}")),
        )
        .unwrap();
    assert_eq!(out, "The plan is empty.");
}

#[test]
fn bad_inputs_are_invalid_not_failed() {
    let (mut store, tool) = plan_setup();
    for input in [
        "{}",
        "{\"action\": \"add\"}",
        "{\"action\": \"add\", \"items\": []}",
        "{\"action\": \"start\"}",
        "{\"action\": \"done\", \"id\": \"zzz\"}",
        "{\"action\": \"yolo\"}",
    ] {
        let err = tool.run(&mut store, "c", &json(input)).unwrap_err();
        assert!(matches!(err, ToolError::InvalidInput(_)), "{err:?}");
    }
}

#[test]
fn ambiguous_prefix_asks_for_more() {
    let (mut store, tool) = plan_setup();
    tool.run(
        &mut store,
        "c1",
        &json("{\"action\": \"add\", \"items\": [\"a\", \"b\"]}"),
    )
    .unwrap();
    // The empty prefix matches everything.
    let err = tool
        .run(&mut store, "c2", &json("{\"action\": \"done\", \"id\": \"\"}"))
        .unwrap_err();
    assert!(err.to_string().contains("ambiguous"), "{err:?}");
}

#[test]
fn only_list_is_parallel_safe_and_replay_is_safe() {
    let tool = TodoTool::new("/h/t.db", "s");
    assert!(tool.parallel_safe(&json("{\"action\": \"list\"}")));
    assert!(!tool.parallel_safe(&json("{\"action\": \"add\", \"items\": [\"x\"]}")));
    assert!(!tool.parallel_safe(&json("{\"action\": \"done\", \"id\": \"a\"}")));
    assert!(tool.replay_safe());
}

#[test]
fn todo_ids_are_deterministic() {
    let a = todo_id("s1", "c1", 0);
    assert_eq!(a, todo_id("s1", "c1", 0));
    assert_ne!(a, todo_id("s1", "c1", 1));
    assert_ne!(a, todo_id("s1", "c2", 0));
    assert_ne!(a, todo_id("s2", "c1", 0));
}

// ── The pen ─────────────────────────────────────────────────────────────────

fn config() -> PenConfig {
    PenConfig::new("/h/t.db", "/ws", "fake", "test-model", "base system")
}

fn run_of(spawned: Result<Spawned, ToolError>) -> Session {
    match spawned.unwrap() {
        Spawned::Run(child) => child,
        Spawned::Report(report) => panic!("{report}"),
    }
}

fn report_of(spawned: Result<Spawned, ToolError>) -> String {
    match spawned.unwrap() {
        Spawned::Report(report) => report,
        Spawned::Run(child) => panic!("{child:?}"),
    }
}

/// A child's whole run, with one answer.
fn finish_child(store: &mut Store, child: &Session, task: &str, answer: &str) -> String {
    let mut worker = SessionWorker::from_lock(&child.id);
    worker.start(store, 42, NOW).unwrap();
    let (_, recovery) = prepare_session(store, &child.id).unwrap();
    let mut journal = StoreJournal::new(&child.id);
    let usage = Usage {
        input_tokens: 10,
        output_tokens: 5,
    };
    journal.run_started(store, &Message::user_text(task)).unwrap();
    journal.step_attempt(store, 1).unwrap();
    let said = Message {
        role: Role::Assistant,
        content: vec![ContentBlock::Text {
            text: answer.into(),
        }],
    };
    journal.assistant_message(store, &said).unwrap();
    journal
        .run_finished(store, RunOutcome::Completed, usage, NOW)
        .unwrap();
    let outcome = child_outcome(
        &child.id,
        Mode::Inspect,
        Ran::Answered(answer.into()),
        usage,
        recovery.is_some(),
        900,
    );
    worker.finish(store, child_status(&outcome), NOW).unwrap();
    outcome.unwrap()
}

#[test]
fn inspect_children_are_parallel_safe_work_children_are_not() {
    let pen = PenTool::new("p", config());
    assert!(pen.parallel_safe(&json("{\"mode\": \"inspect\", \"prompt\": \"x\"}")));
    assert!(pen.parallel_safe(&json("{\"prompt\": \"x\"}"))); // default mode
    assert!(!pen.parallel_safe(&json("{\"mode\": \"work\", \"prompt\": \"x\"}")));
    assert!(!pen.replay_safe());
}

#[test]
fn child_ids_are_deterministic() {
    let a = child_session_id("parent-1", "call-1");
    assert_eq!(a, child_session_id("parent-1", "call-1"));
    assert_ne!(a, child_session_id("parent-1", "call-2"));
    assert_ne!(a, child_session_id("parent-2", "call-1"));
}

#[test]
fn child_runs_and_is_durably_linked() {
    let mut store = Store::new();
    let parent = parent(&mut store);
    let child = run_of(spawn_child(&mut store, &config(), &parent, "call_1", false, NOW));
    let out = finish_child(&mut store, &child, "look into it", "child answer");
    assert!(out.contains("child answer"), "{out}");

    assert_eq!(store.count_children(&parent), 1);
    let child = store
        .get_session(&child_session_id(&parent, "call_1"))
        .unwrap();
    assert_eq!(child.parent_session_id.as_deref(), Some(parent.as_str()));
    assert_eq!(child.status, "completed");
    assert_eq!(child.pid, None);
    assert_eq!(
        store.last_run_outcome(&child.id).as_deref(),
        Some("completed")
    );
}

#[test]
fn replay_reattaches_without_provider_calls() {
    let mut store = Store::new();
    let parent = parent(&mut store);
    let child = run_of(spawn_child(&mut store, &config(), &parent, "call_1", false, NOW));
    finish_child(&mut store, &child, "task", "first answer");

    let out = report_of(spawn_child(&mut store, &config(), &parent, "call_1", false, NOW));
    assert!(out.contains("first answer"), "{out}");
    assert!(out.contains("reattached"), "{out}");
    assert_eq!(store.count_children(&parent), 1);
}

#[test]
fn child_budget_is_durable() {
    let mut store = Store::new();
    let parent = parent(&mut store);
    let mut cfg = config();
    cfg.max_children = 1;
    let child = run_of(spawn_child(&mut store, &cfg, &parent, "call_1", false, NOW));
    finish_child(&mut store, &child, "a", "one");

    let err = spawn_child(&mut store, &cfg, &parent, "call_2", false, NOW).unwrap_err();
    assert!(err.to_string().contains("budget exhausted"), "{err:?}");
}

#[test]
fn interrupted_child_is_recovered_and_continued() {
    let mut store = Store::new();
    let parent = parent(&mut store);
    let child_id = child_session_id(&parent, "call_1");
    // The durable state of a child that crashed mid-run.
    store
        .create_child_session(&child_id, &parent, "/tmp", "fake", "test-model", NOW)
        .unwrap();
    store.start_operation(&child_id, &json("{}")).unwrap();
    store
        .append_entry(
            &child_id,
            "e-user",
            "message",
            &Payload::Message(Message::user_text("original task")),
        )
        .unwrap();

    let child = run_of(spawn_child(&mut store, &config(), &parent, "call_1", false, NOW));
    let transcript = store.path_messages(&child_id).unwrap();
    let task = child_task(&transcript, "original task");
    assert_ne!(task, "original task");
    let out = finish_child(&mut store, &child, &task, "finished it");
    assert!(out.contains("finished it"), "{out}");
    assert!(out.contains("recovered"), "{out}");

    // The child's transcript shows the whole story: original attempt,
    // recovery closure, continuation.
    let messages = store.path_messages(&child_id).unwrap();
    assert!(messages.iter().any(|m| m.text().contains("interrupted")));
    assert_eq!(
        store.last_run_outcome(&child_id).as_deref(),
        Some("completed")
    );
}

#[test]
fn inspect_mode_has_no_bash() {
    assert!(registry_for_mode("inspect").unwrap().get("bash").is_none());
    assert!(registry_for_mode("work").unwrap().get("bash").is_some());
    // Children never get a pen of their own.
    assert!(registry_for_mode("work").unwrap().get("agent").is_none());
}

#[test]
fn isolated_and_background_children_are_parallel_safe() {
    let pen = PenTool::new("p", config());
    assert!(pen.parallel_safe(&json(
        "{\"mode\": \"work\", \"worktree\": true, \"prompt\": \"x\"}"
    )));
    assert!(pen.parallel_safe(&json(
        "{\"mode\": \"work\", \"background\": true, \"prompt\": \"x\"}"
    )));
    assert!(!pen.parallel_safe(&json("{\"mode\": \"work\", \"prompt\": \"x\"}")));
}

#[test]
fn worktree_child_works_in_its_own_tree() {
    let mut store = Store::new();
    let parent = parent(&mut store);
    let spawn = spawn_request(&json(
        "{\"prompt\": \"work\", \"mode\": \"work\", \"worktree\": true}",
    ))
    .unwrap();
    let child = run_of(spawn_child(&mut store, &config(), &parent, "call_1", false, NOW));
    assert!(needs_worktree(&child, spawn.worktree));
    let (path, branch) = record_worktree(&mut store, &config().store_path, &child.id);
    assert_eq!(path, format!("/h/worktrees/{}", child.id));

    let child = store.get_session(&child.id).unwrap();
    assert_eq!(child.worktree_path.as_deref(), Some(path.as_str()));
    assert_eq!(
        child.worktree_branch.as_deref(),
        Some(format!("bullpen/{}", child.id).as_str())
    );
    assert_eq!(branch, format!("bullpen/{}", child.id));
    // A replayed spawn finds it recorded.
    assert!(!needs_worktree(&child, spawn.worktree));
    assert!(matches!(
        place_child(Location::Shared, "/ws").unwrap(),
        Place::At(p) if p == "/ws"
    ));
    let taken = Location::Occupied {
        path: path.clone(),
        branch: branch.clone(),
    };
    assert!(place_child(taken, "/ws").is_err());
}

#[test]
fn worktree_needs_work_mode_and_a_repository() {
    let err = spawn_request(&json("{\"prompt\": \"x\", \"worktree\": true}")).unwrap_err();
    assert!(matches!(err, ToolError::InvalidInput(_)), "{err:?}");
    // Work mode, but the workspace is not a repository: isolation never
    // degrades to the shared checkout.
    let err = repo_root("/ws", git(false, "", "")).unwrap_err();
    assert!(err.contains("not inside a git repository"), "{err}");
}

#[test]
fn background_dispatch_returns_immediately_and_job_waits() {
    let mut store = Store::new();
    let parent = parent(&mut store);
    let child = run_of(spawn_child(&mut store, &config(), &parent, "call_1", false, NOW));
    let out = dispatched(&child.id, Mode::Inspect, false);
    assert!(out.contains("dispatched child"), "{out}");
    // Still running, so the wait goes on.
    let mut worker = SessionWorker::from_lock(&child.id);
    worker.start(&mut store, 42, NOW).unwrap();
    assert!(look(&store, &child.id, true, false, 30).is_none());
    worker.finish(&mut store, "failed", NOW).unwrap();

    finish_child(&mut store, &child, "task", "bg answer");
    let waited = look(&store, &child.id, false, false, 30).unwrap().unwrap();
    assert!(waited.contains("bg answer"), "{waited}");
    assert!(waited.contains("completed"), "{waited}");
}

#[test]
fn cancelled_background_child_finishes_failed_and_stays_resumable() {
    let mut store = Store::new();
    let parent = parent(&mut store);
    let child = run_of(spawn_child(&mut store, &config(), &parent, "call_1", false, NOW));
    let mut worker = SessionWorker::from_lock(&child.id);
    worker.start(&mut store, 42, NOW).unwrap();

    // A second spawn of the same call reports, not respawns.
    let again = report_of(spawn_child(&mut store, &config(), &parent, "call_1", true, NOW));
    assert!(again.contains("already running"), "{again}");

    let out = cancel_result(&child, true, true).unwrap();
    assert!(out.contains("cancel signalled"), "{out}");
    let outcome = child_outcome(
        &child.id,
        Mode::Inspect,
        Ran::Cancelled,
        Usage::default(),
        false,
        900,
    );
    assert!(outcome.is_err());
    worker.finish(&mut store, child_status(&outcome), NOW).unwrap();

    // A wait observes the terminal state the cancelled child recorded.
    let err = look(&store, &child.id, false, false, 30)
        .unwrap()
        .unwrap_err();
    assert!(err.to_string().contains("failed"), "{err:?}");
    assert_eq!(store.get_session(&child.id).unwrap().status, "failed");
}

#[test]
fn bad_mode_is_rejected() {
    let err = spawn_request(&json("{\"prompt\": \"x\", \"mode\": \"yolo\"}")).unwrap_err();
    assert!(matches!(err, ToolError::InvalidInput(_)));
}

#[test]
fn a_child_that_times_out_can_be_continued() {
    let outcome = child_outcome(
        "0123456789ab",
        Mode::Work,
        Ran::TimedOut,
        Usage::default(),
        false,
        900,
    );
    let msg = outcome.unwrap_err().to_string();
    assert!(msg.contains("child 01234567 timed out after 900s"), "{msg}");
}

#[test]
fn an_isolated_child_is_confined_to_its_own_tree() {
    let own = child_sandbox(
        Sandbox::workspace("/ws", None),
        "/h/worktrees/c",
        "/ws",
        None,
        vec!["/repo/.git".into()],
    );
    let roots = &own.capabilities().write_roots;
    assert!(roots.contains(&"/h/worktrees/c".to_string()), "{roots:?}");
    assert!(roots.contains(&"/repo/.git".to_string()), "{roots:?}");
    assert!(!roots.contains(&"/ws".to_string()), "{roots:?}");
    let shared = child_sandbox(
        Sandbox::workspace("/ws", None),
        "/ws",
        "/ws",
        None,
        Vec::new(),
    );
    assert!(shared.capabilities().write_roots.contains(&"/ws".to_string()));
}

// ── Jobs ────────────────────────────────────────────────────────────────────

#[test]
fn empty_list_and_bad_inputs() {
    assert_eq!(
        render(&Vec::new(), &Vec::new()),
        "No children dispatched in this session."
    );
    for input in ["{}", "{\"action\": \"wait\"}", "{\"action\": \"nope\"}"] {
        let err = request(&json(input)).unwrap_err();
        assert!(matches!(err, ToolError::InvalidInput(_)), "{err:?}");
    }
    let Request::Cancel { prefix } =
        request(&json("{\"action\": \"cancel\", \"id\": \"zzz\"}")).unwrap()
    else {
        panic!("expected a cancel");
    };
    let err = resolve(&Vec::new(), &prefix).unwrap_err();
    assert!(matches!(err, ToolError::InvalidInput(_)), "{err:?}");
}

#[test]
fn list_shows_the_completed_child_and_wait_returns_its_answer() {
    let mut store = Store::new();
    let parent = parent(&mut store);
    let child = run_of(spawn_child(&mut store, &config(), &parent, "call_1", false, NOW));
    finish_child(&mut store, &child, "go", "child answer");

    let children = store.list_children(&parent);
    let listed = render(&children, &vec![false]);
    let short = &child_session_id(&parent, "call_1")[..8];
    assert!(listed.contains(short), "{listed}");
    assert!(listed.contains("Completed"), "{listed}");

    // Waiting on an already-finished child returns immediately.
    let found = resolve(&children, short).unwrap();
    let waited = look(&store, &found.id, false, false, 900).unwrap().unwrap();
    assert!(waited.contains("child answer"), "{waited}");

    // A finished child cannot be cancelled.
    let err = cancel_result(&found, false, false).unwrap_err();
    assert!(err.to_string().contains("not running"), "{err:?}");
}

#[test]
fn a_crashed_child_reads_as_failed_not_working() {
    let mut store = Store::new();
    let parent = parent(&mut store);
    let child_id = child_session_id(&parent, "call_1");
    // A child whose process died mid-run: status running, no live process.
    store
        .create_child_session(&child_id, &parent, "/tmp", "fake", "m", NOW)
        .unwrap();
    store.start_operation(&child_id, &json("{}")).unwrap();
    store
        .start_worker(&child_id, i32::MAX as i64 - 1, WorkerKind::NonDraining, NOW)
        .unwrap();

    let listed = render(&store.list_children(&parent), &vec![false]);
    assert!(listed.contains("Failed"), "{listed}");

    let err = look(&store, &child_id, false, false, 5)
        .unwrap()
        .unwrap_err();
    assert!(
        err.to_string().contains("failed or was interrupted"),
        "{err:?}"
    );

    // And the promised continuation path actually recovers it.
    let (_, recovery) = prepare_session(&mut store, &child_id).unwrap();
    assert!(recovery.is_some());
}

#[test]
fn reads_are_parallel_safe_cancel_is_not() {
    let job = PenTool::new("p", config()).job_tool();
    assert!(job.parallel_safe(&json("{\"action\": \"list\"}")));
    assert!(job.parallel_safe(&json("{\"action\": \"wait\", \"id\": \"a\"}")));
    assert!(!job.parallel_safe(&json("{\"action\": \"cancel\", \"id\": \"a\"}")));
    assert_eq!(job.session_id, "p");
    assert!(matches!(
        request(&json("{\"action\": \"wait\", \"id\": \"a\", \"timeout_seconds\": 5}")).unwrap(),
        Request::Wait { timeout_secs: 5, .. }
    ));
}

// ── Whole runs ──────────────────────────────────────────────────────────────

const USAGE: Usage = Usage {
    input_tokens: 10,
    output_tokens: 5,
};

/// Which writes the process lives to see.
#[derive(Clone, Copy, PartialEq)]
enum Fate {
    Lives,
    DiesAfterIntents,
}

/// Drive a run against the store's own journal.
fn drive(
    store: &mut Store,
    session_id: &str,
    agent: &mut Agent,
    text: &str,
    mut script: Vec<Response>,
    fate: Fate,
) -> Result<String, AgentError> {
    script.reverse();
    let mut journal = StoreJournal::new(session_id);
    let crash = || Err(JournalError("simulated crash".into()));
    let mut step = agent.send(text);
    loop {
        step = match step.action {
            Action::RunStarted(m) => agent.journaled(journal.run_started(store, &m)),
            Action::StepAttempt(n) => agent.journaled(journal.step_attempt(store, n)),
            Action::AssistantMessage(m) => agent.journaled(journal.assistant_message(store, &m)),
            Action::ToolBatch(i) => agent.journaled(journal.tool_batch(store, &i)),
            Action::ToolResults(m) => {
                let r = match fate {
                    Fate::Lives => journal.tool_results(store, &m),
                    Fate::DiesAfterIntents => crash(),
                };
                agent.journaled(r)
            }
            Action::RunFinished(outcome, usage) => {
                let r = match fate {
                    Fate::Lives => journal.run_finished(store, outcome, usage, NOW),
                    Fate::DiesAfterIntents => crash(),
                };
                agent.journaled(r)
            }
            Action::Complete(_) => {
                let answer = script
                    .pop()
                    .ok_or_else(|| ProviderError::Failure("script exhausted".into()));
                agent.responded(answer)
            }
            Action::Execute(intents) => agent.ran(
                intents
                    .iter()
                    .map(|_| Output {
                        text: "echo: 42".into(),
                        is_error: false,
                    })
                    .collect(),
            ),
            Action::Done(result) => return result,
        };
    }
}

fn answer(text: &str) -> Response {
    Response {
        content: vec![ContentBlock::Text { text: text.into() }],
        stop_reason: StopReason::EndTurn,
        usage: USAGE,
    }
}

fn echo_call() -> Response {
    Response {
        content: vec![ContentBlock::ToolUse {
            id: "tu_1".into(),
            name: "echo".into(),
            input: json("{\"value\": 42}"),
        }],
        stop_reason: StopReason::ToolUse,
        usage: USAGE,
    }
}

fn new_agent() -> Agent {
    Agent::new(Registry::new(), AgentConfig::default())
}

#[test]
fn full_run_is_durable_and_resumable() {
    let mut store = Store::new();
    let session = parent(&mut store);
    let mut agent = new_agent();
    let out = drive(
        &mut store,
        &session,
        &mut agent,
        "go",
        vec![echo_call(), answer("done")],
        Fate::Lives,
    );
    assert_eq!(out.unwrap(), "done");

    // The durable transcript equals the in-memory one, the operation is
    // closed, and usage rolled up.
    let (messages, recovery) = prepare_session(&mut store, &session).unwrap();
    assert!(recovery.is_none());
    assert_eq!(messages.len(), agent.messages().len());
    for (a, b) in messages.iter().zip(agent.messages()) {
        assert!(same_message(a, b));
    }
    assert!(store.open_run(&session).unwrap().is_none());
    let row = store.get_session(&session).unwrap();
    assert_eq!(row.usage.output_tokens, 10); // two steps of 5
    assert_eq!(row.title, "go");

    // A follow-up run seeded from the durable transcript works.
    let mut agent = new_agent().with_transcript(messages, row.usage);
    let out = drive(
        &mut store,
        &session,
        &mut agent,
        "more",
        vec![answer("again")],
        Fate::Lives,
    );
    assert_eq!(out.unwrap(), "again");
    assert_eq!(store.path_messages(&session).unwrap().len(), 6);
}

#[test]
fn provider_failure_leaves_recoverable_state() {
    let mut store = Store::new();
    let session = parent(&mut store);
    let out = drive(
        &mut store,
        &session,
        &mut new_agent(),
        "go",
        vec![],
        Fate::Lives,
    );
    assert!(out.is_err());

    // The operation was closed and the user message is durable.
    assert!(store.open_run(&session).unwrap().is_none());
    let (messages, recovery) = prepare_session(&mut store, &session).unwrap();
    assert!(recovery.is_none());
    assert_eq!(messages.len(), 1);
    assert_eq!(messages[0].role, Role::User);
}

#[test]
fn simulated_crash_mid_batch_recovers() {
    let mut store = Store::new();
    let session = parent(&mut store);
    let out = drive(
        &mut store,
        &session,
        &mut new_agent(),
        "go",
        vec![echo_call()],
        Fate::DiesAfterIntents,
    );
    assert!(out.is_err());

    // The operation is still open: exactly what a killed process leaves.
    assert!(store.open_run(&session).unwrap().is_some());

    // Preparation recovers: synthetic interrupted result paired to the
    // intent, closing assistant note, operation closed.
    let (messages, recovery) = prepare_session(&mut store, &session).unwrap();
    assert_eq!(recovery.expect("recovery ran").interrupted_tools, 1);
    let ContentBlock::ToolResult {
        tool_use_id,
        is_error,
        ..
    } = &messages[2].content[0]
    else {
        panic!("expected synthetic result, got {:?}", messages[2]);
    };
    assert_eq!(tool_use_id, "tu_1");
    assert!(is_error);
    assert_eq!(messages.last().unwrap().role, Role::Assistant);
    assert!(store.open_run(&session).unwrap().is_none());
}

#[test]
fn a_queued_input_runs_under_its_own_operation() {
    let mut store = Store::new();
    let session = parent(&mut store);
    store
        .enqueue_input(
            &session,
            "input-1",
            &Payload::Message(Message::user_text("go")),
            NOW,
        )
        .unwrap();
    let started = store
        .start_oldest_pending_input(&session, "input-1", NOW)
        .unwrap()
        .unwrap();
    let run_id = started.operation_id.unwrap();

    let mut fresh = StoreJournal::new(&session);
    assert!(fresh.step_attempt(&mut store, 1).is_err());
    let mut journal = StoreJournal::resumed(&session, &run_id);
    journal.step_attempt(&mut store, 1).unwrap();
    journal
        .run_finished(&mut store, RunOutcome::Completed, USAGE, NOW)
        .unwrap();
    assert!(store.open_run(&session).unwrap().is_none());
    assert_eq!(store.last_run_outcome(&session).as_deref(), Some("completed"));
    assert_eq!(store.path_messages(&session).unwrap().len(), 1);
}

#[test]
fn a_child_begins_on_its_transcript_and_ends_on_the_record() {
    let mut store = Store::new();
    let parent = parent(&mut store);
    let child = run_of(spawn_child(&mut store, &config(), &parent, "call_1", false, NOW));
    let spawn = spawn_request(&json("{\"prompt\": \"look into it\"}")).unwrap();
    let mut worker = SessionWorker::from_lock(&child.id);
    worker.start(&mut store, 42, NOW).unwrap();
    let mut run = begin_child(&mut store, &config(), &child, &spawn).unwrap();
    assert_eq!(run.task, "look into it");
    assert!(!run.recovered);
    assert!(run.agent.messages().is_empty());

    let answered = drive(
        &mut store,
        &child.id,
        &mut run.agent,
        &run.task,
        vec![answer("found it")],
        Fate::Lives,
    )
    .unwrap();
    let usage = run.agent.usage();
    let report = end_child(
        &mut store,
        &mut worker,
        spawn.mode,
        Ran::Answered(answered),
        usage,
        run.recovered,
        900,
        NOW,
    )
    .unwrap();
    let short = &child.id[..8];
    assert_eq!(
        report,
        format!("found it\n\n[child {short} · mode inspect · 10 in / 5 out tokens]")
    );
    assert_eq!(store.get_session(&child.id).unwrap().status, "completed");
    // Its registration is over: it may start another.
    assert!(worker.start(&mut store, 42, NOW).is_ok());
    worker.finish(&mut store, "completed", NOW).unwrap();

    // The worker is done: ending the child once more changes nothing.
    let again = end_child(
        &mut store,
        &mut worker,
        spawn.mode,
        Ran::TimedOut,
        usage,
        false,
        900,
        NOW,
    );
    assert!(again.is_err());
    assert_eq!(store.get_session(&child.id).unwrap().status, "completed");
}
