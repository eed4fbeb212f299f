use std::io::{Cursor, Write as _};

use bullpen::json::{parse, Json};
use bullpen::sandbox::{write_targets, Sandbox};
use bullpen::tools::archive::{
    cap_content, detect, find_member, list_members, Entry, Kind, MAX_ENTRY_BYTES,
};
use bullpen::tools::ask::{result as ask_result, Ask};
use bullpen::tools::ast::{
    command_line, edit_args, edit_result, grep_args, grep_result, is_ast_grep, no_binary,
    shell_quote, AstEdit, AstGrep,
};
use bullpen::tools::bash::{command, plain_bash, Bash};
use bullpen::tools::fs::{edit, line_hash, EditFile, ReadFile, WriteFile};
use bullpen::tools::github::{parse_args, spawn_failure, GitHub};
use bullpen::tools::process::Output;
use bullpen::tools::read::{
    check_network, fetched, list_dir, read_bytes, read_target, read_text, take_chunk, url_result,
    write_message, write_request, DirEntry, Target,
};
use bullpen::tools::search::{
    glob_path, glob_request, glob_result, grep_file, grep_request, show_hits, Glob, Grep,
    MAX_RESULTS,
};
use bullpen::tools::sqlite::{db_err, is_sqlite, overview, Answer, Cell, Table};
use bullpen::tools::{archive, bash, github};
use bullpen::tools::{truncate_middle, Registry, Tool, ToolCtx, ToolError, ToolInfo};

fn json(text: &str) -> Json {
    parse(text).unwrap()
}

fn texts(items: &[&str]) -> Vec<String> {
    items.iter().map(|s| s.to_string()).collect()
}

fn names(registry: &Registry) -> Vec<String> {
    registry.specs().iter().map(|s| s.name.clone()).collect()
}

fn output(code: i32, stdout: &str, stderr: &str) -> Output {
    Output {
        success: code == 0,
        code: Some(code),
        stdout: stdout.into(),
        stderr: stderr.into(),
    }
}

// ── The registry ────────────────────────────────────────────────────────────

#[test]
fn registry_specs_sorted_and_complete() {
    let r = Registry::standard();
    let names = names(&r);
    let mut sorted = names.clone();
    sorted.sort();
    assert_eq!(names, sorted);
    assert_eq!(
        names,
        vec![
            "ast_edit",
            "ast_grep",
            "bash",
            "edit_file",
            "glob",
            "grep",
            "read_file",
            "write_file"
        ]
    );
}

#[test]
fn the_read_only_registry_has_no_shell_and_no_writes() {
    let r = Registry::inspect();
    assert_eq!(names(&r), vec!["ast_grep", "glob", "grep", "read_file"]);
    assert!(r.get("bash").is_none());
    assert!(r.get("read_file").unwrap().replay_safe);
}

#[test]
fn a_tool_of_the_same_name_gives_way() {
    let mut r = Registry::new();
    r.register(ToolInfo::of(&Bash));
    let mut other = ToolInfo::of(&Grep);
    other.spec.name = "bash".into();
    r.register(other);
    assert_eq!(names(&r), vec!["bash"]);
    assert!(r.get("bash").unwrap().replay_safe);
}

#[test]
fn tools_that_change_things_stay_serial() {
    let empty = json("{}");
    for (name, safe, overlaps) in [
        (Bash.name(), Bash.replay_safe(), Bash.parallel_safe(&empty)),
        (WriteFile.name(), WriteFile.replay_safe(), WriteFile.parallel_safe(&empty)),
        (EditFile.name(), EditFile.replay_safe(), EditFile.parallel_safe(&empty)),
    ] {
        assert!(!safe && !overlaps, "{name}");
    }
    for (name, safe, overlaps) in [
        (ReadFile.name(), ReadFile.replay_safe(), ReadFile.parallel_safe(&empty)),
        (Grep.name(), Grep.replay_safe(), Grep.parallel_safe(&empty)),
        (Glob.name(), Glob.replay_safe(), Glob.parallel_safe(&empty)),
    ] {
        assert!(safe && overlaps, "{name}");
    }
}

#[test]
fn truncation_keeps_head_and_tail() {
    let s = "a".repeat(100) + &"z".repeat(100);
    let t = truncate_middle(s, 50);
    assert!(t.starts_with("aaaa"));
    assert!(t.ends_with("zzzz"));
    assert!(t.contains("truncated"));
}

#[test]
fn short_output_untouched() {
    assert_eq!(truncate_middle("hi".into(), 100), "hi");
}

#[test]
fn truncation_counts_what_it_drops() {
    let t = truncate_middle("0123456789".into(), 4);
    assert_eq!(
        t,
        "01\n\n[... output truncated: 6 of 10 bytes elided ...]\n\n89"
    );
}

#[test]
fn tool_errors_say_what_failed() {
    assert_eq!(
        ToolError::InvalidInput("x".into()).to_string(),
        "invalid input: x"
    );
    assert_eq!(ToolError::Failed("x".into()).to_string(), "x");
    assert_eq!(ToolError::Timeout(3).to_string(), "timed out after 3 seconds");
}

// ── Files ───────────────────────────────────────────────────────────────────

/// The anchor for 1-indexed `line` of `content`, as read_file shows it.
fn anchor(content: &str, line: usize) -> String {
    let text = content.lines().nth(line - 1).unwrap();
    format!("{line}#{}", line_hash(text))
}

fn patch(hunks: &str) -> Json {
    json(&format!("{{\"path\": \"f.txt\", \"patch\": {hunks}}}"))
}

#[test]
fn write_then_read_roundtrip() {
    let write = write_request(
        "/ws",
        &json("{\"path\": \"sub/f.txt\", \"content\": \"one\\ntwo\\nthree\"}"),
    )
    .unwrap();
    assert_eq!(write.path, "/ws/sub/f.txt");
    assert_eq!(write.parent.as_deref(), Some("/ws/sub"));
    assert_eq!(
        write_message(&write.path, &write.content),
        "wrote 13 bytes to /ws/sub/f.txt"
    );
    let target = read_target("/ws", &json("{\"path\": \"sub/f.txt\"}")).unwrap();
    assert!(matches!(target, Target::Path(p) if p == "/ws/sub/f.txt"));
    let out = read_text(&write.content, &json("{\"path\": \"sub/f.txt\"}"));
    assert_eq!(
        out,
        format!(
            "1#{}\tone\n2#{}\ttwo\n3#{}\tthree\n",
            line_hash("one"),
            line_hash("two"),
            line_hash("three")
        )
    );
}

#[test]
fn a_line_hash_is_the_beginning_of_a_digest() {
    // SHA-256 of the empty text and of `abc`.
    assert!("e3b0c44298fc1c149afbf4c8996fb924".starts_with(&line_hash("")));
    assert!("ba7816bf8f01cfea414140de5dae2223".starts_with(&line_hash("abc")));
    assert_ne!(line_hash("a"), line_hash("b"));
}

#[test]
fn read_line_window() {
    let out = read_text(
        "a\nb\nc\nd",
        &json("{\"path\": \"f.txt\", \"offset\": 2, \"limit\": 2}"),
    );
    assert_eq!(
        out,
        format!("2#{}\tb\n3#{}\tc\n", line_hash("b"), line_hash("c"))
    );
}

#[test]
fn patch_applies_replace_insert_and_delete_in_one_call() {
    let text = "one\ntwo\nthree\nfour\n";
    let out = edit(
        "f.txt",
        text,
        &patch(&format!(
            "[{{\"anchor\": \"{}\", \"op\": \"replace\", \"content\": \"TWO\\nTWO-B\"}}, \
              {{\"anchor\": \"{}\", \"op\": \"delete\"}}, \
              {{\"anchor\": \"0\", \"op\": \"insert_after\", \"content\": \"zero\"}}]",
            anchor(text, 2),
            anchor(text, 4)
        )),
    )
    .unwrap();
    assert!(out.message.contains("3 hunk(s)"), "{}", out.message);
    assert_eq!(out.text, "zero\none\nTWO\nTWO-B\nthree\n");
}

#[test]
fn patch_replaces_a_span_and_preserves_no_trailing_newline() {
    let text = "a\nb\nc\nd";
    let out = edit(
        "f.txt",
        text,
        &patch(&format!(
            "[{{\"anchor\": \"{}\", \"to\": \"{}\", \"op\": \"replace\", \"content\": \"BC\"}}]",
            anchor(text, 2),
            anchor(text, 3)
        )),
    )
    .unwrap();
    assert_eq!(out.text, "a\nBC\nd");
}

#[test]
fn a_moved_anchor_is_followed_by_its_hash() {
    // Anchors taken from this layout...
    let stale = "target\nfiller\n";
    // ...but lines were inserted above before the patch lands.
    let out = edit(
        "f.txt",
        "new-top\nalso-new\ntarget\nfiller\n",
        &patch(&format!(
            "[{{\"anchor\": \"{}\", \"op\": \"replace\", \"content\": \"hit\"}}]",
            anchor(stale, 1)
        )),
    )
    .unwrap();
    assert!(out.message.contains("1 moved anchor"), "{}", out.message);
    assert_eq!(out.text, "new-top\nalso-new\nhit\nfiller\n");
}

#[test]
fn a_changed_anchor_fails_with_fresh_context_not_a_wrong_edit() {
    let stale = "original\nkeep\n";
    let err = edit(
        "f.txt",
        "rewritten\nkeep\n",
        &patch(&format!(
            "[{{\"anchor\": \"{}\", \"op\": \"replace\", \"content\": \"x\"}}]",
            anchor(stale, 1)
        )),
    )
    .unwrap_err();
    let msg = err.to_string();
    assert!(msg.contains("stale anchor"), "{msg}");
    // The error carries current hashlines so the model can re-anchor.
    assert!(
        msg.contains(&format!("1#{}\trewritten", line_hash("rewritten"))),
        "{msg}"
    );
}

#[test]
fn ambiguous_recovery_fails_rather_than_guessing() {
    let stale = "dup\nunique\n";
    // The anchored content now appears twice, in neither original spot.
    let err = edit(
        "f.txt",
        "moved-a\ndup\ndup\n",
        &patch(&format!(
            "[{{\"anchor\": \"{}\", \"op\": \"delete\"}}]",
            anchor(stale, 1)
        )),
    )
    .unwrap_err();
    assert!(err.to_string().contains("several lines"), "{err:?}");
}

#[test]
fn malformed_patches_are_invalid_input() {
    let text = "a\nb\nc\n";
    let a1 = anchor(text, 1);
    let a2 = anchor(text, 2);

    for hunks in [
        "[]".to_string(),
        "[{\"op\": \"replace\", \"content\": \"x\"}]".to_string(),
        "[{\"anchor\": \"nope\", \"op\": \"replace\", \"content\": \"x\"}]".to_string(),
        format!("[{{\"anchor\": \"{a1}\", \"op\": \"explode\"}}]"),
        format!("[{{\"anchor\": \"{a1}\", \"op\": \"replace\"}}]"),
        format!("[{{\"anchor\": \"{a1}\", \"op\": \"delete\", \"content\": \"x\"}}]"),
        format!("[{{\"anchor\": \"{a1}\", \"op\": \"insert_after\"}}]"),
        "[{\"anchor\": \"0\", \"op\": \"delete\"}]".to_string(),
        format!("[{{\"anchor\": \"{a2}\", \"to\": \"{a1}\", \"op\": \"delete\"}}]"),
        // Overlapping hunks, and two insertions at one point.
        format!(
            "[{{\"anchor\": \"{a1}\", \"to\": \"{a2}\", \"op\": \"delete\"}}, \
              {{\"anchor\": \"{a2}\", \"op\": \"replace\", \"content\": \"x\"}}]"
        ),
        format!(
            "[{{\"anchor\": \"{a1}\", \"op\": \"insert_after\", \"content\": \"x\"}}, \
              {{\"anchor\": \"{a1}\", \"op\": \"insert_after\", \"content\": \"y\"}}]"
        ),
    ] {
        let err = edit("f.txt", text, &patch(&hunks)).unwrap_err();
        assert!(matches!(err, ToolError::InvalidInput(_)), "{hunks}: {err:?}");
    }

    // Both modes at once is also a caller error.
    let err = edit(
        "f.txt",
        text,
        &json(&format!(
            "{{\"path\": \"f.txt\", \"old_string\": \"a\", \"new_string\": \"b\", \
              \"patch\": [{{\"anchor\": \"{a1}\", \"op\": \"delete\"}}]}}"
        )),
    )
    .unwrap_err();
    assert!(matches!(err, ToolError::InvalidInput(_)));
}

#[test]
fn edit_requires_unique_match() {
    let text = "x = 1\nx = 1\n";
    let err = edit(
        "f.txt",
        text,
        &json("{\"path\": \"f.txt\", \"old_string\": \"x = 1\", \"new_string\": \"x = 2\"}"),
    )
    .unwrap_err();
    assert!(err.to_string().contains("2 times"));

    let out = edit(
        "f.txt",
        text,
        &json(
            "{\"path\": \"f.txt\", \"old_string\": \"x = 1\\nx = 1\", \
             \"new_string\": \"x = 2\\nx = 1\"}",
        ),
    )
    .unwrap();
    assert_eq!(out.text, "x = 2\nx = 1\n");
    assert!(read_text(&out.text, &json("{\"path\": \"f.txt\"}")).contains("x = 2"));
}

#[test]
fn overlapping_places_are_counted_too() {
    let shrink = json("{\"path\": \"f.txt\", \"old_string\": \"aa\", \"new_string\": \"b\"}");
    let err = edit("f.txt", "aaa", &shrink).unwrap_err();
    assert!(err.to_string().contains("appears 2 times"), "{err:?}");
    assert_eq!(edit("f.txt", "xaax", &shrink).unwrap().text, "xbx");
}

#[test]
fn bytes_that_are_no_utf8_are_still_shown() {
    let whole = json("{}");
    assert_eq!(
        read_bytes(&b"one\ntwo\n".to_vec(), &whole),
        read_text("one\ntwo\n", &whole)
    );
    assert_eq!(
        read_bytes(&b"a\xffb\n".to_vec(), &whole),
        read_text("a\u{fffd}b\n", &whole)
    );
    assert_eq!(
        fetched("http://x", 200, "200 OK", true, &b"a\xff".to_vec()).unwrap(),
        "GET http://x → 200 OK (body clipped)\n\na\u{fffd}"
    );
    let err = fetched("http://x", 404, "404 Not Found", false, &b"gone".to_vec()).unwrap_err();
    assert_eq!(err.to_string(), "GET http://x returned 404 Not Found\ngone");
}

#[test]
fn edit_missing_string_fails() {
    let err = edit(
        "f.txt",
        "hello",
        &json("{\"path\": \"f.txt\", \"old_string\": \"absent\", \"new_string\": \"y\"}"),
    )
    .unwrap_err();
    assert!(err.to_string().contains("not found"));
}

#[test]
fn a_directory_reads_as_a_sorted_listing() {
    let entry = |is_dir: bool, name: &str, size: u64| DirEntry {
        is_dir,
        name: name.into(),
        size,
    };
    let out = list_dir(
        "/ws",
        vec![
            entry(false, "b.txt", 5),
            entry(false, "a.txt", 1),
            entry(true, "sub", 4096),
        ],
    );
    let lines: Vec<&str> = out.lines().collect();
    assert!(lines[0].starts_with("directory"), "{out}");
    assert!(lines[0].contains("3 entries"), "{out}");
    // Directories first, then files alphabetically, with sizes.
    assert_eq!(
        &lines[1..],
        ["  sub/", "  a.txt  1 bytes", "  b.txt  5 bytes"]
    );
}

#[test]
fn urls_fetch_through_the_same_path() {
    let target = read_target("/ws", &json("{\"path\": \"http://h/\"}")).unwrap();
    assert!(matches!(target, Target::Url(u) if u == "http://h/"));
    let mut body = Vec::new();
    assert!(!take_chunk(&mut body, &b"hel".to_vec()));
    assert!(!take_chunk(&mut body, &b"lo".to_vec()));
    let text = String::from_utf8(body).unwrap();
    let out = url_result("http://h/", 200, "200 OK", false, text).unwrap();
    assert!(out.contains("200"), "{out}");
    assert!(out.contains("hello"), "{out}");
}

#[test]
fn a_failing_url_is_an_error_carrying_the_status() {
    let err = url_result("http://h/", 404, "404 Not Found", false, "gone".into()).unwrap_err();
    let msg = err.to_string();
    assert!(msg.contains("404"), "{msg}");
    assert!(msg.contains("gone"), "{msg}");
}

#[test]
fn a_network_denying_sandbox_refuses_urls() {
    let strict = ToolCtx::new("/ws").with_sandbox(Sandbox::strict("/ws", None));
    let err = check_network(strict.network()).unwrap_err();
    assert!(err.to_string().contains("network"), "{err:?}");
    let open = ToolCtx::new("/ws").with_sandbox(Sandbox::workspace("/ws", None));
    assert!(check_network(open.network()).is_ok());
    assert!(check_network(ToolCtx::new("/ws").network()).is_ok());
}

/// What the ancestors of a path resolve to where only `existing` is there.
fn probes(path: &str, existing: &[&str]) -> Vec<Option<String>> {
    write_targets(path)
        .into_iter()
        .map(|target| {
            let there = existing.contains(&target.existing.as_str());
            if there {
                Some(target.existing)
            } else {
                None
            }
        })
        .collect()
}

#[test]
fn sandbox_blocks_write_outside_workspace() {
    let confined = ToolCtx::new("/ws").with_sandbox(Sandbox::workspace("/ws", None));
    let roots = vec![Some("/ws".to_string()), Some("/tmp".to_string()), None, None];
    let there = ["/", "/ws", "/etc", "/tmp"];
    let check = |path: &str| confined.check_write(path, &probes(path, &there), &roots);
    // Inside the workspace: allowed.
    assert!(check("/ws/ok.txt").is_ok());
    assert!(check("/ws/new/dir/ok.txt").is_ok());
    assert!(check("/tmp/scratch").is_ok());
    // Outside the workspace: refused.
    let err = check("/etc/bullpen-escape").unwrap_err();
    assert!(err.to_string().contains("sandbox"), "{err:?}");
    // A link in the workspace that leads out of it: refused.
    let linked = vec![None, Some("/etc".to_string()), Some("/ws".to_string())];
    assert!(confined.check_write("/ws/link/x", &linked, &roots).is_err());
    // Without a sandbox nothing is refused.
    let open = ToolCtx::new("/ws");
    let path = "/etc/bullpen-escape";
    assert!(open.check_write(path, &probes(path, &there), &Vec::new()).is_ok());
}

#[test]
fn the_shell_is_wrapped_where_the_system_confines() {
    let roots = vec![Some("/ws".to_string()), None, None, None];
    let confined = ToolCtx::new("/ws").with_sandbox(Sandbox::strict("/ws", None));
    let (program, args) = confined.shell("ls", "macos", &roots);
    assert_eq!(program, "sandbox-exec");
    assert!(args[1].contains("(deny network*)"), "{args:?}");
    assert_eq!(args[2..], texts(&["bash", "-c", "ls"]));
    let plain = ("bash".to_string(), texts(&["-c", "ls"]));
    assert_eq!(confined.shell("ls", "linux", &roots), plain);
    assert_eq!(ToolCtx::new("/ws").shell("ls", "macos", &Vec::new()), plain);
}

// ── Search ──────────────────────────────────────────────────────────────────

#[test]
fn grep_finds_matches_with_locations() {
    let search = grep_request("/ws", &json("{\"pattern\": \"steel\"}")).unwrap();
    assert_eq!(search.root, "/ws");
    let mut hits = Vec::new();
    grep_file(
        &search.regex,
        &mut hits,
        "src/main.rs",
        "fn main() {\n    steel();\n}\n",
    );
    grep_file(&search.regex, &mut hits, "notes.md", "steel beams\n");
    let out = show_hits(&hits);
    assert!(out.contains("src/main.rs:2:"), "{out}");
    assert!(out.contains("notes.md:1:"), "{out}");
}

#[test]
fn grep_rejects_bad_regex() {
    assert!(matches!(
        grep_request("/ws", &json("{\"pattern\": \"[\"}")),
        Err(ToolError::InvalidInput(_))
    ));
}

#[test]
fn glob_matches_relative_paths() {
    let find = |pattern: &str| {
        let set = glob_request(&json(&format!("{{\"pattern\": \"{pattern}\"}}"))).unwrap();
        let mut hits = Vec::new();
        for path in ["src/main.rs", "notes.md"] {
            glob_path(&set, &mut hits, path);
        }
        glob_result(&hits)
    };
    assert_eq!(find("**/*.rs"), "src/main.rs");
    assert_eq!(find("*.md"), "notes.md");
    // A separator is not matched by a single star.
    assert!(!find("*.rs").contains("main"));
}

#[test]
fn glob_rejects_a_bad_pattern() {
    let err = glob_request(&json("{\"pattern\": \"{a\"}")).unwrap_err();
    assert!(matches!(err, ToolError::InvalidInput(_)));
}

#[test]
fn hits_are_capped() {
    let search = grep_request("/ws", &json("{\"pattern\": \"x\"}")).unwrap();
    let mut hits = Vec::new();
    let text = "x\n".repeat(MAX_RESULTS + 10);
    assert!(grep_file(&search.regex, &mut hits, "f", &text));
    // The last line says that there is more.
    assert_eq!(hits.len(), MAX_RESULTS + 1);
    assert!(!hits[MAX_RESULTS].starts_with("f:"), "{}", hits[MAX_RESULTS]);
}

// ── Structural search ───────────────────────────────────────────────────────

#[test]
fn a_missing_binary_is_a_clear_error_with_an_install_hint() {
    let tool = AstGrep::with_binary("/nonexistent/ast-grep");
    assert_eq!(tool.candidates(), vec!["/nonexistent/ast-grep"]);
    let msg = no_binary(&tool.candidates()).to_string();
    assert!(msg.contains("no ast-grep binary"), "{msg}");
    assert!(msg.contains("install"), "{msg}");
    assert_eq!(AstEdit::new().candidates(), vec!["ast-grep", "sg"]);
    // Another program may go by the short name.
    assert!(is_ast_grep(true, "ast-grep 0.38.0"));
    assert!(!is_ast_grep(true, "usage: sg group"));
}

#[test]
fn search_renders_matches_one_indexed_and_passes_the_right_flags() {
    let input = json("{\"pattern\": \"foo($A)\", \"lang\": \"rust\", \"path\": \"src\"}");
    let args = grep_args(&input).unwrap().join(" ");
    assert!(args.contains("run --pattern foo($A) --lang rust"), "{args}");
    assert!(args.contains("--json=stream src"), "{args}");

    let payload = "{\"text\":\"foo(1)\",\"file\":\"a.rs\",\"range\":{\"start\":{\"line\":1}}}\n\
        {\"text\":\"foo(2)\\nmore\",\"file\":\"b/c.rs\",\"range\":{\"start\":{\"line\":41}}}";
    let out = grep_result("ast-grep", &output(0, payload, "")).unwrap();
    assert!(out.contains("2 match(es):"), "{out}");
    assert!(out.contains("a.rs:2\tfoo(1)"), "{out}");
    // Multi-line match text keeps only its first line.
    assert!(out.contains("b/c.rs:42\tfoo(2) …"), "{out}");
}

#[test]
fn edit_previews_by_default_and_applies_only_on_request() {
    let preview = json("{\"pattern\": \"foo($A)\", \"rewrite\": \"bar($A)\"}");
    let args = edit_args(&preview).unwrap().join(" ");
    assert!(args.contains("--rewrite bar($A)"), "{args}");
    assert!(!args.contains("--update-all"), "{args}");
    let out = edit_result("sg", false, &output(0, "a.rs\n1│-foo(1)\n1│+bar(1)", "")).unwrap();
    assert!(out.contains("preview only"), "{out}");
    assert!(out.contains("apply: true"), "{out}");

    let apply = json("{\"pattern\": \"foo($A)\", \"rewrite\": \"bar($A)\", \"apply\": true}");
    assert!(edit_args(&apply).unwrap().join(" ").contains("--update-all"));
    let out = edit_result("sg", true, &output(0, "Applied 2 changes", "")).unwrap();
    assert_eq!(out, "Applied 2 changes");
}

#[test]
fn missing_required_fields_are_invalid_input() {
    let err = grep_args(&json("{}")).unwrap_err();
    assert!(matches!(err, ToolError::InvalidInput(_)));
    let err = edit_args(&json("{\"pattern\": \"x\"}")).unwrap_err();
    assert!(matches!(err, ToolError::InvalidInput(_)));
}

#[test]
fn previews_and_searches_are_parallel_safe_applies_are_not() {
    let grep = AstGrep::new();
    let edit = AstEdit::new();
    assert!(grep.parallel_safe(&json("{\"pattern\": \"x\"}")));
    assert!(grep.replay_safe());
    assert!(edit.parallel_safe(&json("{\"pattern\": \"x\", \"rewrite\": \"y\"}")));
    assert!(!edit.parallel_safe(&json(
        "{\"pattern\": \"x\", \"rewrite\": \"y\", \"apply\": true}"
    )));
    assert!(!edit.replay_safe());
}

#[test]
fn shell_quoting_survives_single_quotes() {
    assert_eq!(shell_quote("fo'o"), "'fo'\\''o'");
}

#[test]
fn a_command_line_quotes_every_word() {
    assert_eq!(command_line("sg", &texts(&["run", "a b"])), "'sg' 'run' 'a b'");
}

// ── The shell ───────────────────────────────────────────────────────────────

#[test]
fn runs_and_captures_stdout() {
    let (line, timeout) = command(&json("{\"command\": \"echo hello\"}")).unwrap();
    assert_eq!(timeout, 120);
    assert_eq!(plain_bash(&line), ("bash".to_string(), texts(&["-c", "echo hello"])));
    let out = bash::result(output(0, "hello\n", "")).unwrap();
    assert_eq!(out.trim(), "hello");
}

#[test]
fn nonzero_exit_is_error_with_output() {
    let msg = bash::result(output(3, "", "oops\n")).unwrap_err().to_string();
    assert!(msg.contains("exit status 3"), "{msg}");
    assert!(msg.contains("oops"), "{msg}");
}

#[test]
fn a_timeout_is_capped() {
    let asked = |n: u64| {
        command(&json(&format!(
            "{{\"command\": \"sleep 5\", \"timeout_seconds\": {n}}}"
        )))
        .unwrap()
        .1
    };
    assert_eq!(asked(1), 1);
    assert_eq!(asked(6000), 600);
}

#[test]
fn missing_command_rejected() {
    let err = command(&json("{}")).unwrap_err();
    assert!(matches!(err, ToolError::InvalidInput(_)));
}

// ── GitHub ──────────────────────────────────────────────────────────────────

#[test]
fn runs_gh_with_the_args_verbatim() {
    let args = parse_args(&json(
        "{\"args\": [\"pr\", \"view\", \"18\", \"--comments\"]}",
    ))
    .unwrap();
    assert_eq!(args.join(" "), "pr view 18 --comments");
    let out = github::result(&args, output(0, "18 OPEN feat: things\n", "")).unwrap();
    assert_eq!(out.trim(), "18 OPEN feat: things");
}

#[test]
fn failures_carry_the_exit_and_stderr() {
    let args = texts(&["pr", "list"]);
    let msg = github::result(&args, output(4, "auth required\n", ""))
        .unwrap_err()
        .to_string();
    assert!(msg.contains("exited with 4"), "{msg}");
    assert!(msg.contains("auth required"), "{msg}");
}

#[test]
fn a_missing_binary_hints_at_setup() {
    let tool = GitHub::with_binary("/nonexistent/gh");
    let msg = spawn_failure(tool.binary(), "No such file or directory").to_string();
    assert!(msg.contains("cli.github.com"), "{msg}");
    assert!(msg.contains("gh auth login"), "{msg}");
}

#[test]
fn a_network_denying_sandbox_refuses() {
    let strict = Sandbox::strict("/ws", None);
    let err = github::check_network(Some(strict.capabilities().allow_network)).unwrap_err();
    assert!(err.to_string().contains("network"), "{err:?}");
}

#[test]
fn empty_args_are_invalid() {
    for input in ["{}", "{\"args\": []}"] {
        let err = parse_args(&json(input)).unwrap_err();
        assert!(matches!(err, ToolError::InvalidInput(_)), "{err:?}");
    }
}

#[test]
fn only_reads_are_parallel_safe() {
    let gh = GitHub::new();
    for read in [
        "{\"args\": [\"pr\", \"view\", \"18\"]}",
        "{\"args\": [\"pr\", \"list\"]}",
        "{\"args\": [\"run\", \"list\"]}",
        "{\"args\": [\"pr\", \"checks\", \"18\"]}",
        "{\"args\": [\"pr\", \"diff\", \"18\"]}",
        "{\"args\": [\"repo\", \"view\"]}",
        "{\"args\": [\"search\", \"code\", \"foo\"]}",
    ] {
        assert!(gh.parallel_safe(&json(read)), "{read}");
    }
    for write in [
        "{\"args\": [\"pr\", \"create\"]}",
        "{\"args\": [\"pr\", \"merge\", \"18\"]}",
        "{\"args\": [\"issue\", \"close\", \"3\"]}",
        "{\"args\": [\"api\", \"repos/o/r/pulls\"]}",
        "{\"args\": [\"api\", \"list\", \"-X\", \"DELETE\"]}",
        "{\"args\": [\"api\", \"view\"]}",
        "{\"args\": []}",
    ] {
        assert!(!gh.parallel_safe(&json(write)), "{write}");
    }
    assert!(!gh.replay_safe());
    assert_eq!(gh.binary(), "gh");
}

// ── Questions ───────────────────────────────────────────────────────────────

#[test]
fn detached_runs_fail_with_a_reason_not_a_hang() {
    let err = Ask::detached()
        .question(&json("{\"question\": \"which?\"}"))
        .unwrap_err();
    assert!(err.to_string().contains("detached"), "{err:?}");
}

#[test]
fn a_numbered_reply_selects_the_option() {
    let (seen, options) = Ask::interactive()
        .question(&json(
            "{\"question\": \"which db?\", \"options\": [\"sqlite\", \"postgres\"]}",
        ))
        .unwrap();
    assert!(seen.contains("1. sqlite"), "{seen}");
    assert!(seen.contains("2. postgres"), "{seen}");
    assert!(seen.contains("number or free text"), "{seen}");
    assert_eq!(ask_result("2\n", &options).unwrap(), "postgres");
}

#[test]
fn free_text_and_out_of_range_numbers_pass_through() {
    let options = texts(&["a", "b"]);
    assert_eq!(
        ask_result("use mysql actually\n", &options).unwrap(),
        "use mysql actually"
    );
    assert_eq!(ask_result("7\n", &options).unwrap(), "7");
}

#[test]
fn empty_reply_and_missing_question_are_errors() {
    let err = ask_result("   \n", &Vec::new()).unwrap_err();
    assert!(err.to_string().contains("no answer"), "{err:?}");
    let err = Ask::interactive().question(&json("{}")).unwrap_err();
    assert!(matches!(err, ToolError::InvalidInput(_)));
}

#[test]
fn asking_is_neither_parallel_nor_replay_safe() {
    let ask = Ask::detached();
    assert!(!ask.parallel_safe(&json("{\"question\": \"q\"}")));
    assert!(!ask.replay_safe());
}

// ── Archives ────────────────────────────────────────────────────────────────

fn make_zip() -> Vec<u8> {
    let mut writer = zip::ZipWriter::new(std::io::Cursor::new(Vec::new()));
    let options = zip::write::SimpleFileOptions::default();
    writer.add_directory("docs/", options).unwrap();
    writer.start_file("docs/readme.md", options).unwrap();
    writer.write_all(b"# hello\nworld\n").unwrap();
    writer.start_file("main.rs", options).unwrap();
    writer.write_all(b"fn main() {}\n").unwrap();
    writer.finish().unwrap().into_inner()
}

fn add_file<W: std::io::Write>(builder: &mut tar::Builder<W>, name: &str, data: &[u8]) {
    let mut header = tar::Header::new_gnu();
    header.set_size(data.len() as u64);
    header.set_mode(0o644);
    header.set_cksum();
    builder.append_data(&mut header, name, data).unwrap();
}

fn make_tar_gz() -> Vec<u8> {
    let gz = flate2::write::GzEncoder::new(Vec::new(), flate2::Compression::default());
    let mut builder = tar::Builder::new(gz);
    add_file(&mut builder, "conf/app.toml", b"key = value\n");
    builder.into_inner().unwrap().finish().unwrap()
}

#[test]
fn detects_by_magic_not_extension() {
    assert_eq!(detect(&make_zip()), Some(Kind::Zip));
    assert_eq!(detect(&make_tar_gz()), Some(Kind::TarGz));
    assert_eq!(detect(&b"not an archive".to_vec()), None);
    assert_eq!(detect(&Vec::new()), None);
}

#[test]
fn plain_tar_is_detected_by_ustar() {
    let mut builder = tar::Builder::new(Vec::new());
    add_file(&mut builder, "one.txt", b"x");
    let tar = builder.into_inner().unwrap();
    assert_eq!(detect(&tar), Some(Kind::Tar));
    let out = archive::list("a.tar", Kind::Tar, &tar).unwrap();
    assert!(out.contains("one.txt  1 bytes"), "{out}");
    assert_eq!(
        archive::read_entry("a.tar", Kind::Tar, &tar, "one.txt").unwrap(),
        (b"x".to_vec(), false)
    );
}

#[test]
fn listings_show_entries_sizes_and_the_read_hint() {
    let out = archive::list("a.zip", Kind::Zip, &make_zip()).unwrap();
    assert!(out.contains("zip archive"), "{out}");
    assert!(out.contains("3 entries"), "{out}");
    assert!(out.contains("docs/\n"), "{out}");
    assert!(out.contains("docs/readme.md  14 bytes"), "{out}");
    assert!(out.contains("pass `entry`"), "{out}");

    let out = archive::list("a.tgz", Kind::TarGz, &make_tar_gz()).unwrap();
    assert!(out.contains("tar.gz archive"), "{out}");
    assert!(out.contains("conf/app.toml  12 bytes"), "{out}");
}

#[test]
fn directories_are_listed_with_a_slash() {
    let members = Ok(vec![Ok(Entry {
        name: "docs".into(),
        size: 0,
        is_dir: true,
    })]);
    assert_eq!(
        list_members("/a.tar", Kind::Tar, &members).unwrap(),
        "tar archive /a.tar (1 entries) — pass `entry` to read one:\n  docs/\n"
    );
}

fn gzipped(bytes: &[u8]) -> Vec<u8> {
    let mut gz = flate2::write::GzEncoder::new(Vec::new(), flate2::Compression::default());
    gz.write_all(bytes).unwrap();
    gz.finish().unwrap()
}

/// A sparse member `s` of 512 bytes whose map goes on in one further block; its
/// header may say another size.
fn long_sparse(size: u64) -> Vec<u8> {
    let mut header = tar::Header::new_gnu();
    header.as_mut_bytes()[0] = b's';
    header.set_mode(0o644);
    header.set_entry_type(tar::EntryType::GNUSparse);
    header.set_size(size);
    header.as_gnu_mut().unwrap().isextended = [1];
    let bytes = header.as_mut_bytes();
    bytes[386..398].copy_from_slice(b"00000000000\0");
    bytes[398..410].copy_from_slice(b"00000001000\0");
    bytes[483..495].copy_from_slice(b"00000001000\0");
    header.set_cksum();
    let mut tar = header.as_bytes().to_vec();
    tar.extend_from_slice(&[0; 512]);
    tar
}

/// An extension with one record.
fn extension(record: &[u8]) -> Vec<u8> {
    let mut header = tar::Header::new_ustar();
    header.set_entry_type(tar::EntryType::XHeader);
    header.set_size(record.len() as u64);
    header.set_cksum();
    let mut tar = header.as_bytes().to_vec();
    tar.extend_from_slice(record);
    tar.resize(1024, 0);
    tar
}

/// The member `s` cannot be counted: nothing is listed, and it is not read.
fn uncounted(tar: &[u8]) {
    let said = "archive a.tar: failed to read extension";
    for (kind, bytes) in [(Kind::Tar, tar.to_vec()), (Kind::TarGz, gzipped(tar))] {
        let err = archive::list("a.tar", kind, &bytes).unwrap_err();
        assert_eq!(err.to_string(), said);
        let err = archive::read_entry("a.tar", kind, &bytes, "s").unwrap_err();
        assert_eq!(err.to_string(), said);
    }
}

/// The member is there with its content, whatever follows it.
fn holds(tar: &[u8], entry: &str, content: &[u8]) {
    for (kind, bytes) in [(Kind::Tar, tar.to_vec()), (Kind::TarGz, gzipped(tar))] {
        let (bytes, _) = archive::read_entry("a.tar", kind, &bytes, entry).unwrap();
        assert_eq!(bytes, content);
    }
}

#[test]
fn a_member_whose_end_cannot_be_counted_ends_the_walk() {
    uncounted(&long_sparse(0xffff_ffff_ffff_fc00));

    // What stands before it can still be read.
    let mut builder = tar::Builder::new(Vec::new());
    add_file(&mut builder, "one.txt", &[b'x'; 600]);
    let mut one = builder.into_inner().unwrap();
    one.truncate(3 * 512);
    let behind = |size: u64| {
        let mut tar = one.clone();
        tar.extend_from_slice(&long_sparse(size));
        tar
    };
    let tar = behind(0xffff_ffff_ffff_f600);
    uncounted(&tar);
    holds(&tar, "one.txt", &[b'x'; 600]);
    // One block less, and the sum still holds; one more, and the walk says so
    // itself.
    for size in [0xffff_ffff_ffff_f400, 0xffff_ffff_ffff_f800, 0xffff_ffff_ffff_fc00] {
        let tar = behind(size);
        let err = archive::list("a.tar", Kind::Tar, &tar).unwrap_err();
        assert!(!err.to_string().contains("extension"), "{err:?}");
        holds(&tar, "one.txt", &[b'x'; 600]);
    }
}

#[test]
fn headers_within_a_member_are_content() {
    let inner = long_sparse(0xffff_ffff_ffff_f400);
    let mut builder = tar::Builder::new(Vec::new());
    add_file(&mut builder, "inner.tar", &inner);
    add_file(&mut builder, "two.txt", b"second");
    let tar = builder.into_inner().unwrap();
    assert_eq!(tar.len(), 3584);
    for (kind, bytes) in [(Kind::Tar, tar.clone()), (Kind::TarGz, gzipped(&tar))] {
        let out = archive::list("a.tar", kind, &bytes).unwrap();
        assert!(out.contains("inner.tar  1024 bytes"), "{out}");
        assert!(out.contains("two.txt  6 bytes"), "{out}");
    }
    holds(&tar, "inner.tar", &inner);
    holds(&tar, "two.txt", b"second");
}

#[test]
fn a_sparse_member_behind_an_extension_is_read() {
    let archived = |record: &[u8]| {
        let mut tar = extension(record);
        tar.extend_from_slice(&long_sparse(512));
        tar.extend_from_slice(&[b'd'; 512]);
        tar.extend_from_slice(&[0; 1024]);
        tar
    };
    for record in [&b"20 mtime=1000000000\n"[..], b"12 size=512\n", b"13 size=+512\n"] {
        let tar = archived(record);
        for (kind, bytes) in [(Kind::Tar, tar.clone()), (Kind::TarGz, gzipped(&tar))] {
            let out = archive::list("a.tar", kind, &bytes).unwrap();
            assert!(out.contains("s  512 bytes"), "{out}");
            let (bytes, clipped) = archive::read_entry("a.tar", kind, &bytes, "s").unwrap();
            assert_eq!((bytes, clipped), (vec![b'd'; 512], false));
        }
    }
    // A record that says a vast size is another matter.
    for record in [&b"29 size=18446744073709549568\n"[..], b"30 size=+18446744073709549568\n"] {
        let tar = archived(record);
        uncounted(&tar);
    }
    // Such words in a member's content say nothing of it, nor does such a record
    // say anything of a member that it does not stand before.
    let mut builder = tar::Builder::new(Vec::new());
    add_file(&mut builder, "log", b"29 size=18446744073709549568\n");
    let log = builder.into_inner().unwrap()[..1024].to_vec();
    let mut tar = extension(b"20 mtime=1000000000\n");
    tar.extend_from_slice(&log);
    tar.extend_from_slice(&long_sparse(512));
    tar.extend_from_slice(&[b'd'; 512]);
    tar.extend_from_slice(&extension(b"29 size=18446744073709547520\n"));
    tar.extend_from_slice(&log);
    holds(&tar, "s", &[b'd'; 512]);
    holds(&tar, "log", b"29 size=18446744073709549568\n");
}

#[test]
fn entries_extract_bounded_and_misses_name_the_listing() {
    let zip = make_zip();
    let (bytes, clipped) =
        archive::read_entry("a.zip", Kind::Zip, &zip, "docs/readme.md").unwrap();
    assert_eq!(bytes, b"# hello\nworld\n");
    assert!(!clipped);

    let (bytes, _) =
        archive::read_entry("a.tgz", Kind::TarGz, &make_tar_gz(), "conf/app.toml").unwrap();
    assert_eq!(bytes, b"key = value\n");

    let err = archive::read_entry("a.zip", Kind::Zip, &zip, "nope.txt").unwrap_err();
    assert!(matches!(err, ToolError::InvalidInput(_)), "{err:?}");
    assert!(err.to_string().contains("without `entry`"), "{err:?}");
}

#[test]
fn extraction_is_capped_while_streaming() {
    let mut writer = zip::ZipWriter::new(std::io::Cursor::new(Vec::new()));
    writer
        .start_file("big.bin", zip::write::SimpleFileOptions::default())
        .unwrap();
    // Highly compressible: a small archive that expands well past the cap.
    writer.write_all(&vec![b'a'; MAX_ENTRY_BYTES * 4]).unwrap();
    let zip = writer.finish().unwrap().into_inner();

    let (bytes, clipped) = archive::read_entry("big.zip", Kind::Zip, &zip, "big.bin").unwrap();
    assert_eq!(bytes.len(), MAX_ENTRY_BYTES);
    assert!(clipped);
}

#[test]
fn a_member_before_a_broken_one_can_still_be_read() {
    let mut builder = tar::Builder::new(Vec::new());
    add_file(&mut builder, "one.txt", b"first");
    add_file(&mut builder, "two.txt", b"second");
    let mut tar = builder.into_inner().unwrap();
    // The second header: its checksum no longer fits.
    tar[1024] ^= 1;

    let err = archive::list("a.tar", Kind::Tar, &tar).unwrap_err();
    assert!(matches!(err, ToolError::Failed(_)), "{err:?}");
    assert!(err.to_string().contains("archive a.tar: "), "{err:?}");
    assert_eq!(
        archive::read_entry("a.tar", Kind::Tar, &tar, "one.txt").unwrap(),
        (b"first".to_vec(), false)
    );
    assert!(matches!(
        archive::read_entry("a.tar", Kind::Tar, &tar, "three.txt"),
        Err(ToolError::Failed(_))
    ));
    assert!(matches!(
        archive::list("a.zip", Kind::Zip, b"PK\x03\x04"),
        Err(ToolError::Failed(_))
    ));
}

#[test]
fn members_found_by_name_and_shown_in_order() {
    let member = |name: &str, size: u64, is_dir: bool| {
        Ok(Entry {
            name: name.into(),
            size,
            is_dir,
        })
    };
    let members = Ok(vec![
        member("docs/", 0, true),
        member("docs/readme.md", 14, false),
        Err("cut short".to_string()),
        member("main.rs", 13, false),
    ]);
    assert_eq!(find_member(&members, "docs/readme.md"), Some(Ok(1)));
    assert_eq!(
        find_member(&members, "main.rs"),
        Some(Err("cut short".to_string()))
    );
    assert_eq!(find_member(&Ok(Vec::new()), "main.rs"), None);
    assert_eq!(
        list_members("a.zip", Kind::Zip, &members).unwrap_err().to_string(),
        ToolError::Failed("archive a.zip: cut short".to_string()).to_string()
    );
    assert_eq!(
        list_members("a.zip", Kind::Zip, &Ok(Vec::new())).unwrap(),
        "(empty zip archive a.zip)"
    );
    assert_eq!(
        cap_content("a.zip", "x", Some(Ok(vec![b'a'; MAX_ENTRY_BYTES + 1])))
            .unwrap()
            .0
            .len(),
        MAX_ENTRY_BYTES
    );
    assert!(cap_content("a.zip", "x", None).is_err());
}

// ── Databases ───────────────────────────────────────────────────────────────

#[test]
fn detects_sqlite_by_magic_not_extension() {
    assert!(is_sqlite(&b"SQLite format 3\0and more".to_vec()));
    assert!(!is_sqlite(&b"just text with a .db name".to_vec()));
    assert!(!is_sqlite(&Vec::new()));
}

#[test]
fn overview_lists_tables_columns_and_counts() {
    let table = |name: &str, rows: i64, columns: &[&str]| Table {
        name: name.into(),
        rows,
        columns: texts(columns),
    };
    let out = overview(
        "t.db",
        &vec![
            table("empty_one", 0, &["x"]),
            table("jobs", 2, &["id", "name", "done"]),
        ],
    );
    assert!(out.contains("2 table(s)"), "{out}");
    assert!(out.contains("jobs (2 rows): id, name, done"), "{out}");
    assert!(out.contains("empty_one (0 rows): x"), "{out}");
}

#[test]
fn queries_render_tsv_and_cap_rows() {
    let mut answer = Answer::new(&texts(&["name", "done"]));
    answer.push(&vec![Cell::Text("weld".into()), Cell::Integer(1)]);
    answer.push(&vec![Cell::Text("paint".into()), Cell::Integer(0)]);
    assert_eq!(answer.render(), "2 row(s):\nname\tdone\nweld\t1\npaint\t0");

    let mut answer = Answer::new(&texts(&["id"]));
    for i in 0..252 {
        answer.push(&vec![Cell::Integer(i)]);
    }
    let out = answer.render();
    assert!(out.starts_with("252 row(s):"), "{out}");
    assert!(out.contains("[rendered the first 200]"), "{out}");
}

#[test]
fn bad_sql_is_a_clear_error() {
    let err = db_err("t.db", "near \"SELEKT\": syntax error");
    assert!(err.to_string().contains("sqlite"), "{err:?}");
}
