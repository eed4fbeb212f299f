use bullpen::sandbox::{resolve_for_write, sbpl_quote, write_targets, Capabilities, Sandbox};

/// What a file system with these directories says of the places a write to
/// `path` could stand on.
fn probes(path: &str, places: &[(&str, &str)]) -> Vec<Option<String>> {
    write_targets(path)
        .iter()
        .map(|target| {
            places
                .iter()
                .find(|(place, _)| *place == target.existing)
                .map(|(_, real)| real.to_string())
        })
        .collect()
}

fn same_roots(sandbox: &Sandbox) -> Vec<Option<String>> {
    sandbox
        .capabilities()
        .write_roots
        .iter()
        .map(|root| Some(root.clone()))
        .collect()
}

const PLACES: [(&str, &str); 6] = [
    ("/", "/"),
    ("/ws", "/ws"),
    ("/tmp", "/tmp"),
    ("/etc", "/etc"),
    ("/usr/lib", "/usr/lib"),
    ("/ws/link", "/usr"),
];

fn allowed(sandbox: &Sandbox, path: &str) -> bool {
    sandbox.allows_write(path, &probes(path, &PLACES), &same_roots(sandbox))
}

#[test]
fn allows_writes_inside_workspace_denies_outside() {
    let sandbox = Sandbox::workspace("/ws", None);
    assert!(allowed(&sandbox, "/ws/file.txt"));
    assert!(allowed(&sandbox, "/ws/sub/deep/new.rs"));
    // System temp is allowed.
    assert!(allowed(&sandbox, "/tmp/scratch"));
    // Escapes to genuinely-outside paths are denied.
    assert!(!allowed(&sandbox, "/etc/passwd"));
    assert!(!allowed(&sandbox, "/usr/lib/thing"));
    assert!(!allowed(&sandbox, "/root/evil.txt"));
    // A name that merely begins like a root lies outside it.
    assert!(!allowed(&sandbox, "/wsx/file.txt"));
}

#[test]
fn symlink_escape_is_denied() {
    let sandbox = Sandbox::workspace("/ws", None);
    assert!(allowed(&sandbox, "/ws/ok.txt"));
    // Writing through the symlink resolves to /usr: denied.
    assert!(!allowed(&sandbox, "/ws/link/pwned.txt"));
    assert_eq!(
        resolve_for_write("/ws/link/pwned.txt", &probes("/ws/link/pwned.txt", &PLACES)),
        "/usr/pwned.txt/"
    );
}

#[test]
fn a_path_that_climbs_out_of_a_missing_directory_is_denied() {
    let sandbox = Sandbox::workspace("/ws", None);
    assert!(!allowed(&sandbox, "/ws/missing/../../etc/x"));
    assert!(!allowed(&sandbox, "/ws/missing/../../ws2/x"));
    assert!(!allowed(&sandbox, "/ws/missing/../.."));
    assert!(!allowed(&sandbox, "/ws/link/missing/../x"));
    // One that stays inside is allowed, even where it goes out and comes back.
    assert!(allowed(&sandbox, "/ws/missing/../x"));
    assert!(allowed(&sandbox, "/ws/missing/deeper/../../x"));
    assert!(allowed(&sandbox, "/ws/missing/../../ws/x"));
    assert!(allowed(&sandbox, "/ws/missing/x"));
    // Nothing lies above the root.
    assert!(!allowed(&sandbox, "/missing/../../../etc/x"));
    assert!(allowed(&sandbox, "/missing/../../../ws/x"));
}

#[test]
fn seatbelt_profile_shape() {
    let sandbox = Sandbox::strict("/ws", None);
    let profile = sandbox.seatbelt_profile(&same_roots(&sandbox));
    assert!(profile.contains("(deny file-write*)"));
    assert!(profile.contains("(deny network*)")); // strict
    assert!(profile.contains("(allow file-write*"));
    assert!(profile.contains("/ws"));

    // Non-strict allows network (no deny line).
    let open = Sandbox::workspace("/ws", None);
    assert!(!open
        .seatbelt_profile(&same_roots(&open))
        .contains("(deny network*)"));
}

#[test]
fn wrap_bash_targets_the_platform() {
    let sandbox = Sandbox::workspace("/ws", None);
    let roots = same_roots(&sandbox);
    let (prog, args) = sandbox.wrap_bash("echo hi", "macos", &roots);
    assert_eq!(prog, "sandbox-exec");
    assert_eq!(args[0], "-p");
    assert_eq!(args[args.len() - 3], "bash");
    assert_eq!(args[args.len() - 1], "echo hi");

    let (prog, args) = sandbox.wrap_bash("echo hi", "linux", &roots);
    assert_eq!(prog, "bash");
    assert_eq!(args, vec!["-c", "echo hi"]);
    assert!(Sandbox::os_enforced("macos"));
    assert!(!Sandbox::os_enforced("linux"));
}

#[test]
fn quotes_and_backslashes_are_escaped_in_a_profile() {
    assert_eq!(sbpl_quote("/a \"b\"\\c"), "\"/a \\\"b\\\"\\\\c\"");
}

#[test]
fn more_roots_can_be_written() {
    let sandbox = Sandbox::with_capabilities(Capabilities {
        write_roots: vec!["/ws".into()],
        allow_network: false,
    })
    .allowing_writes(vec!["/etc".into()]);
    assert!(allowed(&sandbox, "/etc/passwd"));
    assert!(!allowed(&sandbox, "/tmp/scratch"));
    assert!(!sandbox.capabilities().allow_network);
}
