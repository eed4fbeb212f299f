//! Per-session git worktrees.
//!
//! Two background sessions sharing one checkout edit each other's files.
//! Giving each its own worktree on its own branch removes that entirely, at
//! the cost of a directory that has to be found again later — which is why
//! the path and branch are recorded in the store rather than recomputed.
//!
//! Worktrees are created here and never removed: one may hold the only copy of
//! an agent's work. A leftover directory costs disk; an eager cleanup costs
//! the work itself.
//!
//! What git and the filesystem answer comes in as arguments: `git` is run by
//! the caller with the arguments given here.
use vstd::prelude::*;
use vstd::string::*;

use crate::path::{
    components, is_absolute, join, joined, lemma_parent_of_joined, lemma_trimmed_base, parent,
    parent_of, same_path, trim_right,
};
use crate::text::{opt_view, same, trim, trimmed, views};

verus! {

// ── Names ───────────────────────────────────────────────────────────────────

/// Where a session's isolated checkout lives under `home`.
pub open spec fn dir_under(home: Seq<char>, session_id: Seq<char>) -> Seq<char> {
    joined(joined(home, "worktrees"@), session_id)
}

/// Where a session's isolated checkout lives: under bullpen's home rather than
/// inside the repository, since the worktree is bullpen's state, keyed to a
/// session id.
pub fn worktree_path(home: &str, session_id: &str) -> (r: String)
    ensures
        r@ == dir_under(home@, session_id@),
{
    worktree_dir(home, session_id)
}

/// Where a session's isolated checkout lives beside a store.
pub open spec fn dir_beside(store_path: Seq<char>, session_id: Seq<char>) -> Seq<char> {
    dir_under(
        match parent_of(store_path) {
            Some(p) => p,
            None => "."@,
        },
        session_id,
    )
}

/// The same layout, anchored to a specific store: worktrees live alongside the
/// database. For the default store this is exactly [`worktree_path`].
pub fn worktree_path_for_store(store_path: &str, session_id: &str) -> (r: String)
    ensures
        r@ == dir_beside(store_path@, session_id@),
{
    match parent(store_path) {
        Some(p) => worktree_dir(p.as_str(), session_id),
        None => worktree_dir(".", session_id),
    }
}

/// Where a session's isolated checkout lives under `home`.
pub fn worktree_dir(home: &str, session_id: &str) -> (r: String)
    ensures
        r@ == dir_under(home@, session_id@),
{
    let base = join(home, "worktrees");
    join(base.as_str(), session_id)
}

/// The branch a session's worktree checks out.
pub open spec fn branch_of(session_id: Seq<char>) -> Seq<char> {
    "bullpen/"@ + session_id
}

/// The branch a session's worktree checks out. The whole session id, not a
/// short prefix: two sessions that collided would name one branch, which git
/// refuses to check out in two worktrees at once.
pub fn branch_for(session_id: &str) -> (r: String)
    ensures
        r@ == branch_of(session_id@),
{
    "bullpen/".to_owned().concat(session_id)
}

/// Two sessions never share a branch.
pub proof fn law_branches_are_distinct(a: Seq<char>, b: Seq<char>)
    requires
        branch_of(a) == branch_of(b),
    ensures
        a == b,
{
    let n = "bullpen/"@.len() as int;
    assert(branch_of(a).skip(n) =~= a);
    assert(branch_of(b).skip(n) =~= b);
}

/// For a store in any directory, the worktrees lie in that same directory: the
/// same path always, and the same text where the directory's own text has no
/// slash or `.` too many at its end.
pub proof fn law_worktrees_follow_the_store(
    dir: Seq<char>,
    file: Seq<char>,
    session_id: Seq<char>,
)
    requires
        file.len() > 0,
        file != "."@,
        forall|i: int| 0 <= i < file.len() ==> file[i] != '/',
    ensures
        components(dir_beside(joined(dir, file), session_id)) == components(
            dir_under(dir, session_id),
        ),
        trim_right(dir) == dir ==> dir_beside(joined(dir, file), session_id) == dir_under(
            dir,
            session_id,
        ),
{
    lemma_parent_of_joined(dir, file);
    reveal_strlit("worktrees");
    if !is_absolute(session_id) {
        let name = "worktrees"@ + seq!['/'] + session_id;
        lemma_trimmed_base(dir, name);
        assert(dir_under(dir, session_id) =~= joined(dir, name));
        assert(dir_under(trim_right(dir), session_id) =~= joined(trim_right(dir), name));
    }
}

/// For the default store of a home, a session's worktree is the one under that
/// home.
pub proof fn law_default_store_keeps_worktrees_under_home(home: Seq<char>, session_id: Seq<char>)
    ensures
        components(dir_beside(joined(home, "bullpen.db"@), session_id)) == components(
            dir_under(home, session_id),
        ),
        trim_right(home) == home ==> dir_beside(joined(home, "bullpen.db"@), session_id)
            == dir_under(home, session_id),
{
    reveal_strlit("bullpen.db");
    reveal_strlit(".");
    law_worktrees_follow_the_store(home, "bullpen.db"@, session_id);
}

/// Two sessions never share a worktree directory; ids are relative names.
pub proof fn law_worktrees_are_distinct(home: Seq<char>, a: Seq<char>, b: Seq<char>)
    requires
        !is_absolute(a),
        !is_absolute(b),
        dir_under(home, a) == dir_under(home, b),
    ensures
        a == b,
{
    let base = joined(home, "worktrees"@);
    let lead = if base.len() == 0 || base.last() == '/' {
        base
    } else {
        base + seq!['/']
    };
    let n = lead.len() as int;
    assert(dir_under(home, a) =~= lead + a);
    assert(dir_under(home, b) =~= lead + b);
    assert(dir_under(home, a).skip(n) =~= a);
    assert(dir_under(home, b).skip(n) =~= b);
}

// ── git ─────────────────────────────────────────────────────────────────────

/// What a run of git gave back.
#[derive(Debug)]
pub struct GitOutput {
    pub success: bool,
    pub stdout: String,
    pub stderr: String,
}

/// What a run of git gave back, as a value.
pub struct GitOutputView {
    pub success: bool,
    pub stdout: Seq<char>,
    pub stderr: Seq<char>,
}

impl View for GitOutput {
    type V = GitOutputView;

    open spec fn view(&self) -> GitOutputView {
        GitOutputView { success: self.success, stdout: self.stdout@, stderr: self.stderr@ }
    }
}

/// A run of git, as a value; the error is why it could not run.
pub open spec fn ran(git: Result<GitOutput, String>) -> Result<GitOutputView, Seq<char>> {
    match git {
        Ok(out) => Ok(out@),
        Err(e) => Err(e@),
    }
}

/// A result whose value and error are texts.
pub open spec fn texts(r: Result<String, String>) -> Result<Seq<char>, Seq<char>> {
    match r {
        Ok(s) => Ok(s@),
        Err(e) => Err(e@),
    }
}

fn push(args: &mut Vec<String>, arg: &str)
    ensures
        views(final(args)@) == views(old(args)@).push(arg@),
{
    let ghost before = args@;
    args.push(arg.to_owned());
    proof {
        assert(views(args@) =~= views(before).push(arg@));
    }
}

/// `git -C <dir>` and two more arguments.
fn git_in(dir: &str, a: &str, b: &str) -> (r: Vec<String>)
    ensures
        views(r@) == seq!["-C"@, dir@, a@, b@],
{
    let mut args: Vec<String> = Vec::new();
    push(&mut args, "-C");
    push(&mut args, dir);
    push(&mut args, a);
    push(&mut args, b);
    proof {
        assert(views(args@) =~= seq!["-C"@, dir@, a@, b@]);
    }
    args
}

/// How git is asked for the repository containing `cwd`.
pub fn repo_root_args(cwd: &str) -> (r: Vec<String>)
    ensures
        views(r@) == seq!["-C"@, cwd@, "rev-parse"@, "--show-toplevel"@],
{
    git_in(cwd, "rev-parse", "--show-toplevel")
}

/// The repository containing `cwd`, by git's answer.
pub open spec fn root_of(cwd: Seq<char>, git: Result<GitOutputView, Seq<char>>) -> Result<
    Seq<char>,
    Seq<char>,
> {
    match git {
        Err(e) => Err("--worktree needs the git binary, but running it failed: "@ + e),
        Ok(out) => if out.success {
            Ok(trim(out.stdout))
        } else {
            Err(
                cwd
                    + " is not inside a git repository, so --worktree has nothing to branch from \
                        — it will not fall back to running in the shared working directory"@,
            )
        },
    }
}

/// The repository containing `cwd`. Fails when there is none: isolation never
/// degrades to the shared working directory.
pub fn repo_root(cwd: &str, git: Result<GitOutput, String>) -> (r: Result<String, String>)
    ensures
        texts(r) == root_of(cwd@, ran(git)),
{
    match git {
        Err(e) => Err(
            "--worktree needs the git binary, but running it failed: ".to_owned().concat(
                e.as_str(),
            ),
        ),
        Ok(out) => if out.success {
            Ok(trimmed(out.stdout.as_str()))
        } else {
            Err(
                cwd.to_owned().concat(
                    " is not inside a git repository, so --worktree has nothing to branch from — \
                        it will not fall back to running in the shared working directory",
                ),
            )
        },
    }
}

/// How git is asked to check out a new worktree at `path` on a new `branch`
/// off the current head.
pub fn create_args(root: &str, path: &str, branch: &str) -> (r: Vec<String>)
    ensures
        views(r@) == seq![
            "-C"@,
            root@,
            "worktree"@,
            "add"@,
            "-b"@,
            branch@,
            path@,
            "HEAD"@,
        ],
{
    let mut args = git_in(root, "worktree", "add");
    push(&mut args, "-b");
    push(&mut args, branch);
    push(&mut args, path);
    push(&mut args, "HEAD");
    proof {
        assert(views(args@) =~= seq![
            "-C"@,
            root@,
            "worktree"@,
            "add"@,
            "-b"@,
            branch@,
            path@,
            "HEAD"@,
        ]);
    }
    args
}

/// How git is asked to restore a recorded worktree whose directory is gone but
/// whose branch survives. `--force` is needed: git's administrative entry for
/// the deleted directory still claims both the path and the branch.
pub fn recreate_args(root: &str, path: &str, branch: &str) -> (r: Vec<String>)
    ensures
        views(r@) == seq!["-C"@, root@, "worktree"@, "add"@, "--force"@, path@, branch@],
{
    let mut args = git_in(root, "worktree", "add");
    push(&mut args, "--force");
    push(&mut args, path);
    push(&mut args, branch);
    proof {
        assert(views(args@) =~= seq![
            "-C"@,
            root@,
            "worktree"@,
            "add"@,
            "--force"@,
            path@,
            branch@,
        ]);
    }
    args
}

/// What came of adding a worktree: nothing, or what went wrong.
pub open spec fn add_failure(path: Seq<char>, git: Result<GitOutputView, Seq<char>>) -> Option<
    Seq<char>,
> {
    match git {
        Err(e) => Some("could not run git worktree add: "@ + e),
        Ok(out) => if out.success {
            None
        } else {
            Some("git worktree add failed for "@ + path + ":\n"@ + trim(out.stderr))
        },
    }
}

/// What came of adding a worktree.
pub fn git_worktree_add(path: &str, git: Result<GitOutput, String>) -> (r: Result<(), String>)
    ensures
        match r {
            Ok(()) => add_failure(path@, ran(git)) is None,
            Err(e) => add_failure(path@, ran(git)) == Some(e@),
        },
{
    match git {
        Err(e) => Err("could not run git worktree add: ".to_owned().concat(e.as_str())),
        Ok(out) => if out.success {
            Ok(())
        } else {
            let why = trimmed(out.stderr.as_str());
            Err(
                "git worktree add failed for ".to_owned().concat(path).concat(":\n").concat(
                    why.as_str(),
                ),
            )
        },
    }
}

/// How git is asked for one of its directories.
pub fn rev_parse_args(cwd: &str, flag: &str) -> (r: Vec<String>)
    ensures
        views(r@) == seq!["-C"@, cwd@, "rev-parse"@, flag@],
{
    git_in(cwd, "rev-parse", flag)
}

/// A directory git named, as an absolute path.
pub open spec fn dir_named(cwd: Seq<char>, git: Result<GitOutputView, Seq<char>>) -> Option<
    Seq<char>,
> {
    match git {
        Ok(out) => if out.success {
            Some(joined(cwd, trim(out.stdout)))
        } else {
            None
        },
        Err(_) => None,
    }
}

/// A directory git named, as an absolute path. The common directory is named
/// relative to `cwd` in an ordinary checkout and absolutely in a linked
/// worktree, so both forms are accepted.
pub fn rev_parse_dir(cwd: &str, git: Result<GitOutput, String>) -> (r: Option<String>)
    ensures
        opt_view(r) == dir_named(cwd@, ran(git)),
{
    match git {
        Ok(out) => if out.success {
            let dir = trimmed(out.stdout.as_str());
            Some(join(cwd, dir.as_str()))
        } else {
            None
        },
        Err(_) => None,
    }
}

/// The directories a run must be able to write to, beyond its own.
pub open spec fn write_roots(git_dir: Option<Seq<char>>, common_dir: Option<Seq<char>>) -> Seq<
    Seq<char>,
> {
    match (git_dir, common_dir) {
        (Some(g), Some(c)) => if components(g) == components(c) {
            Seq::empty()
        } else {
            seq![g, c]
        },
        _ => Seq::empty(),
    }
}

/// The git directories a run must be able to write to, beyond its working
/// directory. None for an ordinary checkout, whose `.git` is already inside
/// the workspace; for a linked worktree the index, refs and objects all live
/// under the main repository, so a sandbox confined to the worktree alone
/// would let an agent edit files but never commit them.
pub fn git_write_roots(git_dir: Option<String>, common_dir: Option<String>) -> (r: Vec<String>)
    ensures
        views(r@) == write_roots(opt_view(git_dir), opt_view(common_dir)),
{
    let mut roots: Vec<String> = Vec::new();
    proof {
        assert(views(roots@) =~= Seq::<Seq<char>>::empty());
    }
    match (git_dir, common_dir) {
        (Some(g), Some(c)) => {
            if !same_path(g.as_str(), c.as_str()) {
                let ghost gv = g@;
                let ghost cv = c@;
                roots.push(g);
                roots.push(c);
                proof {
                    assert(views(roots@) =~= seq![gv, cv]);
                }
            }
        },
        _ => {},
    }
    roots
}

/// How git is asked whether a branch exists.
pub fn branch_exists_args(root: &str, branch: &str) -> (r: Vec<String>)
    ensures
        views(r@) == seq!["-C"@, root@, "rev-parse"@, "--verify"@, "refs/heads/"@ + branch@],
{
    let mut args = git_in(root, "rev-parse", "--verify");
    let name = "refs/heads/".to_owned().concat(branch);
    push(&mut args, name.as_str());
    proof {
        assert(views(args@) =~= seq![
            "-C"@,
            root@,
            "rev-parse"@,
            "--verify"@,
            "refs/heads/"@ + branch@,
        ]);
    }
    args
}

/// Whether git said that a branch exists.
pub fn branch_exists(git: &Result<GitOutput, String>) -> (r: bool)
    ensures
        r == match ran(*git) {
            Ok(out) => out.success,
            Err(_) => false,
        },
{
    match git {
        Ok(out) => out.success,
        Err(_) => false,
    }
}

/// How git is asked which branch is checked out.
pub fn head_branch_args(path: &str) -> (r: Vec<String>)
    ensures
        views(r@) == seq!["-C"@, path@, "symbolic-ref"@, "--quiet"@, "--short"@, "HEAD"@],
{
    let mut args = git_in(path, "symbolic-ref", "--quiet");
    push(&mut args, "--short");
    push(&mut args, "HEAD");
    proof {
        assert(views(args@) =~= seq![
            "-C"@,
            path@,
            "symbolic-ref"@,
            "--quiet"@,
            "--short"@,
            "HEAD"@,
        ]);
    }
    args
}

/// The branch git said is checked out.
pub open spec fn head_of(git: Result<GitOutputView, Seq<char>>) -> Option<Seq<char>> {
    match git {
        Ok(out) => if out.success && trim(out.stdout).len() > 0 {
            Some(trim(out.stdout))
        } else {
            None
        },
        Err(_) => None,
    }
}

/// The branch checked out, or nothing when the worktree is detached or the
/// path is no worktree at all. A detached head is deliberately no match: the
/// work would be unreachable by the recorded name.
pub fn head_branch(git: Result<GitOutput, String>) -> (r: Option<String>)
    ensures
        opt_view(r) == head_of(ran(git)),
{
    match git {
        Ok(out) => if out.success {
            let name = trimmed(out.stdout.as_str());
            if name.as_str().is_empty() {
                None
            } else {
                Some(name)
            }
        } else {
            None
        },
        Err(_) => None,
    }
}

// ── Where a run happens ─────────────────────────────────────────────────────

/// Where a run should happen, given what the session recorded.
#[derive(Debug)]
pub enum Location {
    /// No worktree was ever recorded: the caller's working directory.
    Shared,
    Use(String),
    Recreate { path: String, branch: String },
    Fail { path: String, branch: String },
    /// Something that is not this session's worktree sits at the recorded path.
    Occupied { path: String, branch: String },
}

/// Where a run should happen, as a value.
pub enum LocationView {
    Shared,
    Use(Seq<char>),
    Recreate { path: Seq<char>, branch: Seq<char> },
    Fail { path: Seq<char>, branch: Seq<char> },
    Occupied { path: Seq<char>, branch: Seq<char> },
}

impl View for Location {
    type V = LocationView;

    open spec fn view(&self) -> LocationView {
        match self {
            Location::Shared => LocationView::Shared,
            Location::Use(path) => LocationView::Use(path@),
            Location::Recreate { path, branch } => LocationView::Recreate {
                path: path@,
                branch: branch@,
            },
            Location::Fail { path, branch } => LocationView::Fail { path: path@, branch: branch@ },
            Location::Occupied { path, branch } => LocationView::Occupied {
                path: path@,
                branch: branch@,
            },
        }
    }
}

/// What stands at a session's recorded worktree path.
#[derive(Debug, PartialEq, Eq, Clone, Copy, Structural)]
pub enum Candidate {
    /// A live worktree of the session's own repository.
    Live,
    /// Nothing — the directory is gone.
    Gone,
    /// Something, but not that worktree: an ordinary directory restored at the
    /// path, or a worktree of a different repository or branch.
    Foreign,
}

/// The resume decision, as a table.
pub open spec fn decision(
    recorded: Option<(Seq<char>, Seq<char>)>,
    candidate: Candidate,
    branch_exists: bool,
) -> LocationView {
    match recorded {
        None => LocationView::Shared,
        Some((path, branch)) => match candidate {
            Candidate::Live => LocationView::Use(path),
            Candidate::Foreign => LocationView::Occupied { path, branch },
            Candidate::Gone => if branch_exists {
                LocationView::Recreate { path, branch }
            } else {
                LocationView::Fail { path, branch }
            },
        },
    }
}

/// The resume decision. A recorded worktree always wins over the caller's
/// working directory: resuming from somewhere else must not quietly append to
/// the session in a different tree than the one it has been editing. By the
/// same rule a foreign directory is refused outright rather than run in or
/// overwritten.
pub fn decide(recorded: Option<(&str, &str)>, candidate: Candidate, branch_exists: bool) -> (r:
    Location)
    ensures
        r@ == decision(
            match recorded {
                Some(p) => Some((p.0@, p.1@)),
                None => None,
            },
            candidate,
            branch_exists,
        ),
{
    match recorded {
        None => Location::Shared,
        Some((path, branch)) => {
            let path = path.to_owned();
            let branch = branch.to_owned();
            match candidate {
                Candidate::Live => Location::Use(path),
                Candidate::Foreign => Location::Occupied { path, branch },
                Candidate::Gone => if branch_exists {
                    Location::Recreate { path, branch }
                } else {
                    Location::Fail { path, branch }
                },
            }
        },
    }
}

/// Where a session's run happens; a path without a branch, or a branch without
/// a path, is no recording.
pub fn locate(
    recorded_path: Option<&str>,
    recorded_branch: Option<&str>,
    candidate: Candidate,
    branch_exists: bool,
) -> (r: Location)
    ensures
        r@ == decision(
            match (recorded_path, recorded_branch) {
                (Some(p), Some(b)) => Some((p@, b@)),
                _ => None,
            },
            candidate,
            branch_exists,
        ),
{
    match (recorded_path, recorded_branch) {
        (Some(p), Some(b)) => decide(Some((p, b)), candidate, branch_exists),
        _ => decide(None, candidate, branch_exists),
    }
}

/// What the filesystem and git say of a recorded path. Paths are canonical
/// where they could be made so.
#[derive(Debug)]
pub struct Found {
    /// Whether anything stands at the path, a dangling link included.
    pub exists: bool,
    pub is_dir: bool,
    /// The shared git directory of the path.
    pub common_dir: Option<String>,
    /// The shared git directory of the directory the session was dispatched
    /// from.
    pub anchor_common_dir: Option<String>,
    /// The top level of the worktree at the path.
    pub top_level: Option<String>,
    /// The path itself.
    pub path: String,
    /// The branch checked out at the path.
    pub head: Option<String>,
}

/// What the filesystem and git say, as a value.
pub struct FoundView {
    pub exists: bool,
    pub is_dir: bool,
    pub common_dir: Option<Seq<char>>,
    pub anchor_common_dir: Option<Seq<char>>,
    pub top_level: Option<Seq<char>>,
    pub path: Seq<char>,
    pub head: Option<Seq<char>>,
}

impl View for Found {
    type V = FoundView;

    open spec fn view(&self) -> FoundView {
        FoundView {
            exists: self.exists,
            is_dir: self.is_dir,
            common_dir: opt_view(self.common_dir),
            anchor_common_dir: opt_view(self.anchor_common_dir),
            top_level: opt_view(self.top_level),
            path: self.path@,
            head: opt_view(self.head),
        }
    }
}

impl FoundView {
    /// Whether the path is a worktree of the session's own repository.
    pub open spec fn same_repo(self) -> bool {
        match (self.common_dir, self.anchor_common_dir) {
            (Some(a), Some(b)) => components(a) == components(b),
            _ => false,
        }
    }

    /// Whether the path is the worktree's own top level.
    pub open spec fn is_top_level(self) -> bool {
        match self.top_level {
            Some(top) => components(top) == components(self.path),
            None => false,
        }
    }
}

/// What stands at the recorded path.
pub open spec fn verdict(found: FoundView, branch: Seq<char>) -> Candidate {
    if !found.exists {
        Candidate::Gone
    } else if found.is_dir && found.same_repo() && found.is_top_level() && found.head == Some(
        branch,
    ) {
        Candidate::Live
    } else {
        Candidate::Foreign
    }
}

fn same_dirs(a: &Option<String>, b: &Option<String>) -> (r: bool)
    ensures
        r == match (opt_view(*a), opt_view(*b)) {
            (Some(x), Some(y)) => components(x) == components(y),
            _ => false,
        },
{
    match (a, b) {
        (Some(x), Some(y)) => same_path(x.as_str(), y.as_str()),
        _ => false,
    }
}

/// Whether what stands at a path really is *this session's* worktree. Three
/// things have to agree, and each guards a different way of ending up in the
/// wrong tree: the shared git directory, the worktree's own top level, and the
/// checked-out branch. Anything else that exists there is foreign, a regular
/// file included.
pub fn inspect(found: &Found, branch: &str) -> (r: Candidate)
    ensures
        r == verdict(found@, branch@),
{
    if !found.exists {
        return Candidate::Gone;
    }
    if !found.is_dir {
        return Candidate::Foreign;
    }
    let same_repo = same_dirs(&found.common_dir, &found.anchor_common_dir);
    let top = match &found.top_level {
        Some(top) => same_path(top.as_str(), found.path.as_str()),
        None => false,
    };
    let on_branch = match &found.head {
        Some(head) => same(head.as_str(), branch),
        None => false,
    };
    if same_repo && top && on_branch {
        Candidate::Live
    } else {
        Candidate::Foreign
    }
}

/// A session with a recorded worktree never runs anywhere else: it runs at the
/// recorded path, restores it from its branch, or does not run.
pub proof fn law_recorded_worktree_is_never_abandoned(
    path: Seq<char>,
    branch: Seq<char>,
    found: FoundView,
    branch_exists: bool,
)
    ensures
        match decision(Some((path, branch)), verdict(found, branch), branch_exists) {
            LocationView::Shared => false,
            LocationView::Use(p) => p == path && found.head == Some(branch) && found.same_repo()
                && found.is_top_level(),
            LocationView::Recreate { path: p, branch: b } => p == path && b == branch
                && !found.exists && branch_exists,
            LocationView::Fail { path: p, branch: b } => !found.exists && !branch_exists,
            LocationView::Occupied { path: p, branch: b } => found.exists,
        },
{
}

} // verus!
