//! What holds of paths, of where writes land, and of worktrees.
use vstd::prelude::*;
use vstd::string::*;

use crate::harness::worktree::{
    add_failure, branch_of, decision, dir_named, dir_under, head_of, root_of, verdict, write_roots,
    Candidate, FoundView, GitOutputView, LocationView,
};
use crate::path::{
    base_len, components, joined, last_of, last_start, parent_of, trim_right,
};
use crate::sandbox::{
    ancestors, default_roots, folded, landing, lands, place_of, profile_text, quoted, subpaths,
    CapabilitiesView, WriteTargetView,
};
use crate::store::home::{home_of, store_dir};
use crate::text::trim;

verus! {

// ── Paths ───────────────────────────────────────────────────────────────────

/// An absolute name stands for itself; any other stands below the base, with one
/// slash between.
pub proof fn law_names_stand_below_the_base(base: Seq<char>, name: Seq<char>)
    ensures
        name.len() > 0 && name[0] == '/' ==> joined(base, name) == name,
        !(name.len() > 0 && name[0] == '/') && base.len() > 0 && base.last() != '/' ==> joined(
            base,
            name,
        ) == base + seq!['/'] + name,
        !(name.len() > 0 && name[0] == '/') && base.len() > 0 && base.last() == '/' ==> joined(
            base,
            name,
        ) == base + name,
        !(name.len() > 0 && name[0] == '/') ==> joined(Seq::empty(), name) == name,
{
    assert(Seq::<char>::empty() + name =~= name);
}

proof fn lemma_last_start_at(p: Seq<char>, at: int, i: int)
    requires
        base_len(p) <= at <= i <= p.len(),
        at > 0 ==> at == base_len(p) || p[at - 1] == '/',
        forall|k: int| at <= k < i ==> p[k] != '/',
    ensures
        last_start(p, i) == at,
    decreases i,
{
    if i > at {
        assert(p[i - 1] != '/');
        lemma_last_start_at(p, at, i - 1);
    }
}

/// A name that is put below a directory is the last of the path.
pub proof fn law_joined_name_is_last(d: Seq<char>, name: Seq<char>)
    requires
        name.len() > 0,
        name != "."@,
        forall|i: int| 0 <= i < name.len() ==> name[i] != '/',
    ensures
        last_of(joined(d, name)) == Some(name),
        parent_of(joined(d, name)) == Some(trim_right(d)),
{
    crate::path::lemma_parent_of_joined(d, name);
    reveal_strlit(".");
    let lead = if d.len() == 0 || d.last() == '/' {
        d
    } else {
        d + seq!['/']
    };
    let p = joined(d, name);
    assert(p =~= lead + name);
    assert(p.last() == name.last());
    assert forall|k: int| lead.len() <= k < p.len() implies p[k] != '/' by {
        assert(p[k] == name[k - lead.len()]);
    }
    if name.len() == 1 {
        assert(name =~= seq![name[0]]);
        assert("."@ =~= seq!['.']);
    } else {
        assert(p[p.len() - 2] == name[name.len() - 2]);
    }
    assert(trim_right(p) == p);
    if lead.len() > 0 {
        assert(p[lead.len() - 1] == '/');
    }
    lemma_last_start_at(p, lead.len() as int, p.len() as int);
    assert(p.skip(lead.len() as int) =~= name);
}

/// What the environment names is the home; without it the directory in the
/// user's own.
pub proof fn law_home_is_where_it_is_said(dir: Seq<char>, home: Seq<char>)
    ensures
        dir.len() > 0 ==> home_of(Some(dir), Some(home)) == dir,
        home_of(None, Some(home)) == joined(home, ".bullpen"@),
        home_of(Some(Seq::empty()), Some(home)) == joined(home, ".bullpen"@),
        home_of(None, None) == joined("."@, ".bullpen"@),
        parent_of(home) is None ==> store_dir(home) == "."@,
        parent_of(home) matches Some(p) ==> store_dir(home) == p,
{
}

// ── The sandbox ─────────────────────────────────────────────────────────────

/// A sandbox may write in its workspace and in the places for temporary files,
/// and nowhere else.
pub proof fn law_default_roots(workspace: Seq<char>, tmpdir: Seq<char>)
    ensures
        default_roots(workspace, None) == seq![
            workspace,
            "/tmp"@,
            "/private/tmp"@,
            "/private/var/folders"@,
        ],
        default_roots(workspace, Some(tmpdir)) == seq![
            workspace,
            "/tmp"@,
            "/private/tmp"@,
            "/private/var/folders"@,
            tmpdir,
        ],
{
    assert(default_roots(workspace, Some(tmpdir)) =~= seq![
        workspace,
        "/tmp"@,
        "/private/tmp"@,
        "/private/var/folders"@,
        tmpdir,
    ]);
}

/// A write lands below the nearest place on its way that is there: what is
/// missing follows it.
pub proof fn law_write_lands_below_what_is_there(
    path: Seq<char>,
    targets: Seq<WriteTargetView>,
    probes: Seq<Option<Seq<char>>>,
    k: int,
)
    requires
        0 <= k < targets.len(),
        k < probes.len(),
        probes[k] is Some,
        forall|j: int| 0 <= j < k ==> (#[trigger] probes[j]) is None,
    ensures
        landing(path, targets, probes) == joined(probes[k]->0, targets[k].tail),
    decreases k,
{
    if k > 0 {
        assert(probes[0] is None);
        let rest = probes.drop_first();
        assert forall|j: int| 0 <= j < k - 1 implies (#[trigger] rest[j]) is None by {
            assert(rest[j] == probes[j + 1]);
        }
        law_write_lands_below_what_is_there(path, targets.drop_first(), rest, k - 1);
    }
}

/// The places on a write's way are the path itself, and then its parent, with
/// the name that is left out before what is missing.
pub proof fn law_way_goes_up(existing: Seq<char>, tail: Seq<char>)
    ensures
        ancestors(existing, tail).len() > 0,
        ancestors(existing, tail)[0] == (WriteTargetView { existing, tail }),
        (parent_of(existing) is Some && last_of(existing) is Some) ==> ancestors(
            existing,
            tail,
        ).drop_first() == ancestors(
            parent_of(existing)->0,
            joined(last_of(existing)->0, tail),
        ),
        (parent_of(existing) is None || last_of(existing) is None) ==> ancestors(
            existing,
            tail,
        ).len() == 1,
{
    if parent_of(existing) is Some && last_of(existing) is Some {
        assert(ancestors(existing, tail).drop_first() =~= ancestors(
            parent_of(existing)->0,
            joined(last_of(existing)->0, tail),
        ));
    }
}

/// A path that is there lands where it is.
pub proof fn law_existing_path_lands_where_it_is(
    path: Seq<char>,
    at: Seq<char>,
    probes: Seq<Option<Seq<char>>>,
)
    requires
        probes.len() > 0,
        probes[0] == Some(at),
        at.len() > 0,
        at.last() != '/',
    ensures
        lands(path, probes) == at + seq!['/'],
        place_of(path, probes) == folded(components(at + seq!['/'])),
{
    law_way_goes_up(path, Seq::empty());
    law_write_lands_below_what_is_there(path, ancestors(path, Seq::empty()), probes, 0);
    assert(at + seq!['/'] + Seq::<char>::empty() =~= at + seq!['/']);
}

/// A profile denies the network just where it is not allowed, denies all writes,
/// and then allows those below each root.
pub proof fn law_profile_follows_the_capabilities(
    roots: Seq<Seq<char>>,
    resolved: Seq<Option<Seq<char>>>,
)
    ensures
        profile_text(CapabilitiesView { write_roots: roots, allow_network: true }, resolved)
            == "(version 1)\n(allow default)\n"@ + "(deny file-write*)\n(allow file-write*\n"@
            + subpaths(roots, resolved) + "  (subpath \"/dev\")\n)\n"@,
        profile_text(CapabilitiesView { write_roots: roots, allow_network: false }, resolved)
            == "(version 1)\n(allow default)\n"@ + "(deny network*)\n"@
            + "(deny file-write*)\n(allow file-write*\n"@ + subpaths(roots, resolved)
            + "  (subpath \"/dev\")\n)\n"@,
{
}

proof fn lemma_subpaths_front(
    roots: Seq<Seq<char>>,
    a: Seq<Option<Seq<char>>>,
    b: Seq<Option<Seq<char>>>,
)
    requires
        a.len() >= roots.len(),
        b.len() >= roots.len(),
        forall|i: int| 0 <= i < roots.len() ==> a[i] == b[i],
    ensures
        subpaths(roots, a) == subpaths(roots, b),
    decreases roots.len(),
{
    if roots.len() > 0 {
        lemma_subpaths_front(roots.drop_last(), a, b);
    }
}

/// Each root has its line in the profile, quoted: by where it resolves to, or as
/// it is written where it does not.
pub proof fn law_each_root_has_its_line(
    roots: Seq<Seq<char>>,
    resolved: Seq<Option<Seq<char>>>,
    root: Seq<char>,
    at: Option<Seq<char>>,
)
    requires
        roots.len() == resolved.len(),
    ensures
        subpaths(roots.push(root), resolved.push(at)) == subpaths(roots, resolved) + "  (subpath "@
            + quoted(
            match at {
                Some(r) => r,
                None => root,
            },
        ) + ")\n"@,
        subpaths(Seq::empty(), Seq::empty()) == Seq::<char>::empty(),
{
    assert(roots.push(root).drop_last() =~= roots);
    lemma_subpaths_front(roots, resolved.push(at), resolved);
}

// ── Worktrees ───────────────────────────────────────────────────────────────

/// A session's worktree and branch are named after it.
pub proof fn law_worktree_is_named_after_the_session(home: Seq<char>, id: Seq<char>)
    ensures
        dir_under(home, id) == joined(joined(home, "worktrees"@), id),
        branch_of(id) == "bullpen/"@ + id,
{
}

/// A worktree is used just where it is a directory, of the same repository, at
/// its own top, on its own branch; where nothing is there it is gone; anything
/// else is someone else's.
pub proof fn law_worktree_is_known(found: FoundView, branch: Seq<char>)
    ensures
        verdict(found, branch) == Candidate::Gone <==> !found.exists,
        verdict(found, branch) == Candidate::Live <==> found.exists && found.is_dir && (
        found.common_dir matches Some(a) && found.anchor_common_dir matches Some(b) && components(a)
            == components(b)) && (found.top_level matches Some(t) && components(t) == components(
            found.path,
        )) && found.head == Some(branch),
{
}

/// Without a recorded worktree the checkout is shared; a recorded one is used,
/// restored from its branch, or refused, by what is found.
pub proof fn law_location_is_decided(path: Seq<char>, branch: Seq<char>, there: bool)
    ensures
        decision(None, Candidate::Live, there) is Shared,
        decision(None, Candidate::Gone, there) is Shared,
        decision(None, Candidate::Foreign, there) is Shared,
        decision(Some((path, branch)), Candidate::Live, there) == LocationView::Use(path),
        decision(Some((path, branch)), Candidate::Gone, true) == (LocationView::Recreate {
            path,
            branch,
        }),
        decision(Some((path, branch)), Candidate::Gone, false) == (LocationView::Fail {
            path,
            branch,
        }),
        decision(Some((path, branch)), Candidate::Foreign, there) == (LocationView::Occupied {
            path,
            branch,
        }),
{
}

/// What git prints is read without the space around it: the root of the
/// repository, the directory it names, the branch that is checked out. A git
/// that failed names nothing.
pub proof fn law_git_is_read(cwd: Seq<char>, out: GitOutputView, why: Seq<char>)
    ensures
        out.success ==> root_of(cwd, Ok(out)) == Ok::<Seq<char>, Seq<char>>(trim(out.stdout)),
        !out.success ==> root_of(cwd, Ok(out)) is Err,
        root_of(cwd, Err(why)) is Err,
        out.success ==> dir_named(cwd, Ok(out)) == Some(joined(cwd, trim(out.stdout))),
        !out.success ==> dir_named(cwd, Ok(out)) is None,
        dir_named(cwd, Err(why)) is None,
        out.success && trim(out.stdout).len() > 0 ==> head_of(Ok(out)) == Some(trim(out.stdout)),
        !out.success || trim(out.stdout).len() == 0 ==> head_of(Ok(out)) is None,
        head_of(Err(why)) is None,
        add_failure(cwd, Ok(out)) is None <==> out.success,
        add_failure(cwd, Err(why)) is Some,
{
}

/// A worktree needs the git directories that lie outside it: both, where they
/// are two.
pub proof fn law_worktree_needs_its_git_directories(g: Seq<char>, c: Seq<char>)
    ensures
        components(g) != components(c) ==> write_roots(Some(g), Some(c)) == seq![g, c],
        components(g) == components(c) ==> write_roots(Some(g), Some(c)).len() == 0,
        write_roots(None, Some(c)).len() == 0,
        write_roots(Some(g), None).len() == 0,
{
}

} // verus!
