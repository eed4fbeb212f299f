//! Write confinement for tool execution.
//!
//! The workspace is the boundary the agent may modify. A [`Sandbox`] enforces
//! that two ways, together: the file-editing tools ask before writing, and on
//! macOS shell commands run under Seatbelt with a generated profile, so that
//! arbitrary code the model runs also cannot write outside the allowed roots,
//! and optionally cannot reach the network.
//!
//! Reads stay broad. What the file system says (which ancestor of a path
//! exists, what a path resolves to) is handed in by the caller.
use vstd::prelude::*;
use vstd::string::*;

use crate::path::{
    components, components_of, join, joined, last, last_of, lemma_parent_is_shorter, parent,
    parent_of, within,
};
use crate::text::{chars_of, lemma_step, opt_view, same, views};

verus! {

/// What a sandboxed process may do beyond reading.
#[derive(Debug)]
pub struct Capabilities {
    /// Directory subtrees the agent may write to.
    pub write_roots: Vec<String>,
    /// Whether sandboxed shell commands may use the network.
    pub allow_network: bool,
}

/// What a process may do, as a value.
pub struct CapabilitiesView {
    pub write_roots: Seq<Seq<char>>,
    pub allow_network: bool,
}

impl View for Capabilities {
    type V = CapabilitiesView;

    open spec fn view(&self) -> CapabilitiesView {
        CapabilitiesView { write_roots: views(self.write_roots@), allow_network: self.allow_network }
    }
}

/// A policy on writes and the network.
#[derive(Debug)]
pub struct Sandbox {
    caps: Capabilities,
}

impl View for Sandbox {
    type V = CapabilitiesView;

    closed spec fn view(&self) -> CapabilitiesView {
        self.caps@
    }
}

/// The workspace and the system temp locations tools rely on.
pub open spec fn default_roots(workspace: Seq<char>, tmpdir: Option<Seq<char>>) -> Seq<Seq<char>> {
    let fixed = seq![workspace, "/tmp"@, "/private/tmp"@, "/private/var/folders"@];
    match tmpdir {
        Some(t) => fixed.push(t),
        None => fixed,
    }
}

fn default_write_roots(workspace: &str, tmpdir: Option<String>) -> (r: Vec<String>)
    ensures
        views(r@) == default_roots(workspace@, opt_view(tmpdir)),
{
    let mut roots: Vec<String> = Vec::new();
    roots.push(workspace.to_owned());
    roots.push("/tmp".to_owned());
    roots.push("/private/tmp".to_owned());
    roots.push("/private/var/folders".to_owned());
    let ghost t = opt_view(tmpdir);
    match tmpdir {
        Some(tmp) => roots.push(tmp),
        None => {},
    }
    proof {
        assert(views(roots@) =~= default_roots(workspace@, t));
    }
    roots
}

/// An ancestor of a write target and what follows it.
#[derive(Debug)]
pub struct WriteTarget {
    pub existing: String,
    pub tail: String,
}

/// An ancestor of a write target and what follows it.
pub struct WriteTargetView {
    pub existing: Seq<char>,
    pub tail: Seq<char>,
}

impl View for WriteTarget {
    type V = WriteTargetView;

    open spec fn view(&self) -> WriteTargetView {
        WriteTargetView { existing: self.existing@, tail: self.tail@ }
    }
}

/// A path followed by `tail` split at each ancestor, the longest first.
pub open spec fn ancestors(existing: Seq<char>, tail: Seq<char>) -> Seq<WriteTargetView>
    decreases existing.len(),
{
    let here = seq![WriteTargetView { existing, tail }];
    match (parent_of(existing), last_of(existing)) {
        (Some(p), Some(name)) => {
            proof {
                lemma_parent_is_shorter(existing);
            }
            here + ancestors(p, joined(name, tail))
        },
        _ => here,
    }
}

/// The ancestors of a write target, the target itself first.
pub fn write_targets(path: &str) -> (r: Vec<WriteTarget>)
    ensures
        views(r@) == ancestors(path@, Seq::empty()),
        r@.len() > 0,
{
    let mut out: Vec<WriteTarget> = Vec::new();
    let mut existing = path.to_owned();
    let mut tail = String::new();
    proof {
        assert(tail@ =~= Seq::<char>::empty());
        assert(views(out@) + ancestors(existing@, tail@) =~= ancestors(path@, Seq::empty()));
    }
    loop
        invariant
            views(out@) + ancestors(existing@, tail@) == ancestors(path@, Seq::empty()),
        decreases existing@.len(),
    {
        let up = parent(existing.as_str());
        let name = last(existing.as_str());
        let ghost before = views(out@);
        let ghost ev = existing@;
        let ghost tv = tail@;
        proof {
            lemma_parent_is_shorter(existing@);
        }
        match (up, name) {
            (Some(p), Some(n)) => {
                let next_tail = join(n.as_str(), tail.as_str());
                out.push(WriteTarget { existing, tail });
                proof {
                    assert(views(out@) =~= before.push(WriteTargetView { existing: ev, tail: tv }));
                    assert(views(out@) + ancestors(p@, next_tail@) =~= before + ancestors(ev, tv));
                }
                existing = p;
                tail = next_tail;
            },
            _ => {
                out.push(WriteTarget { existing, tail });
                proof {
                    assert(views(out@) =~= before.push(WriteTargetView { existing: ev, tail: tv }));
                    assert(views(out@) =~= before + ancestors(ev, tv));
                }
                return out;
            },
        }
    }
}

/// Where a write lands: the nearest existing ancestor, resolved, and what
/// follows it. `probes` says of each ancestor what it resolves to, if it
/// exists.
pub open spec fn landing(
    path: Seq<char>,
    targets: Seq<WriteTargetView>,
    probes: Seq<Option<Seq<char>>>,
) -> Seq<char>
    decreases targets.len(),
{
    if targets.len() == 0 || probes.len() == 0 {
        path
    } else {
        match probes[0] {
            Some(base) => joined(base, targets[0].tail),
            None => landing(path, targets.drop_first(), probes.drop_first()),
        }
    }
}

/// The views of optional strings.
pub open spec fn opt_views(s: Seq<Option<String>>) -> Seq<Option<Seq<char>>> {
    s.map_values(|o: Option<String>| opt_view(o))
}

/// Components with each `..` taken together with the name before it. Above the
/// root is the root; a `..` that nothing stands before stays.
pub open spec fn folded(cs: Seq<Seq<char>>) -> Seq<Seq<char>>
    decreases cs.len(),
{
    if cs.len() == 0 {
        Seq::empty()
    } else {
        let before = folded(cs.drop_last());
        if cs.last() != ".."@ {
            before.push(cs.last())
        } else if before.len() == 0 || before.last() == ".."@ || before.last() == "."@ {
            before.push(cs.last())
        } else if before.last() == "/"@ {
            before
        } else {
            before.drop_last()
        }
    }
}

/// Where a write lands, by the path and what its ancestors resolve to.
pub open spec fn lands(path: Seq<char>, probes: Seq<Option<Seq<char>>>) -> Seq<char> {
    landing(path, ancestors(path, Seq::empty()), probes)
}

/// The components of the place that a write lands at. What follows the existing
/// ancestor does not exist, so a `..` in it takes back the name before it.
pub open spec fn place_of(path: Seq<char>, probes: Seq<Option<Seq<char>>>) -> Seq<Seq<char>> {
    folded(components(lands(path, probes)))
}

/// Whether a place lies under one of the roots that resolve to something.
pub open spec fn under_a_root(place: Seq<Seq<char>>, roots: Seq<Option<Seq<char>>>) -> bool {
    exists|i: int|
        0 <= i < roots.len() && (#[trigger] roots[i]) is Some && components(
            roots[i]->0,
        ).is_prefix_of(place)
}

/// Whether a write lands under one of the roots that resolve to something. A
/// place that a `..` is left in, which only one that begins nowhere can be, lies
/// under none.
pub open spec fn permitted(
    path: Seq<char>,
    probes: Seq<Option<Seq<char>>>,
    roots: Seq<Option<Seq<char>>>,
) -> bool {
    !place_of(path, probes).contains(".."@) && under_a_root(place_of(path, probes), roots)
}

fn fold(cs: Vec<String>) -> (r: Vec<String>)
    ensures
        views(r@) == folded(views(cs@)),
{
    let ghost all = views(cs@);
    let mut out: Vec<String> = Vec::new();
    let mut i: usize = 0;
    proof {
        assert(views(out@) =~= folded(all.take(0)));
    }
    while i < cs.len()
        invariant
            all == views(cs@),
            i <= cs@.len(),
            views(out@) == folded(all.take(i as int)),
        decreases cs@.len() - i,
    {
        let ghost before = out@;
        proof {
            lemma_step(all, i as int);
            assert(all[i as int] == cs@[i as int]@);
        }
        let n: usize = out.len();
        proof {
            if n > 0 {
                assert(views(before).last() == before[n - 1]@);
            }
        }
        if !same(cs[i].as_str(), "..") || n == 0 || same(out[n - 1].as_str(), "..") || same(
            out[n - 1].as_str(),
            ".",
        ) {
            let c = cs[i].clone();
            out.push(c);
            proof {
                assert(views(out@) =~= views(before).push(all[i as int]));
            }
        } else if !same(out[n - 1].as_str(), "/") {
            let _name = out.pop();
            proof {
                assert(views(out@) =~= views(before).drop_last());
            }
        }
        i += 1;
    }
    proof {
        assert(all.take(i as int) =~= all);
    }
    out
}

fn has_dots(cs: &Vec<String>) -> (r: bool)
    ensures
        r == views(cs@).contains(".."@),
{
    let ghost all = views(cs@);
    let mut i: usize = 0;
    while i < cs.len()
        invariant
            all == views(cs@),
            i <= cs@.len(),
            forall|j: int| 0 <= j < i ==> #[trigger] all[j] != ".."@,
        decreases cs@.len() - i,
    {
        proof {
            assert(all[i as int] == cs@[i as int]@);
        }
        if same(cs[i].as_str(), "..") {
            return true;
        }
        i += 1;
    }
    false
}

fn begins_with(cs: &Vec<String>, lead: &Vec<String>) -> (r: bool)
    ensures
        r == views(lead@).is_prefix_of(views(cs@)),
{
    let ghost all = views(cs@);
    let ghost first = views(lead@);
    if lead.len() > cs.len() {
        return false;
    }
    let mut i: usize = 0;
    while i < lead.len()
        invariant
            all == views(cs@),
            first == views(lead@),
            i <= lead@.len() <= cs@.len(),
            forall|j: int| 0 <= j < i ==> #[trigger] first[j] == all[j],
        decreases lead@.len() - i,
    {
        proof {
            assert(all[i as int] == cs@[i as int]@);
            assert(first[i as int] == lead@[i as int]@);
        }
        if !same(cs[i].as_str(), lead[i].as_str()) {
            proof {
                assert(all.take(first.len() as int)[i as int] != first[i as int]);
            }
            return false;
        }
        i += 1;
    }
    proof {
        assert(all.take(first.len() as int) =~= first);
    }
    true
}

/// Resolve a write target to an absolute, symlink-free path for prefix
/// checking. Since the file itself may not exist, the nearest existing
/// ancestor is resolved and the trailing components re-appended.
pub fn resolve_for_write(path: &str, probes: &Vec<Option<String>>) -> (r: String)
    ensures
        r@ == lands(path@, opt_views(probes@)),
{
    let targets = write_targets(path);
    let ghost tv = views(targets@);
    let ghost pv = opt_views(probes@);
    let mut i: usize = 0;
    proof {
        assert(tv.skip(0) =~= tv);
        assert(pv.skip(0) =~= pv);
    }
    while i < targets.len() && i < probes.len()
        invariant
            tv == views(targets@),
            tv == ancestors(path@, Seq::empty()),
            pv == opt_views(probes@),
            i <= targets@.len(),
            i <= probes@.len(),
            landing(path@, tv, pv) == landing(path@, tv.skip(i as int), pv.skip(i as int)),
        decreases targets@.len() - i,
    {
        proof {
            assert(tv.skip(i as int)[0] == targets@[i as int]@);
            assert(pv.skip(i as int)[0] == opt_view(probes@[i as int]));
            assert(tv.skip(i as int).drop_first() =~= tv.skip(i + 1));
            assert(pv.skip(i as int).drop_first() =~= pv.skip(i + 1));
        }
        match &probes[i] {
            Some(base) => {
                return join(base.as_str(), targets[i].tail.as_str());
            },
            None => {},
        }
        i += 1;
    }
    path.to_owned()
}

// ── The Seatbelt profile ────────────────────────────────────────────────────

/// A text with each backslash and double quote behind a backslash.
pub open spec fn escaped(s: Seq<char>) -> Seq<char>
    decreases s.len(),
{
    if s.len() == 0 {
        Seq::empty()
    } else {
        let before = escaped(s.drop_last());
        if s.last() == '\\' || s.last() == '"' {
            before.push('\\').push(s.last())
        } else {
            before.push(s.last())
        }
    }
}

/// A path as an SBPL string.
pub open spec fn quoted(s: Seq<char>) -> Seq<char> {
    seq!['"'] + escaped(s) + seq!['"']
}

/// A path as an SBPL string.
pub fn sbpl_quote(path: &str) -> (r: String)
    ensures
        r@ == quoted(path@),
{
    let cs = chars_of(path);
    let mut out = String::new();
    out.push('"');
    let mut i: usize = 0;
    proof {
        assert(out@ =~= seq!['"'] + escaped(cs@.take(0)));
    }
    while i < cs.len()
        invariant
            cs@ == path@,
            i <= cs@.len(),
            out@ == seq!['"'] + escaped(cs@.take(i as int)),
        decreases cs@.len() - i,
    {
        proof {
            lemma_step(cs@, i as int);
        }
        if cs[i] == '\\' || cs[i] == '"' {
            out.push('\\');
        }
        out.push(cs[i]);
        proof {
            assert(out@ =~= seq!['"'] + escaped(cs@.take(i + 1)));
        }
        i += 1;
    }
    out.push('"');
    proof {
        assert(cs@.take(i as int) =~= cs@);
        assert(out@ =~= quoted(path@));
    }
    out
}

/// What a reader of an escaped text reads: a backslash makes the next
/// character stand for itself.
pub open spec fn unescaped(s: Seq<char>) -> Seq<char>
    decreases s.len(),
{
    if s.len() == 0 {
        Seq::empty()
    } else if s[0] == '\\' && s.len() > 1 {
        seq![s[1]] + unescaped(s.skip(2))
    } else {
        seq![s[0]] + unescaped(s.drop_first())
    }
}

/// Escaping, the other way round: character by character from the left.
proof fn lemma_escaped_front(s: Seq<char>)
    requires
        s.len() > 0,
    ensures
        escaped(s) == (if s[0] == '\\' || s[0] == '"' {
            seq!['\\', s[0]]
        } else {
            seq![s[0]]
        }) + escaped(s.drop_first()),
    decreases s.len(),
{
    if s.len() == 1 {
        assert(s.drop_first() =~= Seq::<char>::empty());
        assert(s.drop_last() =~= Seq::<char>::empty());
        assert(escaped(s) =~= (if s[0] == '\\' || s[0] == '"' {
            seq!['\\', s[0]]
        } else {
            seq![s[0]]
        }) + escaped(s.drop_first()));
    } else {
        lemma_escaped_front(s.drop_last());
        assert(s.drop_last().drop_first() =~= s.drop_first().drop_last());
        assert(s.drop_first().last() == s.last());
        assert(escaped(s) =~= (if s[0] == '\\' || s[0] == '"' {
            seq!['\\', s[0]]
        } else {
            seq![s[0]]
        }) + escaped(s.drop_first()));
    }
}

/// A quoted path reads back as the path, so no path can end its string early.
pub proof fn law_quoting_reads_back(path: Seq<char>)
    ensures
        unescaped(escaped(path)) == path,
    decreases path.len(),
{
    if path.len() == 0 {
        assert(unescaped(escaped(path)) =~= path);
    } else {
        lemma_escaped_front(path);
        law_quoting_reads_back(path.drop_first());
        let e = escaped(path);
        let rest = escaped(path.drop_first());
        if path[0] == '\\' || path[0] == '"' {
            assert(e.skip(2) =~= rest);
            assert(e[0] == '\\' && e[1] == path[0]);
        } else {
            assert(e.drop_first() =~= rest);
            assert(e[0] == path[0]);
        }
        assert(seq![path[0]] + path.drop_first() =~= path);
    }
}

/// The root as Seatbelt sees it: resolved where it resolves.
pub open spec fn seen_root(root: Seq<char>, resolved: Option<Seq<char>>) -> Seq<char> {
    match resolved {
        Some(r) => r,
        None => root,
    }
}

/// One rule line for each root.
pub open spec fn subpaths(roots: Seq<Seq<char>>, resolved: Seq<Option<Seq<char>>>) -> Seq<char>
    decreases roots.len(),
{
    if roots.len() == 0 {
        Seq::empty()
    } else {
        let n = roots.len() - 1;
        subpaths(roots.drop_last(), resolved) + "  (subpath "@ + quoted(
            seen_root(roots.last(), resolved[n]),
        ) + ")\n"@
    }
}

/// The generated profile: allow everything, then deny all writes, then
/// re-allow writes under the roots. The last matching rule wins in SBPL.
pub open spec fn profile_text(caps: CapabilitiesView, resolved: Seq<Option<Seq<char>>>) -> Seq<char> {
    let head = if caps.allow_network {
        "(version 1)\n(allow default)\n"@
    } else {
        "(version 1)\n(allow default)\n"@ + "(deny network*)\n"@
    };
    head + "(deny file-write*)\n(allow file-write*\n"@ + subpaths(caps.write_roots, resolved)
        + "  (subpath \"/dev\")\n)\n"@
}

impl Sandbox {
    /// Default policy: writes confined to the workspace plus the system temp
    /// directories; network allowed (package managers, fetches).
    pub fn workspace(workspace: &str, tmpdir: Option<String>) -> (r: Self)
        ensures
            r@ == (CapabilitiesView {
                write_roots: default_roots(workspace@, opt_view(tmpdir)),
                allow_network: true,
            }),
    {
        Sandbox::with_capabilities(
            Capabilities { write_roots: default_write_roots(workspace, tmpdir), allow_network: true },
        )
    }

    /// Strict policy: same write confinement, network denied.
    pub fn strict(workspace: &str, tmpdir: Option<String>) -> (r: Self)
        ensures
            r@ == (CapabilitiesView {
                write_roots: default_roots(workspace@, opt_view(tmpdir)),
                allow_network: false,
            }),
    {
        Sandbox::with_capabilities(
            Capabilities {
                write_roots: default_write_roots(workspace, tmpdir),
                allow_network: false,
            },
        )
    }

    /// A policy of exactly these capabilities.
    pub fn with_capabilities(caps: Capabilities) -> (r: Self)
        ensures
            r@ == caps@,
    {
        Sandbox { caps }
    }

    /// This policy with more roots to write to.
    pub fn allowing_writes(self, roots: Vec<String>) -> (r: Self)
        ensures
            r@ == (CapabilitiesView {
                write_roots: self@.write_roots + views(roots@),
                allow_network: self@.allow_network,
            }),
    {
        let ghost start = self@;
        let mut caps = self.caps;
        let mut more = roots;
        let ghost a = caps.write_roots@;
        let ghost b = more@;
        caps.write_roots.append(&mut more);
        proof {
            assert(views(caps.write_roots@) =~= views(a) + views(b));
        }
        Sandbox { caps }
    }

    /// What this policy allows.
    pub fn capabilities(&self) -> (r: &Capabilities)
        ensures
            r@ == self@,
    {
        &self.caps
    }

    /// Whether out-of-process (shell) confinement is enforced on the OS of
    /// this name.
    pub fn os_enforced(os: &str) -> (r: bool)
        ensures
            r == (os@ == "macos"@),
    {
        crate::text::same(os, "macos")
    }

    /// Whether writing to `path` is permitted. The path need not exist; its
    /// nearest existing ancestor is resolved (following symlinks) and checked
    /// against the write roots, so `..` and symlink escapes are caught.
    /// `probes` says of each of the [`write_targets`] what it resolves to if
    /// it exists, `roots` of each write root what it resolves to if it does.
    pub fn allows_write(
        &self,
        path: &str,
        probes: &Vec<Option<String>>,
        roots: &Vec<Option<String>>,
    ) -> (r: bool)
        requires
            roots@.len() == self@.write_roots.len(),
        ensures
            r == permitted(path@, opt_views(probes@), opt_views(roots@)),
    {
        let resolved = resolve_for_write(path, probes);
        let place = fold(components_of(resolved.as_str()));
        if has_dots(&place) {
            return false;
        }
        let mut i: usize = 0;
        while i < roots.len()
            invariant
                i <= roots@.len(),
                views(place@) == place_of(path@, opt_views(probes@)),
                !views(place@).contains(".."@),
                forall|j: int|
                    0 <= j < i && (#[trigger] opt_views(roots@)[j]) is Some ==> !components(
                        opt_views(roots@)[j]->0,
                    ).is_prefix_of(views(place@)),
            decreases roots@.len() - i,
        {
            proof {
                assert(opt_views(roots@)[i as int] == opt_view(roots@[i as int]));
            }
            match &roots[i] {
                Some(root) => {
                    let lead = components_of(root.as_str());
                    if begins_with(&place, &lead) {
                        return true;
                    }
                },
                None => {},
            }
            i += 1;
        }
        false
    }

    /// Turn a shell command into the program + args that run it confined.
    /// On macOS: `sandbox-exec -p <profile> bash -c <command>`. Elsewhere:
    /// plain `bash -c <command>` (the in-process check still guards the file
    /// tools; only arbitrary shell writes are unconfined).
    pub fn wrap_bash(&self, command: &str, os: &str, roots: &Vec<Option<String>>) -> (r: (
        String,
        Vec<String>,
    ))
        requires
            roots@.len() == self@.write_roots.len(),
        ensures
            os@ == "macos"@ ==> r.0@ == "sandbox-exec"@ && views(r.1@) == seq![
                "-p"@,
                profile_text(self@, opt_views(roots@)),
                "bash"@,
                "-c"@,
                command@,
            ],
            os@ != "macos"@ ==> r.0@ == "bash"@ && views(r.1@) == seq!["-c"@, command@],
    {
        let mut args: Vec<String> = Vec::new();
        if Sandbox::os_enforced(os) {
            args.push("-p".to_owned());
            args.push(self.seatbelt_profile(roots));
            args.push("bash".to_owned());
            args.push("-c".to_owned());
            args.push(command.to_owned());
            proof {
                assert(views(args@) =~= seq![
                    "-p"@,
                    profile_text(self@, opt_views(roots@)),
                    "bash"@,
                    "-c"@,
                    command@,
                ]);
            }
            ("sandbox-exec".to_owned(), args)
        } else {
            args.push("-c".to_owned());
            args.push(command.to_owned());
            proof {
                assert(views(args@) =~= seq!["-c"@, command@]);
            }
            ("bash".to_owned(), args)
        }
    }

    /// The generated Seatbelt (SBPL) profile. `roots` says of each write root
    /// what it resolves to, so that the rules match the real paths Seatbelt
    /// sees.
    pub fn seatbelt_profile(&self, roots: &Vec<Option<String>>) -> (r: String)
        requires
            roots@.len() == self@.write_roots.len(),
        ensures
            r@ == profile_text(self@, opt_views(roots@)),
    {
        let mut p = "(version 1)\n(allow default)\n".to_owned();
        if !self.caps.allow_network {
            p.append("(deny network*)\n");
        }
        p.append("(deny file-write*)\n(allow file-write*\n");
        let ghost head = p@;
        let ghost wr = self@.write_roots;
        let ghost rv = opt_views(roots@);
        let mut i: usize = 0;
        proof {
            assert(p@ =~= head + subpaths(wr.take(0), rv));
        }
        while i < self.caps.write_roots.len()
            invariant
                wr == self@.write_roots,
                wr == views(self.caps.write_roots@),
                rv == opt_views(roots@),
                roots@.len() == wr.len(),
                i <= wr.len(),
                p@ == head + subpaths(wr.take(i as int), rv),
            decreases wr.len() - i,
        {
            let ghost before = p@;
            proof {
                lemma_step(wr, i as int);
                assert(wr[i as int] == self.caps.write_roots@[i as int]@);
                assert(rv[i as int] == opt_view(roots@[i as int]));
            }
            let q = match &roots[i] {
                Some(canonical) => sbpl_quote(canonical.as_str()),
                None => sbpl_quote(self.caps.write_roots[i].as_str()),
            };
            p.append("  (subpath ");
            p.append(q.as_str());
            p.append(")\n");
            proof {
                assert(p@ =~= head + subpaths(wr.take(i + 1), rv));
            }
            i += 1;
        }
        proof {
            assert(wr.take(i as int) =~= wr);
        }
        // Device nodes (ttys, /dev/null): writing here is normal and safe.
        p.append("  (subpath \"/dev\")\n)\n");
        p
    }
}

/// A write that is allowed stays allowed when a policy gets more roots.
pub proof fn law_more_roots_allow_more(
    path: Seq<char>,
    probes: Seq<Option<Seq<char>>>,
    roots: Seq<Option<Seq<char>>>,
    more: Seq<Option<Seq<char>>>,
)
    requires
        permitted(path, probes, roots),
    ensures
        permitted(path, probes, roots + more),
{
    let place = place_of(path, probes);
    let i = choose|i: int|
        0 <= i < roots.len() && (#[trigger] roots[i]) is Some && components(
            roots[i]->0,
        ).is_prefix_of(place);
    assert((roots + more)[i] == roots[i]);
}

/// What decides on a write is where it lands, not how its path is spelled: two
/// paths that land at one place are allowed or refused together.
pub proof fn law_where_a_write_lands_decides(
    a: Seq<char>,
    a_probes: Seq<Option<Seq<char>>>,
    b: Seq<char>,
    b_probes: Seq<Option<Seq<char>>>,
    roots: Seq<Option<Seq<char>>>,
)
    requires
        place_of(a, a_probes) == place_of(b, b_probes),
    ensures
        permitted(a, a_probes, roots) == permitted(b, b_probes, roots),
{
}

proof fn lemma_nothing_to_fold(cs: Seq<Seq<char>>)
    requires
        !cs.contains(".."@),
    ensures
        folded(cs) == cs,
    decreases cs.len(),
{
    if cs.len() > 0 {
        assert forall|i: int| 0 <= i < cs.drop_last().len() implies cs.drop_last()[i] != ".."@ by {
            assert(cs.contains(cs[i]));
        }
        lemma_nothing_to_fold(cs.drop_last());
        assert(cs.contains(cs.last()));
        assert(folded(cs) =~= cs);
    }
}

/// A write whose place is spelled without `..` is allowed exactly where that
/// place lies within a root.
pub proof fn law_plain_write_goes_by_its_place(
    path: Seq<char>,
    probes: Seq<Option<Seq<char>>>,
    roots: Seq<Option<Seq<char>>>,
)
    requires
        !components(lands(path, probes)).contains(".."@),
    ensures
        permitted(path, probes, roots) <==> exists|i: int|
            0 <= i < roots.len() && (#[trigger] roots[i]) is Some && within(
                lands(path, probes),
                roots[i]->0,
            ),
{
    let place = components(lands(path, probes));
    lemma_nothing_to_fold(place);
    assert forall|i: int|
        0 <= i < roots.len() && (#[trigger] roots[i]) is Some implies within(
        lands(path, probes),
        roots[i]->0,
    ) == components(roots[i]->0).is_prefix_of(place) by {}
}

/// A `..` behind a name takes that name back: the place is the one without
/// both.
pub proof fn law_dots_take_back_the_name_before(
    before: Seq<Seq<char>>,
    name: Seq<char>,
    after: Seq<Seq<char>>,
)
    requires
        name != ".."@ && name != "."@ && name != "/"@,
    ensures
        folded(before.push(name).push(".."@) + after) == folded(before + after),
    decreases after.len(),
{
    let with = before.push(name).push(".."@) + after;
    if after.len() == 0 {
        assert(with =~= before.push(name).push(".."@));
        assert(with.drop_last() =~= before.push(name));
        assert(before.push(name).drop_last() =~= before);
        assert(before + after =~= before);
        assert(folded(before.push(name)) == folded(before).push(name));
        assert(folded(before).push(name).last() == name);
        assert(folded(before).push(name).drop_last() =~= folded(before));
    } else {
        law_dots_take_back_the_name_before(before, name, after.drop_last());
        assert(with.drop_last() =~= before.push(name).push(".."@) + after.drop_last());
        assert((before + after).drop_last() =~= before + after.drop_last());
    }
}

/// An allowed write stays inside: the components of the place where it lands
/// are those of a root followed by names, none of which climbs out again.
pub proof fn law_allowed_write_stays_inside(
    path: Seq<char>,
    probes: Seq<Option<Seq<char>>>,
    roots: Seq<Option<Seq<char>>>,
)
    requires
        permitted(path, probes, roots),
    ensures
        exists|i: int|
            0 <= i < roots.len() && (#[trigger] roots[i]) is Some && ({
                let place = place_of(path, probes);
                let root = components(roots[i]->0);
                root.is_prefix_of(place) && forall|k: int|
                    root.len() <= k < place.len() ==> #[trigger] place[k] != ".."@
            }),
{
    let place = place_of(path, probes);
    let i = choose|i: int|
        0 <= i < roots.len() && (#[trigger] roots[i]) is Some && components(
            roots[i]->0,
        ).is_prefix_of(place);
    assert forall|k: int| components(roots[i]->0).len() <= k < place.len() implies #[trigger] place[k]
        != ".."@ by {
        assert(place.contains(place[k]));
    }
}

} // verus!
