//! Workspace search: regex grep and glob.
//!
//! The caller walks the workspace and hands in each file; what matches, how a
//! match reads and when the search stops is decided here.
use vstd::prelude::*;
use vstd::string::*;

use super::{required, required_str, Tool, ToolError, ToolErrorView};
use super::catalog::{self, glob_offer, grep_offer};
use crate::json::{Json, JsonView};
use crate::llm::{ToolSpec, ToolSpecView};
use crate::path::{join as join_path, joined};
use crate::text::{
    dec, decimal, in_text_order, is_text_order, join, join_with, lemma_step, lemma_text_order,
    lines, lines_of, sort_texts, trim_end, trimmed_end, views,
};

verus! {

/// Searches file contents.
#[derive(Debug, Clone, Copy)]
pub struct Grep;

impl Tool for Grep {
    open spec fn offer(&self) -> ToolSpecView {
        grep_offer()
    }

    open spec fn overlaps(&self, input: JsonView) -> bool {
        true
    }

    open spec fn replays(&self) -> bool {
        true
    }

    fn name(&self) -> (r: &'static str) {
        "grep"
    }

    fn spec(&self) -> (r: ToolSpec) {
        catalog::grep()
    }

    fn parallel_safe(&self, _input: &Json) -> (r: bool) {
        true
    }

    fn replay_safe(&self) -> (r: bool) {
        true
    }
}

/// Finds files by name.
#[derive(Debug, Clone, Copy)]
pub struct Glob;

impl Tool for Glob {
    open spec fn offer(&self) -> ToolSpecView {
        glob_offer()
    }

    open spec fn overlaps(&self, input: JsonView) -> bool {
        true
    }

    open spec fn replays(&self) -> bool {
        true
    }

    fn name(&self) -> (r: &'static str) {
        "glob"
    }

    fn spec(&self) -> (r: ToolSpec) {
        catalog::glob()
    }

    fn parallel_safe(&self, _input: &Json) -> (r: bool) {
        true
    }

    fn replay_safe(&self) -> (r: bool) {
        true
    }
}

pub const MAX_RESULTS: usize = 200;

// ── Regular expressions ─────────────────────────────────────────────────────

/// A compiled regular expression of the `regex` crate.
#[verifier::external_type_specification]
#[verifier::external_body]
pub struct ExRegex(regex::Regex);

/// The pattern that a regular expression was made of; `regex::Regex::as_str`
/// returns it.
pub uninterp spec fn pattern_of(re: regex::Regex) -> Seq<char>;

/// What `regex::Regex::new` says against a pattern, if anything.
pub uninterp spec fn regex_error(pattern: Seq<char>) -> Option<Seq<char>>;

/// Whether `regex::Regex::is_match` finds a pattern in a text.
pub uninterp spec fn regex_finds(pattern: Seq<char>, text: Seq<char>) -> bool;

/// `regex::Regex::new`: the pattern compiled, or the error in words. Whether a
/// pattern compiles depends on the pattern alone.
#[verifier::external_body]
pub(crate) fn compile_regex(pattern: &str) -> (r: Result<regex::Regex, String>)
    ensures
        match r {
            Ok(re) => regex_error(pattern@) is None && pattern_of(re) == pattern@,
            Err(e) => regex_error(pattern@) == Some(e@),
        },
{
    regex::Regex::new(pattern).map_err(|e| e.to_string())
}

/// `regex::Regex::is_match`: whether the pattern is found anywhere in the text.
#[verifier::external_body]
pub(crate) fn finds(re: &regex::Regex, text: &str) -> (r: bool)
    ensures
        r == regex_finds(pattern_of(*re), text@),
{
    re.is_match(text)
}

// ── Globs ───────────────────────────────────────────────────────────────────

/// A compiled set of globs of the `globset` crate.
#[verifier::external_type_specification]
#[verifier::external_body]
pub struct ExGlobSet(globset::GlobSet);

/// The one glob that a set was made of.
pub uninterp spec fn glob_of(set: globset::GlobSet) -> Seq<char>;

/// What `globset` says against a glob, if anything.
pub uninterp spec fn glob_error(pattern: Seq<char>) -> Option<Seq<char>>;

/// Whether `globset::GlobSet::is_match` finds that a path matches a glob.
pub uninterp spec fn glob_finds(pattern: Seq<char>, path: Seq<char>) -> bool;

/// `globset::GlobBuilder::build` with literal separators, then a set of that
/// one glob: the glob compiled, or the error in words. A set is built rather
/// than a lone matcher, since compiling the latter panics where the regex that a
/// glob stands for is refused, and the set says so instead. The glob itself is
/// written out as a regex by recursion on its braces, which nothing bounds but
/// the stack.
#[verifier::external_body]
pub(crate) fn compile_glob(pattern: &str) -> (r: Result<globset::GlobSet, String>)
    ensures
        match r {
            Ok(set) => glob_error(pattern@) is None && glob_of(set) == pattern@,
            Err(e) => glob_error(pattern@) == Some(e@),
        },
{
    let glob = globset::GlobBuilder::new(pattern).literal_separator(true).build();
    let glob = glob.map_err(|e| e.to_string())?;
    globset::GlobSetBuilder::new().add(glob).build().map_err(|e| e.to_string())
}

/// `globset::GlobSet::is_match`: whether the path matches the set's glob.
#[verifier::external_body]
pub(crate) fn glob_matches(set: &globset::GlobSet, path: &str) -> (r: bool)
    ensures
        r == glob_finds(glob_of(*set), path@),
{
    set.is_match(path)
}

// ── Grep ────────────────────────────────────────────────────────────────────

/// A search: the compiled pattern and where it looks.
pub struct Search {
    pub regex: regex::Regex,
    pub root: String,
}

/// Where a search looks.
pub open spec fn root_of(workspace: Seq<char>, input: JsonView) -> Seq<char> {
    match input.str_field("path"@) {
        Some(sub) => joined(workspace, sub),
        None => workspace,
    }
}

/// The search a call asks for.
pub fn grep_request(workspace: &str, input: &Json) -> (r: Result<Search, ToolError>)
    ensures
        match r {
            Ok(s) => required(input@, "pattern"@) == Ok::<Seq<char>, ToolErrorView>(
                pattern_of(s.regex),
            ) && regex_error(pattern_of(s.regex)) is None && s.root@ == root_of(workspace@, input@),
            Err(e) => match required(input@, "pattern"@) {
                Err(missing) => e@ == missing,
                Ok(pattern) => regex_error(pattern) is Some && e@ == ToolErrorView::InvalidInput(
                    "bad regex: "@ + regex_error(pattern)->Some_0,
                ),
            },
        },
{
    let pattern = match required_str(input, "pattern") {
        Err(e) => {
            return Err(e);
        },
        Ok(pattern) => pattern,
    };
    let regex = match compile_regex(pattern) {
        Err(e) => {
            return Err(ToolError::InvalidInput("bad regex: ".to_owned().concat(e.as_str())));
        },
        Ok(regex) => regex,
    };
    let root = match input.str_field("path") {
        Some(sub) => join_path(workspace, sub),
        None => workspace.to_owned(),
    };
    Ok(Search { regex, root })
}

/// A hit in words.
pub open spec fn hit(display: Seq<char>, n: int, line: Seq<char>) -> Seq<char> {
    display + ":"@ + dec(n as nat) + ": "@ + trim_end(line)
}

/// The hits among a file's lines, by whether each line matches.
pub open spec fn hits_among(display: Seq<char>, ls: Seq<Seq<char>>, found: Seq<bool>) -> Seq<
    Seq<char>,
>
    decreases ls.len(),
{
    if ls.len() == 0 {
        Seq::empty()
    } else {
        let before = hits_among(display, ls.drop_last(), found);
        if found[ls.len() - 1] {
            before.push(hit(display, ls.len() as int, ls.last()))
        } else {
            before
        }
    }
}

/// Which lines a pattern is found in.
pub open spec fn found_in(pattern: Seq<char>, ls: Seq<Seq<char>>) -> Seq<bool> {
    ls.map_values(|l: Seq<char>| regex_finds(pattern, l))
}

/// Hits as they are kept: past the cap there are no more, and a note says so.
pub open spec fn capped(hits: Seq<Seq<char>>, what: Seq<char>) -> Seq<Seq<char>> {
    if hits.len() >= MAX_RESULTS {
        hits.take(MAX_RESULTS as int).push(
            "[... capped at "@ + dec(MAX_RESULTS as nat) + " "@ + what + " ...]"@,
        )
    } else {
        hits
    }
}

fn cap_note(what: &str) -> (r: String)
    ensures
        r@ == "[... capped at "@ + dec(MAX_RESULTS as nat) + " "@ + what@ + " ...]"@,
{
    let n = decimal(MAX_RESULTS as u64);
    "[... capped at ".to_owned().concat(n.as_str()).concat(" ").concat(what).concat(" ...]")
}

proof fn lemma_hits_grow(display: Seq<char>, ls: Seq<Seq<char>>, found: Seq<bool>, i: int)
    requires
        0 <= i <= ls.len(),
    ensures
        hits_among(display, ls.take(i), found).is_prefix_of(hits_among(display, ls, found)),
    decreases ls.len() - i,
{
    if i < ls.len() {
        lemma_hits_grow(display, ls, found, i + 1);
        assert(ls.take(i + 1).drop_last() =~= ls.take(i));
        let a = hits_among(display, ls.take(i), found);
        let b = hits_among(display, ls.take(i + 1), found);
        let c = hits_among(display, ls, found);
        assert(a.is_prefix_of(b));
        assert(a =~= b.take(a.len() as int));
        assert(b =~= c.take(b.len() as int));
        assert(a =~= c.take(a.len() as int));
    } else {
        assert(ls.take(i) =~= ls);
    }
}

/// Add a file's hits, given which of its lines match, and say whether the cap
/// was reached.
pub fn take_hits(hits: &mut Vec<String>, display: &str, ls: &Vec<String>, found: &Vec<bool>) -> (r:
    bool)
    requires
        old(hits)@.len() < MAX_RESULTS,
        found@.len() == ls@.len(),
    ensures
        ({
            let all = views(old(hits)@) + hits_among(display@, views(ls@), found@);
            views(final(hits)@) == capped(all, "matches"@) && r == (all.len() >= MAX_RESULTS)
        }),
        !r ==> final(hits)@.len() < MAX_RESULTS,
{
    let ghost start = views(hits@);
    let ghost lv = views(ls@);
    let mut i: usize = 0;
    proof {
        assert(views(hits@) =~= start + hits_among(display@, lv.take(0), found@));
    }
    while i < ls.len()
        invariant
            lv == views(ls@),
            start == views(old(hits)@),
            found@.len() == ls@.len(),
            i <= ls@.len(),
            views(hits@) == start + hits_among(display@, lv.take(i as int), found@),
            hits@.len() < MAX_RESULTS,
        decreases ls@.len() - i,
    {
        proof {
            lemma_step(lv, i as int);
            assert(lv[i as int] == ls@[i as int]@);
        }
        if found[i] {
            let n = decimal((i + 1) as u64);
            let line = trimmed_end(ls[i].as_str());
            let text = display.to_owned().concat(":").concat(n.as_str()).concat(": ").concat(
                line.as_str(),
            );
            let ghost before = hits@;
            let ghost tv = text@;
            hits.push(text);
            proof {
                assert(views(hits@) =~= views(before).push(tv));
                assert(views(hits@) =~= start + hits_among(display@, lv.take(i + 1), found@));
            }
            if hits.len() >= MAX_RESULTS {
                let ghost full = views(hits@);
                let ghost held = hits@;
                let note = cap_note("matches");
                let ghost nv = note@;
                hits.push(note);
                proof {
                    lemma_hits_grow(display@, lv, found@, i + 1);
                    let some = hits_among(display@, lv.take(i + 1), found@);
                    let every = hits_among(display@, lv, found@);
                    assert(some =~= every.take(some.len() as int));
                    assert(full =~= (start + every).take(MAX_RESULTS as int));
                    assert(views(hits@) =~= full.push(nv));
                }
                return true;
            }
        }
        i += 1;
    }
    proof {
        assert(lv.take(i as int) =~= lv);
        assert(views(hits@).len() == hits@.len());
    }
    false
}

/// Search one file, add its hits and say whether the cap was reached.
pub fn grep_file(re: &regex::Regex, hits: &mut Vec<String>, display: &str, text: &str) -> (r: bool)
    requires
        old(hits)@.len() < MAX_RESULTS,
    ensures
        ({
            let ls = lines(text@);
            let all = views(old(hits)@) + hits_among(
                display@,
                ls,
                found_in(pattern_of(*re), ls),
            );
            views(final(hits)@) == capped(all, "matches"@) && r == (all.len() >= MAX_RESULTS)
        }),
        !r ==> final(hits)@.len() < MAX_RESULTS,
{
    let ls = lines_of(text);
    let ghost lv = views(ls@);
    let mut found: Vec<bool> = Vec::new();
    let mut i: usize = 0;
    while i < ls.len()
        invariant
            lv == views(ls@),
            i <= ls@.len(),
            found@.len() == i,
            forall|j: int| 0 <= j < i ==> #[trigger] found@[j] == regex_finds(pattern_of(*re), lv[j]),
        decreases ls@.len() - i,
    {
        let b = finds(re, ls[i].as_str());
        proof {
            assert(lv[i as int] == ls@[i as int]@);
        }
        found.push(b);
        i += 1;
    }
    proof {
        assert(found@ =~= found_in(pattern_of(*re), lv));
    }
    take_hits(hits, display, &ls, &found)
}

/// Hits in words.
pub open spec fn hits_shown(hits: Seq<Seq<char>>) -> Seq<char> {
    if hits.len() == 0 {
        "no matches"@
    } else {
        join(hits, "\n"@)
    }
}

/// Hits in words.
pub fn show_hits(hits: &Vec<String>) -> (r: String)
    ensures
        r@ == hits_shown(views(hits@)),
{
    if hits.len() == 0 {
        "no matches".to_owned()
    } else {
        join_with(hits, "\n")
    }
}

// ── Glob ────────────────────────────────────────────────────────────────────

/// The glob a call asks for.
pub fn glob_request(input: &Json) -> (r: Result<globset::GlobSet, ToolError>)
    ensures
        match r {
            Ok(set) => required(input@, "pattern"@) == Ok::<Seq<char>, ToolErrorView>(glob_of(set))
                && glob_error(glob_of(set)) is None,
            Err(e) => match required(input@, "pattern"@) {
                Err(missing) => e@ == missing,
                Ok(pattern) => glob_error(pattern) is Some && e@ == ToolErrorView::InvalidInput(
                    "bad glob: "@ + glob_error(pattern)->Some_0,
                ),
            },
        },
{
    let pattern = match required_str(input, "pattern") {
        Err(e) => {
            return Err(e);
        },
        Ok(pattern) => pattern,
    };
    match compile_glob(pattern) {
        Err(e) => Err(ToolError::InvalidInput("bad glob: ".to_owned().concat(e.as_str()))),
        Ok(set) => Ok(set),
    }
}

/// Add a path that matched, and say whether the cap was reached.
pub fn take_path(hits: &mut Vec<String>, path: &str, matched: bool) -> (r: bool)
    requires
        old(hits)@.len() < MAX_RESULTS,
    ensures
        ({
            let all = if matched {
                views(old(hits)@).push(path@)
            } else {
                views(old(hits)@)
            };
            views(final(hits)@) == capped(all, "results"@) && r == (all.len() >= MAX_RESULTS)
        }),
        !r ==> final(hits)@.len() < MAX_RESULTS,
{
    let ghost start = hits@;
    proof {
        assert(views(start).len() == start.len());
    }
    if !matched {
        return false;
    }
    hits.push(path.to_owned());
    proof {
        assert(views(hits@) =~= views(start).push(path@));
    }
    if hits.len() < MAX_RESULTS {
        return false;
    }
    let ghost full = views(hits@);
    let note = cap_note("results");
    let ghost nv = note@;
    hits.push(note);
    proof {
        assert(full.take(MAX_RESULTS as int) =~= full);
        assert(views(hits@) =~= full.push(nv));
    }
    true
}

/// Hold one path against the glob, and say whether the cap was reached.
pub fn glob_path(set: &globset::GlobSet, hits: &mut Vec<String>, path: &str) -> (r: bool)
    requires
        old(hits)@.len() < MAX_RESULTS,
    ensures
        ({
            let all = if glob_finds(glob_of(*set), path@) {
                views(old(hits)@).push(path@)
            } else {
                views(old(hits)@)
            };
            views(final(hits)@) == capped(all, "results"@) && r == (all.len() >= MAX_RESULTS)
        }),
        !r ==> final(hits)@.len() < MAX_RESULTS,
{
    let matched = glob_matches(set, path);
    take_path(hits, path, matched)
}

/// The paths found in words, in order.
pub fn glob_result(hits: &Vec<String>) -> (r: String)
    ensures
        r@ == hits_shown(in_text_order(views(hits@))),
{
    let sorted = sort_texts(hits);
    show_hits(&sorted)
}

/// The paths found are shown in order, each as often as it was found.
pub proof fn law_glob_results_are_sorted(hits: Seq<Seq<char>>)
    ensures
        is_text_order(in_text_order(hits)),
        in_text_order(hits).to_multiset() == hits.to_multiset(),
{
    lemma_text_order(hits);
}

/// A search never shows more than the cap and its note.
pub proof fn law_hits_are_capped(hits: Seq<Seq<char>>, what: Seq<char>)
    ensures
        capped(hits, what).len() <= MAX_RESULTS + 1,
        hits.len() < MAX_RESULTS ==> capped(hits, what) == hits,
        forall|i: int|
            0 <= i < capped(hits, what).len() && i < MAX_RESULTS ==> #[trigger] capped(
                hits,
                what,
            )[i] == hits[i],
{
}

} // verus!
