//! What the tools make of their inputs and of what they find.
use vstd::prelude::*;
use vstd::string::*;

use super::{archive, ask, ast, bash, github, middle_cut, search, sqlite};
use super::{boundary_above, ToolErrorView};
use super::fs::{hashes_of, hashline, shown, window_end};
use super::fs_laws::shown_anchor;
use super::process::OutputView;
use super::read::{
    cannot, dir_shown, entry_lines, file_shown, listing_order, response_shown, target_of, write_of,
    wrote, DirEntryView, TargetView,
};
use crate::json::{JsonView, NumView};
use crate::llm::wire_laws::rank;
use crate::path::{joined, parent_of};
use crate::text::{
    boundary_below, byte_len, dec, dec_int, join, lemma_boundary_below, lines, trim, trim_end,
};

verus! {

// ── Reading ─────────────────────────────────────────────────────────────────

/// What is read is what `path` names: a URL as it is, anything else in the
/// workspace.
pub proof fn law_read_goes_where_asked(workspace: Seq<char>, input: JsonView, raw: Seq<char>)
    requires
        input.get("path"@) == Some(JsonView::Str(raw)),
    ensures
        "http://"@.is_prefix_of(raw) || "https://"@.is_prefix_of(raw) ==> target_of(
            workspace,
            input,
        ) == Ok::<TargetView, ToolErrorView>(TargetView::Url(raw)),
        !"http://"@.is_prefix_of(raw) && !"https://"@.is_prefix_of(raw) ==> target_of(
            workspace,
            input,
        ) == Ok::<TargetView, ToolErrorView>(
            TargetView::Path(joined(workspace, raw)),
        ),
{
}

/// What is written is the content that was given, at the path that was given.
pub proof fn law_write_is_as_asked(
    workspace: Seq<char>,
    input: JsonView,
    raw: Seq<char>,
    content: Seq<char>,
)
    requires
        input.get("path"@) == Some(JsonView::Str(raw)),
        input.get("content"@) == Some(JsonView::Str(content)),
    ensures
        ({
            let w = write_of(workspace, input);
            &&& w is Ok
            &&& w->Ok_0.path == joined(workspace, raw)
            &&& w->Ok_0.content == content
            &&& w->Ok_0.parent == parent_of(joined(workspace, raw))
        }),
{
}

/// A line is shown by its anchor and its content.
pub proof fn law_line_is_shown_by_its_anchor(ls: Seq<Seq<char>>, i: int)
    requires
        0 <= i < ls.len(),
    ensures
        shown(ls, hashes_of(ls), i, i + 1) == shown_anchor((i + 1) as nat, ls[i]) + "\t"@ + ls[i]
            + "\n"@,
{
    reveal_with_fuel(shown, 2);
    let line = shown_anchor((i + 1) as nat, ls[i]) + "\t"@ + ls[i] + "\n"@;
    assert(hashline(i + 1, hashes_of(ls)[i], ls[i]) =~= line);
    assert(Seq::<char>::empty() + line =~= line);
}

/// Windows side by side show what one window over both shows.
pub proof fn law_windows_join(ls: Seq<Seq<char>>, hashes: Seq<Seq<char>>, a: int, b: int, c: int)
    requires
        a <= b <= c,
    ensures
        shown(ls, hashes, a, b) + shown(ls, hashes, b, c) == shown(ls, hashes, a, c),
    decreases c - b,
{
    let left = shown(ls, hashes, a, b);
    if b == c {
        assert(left + Seq::<char>::empty() =~= left);
    } else {
        law_windows_join(ls, hashes, a, b, c - 1);
        let line = hashline(c, hashes[c - 1], ls[c - 1]);
        assert(left + (shown(ls, hashes, b, c - 1) + line) =~= (left + shown(
            ls,
            hashes,
            b,
            c - 1,
        )) + line);
    }
}

proof fn lemma_something_shown(ls: Seq<Seq<char>>, hashes: Seq<Seq<char>>, a: int, b: int)
    requires
        a < b,
    ensures
        shown(ls, hashes, a, b).len() > 0,
{
    reveal_strlit("\n");
    assert(hashline(b, hashes[b - 1], ls[b - 1]).len() > 0);
}

/// A read shows the lines from `offset` on, counted from one, and no more than
/// `limit` of them; all from the first, and all to the last, where they are not
/// given. Where there is no such line, it says how many there are.
pub proof fn law_read_shows_the_window(text: Seq<char>, input: JsonView, first: int, count: int)
    requires
        1 <= first,
        0 <= count,
        input.get("offset"@) == Some(JsonView::Num(NumView::Int(first))) || (input.get("offset"@)
            is None && first == 1),
        input.get("limit"@) == Some(JsonView::Num(NumView::Int(count))) || (input.get("limit"@)
            is None && count == u64::MAX),
        lines(text).len() <= u64::MAX,
    ensures
        ({
            let ls = lines(text);
            let last = if first - 1 + count < ls.len() {
                first - 1 + count
            } else {
                ls.len() as int
            };
            &&& first - 1 < last ==> file_shown(text, input) == middle_cut(
                shown(ls, hashes_of(ls), first - 1, last),
                262_144,
            )
            &&& first - 1 >= last ==> file_shown(text, input)
                == "(empty selection: file has "@ + dec(ls.len()) + " lines)"@
        }),
{
    let ls = lines(text);
    let end = window_end(ls.len() as int, first, count);
    if first - 1 < end {
        lemma_something_shown(ls, hashes_of(ls), first - 1, end);
    }
}

/// A page that was fetched is shown whole under what it answered; any other
/// answer is an error that names it.
pub proof fn law_page_is_shown(
    url: Seq<char>,
    code: int,
    status: Seq<char>,
    clipped: bool,
    body: Seq<char>,
)
    ensures
        response_shown(url, code, status, clipped, body) is Ok <==> 200 <= code < 300,
        200 <= code < 300 ==> response_shown(url, code, status, clipped, body)->Ok_0
            == middle_cut(
            "GET "@ + url + " → "@ + status + (if clipped {
                " (body clipped)"@
            } else {
                ""@
            }) + "\n\n"@ + body,
            262_144,
        ),
{
}

/// A directory is shown an entry a line: a directory by its name and a slash, a
/// file by its name and size.
pub proof fn law_directory_is_shown(es: Seq<DirEntryView>, e: DirEntryView)
    ensures
        entry_lines(es.push(e)) == entry_lines(es) + (if e.is_dir {
            "  "@ + e.name + "/\n"@
        } else {
            "  "@ + e.name + "  "@ + dec(e.size as nat) + " bytes\n"@
        }),
        entry_lines(Seq::empty()) == Seq::<char>::empty(),
{
    assert(es.push(e).drop_last() =~= es);
}

/// What is cut out of a long output is its middle: as much of the beginning and
/// of the end stays as fits, and the note counts the bytes that went.
pub proof fn law_middle_is_cut_out(s: Seq<char>, max: int)
    requires
        0 <= max < byte_len(s),
    ensures
        ({
            let h = boundary_below(s, max / 2);
            let t = boundary_above(s, byte_len(s) - max / 2, 0);
            &&& middle_cut(s, max) == s.take(h) + "\n\n[... output truncated: "@ + dec(
                (byte_len(s.take(t)) - byte_len(s.take(h))) as nat,
            ) + " of "@ + dec(byte_len(s)) + " bytes elided ...]\n\n"@ + s.skip(t)
            &&& 0 <= h <= s.len()
            &&& byte_len(s.take(h)) <= max / 2
            &&& h < s.len() ==> byte_len(s.take(h + 1)) > max / 2
            &&& 0 <= t <= s.len()
            &&& byte_len(s.take(t)) >= byte_len(s) - max / 2
            &&& t > 0 ==> byte_len(s.take(t - 1)) < byte_len(s) - max / 2
        }),
{
    lemma_boundary_below(s, max / 2);
    lemma_boundary_above(s, byte_len(s) - max / 2, 0);
}

proof fn lemma_boundary_above(s: Seq<char>, min: int, n: int)
    requires
        0 <= n <= s.len(),
        min <= byte_len(s),
        n > 0 ==> byte_len(s.take(n - 1)) < min,
    ensures
        n <= boundary_above(s, min, n) <= s.len(),
        byte_len(s.take(boundary_above(s, min, n))) >= min,
        boundary_above(s, min, n) > 0 ==> byte_len(s.take(boundary_above(s, min, n) - 1)) < min,
    decreases s.len() - n,
{
    if n >= s.len() {
        assert(s.take(n) =~= s);
    } else if byte_len(s.take(n)) < min {
        lemma_boundary_above(s, min, n + 1);
    }
}

// ── Searching ───────────────────────────────────────────────────────────────

/// A search looks where `path` says, in the workspace, or in all of it.
pub proof fn law_search_goes_where_asked(workspace: Seq<char>, input: JsonView, sub: Seq<char>)
    ensures
        input.get("path"@) is None ==> search::root_of(workspace, input) == workspace,
        input.get("path"@) == Some(JsonView::Str(sub)) ==> search::root_of(workspace, input)
            == joined(workspace, sub),
{
}

proof fn lemma_hits_count(display: Seq<char>, ls: Seq<Seq<char>>, found: Seq<bool>)
    requires
        found.len() >= ls.len(),
    ensures
        search::hits_among(display, ls, found).len() == rank(
            found,
            ls.len() as int,
            |b: bool| b,
        ),
    decreases ls.len(),
{
    if ls.len() > 0 {
        lemma_hits_count(display, ls.drop_last(), found);
    }
}

/// A search shows each line that matches and no other, in order: where it
/// stands, its number from one, and the line without the space at its end.
pub proof fn law_each_match_is_shown(
    display: Seq<char>,
    ls: Seq<Seq<char>>,
    found: Seq<bool>,
    k: int,
)
    requires
        found.len() == ls.len(),
        0 <= k < ls.len(),
        found[k],
    ensures
        ({
            let hits = search::hits_among(display, ls, found);
            let at = rank(found, k, |b: bool| b) as int;
            &&& hits.len() == rank(found, ls.len() as int, |b: bool| b)
            &&& 0 <= at < hits.len()
            &&& hits[at] == display + ":"@ + dec((k + 1) as nat) + ": "@ + trim_end(ls[k])
        }),
{
    lemma_hits_count(display, ls, found);
    lemma_match_at(display, ls, found, k);
}

proof fn lemma_match_at(display: Seq<char>, ls: Seq<Seq<char>>, found: Seq<bool>, k: int)
    requires
        found.len() >= ls.len(),
        0 <= k < ls.len(),
        found[k],
    ensures
        ({
            let hits = search::hits_among(display, ls, found);
            let at = rank(found, k, |b: bool| b) as int;
            &&& 0 <= at < hits.len()
            &&& hits[at] == display + ":"@ + dec((k + 1) as nat) + ": "@ + trim_end(ls[k])
        }),
    decreases ls.len(),
{
    let front = ls.drop_last();
    lemma_hits_count(display, front, found);
    if k < front.len() {
        assert(front[k] == ls[k]);
        lemma_match_at(display, front, found, k);
    }
}

/// Whether a line matches is what the pattern finds in it.
pub proof fn law_lines_are_searched_by_the_pattern(pattern: Seq<char>, ls: Seq<Seq<char>>, k: int)
    requires
        0 <= k < ls.len(),
    ensures
        search::found_in(pattern, ls).len() == ls.len(),
        search::found_in(pattern, ls)[k] == search::regex_finds(pattern, ls[k]),
{
}

/// Hits are shown one below the other; where there are none, that is said.
pub proof fn law_hits_are_shown(hits: Seq<Seq<char>>, h: Seq<char>)
    ensures
        search::hits_shown(Seq::empty()) == "no matches"@,
        search::hits_shown(seq![h]) == h,
        hits.len() > 0 ==> search::hits_shown(hits.push(h)) == search::hits_shown(hits) + "\n"@ + h,
{
    assert(hits.push(h).drop_last() =~= hits);
}

// ── Commands ────────────────────────────────────────────────────────────────

/// A command has the time it asks for, ten minutes at most, and two where it
/// does not ask.
pub proof fn law_command_time(input: JsonView, n: int)
    ensures
        input.get("timeout_seconds"@) is None ==> bash::timeout_of(input) == 120,
        input.get("timeout_seconds"@) == Some(JsonView::Num(NumView::Int(n))) && 0 <= n <= 600
            ==> bash::timeout_of(input) == n,
        input.get("timeout_seconds"@) == Some(JsonView::Num(NumView::Int(n))) && n > 600
            ==> bash::timeout_of(input) == 600,
{
}

/// What a command printed is what it printed: its output, and below it, marked,
/// its errors where they say anything.
pub proof fn law_command_prints(out: OutputView)
    ensures
        trim(out.stderr).len() == 0 ==> bash::printed(out) == out.stdout,
        trim(out.stderr).len() > 0 && out.stdout.len() == 0 ==> bash::printed(out)
            == "[stderr]\n"@ + out.stderr,
        trim(out.stderr).len() > 0 && out.stdout.len() > 0 ==> bash::printed(out) == out.stdout
            + seq!['\n'] + "[stderr]\n"@ + out.stderr,
{
    let head = out.stdout.push('\n') + "[stderr]\n"@ + out.stderr;
    assert(head =~= out.stdout + seq!['\n'] + "[stderr]\n"@ + out.stderr);
    if out.stdout.len() == 0 {
        assert(out.stdout + "[stderr]\n"@ + out.stderr =~= "[stderr]\n"@ + out.stderr);
    }
}

/// A command succeeds just where its process did. What it printed is shown
/// either way, under the exit status where it failed.
pub proof fn law_command_result(out: OutputView)
    ensures
        ({
            let r = bash::command_result(out);
            let text = middle_cut(bash::printed(out), 100_000);
            &&& r is Ok <==> out.success
            &&& out.success && text.len() > 0 ==> r->Ok_0 == text
            &&& out.success && text.len() == 0 ==> r->Ok_0 == "(no output)"@
            &&& !out.success ==> r == Err::<Seq<char>, ToolErrorView>(
                ToolErrorView::Failed(
                    "exit status "@ + dec_int(
                        match out.code {
                            Some(c) => c as int,
                            None => -1,
                        },
                    ) + "\n"@ + text,
                ),
            )
        }),
{
}

proof fn lemma_verbs_differ()
    ensures
        "api"@ != "search"@,
{
    reveal_strlit("api");
    reveal_strlit("search");
    assert("api"@.len() != "search"@.len());
}

/// A `gh` call runs beside others just where it only reads: a search, or one of
/// the reading verbs of anything but the raw api.
pub proof fn law_reading_calls_run_beside(args: Seq<Seq<char>>)
    ensures
        args.len() == 0 ==> !github::only_reads(args),
        args.len() > 0 && args[0] == "api"@ ==> !github::only_reads(args),
        args.len() > 0 && args[0] == "search"@ ==> github::only_reads(args),
        args.len() == 1 && args[0] != "search"@ ==> !github::only_reads(args),
        args.len() > 1 && args[0] != "api"@ && args[0] != "search"@ ==> github::only_reads(args)
            == (args[1] == "view"@ || args[1] == "list"@ || args[1] == "diff"@ || args[1]
            == "checks"@ || args[1] == "status"@),
{
    lemma_verbs_differ();
}

/// A `gh` call succeeds just where its process did: it answers what was printed,
/// or what was said where nothing was printed; a failure names the call and the
/// status and holds what was said.
pub proof fn law_gh_result(args: Seq<Seq<char>>, out: OutputView)
    ensures
        ({
            let r = github::gh_result(args, out);
            &&& r is Ok <==> out.success
            &&& out.success && trim(out.stdout).len() > 0 ==> r->Ok_0 == middle_cut(
                out.stdout,
                100_000,
            )
            &&& out.success && trim(out.stdout).len() == 0 && trim(out.stderr).len() > 0
                ==> r->Ok_0 == middle_cut(out.stderr, 100_000)
            &&& out.success && trim(out.stdout).len() == 0 && trim(out.stderr).len() == 0
                ==> r->Ok_0 == "(no output)"@
            &&& !out.success ==> r == Err::<Seq<char>, ToolErrorView>(
                ToolErrorView::Failed(
                    "gh "@ + join(args, " "@) + " exited with "@ + dec_int(
                        match out.code {
                            Some(c) => c as int,
                            None => -1,
                        },
                    ) + ":\n"@ + middle_cut(trim(out.stderr) + trim(out.stdout), 4000),
                ),
            )
        }),
{
}

// ── Asking ──────────────────────────────────────────────────────────────────

/// A question without options is asked as it is; options stand below it, each
/// with its number, from one, in order.
pub proof fn law_options_are_numbered(
    question: Seq<char>,
    options: Seq<Seq<char>>,
    o: Seq<char>,
)
    ensures
        ask::question_shown(question, Seq::empty()) == question,
        options.len() > 0 ==> ask::question_shown(question, options) == question
            + ask::option_lines(options) + "\nReply with a number or free text."@,
        ask::option_lines(options.push(o)) == ask::option_lines(options) + ("\n  "@ + dec(
            options.len() + 1,
        ) + ". "@ + o),
        ask::option_lines(Seq::empty()) == Seq::<char>::empty(),
{
    assert(options.push(o).drop_last() =~= options);
}

/// A reply is taken without the space around it; one that says nothing is an
/// error, and one that names no option stands for itself.
pub proof fn law_reply_is_taken(reply: Seq<char>, options: Seq<Seq<char>>)
    ensures
        trim(reply).len() == 0 ==> ask::reply_result(reply, options) is Err,
        trim(reply).len() > 0 ==> ask::reply_result(reply, options) is Ok,
        trim(reply).len() > 0 && crate::text::number_of(trim(reply)) is None ==> ask::reply_result(
            reply,
            options,
        )->Ok_0 == trim(reply),
        trim(reply).len() > 0 && options.len() == 0 ==> ask::reply_result(reply, options)->Ok_0
            == trim(reply),
{
}

// ── Structural search ───────────────────────────────────────────────────────

/// A structural search runs the pattern it is given, in the language and place
/// it is given, the workspace where none is.
pub proof fn law_structural_search_is_as_asked(
    input: JsonView,
    pattern: Seq<char>,
    lang: Seq<char>,
    path: Seq<char>,
)
    requires
        input.get("pattern"@) == Some(JsonView::Str(pattern)),
    ensures
        ({
            let args = ast::grep_command(input);
            let place = if input.get("path"@) == Some(JsonView::Str(path)) {
                path
            } else {
                "."@
            };
            &&& args is Ok
            &&& (input.get("path"@) is None || input.get("path"@) == Some(JsonView::Str(path))) ==> {
                &&& input.get("lang"@) is None ==> args->Ok_0 == seq![
                    "run"@,
                    "--pattern"@,
                    pattern,
                    "--json=stream"@,
                    place,
                ]
                &&& input.get("lang"@) == Some(JsonView::Str(lang)) ==> args->Ok_0 == seq![
                    "run"@,
                    "--pattern"@,
                    pattern,
                    "--lang"@,
                    lang,
                    "--json=stream"@,
                    place,
                ]
            }
        }),
{
    let place = ast::path_of(input);
    assert(seq!["run"@, "--pattern"@, pattern] + seq!["--json=stream"@, place] =~= seq![
        "run"@,
        "--pattern"@,
        pattern,
        "--json=stream"@,
        place,
    ]);
    assert(seq!["run"@, "--pattern"@, pattern] + seq!["--lang"@, lang] + seq![
        "--json=stream"@,
        place,
    ] =~= seq!["run"@, "--pattern"@, pattern, "--lang"@, lang, "--json=stream"@, place]);
}

/// A structural edit rewrites as it is told, and writes just where `apply` is
/// the boolean true.
pub proof fn law_structural_edit_is_as_asked(
    input: JsonView,
    pattern: Seq<char>,
    rewrite: Seq<char>,
    path: Seq<char>,
)
    requires
        input.get("pattern"@) == Some(JsonView::Str(pattern)),
        input.get("rewrite"@) == Some(JsonView::Str(rewrite)),
        input.get("lang"@) is None,
        input.get("path"@) == Some(JsonView::Str(path)),
    ensures
        ast::edit_command(input) is Ok,
        input.get("apply"@) == Some(JsonView::Bool(true)) ==> ast::edit_command(input)->Ok_0
            == seq!["run"@, "--pattern"@, pattern, "--rewrite"@, rewrite, "--update-all"@, path],
        input.get("apply"@) != Some(JsonView::Bool(true)) ==> ast::edit_command(input)->Ok_0
            == seq!["run"@, "--pattern"@, pattern, "--rewrite"@, rewrite, path],
{
    let base = seq!["run"@, "--pattern"@, pattern] + seq!["--rewrite"@, rewrite];
    assert(base.push(path) =~= seq!["run"@, "--pattern"@, pattern, "--rewrite"@, rewrite, path]);
    assert(base.push("--update-all"@).push(path) =~= seq![
        "run"@,
        "--pattern"@,
        pattern,
        "--rewrite"@,
        rewrite,
        "--update-all"@,
        path,
    ]);
}

/// Each match that the program reports is listed; a line that is no report is
/// passed over.
pub proof fn law_each_report_is_listed(ls: Seq<Seq<char>>, line: Seq<char>)
    ensures
        crate::json::json_of(line) matches Ok(m) ==> ast::matches_in(ls.push(line))
            == ast::matches_in(ls).push(ast::match_shown(m)),
        crate::json::json_of(line) is Err ==> ast::matches_in(ls.push(line)) == ast::matches_in(ls),
        ast::matches_in(Seq::empty()).len() == 0,
{
    assert(ls.push(line).drop_last() =~= ls);
}

/// A match is shown by its file, its line from one, and the first line of its
/// text.
pub proof fn law_match_is_shown(
    m: JsonView,
    range: JsonView,
    start: JsonView,
    file: Seq<char>,
    text: Seq<char>,
    line: int,
)
    requires
        m.get("file"@) == Some(JsonView::Str(file)),
        m.get("text"@) == Some(JsonView::Str(text)),
        m.get("range"@) == Some(range),
        range.get("start"@) == Some(start),
        start.get("line"@) == Some(JsonView::Num(NumView::Int(line))),
        0 <= line,
    ensures
        !text.contains('\n') ==> ast::match_shown(m) == file + ":"@ + dec((line + 1) as nat)
            + "\t"@ + text + ""@,
        forall|k: int|
            0 <= k < text.len() && #[trigger] text[k] == '\n' && (forall|j: int|
                0 <= j < k ==> #[trigger] text[j] != '\n') ==> ast::match_shown(m) == file + ":"@
                + dec((line + 1) as nat) + "\t"@ + text.take(k) + " …"@,
{
    crate::text::lemma_find_from(text, '\n', 0);
    let at = crate::text::find_from(text, '\n', 0);
    if !text.contains('\n') {
        assert(at == text.len());
        assert(text.take(at) =~= text);
    }
    assert forall|k: int|
        0 <= k < text.len() && #[trigger] text[k] == '\n' && (forall|j: int|
            0 <= j < k ==> #[trigger] text[j] != '\n') implies ast::match_shown(m) == file + ":"@
        + dec((line + 1) as nat) + "\t"@ + text.take(k) + " …"@ by {
        assert(at == k);
    }
}

/// An edit that wrote nothing says so; a preview shows all that would be
/// written; an edit that failed is an error.
pub proof fn law_structural_edit_is_told(program: Seq<char>, apply: bool, out: OutputView)
    ensures
        ast::edit_shown(program, apply, out) is Ok <==> out.success,
        ast::grep_shown(program, out) is Ok <==> out.success,
        out.success && !apply && trim(out.stdout).len() > 0 ==> ast::edit_shown(
            program,
            apply,
            out,
        )->Ok_0 == middle_cut(
            "preview only — nothing written; call again with `apply: true` to write this:\n\n"@
                + out.stdout,
            100_000,
        ),
        out.success && apply && trim(
            trim(out.stdout) + "\n"@ + trim(out.stderr),
        ).len() > 0 ==> ast::edit_shown(program, apply, out)->Ok_0 == middle_cut(
            trim(trim(out.stdout) + "\n"@ + trim(out.stderr)),
            100_000,
        ),
{
}

// ── Databases ───────────────────────────────────────────────────────────────

/// A row is shown cell by cell, with a tab between; a value as it is, a missing
/// one as `NULL`, bytes by their number.
pub proof fn law_row_is_shown(cells: Seq<sqlite::CellView>, c: sqlite::CellView)
    ensures
        cells.len() > 0 ==> sqlite::row_text(cells.push(c)) == sqlite::row_text(cells) + "\t"@
            + sqlite::cell_text(c),
        sqlite::row_text(seq![c]) == sqlite::cell_text(c),
        c matches sqlite::CellView::Text(t) ==> sqlite::cell_text(c) == t,
        c matches sqlite::CellView::Integer(n) ==> sqlite::cell_text(c) == dec_int(n),
        c matches sqlite::CellView::Null ==> sqlite::cell_text(c) == "NULL"@,
        c matches sqlite::CellView::Blob(n) ==> sqlite::cell_text(c) == "<blob "@ + dec(n as nat)
            + " bytes>"@,
{
    let f = |c: sqlite::CellView| sqlite::cell_text(c);
    assert(cells.push(c).map_values(f).drop_last() =~= cells.map_values(f));
    assert(cells.push(c).map_values(f).last() == sqlite::cell_text(c));
}

/// Every row is counted, and the first two hundred are shown.
pub proof fn law_rows_are_counted(a: sqlite::AnswerView, row: Seq<sqlite::CellView>)
    ensures
        a.after(row).total == a.total + 1,
        a.total < 200 ==> a.after(row).lines == a.lines.push(sqlite::row_text(row)),
        a.total >= 200 ==> a.after(row).lines == a.lines,
        a.total <= 200 ==> a.words() == middle_cut(
            dec(a.total as nat) + " row(s):\n"@ + join(a.lines, "\n"@),
            100_000,
        ),
{
}

/// A table is shown by its name, its number of rows and its columns.
pub proof fn law_table_is_shown(ts: Seq<sqlite::TableView>, t: sqlite::TableView)
    ensures
        sqlite::table_lines(ts.push(t)) == sqlite::table_lines(ts) + ("  "@ + t.name + " ("@
            + dec_int(t.rows) + " rows): "@ + join(t.columns, ", "@) + "\n"@),
        sqlite::table_lines(Seq::empty()) == Seq::<char>::empty(),
{
    assert(ts.push(t).drop_last() =~= ts);
}

// ── Archives ────────────────────────────────────────────────────────────────

/// An archive is shown an entry a line: a directory with a slash at its end, a
/// file with its size.
pub proof fn law_archive_is_shown(es: Seq<archive::EntryView>, e: archive::EntryView)
    ensures
        archive::entry_lines(es.push(e)) == archive::entry_lines(es) + archive::entry_line(e),
        archive::entry_lines(Seq::empty()) == Seq::<char>::empty(),
        !e.is_dir ==> archive::entry_line(e) == "  "@ + e.name + "  "@ + dec(e.size as nat)
            + " bytes\n"@,
        e.is_dir && "/"@.is_suffix_of(e.name) ==> archive::entry_line(e) == "  "@ + e.name + "\n"@,
        e.is_dir && !"/"@.is_suffix_of(e.name) ==> archive::entry_line(e) == "  "@ + (e.name
            + "/"@) + "\n"@,
{
    assert(es.push(e).drop_last() =~= es);
}

/// An archive's listing names what it is, counts all its entries, and shows the
/// first thousand.
pub proof fn law_archive_listing(path: Seq<char>, kind: archive::Kind, es: Seq<archive::EntryView>)
    ensures
        ({
            let name = match kind {
                archive::Kind::Zip => "zip"@,
                archive::Kind::Tar => "tar"@,
                archive::Kind::TarGz => "tar.gz"@,
            };
            let head = name + " archive "@ + path + " ("@ + dec(es.len())
                + " entries) — pass `entry` to read one:\n"@;
            &&& es.len() == 0 ==> archive::listing(path, kind, es) == "(empty "@ + name
                + " archive "@ + path + ")"@
            &&& 0 < es.len() <= 1_000 ==> archive::listing(path, kind, es) == head
                + archive::entry_lines(es)
            &&& es.len() > 1_000 ==> archive::listing(path, kind, es) == head
                + archive::entry_lines(es.take(1_000)) + ("[listed the first "@ + dec(1_000)
                + "]\n"@)
        }),
{
}

/// An archive is told by how it begins.
pub proof fn law_archive_is_told_by_its_beginning(head: Seq<u8>)
    requires
        head.len() >= 4,
    ensures
        archive::kind_of(head) == Some(archive::Kind::Zip) <==> head[0] == 0x50 && head[1] == 0x4b
            && ((head[2] == 3 && head[3] == 4) || (head[2] == 5 && head[3] == 6)),
        archive::kind_of(head) == Some(archive::Kind::TarGz) <==> head[0] == 0x1f && head[1]
            == 0x8b,
        archive::kind_of(head) == Some(archive::Kind::Tar) ==> head.len() >= 262 && head[257]
            == 0x75 && head[258] == 0x73 && head[259] == 0x74 && head[260] == 0x61 && head[261]
            == 0x72,
{
    let a = seq![0x50u8, 0x4bu8, 0x03u8, 0x04u8];
    let b = seq![0x50u8, 0x4bu8, 0x05u8, 0x06u8];
    let c = seq![0x1fu8, 0x8bu8];
    let d = seq![0x75u8, 0x73u8, 0x74u8, 0x61u8, 0x72u8];
    assert(a.is_prefix_of(head) <==> a =~= head.subrange(0, 4));
    assert(b.is_prefix_of(head) <==> b =~= head.subrange(0, 4));
    assert(c.is_prefix_of(head) <==> c =~= head.subrange(0, 2));
    assert(head.subrange(0, 4)[0] == head[0] && head.subrange(0, 4)[1] == head[1]
        && head.subrange(0, 4)[2] == head[2] && head.subrange(0, 4)[3] == head[3]);
    assert(head.subrange(0, 2)[0] == head[0] && head.subrange(0, 2)[1] == head[1]);
    assert(a[0] == 0x50 && a[1] == 0x4b && a[2] == 3 && a[3] == 4);
    assert(b[0] == 0x50 && b[1] == 0x4b && b[2] == 5 && b[3] == 6);
    assert(c[0] == 0x1f && c[1] == 0x8b);
    if head.len() >= 262 && head.subrange(257, 262) == d {
        let x = head.subrange(257, 262);
        assert(x[0] == head[257] && x[1] == head[258] && x[2] == head[259] && x[3] == head[260]
            && x[4] == head[261]);
        assert(d[0] == 0x75 && d[1] == 0x73 && d[2] == 0x74 && d[3] == 0x61 && d[4] == 0x72);
    }
}

/// An entry is looked for by its whole name, and the first that has it is found;
/// an entry that cannot be read before it ends the search.
pub proof fn law_entry_is_found_by_name(
    ms: Seq<Result<archive::EntryView, Seq<char>>>,
    entry: Seq<char>,
    k: int,
)
    requires
        0 <= k < ms.len(),
        ms[k] matches Ok(e) && e.name == entry,
        forall|j: int|
            0 <= j < k ==> (#[trigger] ms[j]) is Ok && ms[j]->Ok_0.name != entry,
    ensures
        archive::place_of(Ok(ms), entry) == Some(Ok::<int, Seq<char>>(k)),
{
    lemma_stop_at(ms, entry, 0, k);
}

proof fn lemma_stop_at(
    ms: Seq<Result<archive::EntryView, Seq<char>>>,
    entry: Seq<char>,
    from: int,
    k: int,
)
    requires
        0 <= from <= k < ms.len(),
        ms[k] matches Ok(e) && e.name == entry,
        forall|j: int|
            0 <= j < k ==> (#[trigger] ms[j]) is Ok && ms[j]->Ok_0.name != entry,
    ensures
        archive::stop_at(ms, entry, from) == Some(k),
    decreases k - from,
{
    if from < k {
        assert(ms[from] is Ok);
        lemma_stop_at(ms, entry, from + 1, k);
    }
}

/// What an entry holds is handed out whole up to the cap, and beyond it cut
/// there and said to be cut.
pub proof fn law_entry_is_handed_out(
    path: Seq<char>,
    entry: Seq<char>,
    bytes: Seq<u8>,
    why: Seq<char>,
)
    ensures
        bytes.len() <= 262_144 ==> archive::capped(path, entry, Some(Ok(bytes))) == Ok::<
            (Seq<u8>, bool),
            ToolErrorView,
        >((bytes, false)),
        bytes.len() > 262_144 ==> archive::capped(path, entry, Some(Ok(bytes))) == Ok::<
            (Seq<u8>, bool),
            ToolErrorView,
        >((bytes.take(262_144), true)),
        archive::capped(path, entry, None) is Err,
        archive::capped(path, entry, Some(Err(why))) is Err,
{
}

/// A listing of a directory counts its entries and shows them in order.
pub proof fn law_directory_listing(path: Seq<char>, es: Seq<DirEntryView>)
    ensures
        dir_shown(path, Seq::empty()) == "(empty directory "@ + path + ")"@,
        es.len() > 0 ==> dir_shown(path, es) == middle_cut(
            "directory "@ + path + " ("@ + dec(es.len()) + " entries):\n"@ + entry_lines(
                listing_order(es),
            ),
            262_144,
        ),
{
}

/// A database is shown by its tables, counted.
pub proof fn law_schema_is_shown(path: Seq<char>, ts: Seq<sqlite::TableView>)
    ensures
        sqlite::schema_shown(path, Seq::empty()) == "SQLite database "@ + path + " (no tables)"@,
        ts.len() > 0 ==> sqlite::schema_shown(path, ts) == middle_cut(
            "SQLite database "@ + path + " ("@ + dec(ts.len())
                + " table(s)) — pass `query` to run read-only SQL:\n"@ + sqlite::table_lines(ts),
            100_000,
        ),
{
}

/// What was written is told by its bytes and its path; what failed by its words.
pub proof fn law_tools_say_what_happened(
    path: Seq<char>,
    content: Seq<char>,
    verb: Seq<char>,
    why: Seq<char>,
    secs: u64,
)
    ensures
        wrote(path, content) == "wrote "@ + dec(byte_len(content)) + " bytes to "@ + path,
        cannot(verb, path, why).words() == "cannot "@ + verb + " "@ + path + ": "@ + why,
        ToolErrorView::InvalidInput(why).words() == "invalid input: "@ + why,
        ToolErrorView::Failed(why).words() == why,
        ToolErrorView::Timeout(secs).words() == "timed out after "@ + dec(secs as nat)
            + " seconds"@,
{
}

/// Matches are counted all and shown up to two hundred, one below the other.
pub proof fn law_matches_are_listed(matches: Seq<Seq<char>>)
    ensures
        ast::listing(Seq::empty()) == "no matches"@,
        0 < matches.len() <= 200 ==> ast::listing(matches) == middle_cut(
            dec(matches.len()) + " match(es):\n"@ + join(matches, "\n"@),
            100_000,
        ),
        matches.len() > 200 ==> ast::listing(matches) == middle_cut(
            dec(matches.len()) + " match(es):\n"@ + join(matches.take(200), "\n"@)
                + "\n[stopped at "@ + dec(200) + " matches]"@,
            100_000,
        ),
{
}

/// An archive whose entries can all be read is listed with all of them, in
/// order; one that cannot be read fails it.
pub proof fn law_archive_lists_what_can_be_read(
    path: Seq<char>,
    kind: archive::Kind,
    es: Seq<archive::EntryView>,
    why: Seq<char>,
)
    ensures
        archive::listed(
            path,
            kind,
            Ok(es.map_values(|e: archive::EntryView| Ok::<archive::EntryView, Seq<char>>(e))),
        ) == Ok::<Seq<char>, ToolErrorView>(archive::listing(path, kind, es)),
        archive::listed(path, kind, Err(why)) == Err::<Seq<char>, ToolErrorView>(
            ToolErrorView::Failed("archive "@ + path + ": "@ + why),
        ),
        archive::listed(
            path,
            kind,
            Ok(
                es.map_values(
                    |e: archive::EntryView| Ok::<archive::EntryView, Seq<char>>(e),
                ).push(Err(why)),
            ),
        ) == Err::<Seq<char>, ToolErrorView>(
            ToolErrorView::Failed("archive "@ + path + ": "@ + why),
        ),
{
    lemma_all_readable(es);
    let ms = es.map_values(|e: archive::EntryView| Ok::<archive::EntryView, Seq<char>>(e));
    assert(ms.push(Err(why)).drop_last() =~= ms);
}

proof fn lemma_all_readable(es: Seq<archive::EntryView>)
    ensures
        archive::readable(
            es.map_values(|e: archive::EntryView| Ok::<archive::EntryView, Seq<char>>(e)),
        ) == Ok::<Seq<archive::EntryView>, Seq<char>>(es),
    decreases es.len(),
{
    let f = |e: archive::EntryView| Ok::<archive::EntryView, Seq<char>>(e);
    if es.len() == 0 {
        assert(es =~= Seq::<archive::EntryView>::empty());
    } else {
        lemma_all_readable(es.drop_last());
        assert(es.map_values(f).drop_last() =~= es.drop_last().map_values(f));
        assert(es.drop_last().push(es.last()) =~= es);
    }
}

/// What is refused is refused in words that say why.
pub proof fn law_refusals_say_why(
    path: Seq<char>,
    entry: Seq<char>,
    key: Seq<char>,
    raw: Seq<char>,
    program: Seq<char>,
    out: OutputView,
)
    ensures
        super::missing_field(key) == ToolErrorView::InvalidInput(
            "missing required string field `"@ + key + "`"@,
        ),
        super::write_refused(path) == ToolErrorView::Failed(
            "sandbox: writing outside the workspace is not permitted: "@ + path,
        ),
        archive::miss(path, entry) == ToolErrorView::InvalidInput(
            "no entry `"@ + entry + "` in "@ + path
                + " — read the archive without `entry` to list them"@,
        ),
        super::fs::bad_anchor(raw) == ToolErrorView::InvalidInput(
            "bad anchor `"@ + raw
                + "` — use the `line#hash` token from read_file (or \"0\" with insert_after for the top of the file)"@,
        ),
        ast::exit_failure(program, out) == ToolErrorView::Failed(
            program + " exited with "@ + dec_int(
                match out.code {
                    Some(c) => c as int,
                    None => -1,
                },
            ) + ":\n"@ + middle_cut(out.stderr, 2000),
        ),
{
}

} // verus!
