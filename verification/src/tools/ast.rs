//! Structural code search and rewrite, by way of the `ast-grep` command.
//!
//! Two tools share one adapter: `ast_grep` finds pattern matches as
//! `file:line` results, `ast_edit` rewrites them — previewing by default and
//! applying only on `apply: true`, so the model sees the diff before anything
//! changes on disk.
use vstd::prelude::*;
use vstd::string::*;

use super::{
    middle_cut, required, required_str, tool_outcome, truncate_middle, Tool, ToolError,
    ToolErrorView,
};
use super::catalog::{self, ast_edit_offer, ast_grep_offer};
use super::process::{exit_code, shown_code, Output, OutputView};
use crate::json::{json_of, parse, Json, JsonView};
use crate::llm::{ToolSpec, ToolSpecView};
use crate::text::{
    chars_of, dec, decimal, decimal_wide, find, find_from, join, join_with, lemma_find_from,
    lemma_step, lines, lines_of, opt_view, slice, starts_with, trim, trimmed, views,
};

verus! {

pub const TIMEOUT_SECS: u64 = 120;

pub const MAX_MATCHES: usize = 200;

pub const MAX_OUTPUT_BYTES: usize = 100_000;

// ── The binary ──────────────────────────────────────────────────────────────

/// The programs to try, in order.
pub open spec fn programs(explicit: Option<Seq<char>>) -> Seq<Seq<char>> {
    match explicit {
        Some(p) => seq![p],
        None => seq!["ast-grep"@, "sg"@],
    }
}

/// The programs to try, in order: an explicit one, else `ast-grep` or `sg`.
fn candidates(explicit: &Option<String>) -> (r: Vec<String>)
    ensures
        views(r@) == programs(opt_view(*explicit)),
{
    let mut out: Vec<String> = Vec::new();
    match explicit {
        Some(p) => {
            let ghost pv = p@;
            out.push(p.clone());
            proof {
                assert(views(out@) =~= seq![pv]);
            }
        },
        None => {
            out.push("ast-grep".to_owned());
            out.push("sg".to_owned());
            proof {
                assert(views(out@) =~= seq!["ast-grep"@, "sg"@]);
            }
        },
    }
    out
}

/// Whether a program is ast-grep, by what it says of its version: `sg` is also
/// the Unix shell-group utility.
pub fn is_ast_grep(success: bool, stdout: &str) -> (r: bool)
    ensures
        r == (success && "ast-grep"@.is_prefix_of(stdout@)),
{
    success && starts_with(stdout, "ast-grep")
}

/// What a search without a binary says.
pub fn no_binary(tried: &Vec<String>) -> (r: ToolError)
    ensures
        r@ == ToolErrorView::Failed(
            "no ast-grep binary found (tried "@ + join(views(tried@), ", "@)
                + ") — install it from https://ast-grep.github.io (e.g. `cargo install \
                    ast-grep`) to use structural search"@,
        ),
{
    let names = join_with(tried, ", ");
    ToolError::Failed(
        "no ast-grep binary found (tried ".to_owned().concat(names.as_str()).concat(
            ") — install it from https://ast-grep.github.io (e.g. `cargo install ast-grep`) to \
                use structural search",
        ),
    )
}

// ── Arguments ───────────────────────────────────────────────────────────────

/// The arguments both tools share.
pub open spec fn shared_args(pattern: Seq<char>, lang: Option<Seq<char>>) -> Seq<Seq<char>> {
    let base = seq!["run"@, "--pattern"@, pattern];
    match lang {
        Some(l) => base + seq!["--lang"@, l],
        None => base,
    }
}

/// Where to search; the workspace root where nothing is said.
pub open spec fn path_of(input: JsonView) -> Seq<char> {
    match input.str_field("path"@) {
        Some(p) => p,
        None => "."@,
    }
}

/// The arguments of a search.
pub open spec fn grep_command(input: JsonView) -> Result<Seq<Seq<char>>, ToolErrorView> {
    match required(input, "pattern"@) {
        Err(e) => Err(e),
        Ok(pattern) => Ok(
            shared_args(pattern, input.str_field("lang"@)) + seq!["--json=stream"@, path_of(input)],
        ),
    }
}

/// Whether a rewrite is to be written.
pub open spec fn applies(input: JsonView) -> bool {
    input.bool_field("apply"@) == Some(true)
}

/// The arguments of a rewrite.
pub open spec fn edit_command(input: JsonView) -> Result<Seq<Seq<char>>, ToolErrorView> {
    match required(input, "rewrite"@) {
        Err(e) => Err(e),
        Ok(rewrite) => match required(input, "pattern"@) {
            Err(e) => Err(e),
            Ok(pattern) => {
                let base = shared_args(pattern, input.str_field("lang"@)) + seq![
                    "--rewrite"@,
                    rewrite,
                ];
                let mode = if applies(input) {
                    base.push("--update-all"@)
                } else {
                    base
                };
                Ok(mode.push(path_of(input)))
            },
        },
    }
}

fn push(args: &mut Vec<String>, arg: &str)
    ensures
        views(final(args)@) == views(old(args)@).push(arg@),
{
    let ghost before = args@;
    args.push(arg.to_owned());
    proof {
        assert(views(args@) =~= views(before).push(arg@));
    }
}

fn common_args(input: &Json) -> (r: Result<Vec<String>, ToolError>)
    ensures
        match r {
            Ok(v) => required(input@, "pattern"@) is Ok && views(v@) == shared_args(
                required(input@, "pattern"@)->Ok_0,
                input@.str_field("lang"@),
            ),
            Err(e) => required(input@, "pattern"@) == Err::<Seq<char>, ToolErrorView>(e@),
        },
{
    let pattern = match required_str(input, "pattern") {
        Err(e) => {
            return Err(e);
        },
        Ok(pattern) => pattern,
    };
    let mut args: Vec<String> = Vec::new();
    push(&mut args, "run");
    push(&mut args, "--pattern");
    push(&mut args, pattern);
    proof {
        assert(views(args@) =~= seq!["run"@, "--pattern"@, pattern@]);
    }
    if let Some(lang) = input.str_field("lang") {
        let ghost before = views(args@);
        push(&mut args, "--lang");
        push(&mut args, lang);
        proof {
            assert(views(args@) =~= before + seq!["--lang"@, lang@]);
        }
    }
    Ok(args)
}

fn search_path(input: &Json) -> (r: &str)
    ensures
        r@ == path_of(input@),
{
    match input.str_field("path") {
        Some(p) => p,
        None => ".",
    }
}

/// A list of arguments or an error, as values.
pub open spec fn args_outcome(r: Result<Vec<String>, ToolError>) -> Result<
    Seq<Seq<char>>,
    ToolErrorView,
> {
    match r {
        Ok(v) => Ok(views(v@)),
        Err(e) => Err(e@),
    }
}

/// The arguments of a search.
pub fn grep_args(input: &Json) -> (r: Result<Vec<String>, ToolError>)
    ensures
        args_outcome(r) == grep_command(input@),
{
    let mut args = match common_args(input) {
        Err(e) => {
            return Err(e);
        },
        Ok(args) => args,
    };
    let ghost before = views(args@);
    let path = search_path(input);
    push(&mut args, "--json=stream");
    push(&mut args, path);
    proof {
        assert(views(args@) =~= before + seq!["--json=stream"@, path@]);
    }
    Ok(args)
}

/// Whether a rewrite is to be written.
pub fn apply_asked(input: &Json) -> (r: bool)
    ensures
        r == applies(input@),
{
    match input.bool_field("apply") {
        Some(b) => b,
        None => false,
    }
}

/// The arguments of a rewrite.
pub fn edit_args(input: &Json) -> (r: Result<Vec<String>, ToolError>)
    ensures
        args_outcome(r) == edit_command(input@),
{
    let rewrite = match required_str(input, "rewrite") {
        Err(e) => {
            return Err(e);
        },
        Ok(rewrite) => rewrite,
    };
    let mut args = match common_args(input) {
        Err(e) => {
            return Err(e);
        },
        Ok(args) => args,
    };
    let ghost before = views(args@);
    push(&mut args, "--rewrite");
    push(&mut args, rewrite);
    proof {
        assert(views(args@) =~= before + seq!["--rewrite"@, rewrite@]);
    }
    if apply_asked(input) {
        push(&mut args, "--update-all");
    }
    push(&mut args, search_path(input));
    Ok(args)
}

// ── The tools ───────────────────────────────────────────────────────────────

/// Structural search through the `ast-grep` program.
#[derive(Debug)]
pub struct AstGrep {
    binary: Option<String>,
}

impl View for AstGrep {
    type V = Option<Seq<char>>;

    closed spec fn view(&self) -> Option<Seq<char>> {
        opt_view(self.binary)
    }
}

impl AstGrep {
    /// The tool with whatever program is installed.
    pub fn new() -> (r: Self)
        ensures
            r@ is None,
    {
        AstGrep { binary: None }
    }

    /// The tool with one program.
    pub fn with_binary(path: &str) -> (r: Self)
        ensures
            r@ == Some(path@),
    {
        AstGrep { binary: Some(path.to_owned()) }
    }

    /// The programs to try, in order.
    pub fn candidates(&self) -> (r: Vec<String>)
        ensures
            views(r@) == programs(self@),
    {
        candidates(&self.binary)
    }
}

impl Tool for AstGrep {
    open spec fn offer(&self) -> ToolSpecView {
        ast_grep_offer()
    }

    open spec fn overlaps(&self, input: JsonView) -> bool {
        true
    }

    open spec fn replays(&self) -> bool {
        true
    }

    fn name(&self) -> (r: &'static str) {
        "ast_grep"
    }

    fn spec(&self) -> (r: ToolSpec) {
        catalog::ast_grep()
    }

    fn parallel_safe(&self, _input: &Json) -> (r: bool) {
        true
    }

    fn replay_safe(&self) -> (r: bool) {
        true
    }
}

/// Structural rewrites through the `ast-grep` program. A preview is a read; an apply
/// changes the workspace.
#[derive(Debug)]
pub struct AstEdit {
    binary: Option<String>,
}

impl View for AstEdit {
    type V = Option<Seq<char>>;

    closed spec fn view(&self) -> Option<Seq<char>> {
        opt_view(self.binary)
    }
}

impl AstEdit {
    /// The tool with whatever program is installed.
    pub fn new() -> (r: Self)
        ensures
            r@ is None,
    {
        AstEdit { binary: None }
    }

    /// The tool with one program.
    pub fn with_binary(path: &str) -> (r: Self)
        ensures
            r@ == Some(path@),
    {
        AstEdit { binary: Some(path.to_owned()) }
    }

    /// The programs to try, in order.
    pub fn candidates(&self) -> (r: Vec<String>)
        ensures
            views(r@) == programs(self@),
    {
        candidates(&self.binary)
    }
}

impl Tool for AstEdit {
    open spec fn offer(&self) -> ToolSpecView {
        ast_edit_offer()
    }

    open spec fn overlaps(&self, input: JsonView) -> bool {
        !applies(input)
    }

    open spec fn replays(&self) -> bool {
        false
    }

    fn name(&self) -> (r: &'static str) {
        "ast_edit"
    }

    fn spec(&self) -> (r: ToolSpec) {
        catalog::ast_edit()
    }

    fn parallel_safe(&self, input: &Json) -> (r: bool) {
        !apply_asked(input)
    }

    fn replay_safe(&self) -> (r: bool) {
        false
    }
}

// ── Quoting ─────────────────────────────────────────────────────────────────

/// A text with every single quote written so that it can stand between two.
pub open spec fn quote_body(arg: Seq<char>) -> Seq<char>
    decreases arg.len(),
{
    if arg.len() == 0 {
        Seq::empty()
    } else if arg.last() == '\'' {
        quote_body(arg.drop_last()) + seq!['\'', '\\', '\'', '\'']
    } else {
        quote_body(arg.drop_last()).push(arg.last())
    }
}

/// One argument quoted for a shell.
pub open spec fn shell_quoted(arg: Seq<char>) -> Seq<char> {
    seq!['\''] + quote_body(arg) + seq!['\'']
}

/// Quote one argument for a shell.
pub fn shell_quote(arg: &str) -> (r: String)
    ensures
        r@ == shell_quoted(arg@),
{
    let cs = chars_of(arg);
    let mut out = String::new();
    out.push('\'');
    let mut i: usize = 0;
    proof {
        assert(out@ =~= seq!['\''] + quote_body(arg@.take(0)));
    }
    while i < cs.len()
        invariant
            cs@ == arg@,
            i <= cs@.len(),
            out@ == seq!['\''] + quote_body(arg@.take(i as int)),
        decreases cs@.len() - i,
    {
        proof {
            lemma_step(arg@, i as int);
        }
        if cs[i] == '\'' {
            out.push('\'');
            out.push('\\');
            out.push('\'');
            out.push('\'');
        } else {
            out.push(cs[i]);
        }
        proof {
            assert(out@ =~= seq!['\''] + quote_body(arg@.take(i + 1)));
        }
        i += 1;
    }
    proof {
        assert(arg@.take(i as int) =~= arg@);
    }
    out.push('\'');
    proof {
        assert(out@ =~= shell_quoted(arg@));
    }
    out
}

/// The quoted words, in order.
pub open spec fn quoted_words(words: Seq<Seq<char>>) -> Seq<Seq<char>> {
    words.map_values(|w: Seq<char>| shell_quoted(w))
}

/// A command line that a shell reads as this program and these arguments.
pub fn command_line(program: &str, args: &Vec<String>) -> (r: String)
    ensures
        r@ == join(quoted_words(seq![program@] + views(args@)), " "@),
{
    let mut words: Vec<String> = Vec::new();
    words.push(shell_quote(program));
    let mut i: usize = 0;
    while i < args.len()
        invariant
            i <= args@.len(),
            words@.len() == i + 1,
            words@[0]@ == shell_quoted(program@),
            forall|j: int| 0 <= j < i ==> #[trigger] words@[j + 1]@ == shell_quoted(args@[j]@),
        decreases args@.len() - i,
    {
        words.push(shell_quote(args[i].as_str()));
        i += 1;
    }
    proof {
        let all = seq![program@] + views(args@);
        let want = quoted_words(all);
        assert forall|k: int| 0 <= k < words@.len() implies #[trigger] views(words@)[k]
            == want[k] by {
            if k == 0 {
                assert(all[0] == program@);
            } else {
                assert(all[k] == args@[k - 1]@);
                assert(words@[(k - 1) + 1]@ == shell_quoted(args@[k - 1]@));
            }
        }
        assert(views(words@) =~= want);
    }
    join_with(&words, " ")
}

/// How a shell reads one word, from place `i`: inside single quotes everything
/// stands for itself up to the next quote; outside, a backslash takes the next
/// character as it is.
pub open spec fn read_word(s: Seq<char>, i: int, quoted: bool) -> Option<Seq<char>>
    decreases s.len() - i,
{
    if i < 0 || i > s.len() {
        None
    } else if i == s.len() {
        if quoted {
            None
        } else {
            Some(Seq::empty())
        }
    } else if s[i] == '\'' {
        read_word(s, i + 1, !quoted)
    } else if quoted {
        match read_word(s, i + 1, true) {
            Some(rest) => Some(seq![s[i]] + rest),
            None => None,
        }
    } else if s[i] == '\\' && i + 1 < s.len() {
        match read_word(s, i + 2, false) {
            Some(rest) => Some(seq![s[i + 1]] + rest),
            None => None,
        }
    } else {
        None
    }
}

proof fn lemma_quote_body_cons(c: char, rest: Seq<char>)
    ensures
        quote_body(seq![c] + rest) == (if c == '\'' {
            seq!['\'', '\\', '\'', '\'']
        } else {
            seq![c]
        }) + quote_body(rest),
    decreases rest.len(),
{
    let s = seq![c] + rest;
    reveal_with_fuel(quote_body, 2);
    if rest.len() == 0 {
        assert(s =~= seq![c]);
        assert(s.drop_last() =~= Seq::<char>::empty());
        assert(quote_body(s) =~= (if c == '\'' {
            seq!['\'', '\\', '\'', '\'']
        } else {
            seq![c]
        }) + quote_body(rest));
    } else {
        assert(s.drop_last() =~= seq![c] + rest.drop_last());
        assert(s.last() == rest.last());
        lemma_quote_body_cons(c, rest.drop_last());
        assert(quote_body(s) =~= (if c == '\'' {
            seq!['\'', '\\', '\'', '\'']
        } else {
            seq![c]
        }) + quote_body(rest));
    }
}

proof fn lemma_read_body(s: Seq<char>, i: int, rest: Seq<char>)
    requires
        0 <= i,
        i + quote_body(rest).len() + 1 == s.len(),
        s.skip(i) == quote_body(rest) + seq!['\''],
    ensures
        read_word(s, i, true) == Some(rest),
    decreases rest.len(),
{
    let tail = s.skip(i);
    if rest.len() == 0 {
        assert(quote_body(rest) =~= Seq::<char>::empty());
        assert(tail[0] == '\'');
        assert(s[i] == '\'');
        assert(read_word(s, i + 1, false) == Some(Seq::<char>::empty()));
        assert(rest =~= Seq::<char>::empty());
    } else {
        let c = rest[0];
        let more = rest.drop_first();
        assert(rest =~= seq![c] + more);
        lemma_quote_body_cons(c, more);
        if c == '\'' {
            let lead = seq!['\'', '\\', '\'', '\''];
            assert(tail =~= lead + quote_body(more) + seq!['\'']);
            assert(s[i] == tail[0]);
            assert(s[i + 1] == tail[1]);
            assert(s[i + 2] == tail[2]);
            assert(s[i + 3] == tail[3]);
            assert(s.skip(i + 4) =~= tail.skip(4));
            assert(tail.skip(4) =~= quote_body(more) + seq!['\'']);
            lemma_read_body(s, i + 4, more);
            assert(read_word(s, i + 3, false) == read_word(s, i + 4, true));
            assert(read_word(s, i + 1, false) == Some(seq!['\''] + more));
        } else {
            assert(tail =~= seq![c] + quote_body(more) + seq!['\'']);
            assert(s[i] == tail[0]);
            assert(s.skip(i + 1) =~= tail.skip(1));
            assert(tail.skip(1) =~= quote_body(more) + seq!['\'']);
            lemma_read_body(s, i + 1, more);
        }
    }
}

/// Quoting survives anything: a shell reads a quoted argument back as the one
/// word that it was.
pub proof fn law_shell_reads_back(arg: Seq<char>)
    ensures
        read_word(shell_quoted(arg), 0, false) == Some(arg),
{
    let s = shell_quoted(arg);
    assert(s[0] == '\'');
    assert(s.skip(1) =~= quote_body(arg) + seq!['\'']);
    lemma_read_body(s, 1, arg);
}

// ── Results ─────────────────────────────────────────────────────────────────

/// What a program that failed says.
pub open spec fn exit_failure(program: Seq<char>, out: OutputView) -> ToolErrorView {
    ToolErrorView::Failed(
        program + " exited with "@ + exit_code(out.code) + ":\n"@ + middle_cut(out.stderr, 2000),
    )
}

fn failed(program: &str, out: &Output) -> (r: ToolError)
    ensures
        r@ == exit_failure(program@, out@),
{
    let code = shown_code(out.code);
    let why = truncate_middle(out.stderr.clone(), 2000);
    ToolError::Failed(
        program.to_owned().concat(" exited with ").concat(code.as_str()).concat(":\n").concat(
            why.as_str(),
        ),
    )
}

/// What a program that cannot be run says.
pub fn spawn_failure(program: &str, why: &str) -> (r: ToolError)
    ensures
        r@ == ToolErrorView::Failed("failed to run "@ + program@ + ": "@ + why@),
{
    ToolError::Failed("failed to run ".to_owned().concat(program).concat(": ").concat(why))
}

/// The line (from one) that a match begins on; the program counts from zero.
pub open spec fn match_line_number(m: JsonView) -> nat {
    match m.get("range"@) {
        Some(range) => match range.get("start"@) {
            Some(start) => match start.nat_field("line"@) {
                Some(n) => (n + 1) as nat,
                None => 1,
            },
            None => 1,
        },
        None => 1,
    }
}

/// A match in words: its file, its line and the first line of its text.
pub open spec fn match_shown(m: JsonView) -> Seq<char> {
    let file = match m.str_field("file"@) {
        Some(f) => f,
        None => "?"@,
    };
    let text = match m.str_field("text"@) {
        Some(t) => t,
        None => ""@,
    };
    let k = find_from(text, '\n', 0);
    let more = if k < text.len() {
        " …"@
    } else {
        ""@
    };
    file + ":"@ + dec(match_line_number(m)) + "\t"@ + text.take(k) + more
}

/// A match in words.
pub fn match_text(m: &Json) -> (r: String)
    ensures
        r@ == match_shown(m@),
{
    let file = match m.str_field("file") {
        Some(f) => f,
        None => "?",
    };
    let text = match m.str_field("text") {
        Some(t) => t,
        None => "",
    };
    let line: u128 = match m.get("range") {
        Some(range) => match range.get("start") {
            Some(start) => match start.u64_field("line") {
                Some(n) => n as u128 + 1,
                None => 1,
            },
            None => 1,
        },
        None => 1,
    };
    let cs = chars_of(text);
    let k: usize = find(&cs, '\n', 0);
    proof {
        lemma_find_from(text@, '\n', 0);
    }
    let first = slice(&cs, 0, k);
    proof {
        assert(first@ =~= text@.take(k as int));
    }
    let more = if k < cs.len() {
        " …"
    } else {
        ""
    };
    let n = decimal_wide(line);
    file.to_owned().concat(":").concat(n.as_str()).concat("\t").concat(first.as_str()).concat(more)
}

/// The matches among lines; one that is no JSON is skipped.
pub open spec fn matches_in(ls: Seq<Seq<char>>) -> Seq<Seq<char>>
    decreases ls.len(),
{
    if ls.len() == 0 {
        Seq::empty()
    } else {
        match json_of(ls.last()) {
            Ok(m) => matches_in(ls.drop_last()).push(match_shown(m)),
            Err(_) => matches_in(ls.drop_last()),
        }
    }
}

/// The matches as they are shown.
pub open spec fn listing(matches: Seq<Seq<char>>) -> Seq<char> {
    if matches.len() == 0 {
        "no matches"@
    } else {
        let shown = if matches.len() > MAX_MATCHES {
            matches.take(MAX_MATCHES as int)
        } else {
            matches
        };
        let body = dec(matches.len()) + " match(es):\n"@ + join(shown, "\n"@);
        let whole = if matches.len() > MAX_MATCHES {
            body + "\n[stopped at "@ + dec(MAX_MATCHES as nat) + " matches]"@
        } else {
            body
        };
        middle_cut(whole, MAX_OUTPUT_BYTES as int)
    }
}

/// What a finished search says.
pub open spec fn grep_shown(program: Seq<char>, out: OutputView) -> Result<
    Seq<char>,
    ToolErrorView,
> {
    if !out.success {
        Err(exit_failure(program, out))
    } else {
        Ok(listing(matches_in(lines(out.stdout))))
    }
}

/// The matches as they are shown.
pub fn list_matches(matches: Vec<String>) -> (r: String)
    ensures
        r@ == listing(views(matches@)),
{
    let n: usize = matches.len();
    proof {
        assert(views(matches@).len() == matches@.len());
    }
    if n == 0 {
        return "no matches".to_owned();
    }
    let total = decimal(n as u64);
    let ghost all = views(matches@);
    let mut shown = matches;
    if n > MAX_MATCHES {
        shown.truncate(MAX_MATCHES);
        proof {
            assert(views(shown@) =~= all.take(MAX_MATCHES as int));
        }
    }
    let body = join_with(&shown, "\n");
    let mut out = total.concat(" match(es):\n").concat(body.as_str());
    if n > MAX_MATCHES {
        let cap = decimal(MAX_MATCHES as u64);
        out = out.concat("\n[stopped at ").concat(cap.as_str()).concat(" matches]");
    }
    truncate_middle(out, MAX_OUTPUT_BYTES)
}

/// What a finished search says.
pub fn grep_result(program: &str, out: &Output) -> (r: Result<String, ToolError>)
    ensures
        tool_outcome(r) == grep_shown(program@, out@),
{
    if !out.success {
        return Err(failed(program, out));
    }
    let ls = lines_of(out.stdout.as_str());
    let ghost all = views(ls@);
    let mut matches: Vec<String> = Vec::new();
    let mut i: usize = 0;
    proof {
        assert(views(matches@) =~= matches_in(all.take(0)));
    }
    while i < ls.len()
        invariant
            all == views(ls@),
            i <= ls@.len(),
            views(matches@) == matches_in(all.take(i as int)),
        decreases ls@.len() - i,
    {
        proof {
            lemma_step(all, i as int);
            assert(all[i as int] == ls@[i as int]@);
        }
        match parse(ls[i].as_str()) {
            Ok(m) => {
                let ghost before = matches@;
                let shown = match_text(&m);
                let ghost sv = shown@;
                matches.push(shown);
                proof {
                    assert(views(matches@) =~= views(before).push(sv));
                }
            },
            Err(_) => {},
        }
        i += 1;
    }
    proof {
        assert(all.take(i as int) =~= all);
    }
    Ok(list_matches(matches))
}

/// What a finished rewrite says. The program reports what it applied on
/// standard error.
pub open spec fn edit_shown(program: Seq<char>, apply: bool, out: OutputView) -> Result<
    Seq<char>,
    ToolErrorView,
> {
    if !out.success {
        Err(exit_failure(program, out))
    } else if apply {
        let summary = trim(trim(out.stdout) + "\n"@ + trim(out.stderr));
        if summary.len() == 0 {
            Ok("no matches — nothing changed"@)
        } else {
            Ok(middle_cut(summary, MAX_OUTPUT_BYTES as int))
        }
    } else if trim(out.stdout).len() == 0 {
        Ok("no matches — nothing to rewrite"@)
    } else {
        Ok(
            middle_cut(
                "preview only — nothing written; call again with `apply: true` to write this:\n\n"@
                    + out.stdout,
                MAX_OUTPUT_BYTES as int,
            ),
        )
    }
}

/// What a finished rewrite says.
pub fn edit_result(program: &str, apply: bool, out: &Output) -> (r: Result<String, ToolError>)
    ensures
        tool_outcome(r) == edit_shown(program@, apply, out@),
{
    if !out.success {
        return Err(failed(program, out));
    }
    let stdout = trimmed(out.stdout.as_str());
    if apply {
        let stderr = trimmed(out.stderr.as_str());
        let both = stdout.concat("\n").concat(stderr.as_str());
        let summary = trimmed(both.as_str());
        return if summary.as_str().is_empty() {
            Ok("no matches — nothing changed".to_owned())
        } else {
            Ok(truncate_middle(summary, MAX_OUTPUT_BYTES))
        };
    }
    if stdout.as_str().is_empty() {
        return Ok("no matches — nothing to rewrite".to_owned());
    }
    let out =
        "preview only — nothing written; call again with `apply: true` to write this:\n\n".to_owned().concat(
    out.stdout.as_str());
    Ok(truncate_middle(out, MAX_OUTPUT_BYTES))
}

/// Nothing is written unless the call asks for it: a rewrite whose arguments
/// make the program write is one with `apply: true`.
pub proof fn law_previews_write_nothing(input: JsonView)
    requires
        edit_command(input) is Ok,
        !applies(input),
    ensures
        edit_command(input)->Ok_0 == shared_args(
            required(input, "pattern"@)->Ok_0,
            input.str_field("lang"@),
        ) + seq!["--rewrite"@, required(input, "rewrite"@)->Ok_0] + seq![path_of(input)],
{
    assert(edit_command(input)->Ok_0 =~= shared_args(
        required(input, "pattern"@)->Ok_0,
        input.str_field("lang"@),
    ) + seq!["--rewrite"@, required(input, "rewrite"@)->Ok_0] + seq![path_of(input)]);
}

} // verus!
