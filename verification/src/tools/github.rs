//! GitHub operations, by way of the `gh` command line.
//!
//! One tool, raw `gh` arguments as an array — no shell in between, so nothing
//! needs quoting. The tool adds what `gh` cannot know: the runtime decides
//! parallel safety from the verb, a sandbox that denies network refuses the
//! call outright, and a missing binary is a clear error with the setup hint.
use vstd::prelude::*;
use vstd::string::*;

use super::{middle_cut, tool_outcome, truncate_middle, Tool, ToolError, ToolErrorView};
use super::catalog::{self, github_offer};
use super::process::{exit_code, shown_code, Output, OutputView};
use crate::json::{Json, JsonView};
use crate::llm::{ToolSpec, ToolSpecView};
use crate::text::{join, join_with, same, trim, trimmed, views};

verus! {

pub const TIMEOUT_SECS: u64 = 120;

pub const MAX_OUTPUT_BYTES: usize = 100_000;

/// Second-position verbs that only read remote state.
pub open spec fn reads(verb: Seq<char>) -> bool {
    verb == "view"@ || verb == "list"@ || verb == "diff"@ || verb == "checks"@ || verb == "status"@
}

/// Whether arguments only read: they search, or their verb reads. An `api` call
/// does not count as a read, whatever stands behind it.
pub open spec fn only_reads(args: Seq<Seq<char>>) -> bool {
    args.len() > 0 && args[0] != "api"@ && (args[0] == "search"@ || (args.len() > 1 && reads(
        args[1],
    )))
}

/// What a call without arguments is told.
pub open spec fn no_args() -> ToolErrorView {
    ToolErrorView::InvalidInput(
        "`args` must be a non-empty array of gh arguments, e.g. [\"pr\", \"view\", \"18\"]"@,
    )
}

/// The arguments of a call.
pub fn parse_args(input: &Json) -> (r: Result<Vec<String>, ToolError>)
    ensures
        match r {
            Ok(args) => views(args@) == input@.texts_field("args"@) && args@.len() > 0,
            Err(e) => input@.texts_field("args"@).len() == 0 && e@ == no_args(),
        },
{
    let args = input.texts_field("args");
    if args.len() == 0 {
        return Err(
            ToolError::InvalidInput(
                "`args` must be a non-empty array of gh arguments, e.g. [\"pr\", \"view\", \"18\"]".to_owned(),
            ),
        );
    }
    Ok(args)
}

/// Whether a call can run beside others: a read can ride alongside anything;
/// everything else stays serial.
fn reads_only(input: &Json) -> (r: bool)
    ensures
        r == only_reads(input@.texts_field("args"@)),
{
    let args = input.texts_field("args");
    let ghost av = views(args@);
    if args.len() == 0 {
        return false;
    }
    proof {
        assert(av[0] == args@[0]@);
    }
    if same(args[0].as_str(), "api") {
        return false;
    }
    if same(args[0].as_str(), "search") {
        return true;
    }
    if args.len() < 2 {
        return false;
    }
    proof {
        assert(av[1] == args@[1]@);
    }
    let verb = args[1].as_str();
    same(verb, "view") || same(verb, "list") || same(verb, "diff") || same(verb, "checks") || same(
        verb,
        "status",
    )
}

/// The GitHub CLI.
#[derive(Debug)]
pub struct GitHub {
    binary: String,
}

impl View for GitHub {
    type V = Seq<char>;

    closed spec fn view(&self) -> Seq<char> {
        self.binary@
    }
}

impl GitHub {
    /// The tool with the program `gh`.
    pub fn new() -> (r: Self)
        ensures
            r@ == "gh"@,
    {
        GitHub { binary: "gh".to_owned() }
    }

    /// The tool with another program.
    pub fn with_binary(binary: &str) -> (r: Self)
        ensures
            r@ == binary@,
    {
        GitHub { binary: binary.to_owned() }
    }

    /// The program.
    pub fn binary(&self) -> (r: &str)
        ensures
            r@ == self@,
    {
        self.binary.as_str()
    }
}

impl Tool for GitHub {
    open spec fn offer(&self) -> ToolSpecView {
        github_offer()
    }

    open spec fn overlaps(&self, input: JsonView) -> bool {
        only_reads(input.texts_field("args"@))
    }

    open spec fn replays(&self) -> bool {
        false
    }

    fn name(&self) -> (r: &'static str) {
        "github"
    }

    fn spec(&self) -> (r: ToolSpec) {
        catalog::github()
    }

    fn parallel_safe(&self, input: &Json) -> (r: bool) {
        reads_only(input)
    }

    fn replay_safe(&self) -> (r: bool) {
        false
    }
}

/// Refuse a call where the sandbox, if there is one, denies the network.
pub fn check_network(allowed: Option<bool>) -> (r: Result<(), ToolError>)
    ensures
        match r {
            Ok(()) => allowed != Some(false),
            Err(e) => allowed == Some(false) && e@ == ToolErrorView::Failed(
                "sandbox: network access is disabled, so GitHub is out of reach"@,
            ),
        },
{
    match allowed {
        Some(false) => Err(
            ToolError::Failed(
                "sandbox: network access is disabled, so GitHub is out of reach".to_owned(),
            ),
        ),
        _ => Ok(()),
    }
}

/// What a binary that cannot be run says.
pub fn spawn_failure(binary: &str, why: &str) -> (r: ToolError)
    ensures
        r@ == ToolErrorView::Failed(
            "failed to run "@ + binary@ + ": "@ + why@
                + " — install the GitHub CLI from https://cli.github.com and run `gh auth login`"@,
        ),
{
    ToolError::Failed(
        "failed to run ".to_owned().concat(binary).concat(": ").concat(why).concat(
            " — install the GitHub CLI from https://cli.github.com and run `gh auth login`",
        ),
    )
}

/// What a finished call says. Some commands narrate on standard error.
pub open spec fn gh_result(args: Seq<Seq<char>>, out: OutputView) -> Result<
    Seq<char>,
    ToolErrorView,
> {
    if !out.success {
        Err(
            ToolErrorView::Failed(
                "gh "@ + join(args, " "@) + " exited with "@ + exit_code(out.code) + ":\n"@
                    + middle_cut(trim(out.stderr) + trim(out.stdout), 4000),
            ),
        )
    } else {
        let text = if trim(out.stdout).len() == 0 {
            out.stderr
        } else {
            out.stdout
        };
        if trim(text).len() == 0 {
            Ok("(no output)"@)
        } else {
            Ok(middle_cut(text, MAX_OUTPUT_BYTES as int))
        }
    }
}

/// What a finished call says.
pub fn result(args: &Vec<String>, out: Output) -> (r: Result<String, ToolError>)
    ensures
        tool_outcome(r) == gh_result(views(args@), out@),
{
    let stdout = trimmed(out.stdout.as_str());
    let stderr = trimmed(out.stderr.as_str());
    if !out.success {
        let said = join_with(args, " ");
        let code = shown_code(out.code);
        let why = truncate_middle(stderr.concat(stdout.as_str()), 4000);
        return Err(
            ToolError::Failed(
                "gh ".to_owned().concat(said.as_str()).concat(" exited with ").concat(
                    code.as_str(),
                ).concat(":\n").concat(why.as_str()),
            ),
        );
    }
    let (text, empty) = if stdout.as_str().is_empty() {
        (out.stderr, stderr.as_str().is_empty())
    } else {
        (out.stdout, false)
    };
    if empty {
        Ok("(no output)".to_owned())
    } else {
        Ok(truncate_middle(text, MAX_OUTPUT_BYTES))
    }
}

} // verus!
