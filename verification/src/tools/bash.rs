//! Shell execution. The broadest capability in the registry; always serial.
use vstd::prelude::*;
use vstd::string::*;

use super::{
    middle_cut, required, required_str, tool_outcome, truncate_middle, Tool, ToolError,
    ToolErrorView,
};
use super::catalog::{self, bash_offer};
use super::process::{exit_code, shown_code, Output, OutputView};
use crate::json::{Json, JsonView};
use crate::llm::{ToolSpec, ToolSpecView};
use crate::text::{trim, trimmed, views};

verus! {

/// The shell.
#[derive(Debug, Clone, Copy)]
pub struct Bash;

impl Tool for Bash {
    open spec fn offer(&self) -> ToolSpecView {
        bash_offer()
    }

    open spec fn overlaps(&self, input: JsonView) -> bool {
        false
    }

    open spec fn replays(&self) -> bool {
        false
    }

    fn name(&self) -> (r: &'static str) {
        "bash"
    }

    fn spec(&self) -> (r: ToolSpec) {
        catalog::bash()
    }

    fn parallel_safe(&self, _input: &Json) -> (r: bool) {
        false
    }

    fn replay_safe(&self) -> (r: bool) {
        false
    }
}

pub const DEFAULT_TIMEOUT_SECS: u64 = 120;

pub const MAX_TIMEOUT_SECS: u64 = 600;

pub const MAX_OUTPUT_BYTES: usize = 100_000;

/// How long a command may run, in seconds.
pub open spec fn timeout_of(input: JsonView) -> int {
    match input.nat_field("timeout_seconds"@) {
        Some(n) => if n <= MAX_TIMEOUT_SECS {
            n
        } else {
            MAX_TIMEOUT_SECS as int
        },
        None => DEFAULT_TIMEOUT_SECS as int,
    }
}

/// A command and how long it may run, in seconds.
pub fn command(input: &Json) -> (r: Result<(String, u64), ToolError>)
    ensures
        match r {
            Ok(v) => required(input@, "command"@) == Ok::<Seq<char>, ToolErrorView>(v.0@) && v.1
                == timeout_of(input@),
            Err(e) => required(input@, "command"@) == Err::<Seq<char>, ToolErrorView>(e@),
        },
{
    let command = match required_str(input, "command") {
        Err(e) => {
            return Err(e);
        },
        Ok(command) => command,
    };
    let timeout: u64 = match input.u64_field("timeout_seconds") {
        Some(n) => if n <= MAX_TIMEOUT_SECS {
            n
        } else {
            MAX_TIMEOUT_SECS
        },
        None => DEFAULT_TIMEOUT_SECS,
    };
    Ok((command.to_owned(), timeout))
}

/// How a command runs without a sandbox.
pub fn plain_bash(command: &str) -> (r: (String, Vec<String>))
    ensures
        r.0@ == "bash"@,
        views(r.1@) == seq!["-c"@, command@],
{
    let mut args: Vec<String> = Vec::new();
    args.push("-c".to_owned());
    args.push(command.to_owned());
    proof {
        assert(views(args@) =~= seq!["-c"@, command@]);
    }
    ("bash".to_owned(), args)
}

/// What a command printed: its output, then what it said on standard error.
pub open spec fn printed(out: OutputView) -> Seq<char> {
    if trim(out.stderr).len() == 0 {
        out.stdout
    } else if out.stdout.len() == 0 {
        out.stdout + "[stderr]\n"@ + out.stderr
    } else {
        out.stdout.push('\n') + "[stderr]\n"@ + out.stderr
    }
}

/// What a finished command says.
pub open spec fn command_result(out: OutputView) -> Result<Seq<char>, ToolErrorView> {
    let text = middle_cut(printed(out), MAX_OUTPUT_BYTES as int);
    if !out.success {
        Err(ToolErrorView::Failed("exit status "@ + exit_code(out.code) + "\n"@ + text))
    } else if text.len() == 0 {
        Ok("(no output)"@)
    } else {
        Ok(text)
    }
}

/// What a finished command says.
pub fn result(out: Output) -> (r: Result<String, ToolError>)
    ensures
        tool_outcome(r) == command_result(out@),
{
    let quiet = trimmed(out.stderr.as_str());
    let mut text = out.stdout;
    if !quiet.as_str().is_empty() {
        if !text.as_str().is_empty() {
            text.push('\n');
        }
        text.append("[stderr]\n");
        text.append(out.stderr.as_str());
    }
    let text = truncate_middle(text, MAX_OUTPUT_BYTES);
    if out.success {
        if text.as_str().is_empty() {
            Ok("(no output)".to_owned())
        } else {
            Ok(text)
        }
    } else {
        let code = shown_code(out.code);
        Err(
            ToolError::Failed(
                "exit status ".to_owned().concat(code.as_str()).concat("\n").concat(text.as_str()),
            ),
        )
    }
}

} // verus!
