//! What a finished process left behind.
use vstd::prelude::*;
use vstd::string::*;

use super::{ToolError, ToolErrorView};
use crate::text::{dec_int, decimal_int};

verus! {

/// A finished process: whether it succeeded, its exit code where it has one,
/// and what it printed.
#[derive(Debug)]
pub struct Output {
    pub success: bool,
    pub code: Option<i32>,
    pub stdout: String,
    pub stderr: String,
}

/// A finished process, as a value.
pub struct OutputView {
    pub success: bool,
    pub code: Option<i32>,
    pub stdout: Seq<char>,
    pub stderr: Seq<char>,
}

impl View for Output {
    type V = OutputView;

    open spec fn view(&self) -> OutputView {
        OutputView {
            success: self.success,
            code: self.code,
            stdout: self.stdout@,
            stderr: self.stderr@,
        }
    }
}

/// The exit code as it is shown; a process that was killed has none.
pub open spec fn exit_code(code: Option<i32>) -> Seq<char> {
    match code {
        Some(c) => dec_int(c as int),
        None => dec_int(-1),
    }
}

/// The exit code as it is shown.
pub fn shown_code(code: Option<i32>) -> (r: String)
    ensures
        r@ == exit_code(code),
{
    match code {
        Some(c) => decimal_int(c as i64),
        None => decimal_int(-1),
    }
}

/// What collecting a process's output that failed says.
pub fn collect_failure(why: &str) -> (r: ToolError)
    ensures
        r@ == ToolErrorView::Failed("failed to collect output: "@ + why@),
{
    ToolError::Failed("failed to collect output: ".to_owned().concat(why))
}

} // verus!
