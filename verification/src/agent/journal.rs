//! The durability protocol.
//!
//! The loop reports every step of a run *in intent-order*: tool intents are
//! journaled before tools execute, results after. The loop knows the
//! protocol; it does not know the storage. A journal failure fails the run:
//! durability is not best-effort.
use vstd::prelude::*;
use vstd::string::*;

use crate::json::{Json, JsonView};

verus! {

/// A journal write that failed.
#[derive(Debug)]
pub struct JournalError(pub String);

impl View for JournalError {
    type V = Seq<char>;

    open spec fn view(&self) -> Seq<char> {
        self.0@
    }
}

impl JournalError {
    /// The error in words.
    pub fn to_string(&self) -> (r: String)
        ensures
            r@ == "journal error: "@ + self@,
    {
        "journal error: ".to_owned().concat(self.0.as_str())
    }
}

/// One tool call the loop is about to execute, with the replay-safety
/// declaration snapshotted at intent time.
#[derive(Debug)]
pub struct ToolIntent {
    pub tool_use_id: String,
    pub name: String,
    pub input: Json,
    pub replay_safe: bool,
}

/// What an intent is.
pub struct ToolIntentView {
    pub tool_use_id: Seq<char>,
    pub name: Seq<char>,
    pub input: JsonView,
    pub replay_safe: bool,
}

impl View for ToolIntent {
    type V = ToolIntentView;

    open spec fn view(&self) -> ToolIntentView {
        ToolIntentView {
            tool_use_id: self.tool_use_id@,
            name: self.name@,
            input: self.input@,
            replay_safe: self.replay_safe,
        }
    }
}

impl Clone for ToolIntent {
    fn clone(&self) -> (r: Self)
        ensures
            r@ == self@,
    {
        ToolIntent {
            tool_use_id: self.tool_use_id.clone(),
            name: self.name.clone(),
            input: self.input.clone(),
            replay_safe: self.replay_safe,
        }
    }
}

/// How a run ended.
#[derive(Debug, Clone, Copy, PartialEq, Eq, Structural)]
pub enum RunOutcome {
    Completed,
    /// Provider stopped at max_tokens; partial output preserved.
    Truncated,
    Failed,
}

impl RunOutcome {
    /// The outcome's stored name.
    pub open spec fn name(self) -> Seq<char> {
        match self {
            RunOutcome::Completed => "completed"@,
            RunOutcome::Truncated => "truncated"@,
            RunOutcome::Failed => "failed"@,
        }
    }

    /// The outcome's stored name.
    pub fn as_str(self) -> (r: &'static str)
        ensures
            r@ == self.name(),
    {
        match self {
            RunOutcome::Completed => "completed",
            RunOutcome::Truncated => "truncated",
            RunOutcome::Failed => "failed",
        }
    }
}

/// In-memory execution: every write is taken and kept nowhere.
#[derive(Debug, Clone, Copy)]
pub struct NullJournal;

impl NullJournal {
    /// Take a write.
    pub fn record(&self) -> (r: Result<(), JournalError>)
        ensures
            r is Ok,
    {
        Ok(())
    }
}

} // verus!
