//! The command line: what a run says to whoever started it.
use vstd::prelude::*;
use vstd::string::*;

use crate::agent::{Event, EventView};
use crate::json::{json_text, to_text};
use crate::llm::Usage;
use crate::store::{Session, SessionView};
use crate::store::worker::{short, short_id};
use crate::text::{dec, decimal, opt_view, pad, pad_left, padded, right_padded};

pub mod agents;
pub mod bg;
pub mod json;
pub mod laws;

verus! {

/// What the model is told about its place.
pub open spec fn prompt_for(cwd: Seq<char>) -> Seq<char> {
    "You are bullpen, a coding agent operating in a repository.\nWorking directory: "@ + cwd
        + "\n\nUse the available tools to inspect and change the workspace. Prefer reading files \
            before editing them. Report what you actually did — if a command fails, say so with \
            its output rather than working around it silently."@
}

/// What the model is told about its place.
pub fn system_prompt(cwd: &str) -> (r: String)
    ensures
        r@ == prompt_for(cwd@),
{
    "You are bullpen, a coding agent operating in a repository.\nWorking directory: ".to_owned().concat(
    cwd).concat(
        "\n\nUse the available tools to inspect and change the workspace. Prefer reading files \
            before editing them. Report what you actually did — if a command fails, say so with \
            its output rather than working around it silently.",
    )
}

/// The line an event is shown as while a run is watched; `input` is a tool's
/// input in words.
pub open spec fn progress_of(event: EventView, input: Seq<char>) -> Option<Seq<char>> {
    match event {
        EventView::AssistantText { text } => Some("· "@ + text),
        EventView::ToolStart { name, .. } => Some("→ "@ + name + " "@ + input),
        EventView::ToolEnd { name, is_error, .. } => if is_error {
            Some("✗ "@ + name + " failed"@)
        } else {
            None
        },
        EventView::TurnDone { .. } => None,
    }
}

/// The input an event carries, in words.
pub open spec fn input_words(event: EventView) -> Seq<char> {
    match event {
        EventView::ToolStart { input, .. } => json_text(input),
        _ => Seq::empty(),
    }
}

/// The line an event is shown as, where a tool's input reads as `input`.
pub fn progress_with(event: &Event, input: &str) -> (r: Option<String>)
    ensures
        opt_view(r) == progress_of(event@, input@),
{
    match event {
        Event::AssistantText { text } => Some("· ".to_owned().concat(text.as_str())),
        Event::ToolStart { name, .. } => Some(
            "→ ".to_owned().concat(name.as_str()).concat(" ").concat(input),
        ),
        Event::ToolEnd { name, is_error, .. } => if *is_error {
            Some("✗ ".to_owned().concat(name.as_str()).concat(" failed"))
        } else {
            None
        },
        Event::TurnDone { .. } => None,
    }
}

/// The line an event is shown as while a run is watched.
pub fn progress(event: &Event) -> (r: Option<String>)
    ensures
        opt_view(r) == progress_of(event@, input_words(event@)),
{
    let input = match event {
        Event::ToolStart { input, .. } => to_text(input),
        _ => String::new(),
    };
    progress_with(event, input.as_str())
}

/// What is said under a run's answer.
pub fn footer(session_id: &str, usage: Usage) -> (r: String)
    ensures
        r@ == "\n[session "@ + short(session_id@) + " · "@ + dec(usage.input_tokens as nat)
            + " in / "@ + dec(usage.output_tokens as nat) + " out tokens]"@,
{
    "\n[session ".to_owned().concat(short_id(session_id).as_str()).concat(" · ").concat(
        decimal(usage.input_tokens).as_str(),
    ).concat(" in / ").concat(decimal(usage.output_tokens).as_str()).concat(" out tokens]")
}

/// What a failed run is reported as.
pub fn run_failure(session_id: &str, why: &str) -> (r: String)
    ensures
        r@ == "agent error (session "@ + short(session_id@) + " saved): "@ + why@,
{
    "agent error (session ".to_owned().concat(short_id(session_id).as_str()).concat(
        " saved): ",
    ).concat(why)
}

/// What is said where there are no sessions.
pub const NO_SESSIONS: &'static str = "no sessions yet — start one with `bullpen run \"...\"`";

/// A session's title as it is shown.
pub open spec fn title_of(session: SessionView) -> Seq<char> {
    if session.title.len() == 0 {
        "(untitled)"@
    } else {
        session.title
    }
}

/// A session's title as it is shown.
pub fn shown_title(session: &Session) -> (r: String)
    ensures
        r@ == title_of(session@),
{
    if session.title.as_str().is_empty() {
        "(untitled)".to_owned()
    } else {
        session.title.clone()
    }
}

/// Token counts as they are shown.
pub open spec fn counts_of(usage: Usage) -> Seq<char> {
    right_padded(dec(usage.input_tokens as nat), 6) + "/"@ + padded(
        dec(usage.output_tokens as nat),
        6,
    )
}

/// Token counts as they are shown.
pub fn shown_counts(usage: Usage) -> (r: String)
    ensures
        r@ == counts_of(usage),
{
    let a = decimal(usage.input_tokens);
    let b = decimal(usage.output_tokens);
    pad_left(a.as_str(), 6).concat("/").concat(pad(b.as_str(), 6).as_str())
}

/// A session's line in the list of sessions.
pub fn session_line(session: &Session) -> (r: String)
    ensures
        r@ == short(session@.id) + "  "@ + session@.updated_at + "  "@ + counts_of(session@.usage)
            + "  "@ + title_of(session@),
{
    short_id(session.id.as_str()).concat("  ").concat(session.updated_at.as_str()).concat(
        "  ",
    ).concat(shown_counts(session.usage).as_str()).concat("  ").concat(
        shown_title(session).as_str(),
    )
}

} // verus!
