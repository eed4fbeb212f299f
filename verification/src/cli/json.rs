//! A run as newline-delimited JSON.
//!
//! The event kinds are constants of their own, not names derived from the
//! events: whoever reads the stream depends on the strings, and renaming an
//! event must not change them.
use vstd::prelude::*;
use vstd::string::*;

use crate::agent::{Event, EventView, MAX_TOOL_RESULT_BYTES};
use crate::json::{json_text, to_text, Json, JsonView, NumView};
use crate::llm::Usage;
use crate::text::{
    boundary_below, byte_len, chars_of, floor_boundary, lemma_boundary_below, len_of, slice,
};

verus! {

pub const KIND_ASSISTANT_TEXT: &'static str = "assistant_text";

pub const KIND_TOOL_START: &'static str = "tool_start";

pub const KIND_TOOL_END: &'static str = "tool_end";

pub const KIND_TURN_DONE: &'static str = "turn_done";

pub const KIND_RESULT: &'static str = "result";

pub const KIND_DISPATCHED: &'static str = "dispatched";

/// An object that says its kind.
pub open spec fn of_kind(kind: Seq<char>) -> JsonView {
    JsonView::object().with("kind"@, JsonView::Str(kind))
}

/// Whether a text is longer than the cap.
pub open spec fn is_over(s: Seq<char>) -> bool {
    byte_len(s) > MAX_TOOL_RESULT_BYTES
}

/// A text cut at the last character boundary within the cap.
pub open spec fn cut(s: Seq<char>) -> Seq<char> {
    if is_over(s) {
        s.take(boundary_below(s, MAX_TOOL_RESULT_BYTES as int))
    } else {
        s
    }
}

/// A text cut at the cap on a character boundary, and whether it had to be.
pub fn cap_text(s: &str) -> (r: (String, bool))
    ensures
        r.0@ == cut(s@),
        r.1 == is_over(s@),
{
    if len_of(s) <= MAX_TOOL_RESULT_BYTES {
        return (s.to_owned(), false);
    }
    let cs = chars_of(s);
    let end: usize = floor_boundary(&cs, MAX_TOOL_RESULT_BYTES);
    let head = slice(&cs, 0, end);
    proof {
        assert(head@ =~= s@.take(end as int));
    }
    (head, true)
}

/// A tool's input, which reads as `text`: it stays a value while it fits, and
/// is the beginning of its text otherwise.
pub open spec fn capped_input(input: JsonView, text: Seq<char>) -> JsonView {
    if is_over(text) {
        JsonView::Str(cut(text))
    } else {
        input
    }
}

/// A tool's input, which reads as `text`, and whether it had to be cut.
pub fn cap_input(input: &Json, text: &str) -> (r: (Json, bool))
    ensures
        r.0@ == capped_input(input@, text@),
        r.1 == is_over(text@),
{
    if len_of(text) <= MAX_TOOL_RESULT_BYTES {
        return (input.clone(), false);
    }
    let (capped, _) = cap_text(text);
    (Json::Str(capped), true)
}

/// Token counts.
pub open spec fn usage_value(usage: Usage) -> JsonView {
    JsonView::object().with(
        "input_tokens"@,
        JsonView::Num(NumView::Int(usage.input_tokens as int)),
    ).with("output_tokens"@, JsonView::Num(NumView::Int(usage.output_tokens as int)))
}

/// Token counts.
pub fn usage_json(usage: Usage) -> (r: Json)
    ensures
        r@ == usage_value(usage),
{
    Json::object().with("input_tokens", Json::number(usage.input_tokens)).with(
        "output_tokens",
        Json::number(usage.output_tokens),
    )
}

/// An event, where a tool's input reads as `text`.
pub open spec fn event_value(event: EventView, text: Seq<char>) -> JsonView {
    match event {
        EventView::AssistantText { text } => of_kind(KIND_ASSISTANT_TEXT@).with(
            "text"@,
            JsonView::Str(text),
        ),
        EventView::ToolStart { id, name, input } => of_kind(KIND_TOOL_START@).with(
            "id"@,
            JsonView::Str(id),
        ).with("name"@, JsonView::Str(name)).with("input"@, capped_input(input, text)).with(
            "input_truncated"@,
            JsonView::Bool(is_over(text)),
        ),
        EventView::ToolEnd { id, name, output, is_error } => of_kind(KIND_TOOL_END@).with(
            "id"@,
            JsonView::Str(id),
        ).with("name"@, JsonView::Str(name)).with("output"@, JsonView::Str(cut(output))).with(
            "output_truncated"@,
            JsonView::Bool(is_over(output)),
        ).with("is_error"@, JsonView::Bool(is_error)),
        EventView::TurnDone { usage } => of_kind(KIND_TURN_DONE@).with(
            "usage"@,
            usage_value(usage),
        ),
    }
}

fn kind_object(kind: &str) -> (r: Json)
    ensures
        r@ == of_kind(kind@),
{
    Json::object().with("kind", Json::text(kind))
}

/// An event as one object of the stream, where a tool's input reads as `text`.
pub fn event_json_with(event: &Event, text: &str) -> (r: Json)
    ensures
        r@ == event_value(event@, text@),
{
    match event {
        Event::AssistantText { text: said } => kind_object(KIND_ASSISTANT_TEXT).with(
            "text",
            Json::text(said.as_str()),
        ),
        Event::ToolStart { id, name, input } => {
            let (shown, truncated) = cap_input(input, text);
            kind_object(KIND_TOOL_START).with("id", Json::text(id.as_str())).with(
                "name",
                Json::text(name.as_str()),
            ).with("input", shown).with("input_truncated", Json::Bool(truncated))
        },
        Event::ToolEnd { id, name, output, is_error } => {
            let (shown, truncated) = cap_text(output.as_str());
            kind_object(KIND_TOOL_END).with("id", Json::text(id.as_str())).with(
                "name",
                Json::text(name.as_str()),
            ).with("output", Json::Str(shown)).with("output_truncated", Json::Bool(truncated)).with(
                "is_error",
                Json::Bool(*is_error),
            )
        },
        Event::TurnDone { usage } => kind_object(KIND_TURN_DONE).with("usage", usage_json(*usage)),
    }
}

/// An event as one object of the stream.
pub fn event_json(event: &Event) -> (r: Json)
    ensures
        r@ == event_value(event@, super::input_words(event@)),
{
    let text = match event {
        Event::ToolStart { input, .. } => to_text(input),
        _ => String::new(),
    };
    event_json_with(event, text.as_str())
}

/// The last object of a stream. It says the outcome outright, so that nobody
/// has to infer it from the stream's end.
pub fn result_json(session_id: &str, text: &str, usage: Usage, error: Option<&str>) -> (r: Json)
    ensures
        r@ == of_kind(KIND_RESULT@).with("session_id"@, JsonView::Str(session_id@)).with(
            "text"@,
            JsonView::Str(text@),
        ).with("usage"@, usage_value(usage)).with("error"@, JsonView::Bool(error is Some)).with(
            "message"@,
            match error {
                Some(e) => JsonView::Str(e@),
                None => JsonView::Null,
            },
        ),
{
    let failed = match error {
        Some(_) => true,
        None => false,
    };
    let message = match error {
        Some(e) => Json::text(e),
        None => Json::Null,
    };
    kind_object(KIND_RESULT).with("session_id", Json::text(session_id)).with(
        "text",
        Json::text(text),
    ).with("usage", usage_json(usage)).with("error", Json::Bool(failed)).with("message", message)
}

/// The whole stream of a background dispatch: the run itself happens in
/// another process.
pub fn dispatched_json(session_id: &str, input_id: &str, pid: u32) -> (r: Json)
    ensures
        r@ == of_kind(KIND_DISPATCHED@).with("session_id"@, JsonView::Str(session_id@)).with(
            "input_id"@,
            JsonView::Str(input_id@),
        ).with("pid"@, JsonView::Num(NumView::Int(pid as int))),
{
    kind_object(KIND_DISPATCHED).with("session_id", Json::text(session_id)).with(
        "input_id",
        Json::text(input_id),
    ).with("pid", Json::number(pid as u64))
}

/// A value as one line of the stream.
pub fn stream_line(value: &Json) -> (r: String)
    ensures
        r@ == json_text(value@) + "\n"@,
{
    to_text(value).concat("\n")
}

/// A cut text fits the cap, is the beginning of what it was cut from, and is
/// cut no shorter than it has to be: one more character would not fit.
pub proof fn law_cut_text_fits(s: Seq<char>)
    ensures
        byte_len(cut(s)) <= MAX_TOOL_RESULT_BYTES,
        cut(s).is_prefix_of(s),
        is_over(s) ==> cut(s).len() < s.len() && byte_len(s.take(cut(s).len() as int + 1))
            > MAX_TOOL_RESULT_BYTES,
{
    if is_over(s) {
        let n = boundary_below(s, MAX_TOOL_RESULT_BYTES as int);
        lemma_boundary_below(s, MAX_TOOL_RESULT_BYTES as int);
        assert(s.take(n).len() == n);
        assert(s.take(s.take(n).len() as int) =~= s.take(n));
        if n == s.len() {
            assert(s.take(n) =~= s);
        }
    } else {
        assert(s.take(s.len() as int) =~= s);
    }
}

} // verus!
