//! What the command line shows and what its keys do.
use vstd::prelude::*;
use vstd::string::*;

use super::{input_words, progress_of, prompt_for, title_of};
use super::agents::{
    last_said, latest_of, list_of, peek_of, row_le, row_text, rows_of, working_in, ActionView, AppView, Key,
    ListLineView, RowView, Tone,
};
use super::bg::prompt_payload;
use super::json::{event_value, usage_value};
use crate::agent::EventView;
use crate::json::{json_text, JsonView, NumView};
use crate::llm::{BlockView, MessageView, Role, Usage};
use crate::llm::wire_laws::{lemma_rank_of_front, rank};
use crate::store::SessionView;
use crate::store::status::{derived, AgentStatus};
use crate::store::worker::short;
use crate::text::{boundary_below, byte_len, dec, lex_le, lines, padded, right_padded, trim};

verus! {

// ── Progress ────────────────────────────────────────────────────────────────

/// Progress shows what is said, each tool as it starts, and a tool that failed;
/// a tool that went well and the end of a turn show nothing.
pub proof fn law_progress_is_shown(
    id: Seq<char>,
    name: Seq<char>,
    text: Seq<char>,
    input: JsonView,
    words: Seq<char>,
    usage: Usage,
)
    ensures
        progress_of(EventView::AssistantText { text }, words) == Some("· "@ + text),
        progress_of(EventView::ToolStart { id, name, input }, words) == Some(
            "→ "@ + name + " "@ + words,
        ),
        progress_of(EventView::ToolEnd { id, name, output: text, is_error: true }, words) == Some(
            "✗ "@ + name + " failed"@,
        ),
        progress_of(EventView::ToolEnd { id, name, output: text, is_error: false }, words) is None,
        progress_of(EventView::TurnDone { usage }, words) is None,
{
}

/// The agent is told where it works.
pub proof fn law_prompt_names_the_directory(cwd: Seq<char>)
    ensures
        ("You are bullpen, a coding agent operating in a repository.\nWorking directory: "@
            + cwd).is_prefix_of(prompt_for(cwd)),
{
    let head = "You are bullpen, a coding agent operating in a repository.\nWorking directory: "@
        + cwd;
    assert(prompt_for(cwd).subrange(0, head.len() as int) =~= head);
}

// ── Events as JSON ──────────────────────────────────────────────────────────

proof fn lemma_event_fields_differ()
    ensures
        "kind"@ != "text"@,
        "kind"@ != "id"@,
        "kind"@ != "name"@,
        "kind"@ != "input"@,
        "kind"@ != "input_truncated"@,
        "kind"@ != "output"@,
        "kind"@ != "output_truncated"@,
        "kind"@ != "is_error"@,
        "kind"@ != "usage"@,
        "kind"@ != "input_tokens"@,
        "kind"@ != "output_tokens"@,
        "text"@ != "id"@,
        "text"@ != "name"@,
        "text"@ != "input"@,
        "text"@ != "input_truncated"@,
        "text"@ != "output"@,
        "text"@ != "output_truncated"@,
        "text"@ != "is_error"@,
        "text"@ != "usage"@,
        "text"@ != "input_tokens"@,
        "text"@ != "output_tokens"@,
        "id"@ != "name"@,
        "id"@ != "input"@,
        "id"@ != "input_truncated"@,
        "id"@ != "output"@,
        "id"@ != "output_truncated"@,
        "id"@ != "is_error"@,
        "id"@ != "usage"@,
        "id"@ != "input_tokens"@,
        "id"@ != "output_tokens"@,
        "name"@ != "input"@,
        "name"@ != "input_truncated"@,
        "name"@ != "output"@,
        "name"@ != "output_truncated"@,
        "name"@ != "is_error"@,
        "name"@ != "usage"@,
        "name"@ != "input_tokens"@,
        "name"@ != "output_tokens"@,
        "input"@ != "input_truncated"@,
        "input"@ != "output"@,
        "input"@ != "output_truncated"@,
        "input"@ != "is_error"@,
        "input"@ != "usage"@,
        "input"@ != "input_tokens"@,
        "input"@ != "output_tokens"@,
        "input_truncated"@ != "output"@,
        "input_truncated"@ != "output_truncated"@,
        "input_truncated"@ != "is_error"@,
        "input_truncated"@ != "usage"@,
        "input_truncated"@ != "input_tokens"@,
        "input_truncated"@ != "output_tokens"@,
        "output"@ != "output_truncated"@,
        "output"@ != "is_error"@,
        "output"@ != "usage"@,
        "output"@ != "input_tokens"@,
        "output"@ != "output_tokens"@,
        "output_truncated"@ != "is_error"@,
        "output_truncated"@ != "usage"@,
        "output_truncated"@ != "input_tokens"@,
        "output_truncated"@ != "output_tokens"@,
        "is_error"@ != "usage"@,
        "is_error"@ != "input_tokens"@,
        "is_error"@ != "output_tokens"@,
        "usage"@ != "input_tokens"@,
        "usage"@ != "output_tokens"@,
        "input_tokens"@ != "output_tokens"@,
{
    reveal_strlit("kind");
    reveal_strlit("text");
    reveal_strlit("id");
    reveal_strlit("name");
    reveal_strlit("input");
    reveal_strlit("input_truncated");
    reveal_strlit("output");
    reveal_strlit("output_truncated");
    reveal_strlit("is_error");
    reveal_strlit("usage");
    reveal_strlit("input_tokens");
    reveal_strlit("output_tokens");
    assert("kind"@.len() == 4);
    assert("text"@.len() == 4);
    assert("id"@.len() == 2);
    assert("name"@.len() == 4);
    assert("input"@.len() == 5);
    assert("input_truncated"@.len() == 15);
    assert("output"@.len() == 6);
    assert("output_truncated"@.len() == 16);
    assert("is_error"@.len() == 8);
    assert("usage"@.len() == 5);
    assert("input_tokens"@.len() == 12);
    assert("output_tokens"@.len() == 13);
    assert("kind"@[0] == 'k' && "text"@[0] == 't');
    assert("kind"@[0] == 'k' && "name"@[0] == 'n');
    assert("text"@[0] == 't' && "name"@[0] == 'n');
    assert("input"@[0] == 'i' && "usage"@[0] == 'u');
}

/// An event is written with its kind and everything it holds; what is too long
/// is cut, and said to be cut.
pub proof fn law_events_are_written_whole(
    id: Seq<char>,
    name: Seq<char>,
    text: Seq<char>,
    input: JsonView,
    words: Seq<char>,
    is_error: bool,
    usage: Usage,
)
    ensures
        ({
            let v = event_value(EventView::AssistantText { text }, words);
            &&& v.get("kind"@) == Some(JsonView::Str("assistant_text"@))
            &&& v.get("text"@) == Some(JsonView::Str(text))
        }),
        ({
            let v = event_value(EventView::ToolStart { id, name, input }, words);
            &&& v.get("kind"@) == Some(JsonView::Str("tool_start"@))
            &&& v.get("id"@) == Some(JsonView::Str(id))
            &&& v.get("name"@) == Some(JsonView::Str(name))
            &&& byte_len(words) <= 262_144 ==> {
                &&& v.get("input"@) == Some(input)
                &&& v.get("input_truncated"@) == Some(JsonView::Bool(false))
            }
            &&& byte_len(words) > 262_144 ==> {
                &&& v.get("input"@) == Some(
                    JsonView::Str(words.take(boundary_below(words, 262_144))),
                )
                &&& v.get("input_truncated"@) == Some(JsonView::Bool(true))
            }
        }),
        ({
            let v = event_value(EventView::ToolEnd { id, name, output: text, is_error }, words);
            &&& v.get("kind"@) == Some(JsonView::Str("tool_end"@))
            &&& v.get("id"@) == Some(JsonView::Str(id))
            &&& v.get("name"@) == Some(JsonView::Str(name))
            &&& v.get("is_error"@) == Some(JsonView::Bool(is_error))
            &&& byte_len(text) <= 262_144 ==> {
                &&& v.get("output"@) == Some(JsonView::Str(text))
                &&& v.get("output_truncated"@) == Some(JsonView::Bool(false))
            }
            &&& byte_len(text) > 262_144 ==> {
                &&& v.get("output"@) == Some(
                    JsonView::Str(text.take(boundary_below(text, 262_144))),
                )
                &&& v.get("output_truncated"@) == Some(JsonView::Bool(true))
            }
        }),
        ({
            let v = event_value(EventView::TurnDone { usage }, words);
            &&& v.get("kind"@) == Some(JsonView::Str("turn_done"@))
            &&& v.get("usage"@) == Some(usage_value(usage))
        }),
{
    lemma_event_fields_differ();
}

/// Usage is written as the two counts.
pub proof fn law_usage_is_written(usage: Usage)
    ensures
        usage_value(usage).get("input_tokens"@) == Some(
            JsonView::Num(NumView::Int(usage.input_tokens as int)),
        ),
        usage_value(usage).get("output_tokens"@) == Some(
            JsonView::Num(NumView::Int(usage.output_tokens as int)),
        ),
{
    lemma_event_fields_differ();
}

/// A prompt in the background waits as a user's message with its words.
pub proof fn law_background_prompt_is_a_message(prompt: Seq<char>)
    ensures
        prompt_payload(prompt).message() matches Ok(m) && m.role == Role::User && m.content.len()
            == 1 && m.content[0] == (BlockView::Text { text: prompt }),
        prompt_payload(prompt) is Message,
{
}

// ── The dashboard ───────────────────────────────────────────────────────────

/// A session's row has its derived state: working only while its process lives.
pub proof fn law_rows_show_the_derived_state(
    sessions: Seq<SessionView>,
    alive: Seq<bool>,
    i: int,
)
    requires
        0 <= i < sessions.len(),
    ensures
        rows_of(sessions, alive).len() == sessions.len(),
        rows_of(sessions, alive)[i].session == sessions[i],
        rows_of(sessions, alive)[i].status == derived(sessions[i].status, alive[i]),
{
}

/// Working sessions come before idle ones, then those that failed, then those
/// that completed; among equals the one that changed last comes first.
pub proof fn law_rows_are_ordered(a: RowView, b: RowView)
    ensures
        a.status == b.status ==> row_le(a, b) == lex_le(
            b.session.updated_at,
            a.session.updated_at,
        ),
        a.status == AgentStatus::Working && b.status != AgentStatus::Working ==> row_le(a, b)
            && !row_le(b, a),
        a.status == AgentStatus::Idle && (b.status == AgentStatus::Failed || b.status
            == AgentStatus::Completed) ==> row_le(a, b) && !row_le(b, a),
        a.status == AgentStatus::Failed && b.status == AgentStatus::Completed ==> row_le(a, b)
            && !row_le(b, a),
{
}

/// A stored state is read by its name; only a running session asks whether its
/// process lives.
pub proof fn law_state_is_derived(status: Seq<char>, alive: bool)
    ensures
        derived("running"@, true) == AgentStatus::Working,
        derived("running"@, false) == AgentStatus::Failed,
        derived("completed"@, alive) == AgentStatus::Completed,
        derived("failed"@, alive) == AgentStatus::Failed,
        status != "running"@ && status != "completed"@ && status != "failed"@ ==> derived(
            status,
            alive,
        ) == AgentStatus::Idle,
{
    reveal_strlit("running");
    reveal_strlit("completed");
    reveal_strlit("failed");
    assert("running"@.len() == 7 && "completed"@.len() == 9 && "failed"@.len() == 6);
}

/// Keys: what is typed joins the input and the backspace takes the last of it;
/// the arrows move the selection by one, within the list; a space on an empty
/// line looks into the selected session and back.
pub proof fn law_keys_do_what_they_say(app: AppView, c: char)
    requires
        app.wf(),
    ensures
        ({
            let (n, a) = app.pressed(Key::Char(c));
            &&& a is Stay
            &&& (c != ' ' || app.input.len() > 0) ==> n.input == app.input.push(c) && n.selected
                == app.selected && n.peek == app.peek && n.rows == app.rows
            &&& c == ' ' && app.input.len() == 0 ==> n.input == app.input && n.peek == (!app.peek
                && app.rows.len() > 0) && n.selected == app.selected
        }),
        ({
            let (n, a) = app.pressed(Key::Backspace);
            &&& a is Stay
            &&& n.input == (if app.input.len() > 0 {
                app.input.drop_last()
            } else {
                app.input
            })
            &&& n.rows == app.rows && n.selected == app.selected
        }),
        ({
            let (n, a) = app.pressed(Key::Up);
            &&& a is Stay
            &&& n.selected == (if app.selected > 0 {
                app.selected - 1
            } else {
                0
            })
            &&& !n.peek
            &&& n.input == app.input && n.rows == app.rows
        }),
        ({
            let (n, a) = app.pressed(Key::Down);
            &&& a is Stay
            &&& n.selected == (if app.selected + 1 < app.rows.len() {
                app.selected + 1
            } else {
                app.selected
            })
            &&& !n.peek
            &&& n.input == app.input && n.rows == app.rows
        }),
        app.pressed(Key::Interrupt).1 is Quit,
        app.pressed(Key::Other) == (app, ActionView::Stay),
{
}

/// Escape leaves one thing at a time: the look into a session, then what was
/// typed, then the program.
pub proof fn law_escape_leaves_one_thing(app: AppView)
    ensures
        ({
            let (n, a) = app.pressed(Key::Esc);
            &&& app.peek ==> a is Stay && !n.peek && n.input == app.input
            &&& !app.peek && app.input.len() > 0 ==> a is Stay && n.input.len() == 0
            &&& !app.peek && app.input.len() == 0 ==> a is Quit
            &&& n.rows == app.rows
            &&& n.selected == app.selected
        }),
{
}

/// Enter dispatches what was typed, without the space around it, where it is
/// long enough to be a task; one that is too short stays, and is said to be.
pub proof fn law_enter_dispatches(app: AppView)
    ensures
        ({
            let (n, a) = app.pressed(Key::Enter);
            let text = trim(app.input);
            &&& byte_len(text) >= 4 ==> a == ActionView::Dispatch(text) && n.input.len() == 0
            &&& byte_len(text) < 4 ==> a is Stay && n.input == app.input
            &&& byte_len(text) < 4 && text.len() > 0 ==> n.error is Some
            &&& text.len() == 0 && byte_len(text) < 4 ==> n == app
            &&& n.rows == app.rows
            &&& n.selected == app.selected
        }),
{
}

/// A refresh shows the new rows and keeps the selection where it can.
pub proof fn law_refresh_keeps_the_selection(app: AppView, rows: Seq<RowView>)
    ensures
        app.refreshed(rows).rows == rows,
        app.refreshed(rows).input == app.input,
        app.refreshed(rows).peek == app.peek,
        app.selected < rows.len() ==> app.refreshed(rows).selected == app.selected,
        app.selected >= rows.len() && rows.len() > 0 ==> app.refreshed(rows).selected
            == rows.len() - 1,
        0 <= app.selected < app.rows.len() ==> app.selected_session() == Some(
            app.rows[app.selected].session,
        ),
{
}

/// The count of working sessions counts those and no others.
pub proof fn law_working_are_counted(rows: Seq<RowView>)
    ensures
        working_in(rows) == rank(
            rows,
            rows.len() as int,
            |r: RowView| r.status == AgentStatus::Working,
        ),
    decreases rows.len(),
{
    if rows.len() > 0 {
        let f = |r: RowView| r.status == AgentStatus::Working;
        law_working_are_counted(rows.drop_last());
        lemma_rank_of_front(rows, rows.drop_last(), rows.len() - 1, f);
    }
}

/// The list has a line for each session, under the name of its state where that
/// changes, and marks the one that is selected.
pub proof fn law_list_shows_each_session(rows: Seq<RowView>, row: RowView, selected: int)
    ensures
        ({
            let on = rows.len() == selected;
            let line = ListLineView::Session { text: row_text(row.session, on), selected: on };
            let all = list_of(rows.push(row), selected);
            &&& rows.len() > 0 && rows.last().status == row.status ==> all == list_of(
                rows,
                selected,
            ).push(line)
            &&& rows.len() == 0 || rows.last().status != row.status ==> all == list_of(
                rows,
                selected,
            ).push(ListLineView::Group(row.status)).push(line)
        }),
        list_of(Seq::empty(), selected).len() == 0,
{
    assert(rows.push(row).drop_last() =~= rows);
}

/// A session's line says whether it is selected, which it is, its provider, what
/// it used, its title up to a width, and whether it is a child.
pub proof fn law_row_says_what_it_is(session: SessionView, selected: bool)
    ensures
        row_text(session, selected) == (if selected {
            "› "@
        } else {
            "  "@
        }) + short(session.id) + "  "@ + padded(session.provider, 10) + "  "@ + (right_padded(
            dec(session.usage.input_tokens as nat),
            6,
        ) + "/"@ + padded(dec(session.usage.output_tokens as nat), 6)) + "  "@ + (if title_of(
            session,
        ).len() > 48 {
            title_of(session).take(48)
        } else {
            title_of(session)
        }) + (if session.parent_session_id is Some {
            " ↳"@
        } else {
            ""@
        }),
        session.title.len() > 0 ==> title_of(session) == session.title,
        session.title.len() == 0 ==> title_of(session) == "(untitled)"@,
{
}

/// A look into a session shows which it is, its worktree where it has one, every
/// line of what it said last, and how to go on with it.
pub proof fn law_peek_shows_every_line(session: SessionView, latest: Seq<char>, i: int)
    requires
        0 <= i < lines(latest).len(),
    ensures
        ({
            let shown = peek_of(session, latest);
            let above: int = if session.worktree_path is Some {
                3
            } else {
                2
            };
            &&& shown.len() == above + lines(latest).len() + 2
            &&& shown[0].text == short(session.id) + "  ("@ + session.provider + ")"@
            &&& session.worktree_path matches Some(path) ==> shown[1].text == "worktree "@ + path
            &&& shown[above + i].text == lines(latest)[i]
            &&& shown[above + i].tone == Tone::Plain
            &&& shown.last().text == "continue with:  bullpen run -r "@ + short(session.id)
                + " \"…\""@
        }),
{
}

/// What a session said last is the text of the last message that the assistant
/// wrote, where it says anything.
pub proof fn law_latest_is_the_last_answer(messages: Seq<MessageView>, i: int)
    requires
        0 <= i < messages.len(),
        messages[i].role == Role::Assistant,
        forall|j: int| i < j < messages.len() ==> (#[trigger] messages[j]).role != Role::Assistant,
    ensures
        messages[i].text().len() > 0 ==> latest_of(messages) == messages[i].text(),
        messages[i].text().len() == 0 ==> latest_of(messages) == "(no output yet)"@,
        latest_of(Seq::empty()) == "(no output yet)"@,
{
    lemma_last_said(messages, i);
}

proof fn lemma_last_said(messages: Seq<MessageView>, i: int)
    requires
        0 <= i < messages.len(),
        messages[i].role == Role::Assistant,
        forall|j: int| i < j < messages.len() ==> (#[trigger] messages[j]).role != Role::Assistant,
    ensures
        last_said(messages) == Some(messages[i].text()),
    decreases messages.len(),
{
    if i < messages.len() - 1 {
        let rest = messages.drop_last();
        assert(messages[messages.len() - 1].role != Role::Assistant);
        assert forall|j: int| i < j < rest.len() implies (#[trigger] rest[j]).role
            != Role::Assistant by {
            assert(rest[j] == messages[j]);
        }
        lemma_last_said(rest, i);
    }
}

/// A tool's start is shown with its input as JSON.
pub proof fn law_input_is_shown_as_json(id: Seq<char>, name: Seq<char>, input: JsonView)
    ensures
        input_words(EventView::ToolStart { id, name, input }) == json_text(input),
{
}

} // verus!
