//! ChatGPT/Codex subscription adapter.
//!
//! Speaks the OpenAI Responses shape against the Codex subscription backend,
//! which streams results over server-sent events. Two quirks of the wire:
//! - the backend omits `output` from the terminal `response.completed` event,
//!   so content is assembled from per-item `response.output_item.done` events;
//! - encrypted `reasoning` items must be replayed verbatim on later turns.
//!   They are carried through the transcript as opaque blocks tagged `codex`
//!   and replayed only by this adapter.
use vstd::prelude::*;
use vstd::string::*;

use super::{
    outcome, BlockView, ContentBlock, Message, MessageView, ProviderError, ProviderErrorView,
    Request, RequestView, Response, ResponseView, Role, StopReason, StopReasonView, ToolSpec,
    ToolSpecView, Usage,
};
use super::chatcompletions::{arguments_of, result_text};
use super::sse::{data_lines, payloads};
use crate::json::{items_view, json_of, json_text, parse, to_text, Json, JsonView};
use crate::text::{contains, holds, lemma_step, lines, same, trimmed, views};

verus! {

pub const CODEX_ENDPOINT: &'static str = "https://chatgpt.com/backend-api/codex/responses";

/// Fallback when nothing else supplies a model.
pub const DEFAULT_CODEX_MODEL: &'static str = "gpt-5.6-sol";

pub const OPAQUE_PROVIDER: &'static str = "codex";

/// A subscription access token and its ChatGPT account id.
#[derive(Debug)]
pub struct CodexToken {
    pub access_token: String,
    pub account_id: String,
}

/// The subscription backend.
#[derive(Debug)]
pub struct Codex {
    endpoint: String,
}

impl View for Codex {
    type V = Seq<char>;

    closed spec fn view(&self) -> Seq<char> {
        self.endpoint@
    }
}

impl Codex {
    /// The backend at its usual address.
    pub fn new() -> (r: Self)
        ensures
            r@ == CODEX_ENDPOINT@,
    {
        Codex { endpoint: CODEX_ENDPOINT.to_owned() }
    }

    /// The backend at another address.
    pub fn with_endpoint(self, endpoint: &str) -> (r: Self)
        ensures
            r@ == endpoint@,
    {
        Codex { endpoint: endpoint.to_owned() }
    }

    /// The provider's name.
    pub fn name(&self) -> (r: &'static str)
        ensures
            r@ == "codex"@,
    {
        "codex"
    }

    /// Where requests go.
    pub fn url(&self) -> (r: &str)
        ensures
            r@ == self@,
    {
        self.endpoint.as_str()
    }

    /// The headers of a request.
    pub fn headers(&self, token: &CodexToken) -> (r: Vec<(String, String)>)
        ensures
            r@.map_values(|h: (String, String)| (h.0@, h.1@)) == seq![
                ("Content-Type"@, "application/json"@),
                ("Accept"@, "text/event-stream"@),
                ("Authorization"@, "Bearer "@ + token.access_token@),
                ("chatgpt-account-id"@, token.account_id@),
                ("originator"@, "bullpen"@),
                ("OpenAI-Beta"@, "responses=experimental"@),
            ],
    {
        let bearer = "Bearer ".to_owned().concat(token.access_token.as_str());
        let mut out: Vec<(String, String)> = Vec::new();
        out.push(("Content-Type".to_owned(), "application/json".to_owned()));
        out.push(("Accept".to_owned(), "text/event-stream".to_owned()));
        out.push(("Authorization".to_owned(), bearer));
        out.push(("chatgpt-account-id".to_owned(), token.account_id.clone()));
        out.push(("originator".to_owned(), "bullpen".to_owned()));
        out.push(("OpenAI-Beta".to_owned(), "responses=experimental".to_owned()));
        proof {
            assert(out@.map_values(|h: (String, String)| (h.0@, h.1@)) =~= seq![
                ("Content-Type"@, "application/json"@),
                ("Accept"@, "text/event-stream"@),
                ("Authorization"@, "Bearer "@ + token.access_token@),
                ("chatgpt-account-id"@, token.account_id@),
                ("originator"@, "bullpen"@),
                ("OpenAI-Beta"@, "responses=experimental"@),
            ]);
        }
        out
    }
}

// ── Requests ────────────────────────────────────────────────────────────────

/// Whether a field holds a text that is not empty.
pub open spec fn says(data: JsonView, key: Seq<char>) -> bool {
    match data.str_field(key) {
        Some(s) => s.len() > 0,
        None => false,
    }
}

/// Whether an opaque item is a reasoning block the backend will accept as
/// replay: type `reasoning`, an id and encrypted content that are not empty,
/// and a summary that is either absent or a real array.
pub open spec fn replayable(data: JsonView) -> bool {
    &&& data.str_field("type"@) == Some("reasoning"@)
    &&& says(data, "id"@)
    &&& says(data, "encrypted_content"@)
    &&& match data.get("summary"@) {
        None => true,
        Some(v) => v is Array,
    }
}

/// An item that carries parts of text.
pub open spec fn wire_parts(role: Seq<char>, parts: Seq<JsonView>) -> JsonView {
    JsonView::object().with("type"@, JsonView::Str("message"@)).with(
        "role"@,
        JsonView::Str(role),
    ).with("content"@, JsonView::Array(parts))
}

/// A part of text.
pub open spec fn wire_part(kind: Seq<char>, text: Seq<char>) -> JsonView {
    JsonView::object().with("type"@, JsonView::Str(kind)).with("text"@, JsonView::Str(text))
}

/// A tool call on the wire.
pub open spec fn wire_call(id: Seq<char>, name: Seq<char>, arguments: Seq<char>) -> JsonView {
    JsonView::object().with("type"@, JsonView::Str("function_call"@)).with(
        "call_id"@,
        JsonView::Str(id),
    ).with("name"@, JsonView::Str(name)).with("arguments"@, JsonView::Str(arguments))
}

/// A tool result on the wire: `output` is there even when empty.
pub open spec fn wire_output(id: Seq<char>, output: Seq<char>) -> JsonView {
    JsonView::object().with("type"@, JsonView::Str("function_call_output"@)).with(
        "call_id"@,
        JsonView::Str(id),
    ).with("output"@, JsonView::Str(output))
}

/// Items with the parts gathered so far closed behind them.
pub open spec fn closed(items: Seq<JsonView>, parts: Seq<JsonView>, role: Seq<char>) -> Seq<
    JsonView,
> {
    if parts.len() == 0 {
        items
    } else {
        items.push(wire_parts(role, parts))
    }
}

/// An assistant's blocks as finished items and parts still open.
pub open spec fn assistant_items(blocks: Seq<BlockView>) -> (Seq<JsonView>, Seq<JsonView>)
    decreases blocks.len(),
{
    if blocks.len() == 0 {
        (Seq::empty(), Seq::empty())
    } else {
        let (items, parts) = assistant_items(blocks.drop_last());
        match blocks.last() {
            BlockView::Text { text } => if text.len() > 0 {
                (items, parts.push(wire_part("output_text"@, text)))
            } else {
                (items, parts)
            },
            BlockView::ToolUse { id, name, input } => (
                closed(items, parts, "assistant"@).push(wire_call(id, name, json_text(input))),
                Seq::empty(),
            ),
            BlockView::Opaque { provider, data } => if provider == OPAQUE_PROVIDER@ && replayable(
                data,
            ) {
                (closed(items, parts, "assistant"@).push(data), Seq::empty())
            } else {
                (items, parts)
            },
            _ => (items, parts),
        }
    }
}

/// A user's blocks as items for the tool results and parts for the texts.
pub open spec fn user_items(blocks: Seq<BlockView>) -> (Seq<JsonView>, Seq<JsonView>)
    decreases blocks.len(),
{
    if blocks.len() == 0 {
        (Seq::empty(), Seq::empty())
    } else {
        let (items, parts) = user_items(blocks.drop_last());
        match blocks.last() {
            BlockView::ToolResult { tool_use_id, content, is_error } => (
                items.push(wire_output(tool_use_id, result_text(content, is_error))),
                parts,
            ),
            BlockView::Text { text } => if text.len() > 0 {
                (items, parts.push(wire_part("input_text"@, text)))
            } else {
                (items, parts)
            },
            _ => (items, parts),
        }
    }
}

/// A message on the wire.
pub open spec fn wire_message(m: MessageView) -> Seq<JsonView> {
    match m.role {
        Role::Assistant => closed(
            assistant_items(m.content).0,
            assistant_items(m.content).1,
            "assistant"@,
        ),
        Role::User => closed(user_items(m.content).0, user_items(m.content).1, "user"@),
    }
}

/// The messages on the wire, in order.
pub open spec fn wire_input(messages: Seq<MessageView>) -> Seq<JsonView>
    decreases messages.len(),
{
    if messages.len() == 0 {
        Seq::empty()
    } else {
        wire_input(messages.drop_last()) + wire_message(messages.last())
    }
}

/// A tool on the wire.
pub open spec fn wire_tool(t: ToolSpecView) -> JsonView {
    JsonView::object().with("type"@, JsonView::Str("function"@)).with(
        "name"@,
        JsonView::Str(t.name),
    ).with("description"@, JsonView::Str(t.description)).with("parameters"@, t.input_schema)
}

/// A request on the wire. It has no `max_output_tokens`: the subscription
/// backend rejects the parameter outright.
pub open spec fn wire_request(req: RequestView) -> JsonView {
    let instructions = if req.system.len() == 0 {
        "You are a helpful assistant."@
    } else {
        req.system
    };
    JsonView::object().with("model"@, JsonView::Str(req.model)).with(
        "instructions"@,
        JsonView::Str(instructions),
    ).with("input"@, JsonView::Array(wire_input(req.messages))).with(
        "tools"@,
        JsonView::Array(req.tools.map_values(|t: ToolSpecView| wire_tool(t))),
    ).with("tool_choice"@, JsonView::Str("auto"@)).with(
        "include"@,
        JsonView::Array(seq![JsonView::Str("reasoning.encrypted_content"@)]),
    ).with("store"@, JsonView::Bool(false)).with("stream"@, JsonView::Bool(true))
}

fn field_says(data: &Json, key: &str) -> (r: bool)
    ensures
        r == says(data@, key@),
{
    match data.str_field(key) {
        Some(s) => !s.is_empty(),
        None => false,
    }
}

/// Whether an opaque item is a reasoning block the backend will accept as
/// replay.
pub fn replayable_reasoning(data: &Json) -> (r: bool)
    ensures
        r == replayable(data@),
{
    let typed = match data.str_field("type") {
        Some(t) => same(t, "reasoning"),
        None => false,
    };
    if !typed || !field_says(data, "id") || !field_says(data, "encrypted_content") {
        return false;
    }
    match data.get("summary") {
        None => true,
        Some(v) => v.as_array().is_some(),
    }
}

/// A tool call on the wire, its arguments printed.
pub fn call_to_wire(id: &str, name: &str, arguments: &str) -> (r: Json)
    ensures
        r@ == wire_call(id@, name@, arguments@),
{
    Json::object().with("type", Json::text("function_call")).with("call_id", Json::text(id)).with(
        "name",
        Json::text(name),
    ).with("arguments", Json::text(arguments))
}

fn part_to_wire(kind: &str, text: &str) -> (r: Json)
    ensures
        r@ == wire_part(kind@, text@),
{
    Json::object().with("type", Json::text(kind)).with("text", Json::text(text))
}

fn push_item(items: &mut Vec<Json>, item: Json)
    ensures
        items_view(final(items)@) == items_view(old(items)@).push(item@),
{
    let ghost before = items@;
    let ghost iv = item@;
    items.push(item);
    proof {
        assert(items_view(items@) =~= items_view(before).push(iv));
    }
}

fn close_parts(items: &mut Vec<Json>, parts: Vec<Json>, role: &str)
    ensures
        items_view(final(items)@) == closed(items_view(old(items)@), items_view(parts@), role@),
{
    proof {
        assert(items_view(parts@).len() == parts@.len());
    }
    if parts.len() > 0 {
        let v = Json::object().with("type", Json::text("message")).with(
            "role",
            Json::text(role),
        ).with("content", Json::Array(parts));
        push_item(items, v);
    }
}

fn assistant_to_wire(blocks: &Vec<ContentBlock>) -> (r: Vec<Json>)
    ensures
        items_view(r@) == closed(
            assistant_items(views(blocks@)).0,
            assistant_items(views(blocks@)).1,
            "assistant"@,
        ),
{
    let ghost all = views(blocks@);
    let mut items: Vec<Json> = Vec::new();
    let mut parts: Vec<Json> = Vec::new();
    let mut i: usize = 0;
    proof {
        assert(items_view(items@) =~= assistant_items(all.take(0)).0);
        assert(items_view(parts@) =~= assistant_items(all.take(0)).1);
    }
    while i < blocks.len()
        invariant
            all == views(blocks@),
            i <= blocks@.len(),
            items_view(items@) == assistant_items(all.take(i as int)).0,
            items_view(parts@) == assistant_items(all.take(i as int)).1,
        decreases blocks@.len() - i,
    {
        proof {
            lemma_step(all, i as int);
            assert(all[i as int] == blocks@[i as int]@);
        }
        match &blocks[i] {
            ContentBlock::Text { text } => {
                if !text.as_str().is_empty() {
                    push_item(&mut parts, part_to_wire("output_text", text.as_str()));
                }
            },
            ContentBlock::ToolUse { id, name, input } => {
                let mut open: Vec<Json> = Vec::new();
                std::mem::swap(&mut open, &mut parts);
                close_parts(&mut items, open, "assistant");
                let arguments = to_text(input);
                push_item(
                    &mut items,
                    call_to_wire(id.as_str(), name.as_str(), arguments.as_str()),
                );
                proof {
                    assert(items_view(parts@) =~= Seq::<JsonView>::empty());
                }
            },
            ContentBlock::Opaque { provider, data } => {
                if same(provider.as_str(), OPAQUE_PROVIDER) && replayable_reasoning(data) {
                    let mut open: Vec<Json> = Vec::new();
                    std::mem::swap(&mut open, &mut parts);
                    close_parts(&mut items, open, "assistant");
                    push_item(&mut items, data.clone());
                    proof {
                        assert(items_view(parts@) =~= Seq::<JsonView>::empty());
                    }
                }
            },
            ContentBlock::ToolResult { tool_use_id, content, is_error } => {},
        }
        i += 1;
    }
    proof {
        assert(all.take(i as int) =~= all);
    }
    close_parts(&mut items, parts, "assistant");
    items
}

fn user_to_wire(blocks: &Vec<ContentBlock>) -> (r: Vec<Json>)
    ensures
        items_view(r@) == closed(
            user_items(views(blocks@)).0,
            user_items(views(blocks@)).1,
            "user"@,
        ),
{
    let ghost all = views(blocks@);
    let mut items: Vec<Json> = Vec::new();
    let mut parts: Vec<Json> = Vec::new();
    let mut i: usize = 0;
    proof {
        assert(items_view(items@) =~= user_items(all.take(0)).0);
        assert(items_view(parts@) =~= user_items(all.take(0)).1);
    }
    while i < blocks.len()
        invariant
            all == views(blocks@),
            i <= blocks@.len(),
            items_view(items@) == user_items(all.take(i as int)).0,
            items_view(parts@) == user_items(all.take(i as int)).1,
        decreases blocks@.len() - i,
    {
        proof {
            lemma_step(all, i as int);
            assert(all[i as int] == blocks@[i as int]@);
        }
        match &blocks[i] {
            ContentBlock::ToolResult { tool_use_id, content, is_error } => {
                let said = if *is_error {
                    "ERROR: ".to_owned().concat(content.as_str())
                } else {
                    content.clone()
                };
                push_item(
                    &mut items,
                    Json::object().with("type", Json::text("function_call_output")).with(
                        "call_id",
                        Json::text(tool_use_id.as_str()),
                    ).with("output", Json::text(said.as_str())),
                );
            },
            ContentBlock::Text { text } => {
                if !text.as_str().is_empty() {
                    push_item(&mut parts, part_to_wire("input_text", text.as_str()));
                }
            },
            _ => {},
        }
        i += 1;
    }
    proof {
        assert(all.take(i as int) =~= all);
    }
    close_parts(&mut items, parts, "user");
    items
}

/// The messages on the wire, in order.
pub fn to_input(messages: &Vec<Message>) -> (r: Vec<Json>)
    ensures
        items_view(r@) == wire_input(views(messages@)),
{
    let ghost all = views(messages@);
    let mut out: Vec<Json> = Vec::new();
    let mut i: usize = 0;
    proof {
        assert(items_view(out@) =~= wire_input(all.take(0)));
    }
    while i < messages.len()
        invariant
            all == views(messages@),
            i <= messages@.len(),
            items_view(out@) == wire_input(all.take(i as int)),
        decreases messages@.len() - i,
    {
        proof {
            lemma_step(all, i as int);
            assert(all[i as int] == messages@[i as int]@);
        }
        let m = &messages[i];
        let mut more = match m.role {
            Role::Assistant => assistant_to_wire(&m.content),
            Role::User => user_to_wire(&m.content),
        };
        let ghost before = out@;
        let ghost added = more@;
        out.append(&mut more);
        proof {
            assert(items_view(out@) =~= items_view(before) + items_view(added));
        }
        i += 1;
    }
    proof {
        assert(all.take(i as int) =~= all);
    }
    out
}

fn tools_to_wire(tools: &Vec<ToolSpec>) -> (r: Vec<Json>)
    ensures
        items_view(r@) == views(tools@).map_values(|t: ToolSpecView| wire_tool(t)),
{
    let mut out: Vec<Json> = Vec::new();
    let mut i: usize = 0;
    while i < tools.len()
        invariant
            i <= tools@.len(),
            out@.len() == i,
            forall|j: int| 0 <= j < i ==> #[trigger] out@[j]@ == wire_tool(tools@[j]@),
        decreases tools@.len() - i,
    {
        let t = &tools[i];
        out.push(
            Json::object().with("type", Json::text("function")).with(
                "name",
                Json::text(t.name.as_str()),
            ).with("description", Json::text(t.description.as_str())).with(
                "parameters",
                t.input_schema.clone(),
            ),
        );
        i += 1;
    }
    proof {
        let want = views(tools@).map_values(|t: ToolSpecView| wire_tool(t));
        assert forall|j: int| 0 <= j < out@.len() implies #[trigger] items_view(out@)[j]
            == want[j] by {
            assert(out@[j]@ == wire_tool(tools@[j]@));
        }
        assert(items_view(out@) =~= want);
    }
    out
}

/// A request on the wire.
pub fn build_request(req: &Request) -> (r: Json)
    ensures
        r@ == wire_request(req@),
{
    let instructions = if req.system.as_str().is_empty() {
        Json::text("You are a helpful assistant.")
    } else {
        Json::text(req.system.as_str())
    };
    let input = to_input(&req.messages);
    let tools = tools_to_wire(&req.tools);
    let mut asked: Vec<Json> = Vec::new();
    asked.push(Json::text("reasoning.encrypted_content"));
    proof {
        assert(items_view(asked@) =~= seq![JsonView::Str("reasoning.encrypted_content"@)]);
    }
    Json::object().with("model", Json::text(req.model.as_str())).with(
        "instructions",
        instructions,
    ).with("input", Json::Array(input)).with("tools", Json::Array(tools)).with(
        "tool_choice",
        Json::text("auto"),
    ).with("include", Json::Array(asked)).with("store", Json::Bool(false)).with(
        "stream",
        Json::Bool(true),
    )
}

// ── Responses ───────────────────────────────────────────────────────────────

/// A text field, or nothing where there is none.
pub open spec fn text_or_empty(v: JsonView, key: Seq<char>) -> Seq<char> {
    match v.str_field(key) {
        Some(s) => s,
        None => Seq::empty(),
    }
}

/// What a part of a message says.
pub open spec fn part_text(part: JsonView) -> Seq<char> {
    let kind = text_or_empty(part, "type"@);
    if kind == "output_text"@ {
        text_or_empty(part, "text"@)
    } else if kind == "refusal"@ {
        if says(part, "refusal"@) {
            text_or_empty(part, "refusal"@)
        } else {
            "The model refused to provide a response."@
        }
    } else {
        Seq::empty()
    }
}

/// What the parts of a message say together.
pub open spec fn parts_text(parts: Seq<JsonView>) -> Seq<char>
    decreases parts.len(),
{
    if parts.len() == 0 {
        Seq::empty()
    } else {
        parts_text(parts.drop_last()) + part_text(parts.last())
    }
}

/// The items of an array field, or nothing where there is none.
pub open spec fn items_of(v: JsonView, key: Seq<char>) -> Seq<JsonView> {
    match v.array_field(key) {
        Some(items) => items,
        None => Seq::empty(),
    }
}

/// The block of a call whose arguments were read.
pub open spec fn call_block(item: JsonView, input: Result<JsonView, Seq<char>>) -> Result<
    BlockView,
    ProviderErrorView,
> {
    match input {
        Ok(input) => Ok(
            BlockView::ToolUse {
                id: text_or_empty(item, "call_id"@),
                name: text_or_empty(item, "name"@),
                input,
            },
        ),
        Err(e) => Err(ProviderErrorView::Malformed("tool arguments are not JSON: "@ + e)),
    }
}

/// The block an output item stands for, if it stands for one.
pub open spec fn item_block(item: JsonView) -> Result<Option<BlockView>, ProviderErrorView> {
    let kind = text_or_empty(item, "type"@);
    if kind == "message"@ {
        let text = parts_text(items_of(item, "content"@));
        if text.len() == 0 {
            Ok(None)
        } else {
            Ok(Some(BlockView::Text { text }))
        }
    } else if kind == "function_call"@ {
        match call_block(item, arguments_of(text_or_empty(item, "arguments"@))) {
            Ok(b) => Ok(Some(b)),
            Err(e) => Err(e),
        }
    } else if kind == "reasoning"@ {
        Ok(Some(BlockView::Opaque { provider: OPAQUE_PROVIDER@, data: item }))
    } else {
        Ok(None)
    }
}

/// The blocks of the output items, in order, and whether one is a call.
pub open spec fn output_blocks(items: Seq<JsonView>) -> Result<
    (Seq<BlockView>, bool),
    ProviderErrorView,
>
    decreases items.len(),
{
    if items.len() == 0 {
        Ok((Seq::empty(), false))
    } else {
        match output_blocks(items.drop_last()) {
            Err(e) => Err(e),
            Ok((before, called)) => match item_block(items.last()) {
                Err(e) => Err(e),
                Ok(None) => Ok((before, called)),
                Ok(Some(b)) => Ok((before.push(b), called || b is ToolUse)),
            },
        }
    }
}

/// The message of an error object.
pub open spec fn error_message(v: JsonView) -> Option<Seq<char>> {
    match v.get("error"@) {
        Some(e) => e.str_field("message"@),
        None => None,
    }
}

/// Whether a response was cut short by its token limit.
pub open spec fn cut_short(body: JsonView) -> bool {
    &&& body.str_field("status"@) == Some("incomplete"@)
    &&& match body.get("incomplete_details"@) {
        Some(d) => d.str_field("reason"@) == Some("max_output_tokens"@),
        None => false,
    }
}

/// A count in a response's usage, zero where there is none.
pub open spec fn tokens(body: JsonView, key: Seq<char>) -> u64 {
    match body.get("usage"@) {
        Some(u) => match u.nat_field(key) {
            Some(n) => n as u64,
            None => 0,
        },
        None => 0,
    }
}

/// What a response body says.
pub open spec fn body_response(body: JsonView) -> Result<ResponseView, ProviderErrorView> {
    match error_message(body) {
        Some(message) => Err(ProviderErrorView::Failure("codex: "@ + message)),
        None => match output_blocks(items_of(body, "output"@)) {
            Err(e) => Err(e),
            Ok((content, called)) => Ok(
                ResponseView {
                    content,
                    stop_reason: if called {
                        StopReasonView::ToolUse
                    } else if cut_short(body) {
                        StopReasonView::MaxTokens
                    } else {
                        StopReasonView::EndTurn
                    },
                    usage: Usage {
                        input_tokens: tokens(body, "input_tokens"@),
                        output_tokens: tokens(body, "output_tokens"@),
                    },
                },
            ),
        },
    }
}

/// What an event that reports a failure says.
pub open spec fn failure_message(ev: JsonView) -> Seq<char> {
    match error_message(ev) {
        Some(m) => m,
        None => match ev.str_field("message"@) {
            Some(m) => m,
            None => match ev.get("response"@) {
                Some(r) => match error_message(r) {
                    Some(m) => m,
                    None => "request failed"@,
                },
                None => "request failed"@,
            },
        },
    }
}

/// What a stream has said so far: its last completed response, and the items
/// that were done.
pub struct StreamView {
    pub completed: Option<JsonView>,
    pub items: Seq<JsonView>,
}

/// A stream after one more payload; one that is no JSON object is ignored.
pub open spec fn after_event(s: StreamView, event: Result<JsonView, Seq<char>>) -> Result<
    StreamView,
    ProviderErrorView,
> {
    match event {
        Err(_) => Ok(s),
        Ok(ev) => {
            let kind = text_or_empty(ev, "type"@);
            if kind == "response.output_item.done"@ {
                match ev.get("item"@) {
                    Some(item) => Ok(StreamView { items: s.items.push(item), ..s }),
                    None => Ok(s),
                }
            } else if kind == "response.completed"@ || kind == "response.incomplete"@ {
                Ok(StreamView { completed: ev.get("response"@), ..s })
            } else if kind == "response.failed"@ || kind == "error"@ {
                Err(ProviderErrorView::Failure("codex: "@ + failure_message(ev)))
            } else {
                Ok(s)
            }
        },
    }
}

/// What a stream's payloads say.
pub open spec fn stream_state(data: Seq<Seq<char>>) -> Result<StreamView, ProviderErrorView>
    decreases data.len(),
{
    if data.len() == 0 {
        Ok(StreamView { completed: None, items: Seq::empty() })
    } else {
        match stream_state(data.drop_last()) {
            Err(e) => Err(e),
            Ok(s) => after_event(s, json_of(data.last())),
        }
    }
}

/// Whether a completed response has its output, or can be given it.
pub open spec fn fillable(completed: JsonView) -> bool {
    items_of(completed, "output"@).len() > 0 || completed is Object || completed is Null
}

/// A completed response with its output: its own where it has one, else the
/// items that were done.
pub open spec fn filled(completed: JsonView, items: Seq<JsonView>) -> JsonView {
    if items_of(completed, "output"@).len() > 0 {
        completed
    } else {
        completed.with("output"@, JsonView::Array(items))
    }
}

/// What a reply holds: a whole body, or a completed response and the items
/// that were done, as values.
pub enum ReplyView {
    Body(JsonView),
    Completed { response: JsonView, items: Seq<JsonView> },
}

impl ReplyView {
    /// Whether the reply can be read.
    pub open spec fn wf(self) -> bool {
        match self {
            ReplyView::Body(_) => true,
            ReplyView::Completed { response, items } => fillable(response),
        }
    }
}

/// What a reply holds.
pub open spec fn reply_of(raw: Seq<char>) -> Result<ReplyView, ProviderErrorView> {
    if !holds(raw, "data:"@) {
        match json_of(raw) {
            Ok(body) => Ok(ReplyView::Body(body)),
            Err(e) => Err(
                ProviderErrorView::Malformed("decode: "@ + e + " (body: "@ + raw + ")"@),
            ),
        }
    } else {
        match stream_state(payloads(lines(raw))) {
            Err(e) => Err(e),
            Ok(s) => match s.completed {
                Some(response) => Ok(ReplyView::Completed { response, items: s.items }),
                None => Err(
                    ProviderErrorView::Failure(
                        "codex: stream ended without a completed response"@,
                    ),
                ),
            },
        }
    }
}

/// What a reply says.
pub open spec fn reply_response(reply: ReplyView) -> Result<ResponseView, ProviderErrorView> {
    match reply {
        ReplyView::Body(body) => body_response(body),
        ReplyView::Completed { response, items } => body_response(filled(response, items)),
    }
}

fn field_or_empty<'a>(v: &'a Json, key: &str) -> (r: &'a str)
    ensures
        r@ == text_or_empty(v@, key@),
{
    match v.str_field(key) {
        Some(s) => s,
        None => {
            proof {
                reveal_strlit("");
                assert(""@ =~= Seq::<char>::empty());
            }
            ""
        },
    }
}

fn push_part(text: &mut String, part: &Json)
    ensures
        final(text)@ == old(text)@ + part_text(part@),
{
    let kind = field_or_empty(part, "type");
    if same(kind, "output_text") {
        text.append(field_or_empty(part, "text"));
    } else if same(kind, "refusal") {
        let refusal = field_or_empty(part, "refusal");
        if refusal.is_empty() {
            text.append("The model refused to provide a response.");
        } else {
            text.append(refusal);
        }
    } else {
        proof {
            assert(text@ + Seq::<char>::empty() =~= text@);
        }
    }
}

fn message_text(item: &Json) -> (r: String)
    ensures
        r@ == parts_text(items_of(item@, "content"@)),
{
    let mut text = String::new();
    match item.array_field("content") {
        None => {
            proof {
                assert(text@ =~= parts_text(Seq::empty()));
            }
        },
        Some(parts) => {
            let ghost all = items_view(parts@);
            let mut i: usize = 0;
            proof {
                assert(text@ =~= parts_text(all.take(0)));
            }
            while i < parts.len()
                invariant
                    all == items_view(parts@),
                    i <= parts@.len(),
                    text@ == parts_text(all.take(i as int)),
                decreases parts@.len() - i,
            {
                proof {
                    lemma_step(all, i as int);
                    assert(all[i as int] == parts@[i as int]@);
                }
                push_part(&mut text, &parts[i]);
                i += 1;
            }
            proof {
                assert(all.take(i as int) =~= all);
            }
        },
    }
    text
}

/// A parse result, as a value.
pub open spec fn parsed(r: Result<Json, String>) -> Result<JsonView, Seq<char>> {
    match r {
        Ok(v) => Ok(v@),
        Err(e) => Err(e@),
    }
}

/// The block of a call whose arguments were read.
pub fn call_from_wire(item: &Json, input: Result<Json, String>) -> (r: Result<
    ContentBlock,
    ProviderError,
>)
    ensures
        match r {
            Ok(b) => call_block(item@, parsed(input)) == Ok::<BlockView, ProviderErrorView>(b@),
            Err(e) => call_block(item@, parsed(input)) == Err::<BlockView, ProviderErrorView>(e@),
        },
{
    match input {
        Ok(input) => Ok(
            ContentBlock::ToolUse {
                id: field_or_empty(item, "call_id").to_owned(),
                name: field_or_empty(item, "name").to_owned(),
                input,
            },
        ),
        Err(e) => Err(
            ProviderError::Malformed(
                "tool arguments are not JSON: ".to_owned().concat(e.as_str()),
            ),
        ),
    }
}

fn block_of(item: &Json) -> (r: Result<Option<ContentBlock>, ProviderError>)
    ensures
        match r {
            Ok(Some(b)) => item_block(item@) == Ok::<Option<BlockView>, ProviderErrorView>(
                Some(b@),
            ),
            Ok(None) => item_block(item@) == Ok::<Option<BlockView>, ProviderErrorView>(None),
            Err(e) => item_block(item@) == Err::<Option<BlockView>, ProviderErrorView>(e@),
        },
{
    let kind = field_or_empty(item, "type");
    if same(kind, "message") {
        let text = message_text(item);
        if text.as_str().is_empty() {
            Ok(None)
        } else {
            Ok(Some(ContentBlock::Text { text }))
        }
    } else if same(kind, "function_call") {
        let arguments = field_or_empty(item, "arguments");
        let blank = trimmed(arguments);
        let input = if blank.as_str().is_empty() {
            Ok(Json::object())
        } else {
            parse(arguments)
        };
        match call_from_wire(item, input) {
            Ok(b) => Ok(Some(b)),
            Err(e) => Err(e),
        }
    } else if same(kind, "reasoning") {
        Ok(
            Some(
                ContentBlock::Opaque {
                    provider: OPAQUE_PROVIDER.to_owned(),
                    data: item.clone(),
                },
            ),
        )
    } else {
        Ok(None)
    }
}

fn message_of(v: &Json) -> (r: Option<&str>)
    ensures
        match r {
            Some(s) => error_message(v@) == Some(s@),
            None => error_message(v@) is None,
        },
{
    match v.get("error") {
        Some(e) => e.str_field("message"),
        None => None,
    }
}

/// An item that is wrong spoils the response.
proof fn lemma_item_error(items: Seq<JsonView>, i: int)
    requires
        0 <= i < items.len(),
        output_blocks(items.take(i)) is Ok,
        item_block(items[i]) is Err,
    ensures
        output_blocks(items) == Err::<(Seq<BlockView>, bool), ProviderErrorView>(
            item_block(items[i])->Err_0,
        ),
    decreases items.len(),
{
    if i == items.len() - 1 {
        assert(items.take(i) =~= items.drop_last());
    } else {
        assert(items.drop_last().take(i) =~= items.take(i));
        lemma_item_error(items.drop_last(), i);
    }
}

fn blocks_of(items: &Vec<Json>) -> (r: Result<(Vec<ContentBlock>, bool), ProviderError>)
    ensures
        match r {
            Ok(v) => output_blocks(items_view(items@)) == Ok::<
                (Seq<BlockView>, bool),
                ProviderErrorView,
            >((views(v.0@), v.1)),
            Err(e) => output_blocks(items_view(items@)) == Err::<
                (Seq<BlockView>, bool),
                ProviderErrorView,
            >(e@),
        },
{
    let ghost all = items_view(items@);
    let mut out: Vec<ContentBlock> = Vec::new();
    let mut called = false;
    let mut i: usize = 0;
    proof {
        assert(all.take(0) =~= Seq::<JsonView>::empty());
        assert(views(out@) =~= Seq::<BlockView>::empty());
    }
    while i < items.len()
        invariant
            all == items_view(items@),
            i <= items@.len(),
            output_blocks(all.take(i as int)) == Ok::<(Seq<BlockView>, bool), ProviderErrorView>(
                (views(out@), called),
            ),
        decreases items@.len() - i,
    {
        proof {
            lemma_step(all, i as int);
            assert(all[i as int] == items@[i as int]@);
        }
        match block_of(&items[i]) {
            Err(e) => {
                proof {
                    lemma_item_error(all, i as int);
                }
                return Err(e);
            },
            Ok(None) => {},
            Ok(Some(b)) => {
                let ghost before = out@;
                let ghost bv = b@;
                if let ContentBlock::ToolUse { .. } = &b {
                    called = true;
                }
                out.push(b);
                proof {
                    assert(views(out@) =~= views(before).push(bv));
                }
            },
        }
        i += 1;
    }
    proof {
        assert(all.take(i as int) =~= all);
    }
    Ok((out, called))
}

fn tokens_in(body: &Json, key: &str) -> (r: u64)
    ensures
        r == tokens(body@, key@),
{
    match body.get("usage") {
        Some(u) => match u.u64_field(key) {
            Some(n) => n,
            None => 0,
        },
        None => 0,
    }
}

/// What a response body says.
pub fn to_response(body: &Json) -> (r: Result<Response, ProviderError>)
    ensures
        outcome(r) == body_response(body@),
{
    if let Some(message) = message_of(body) {
        return Err(ProviderError::Failure("codex: ".to_owned().concat(message)));
    }
    let none: Vec<Json> = Vec::new();
    proof {
        assert(items_view(none@) =~= Seq::<JsonView>::empty());
    }
    let items = match body.array_field("output") {
        Some(items) => items,
        None => &none,
    };
    let (content, called) = match blocks_of(items) {
        Err(e) => {
            return Err(e);
        },
        Ok(v) => v,
    };
    let incomplete = match body.str_field("status") {
        Some(s) => same(s, "incomplete"),
        None => false,
    };
    let limited = match body.get("incomplete_details") {
        Some(d) => match d.str_field("reason") {
            Some(s) => same(s, "max_output_tokens"),
            None => false,
        },
        None => false,
    };
    let stop_reason = if called {
        StopReason::ToolUse
    } else if incomplete && limited {
        StopReason::MaxTokens
    } else {
        StopReason::EndTurn
    };
    let usage = Usage {
        input_tokens: tokens_in(body, "input_tokens"),
        output_tokens: tokens_in(body, "output_tokens"),
    };
    Ok(Response { content, stop_reason, usage })
}

/// What a stream has said so far.
#[derive(Debug)]
pub struct Stream {
    pub completed: Option<Json>,
    pub items: Vec<Json>,
}

impl View for Stream {
    type V = StreamView;

    open spec fn view(&self) -> StreamView {
        StreamView {
            completed: match self.completed {
                Some(v) => Some(v@),
                None => None,
            },
            items: items_view(self.items@),
        }
    }
}

impl Stream {
    /// A stream that has said nothing.
    pub fn new() -> (r: Self)
        ensures
            r@ == (StreamView { completed: None, items: Seq::empty() }),
    {
        let s = Stream { completed: None, items: Vec::new() };
        proof {
            assert(s@.items =~= Seq::<JsonView>::empty());
        }
        s
    }

    /// Take in one more payload, as it was parsed.
    pub fn take(&mut self, event: Result<Json, String>) -> (r: Result<(), ProviderError>)
        ensures
            match r {
                Ok(()) => after_event(old(self)@, parsed(event)) == Ok::<
                    StreamView,
                    ProviderErrorView,
                >(final(self)@),
                Err(e) => after_event(old(self)@, parsed(event)) == Err::<
                    StreamView,
                    ProviderErrorView,
                >(e@) && final(self)@ == old(self)@,
            },
    {
        let ev = match event {
            Err(_) => {
                return Ok(());
            },
            Ok(ev) => ev,
        };
        let kind = field_or_empty(&ev, "type");
        if same(kind, "response.output_item.done") {
            if let Some(item) = ev.get("item") {
                push_item(&mut self.items, item.clone());
            }
        } else if same(kind, "response.completed") || same(kind, "response.incomplete") {
            self.completed = match ev.get("response") {
                Some(v) => Some(v.clone()),
                None => None,
            };
        } else if same(kind, "response.failed") || same(kind, "error") {
            let message = match message_of(&ev) {
                Some(m) => m,
                None => match ev.str_field("message") {
                    Some(m) => m,
                    None => match ev.get("response") {
                        Some(r) => match message_of(r) {
                            Some(m) => m,
                            None => "request failed",
                        },
                        None => "request failed",
                    },
                },
            };
            return Err(ProviderError::Failure("codex: ".to_owned().concat(message)));
        }
        Ok(())
    }
}

/// A payload that reports a failure ends the stream.
proof fn lemma_event_error(data: Seq<Seq<char>>, i: int)
    requires
        0 <= i < data.len(),
        stream_state(data.take(i)) is Ok,
        after_event(stream_state(data.take(i))->Ok_0, json_of(data[i])) is Err,
    ensures
        stream_state(data) == Err::<StreamView, ProviderErrorView>(
            after_event(stream_state(data.take(i))->Ok_0, json_of(data[i]))->Err_0,
        ),
    decreases data.len(),
{
    if i == data.len() - 1 {
        assert(data.take(i) =~= data.drop_last());
    } else {
        assert(data.drop_last().take(i) =~= data.take(i));
        lemma_event_error(data.drop_last(), i);
    }
}

/// What a reply holds.
#[derive(Debug)]
pub enum Reply {
    Body(Json),
    Completed { response: Json, items: Vec<Json> },
}

impl View for Reply {
    type V = ReplyView;

    open spec fn view(&self) -> ReplyView {
        match self {
            Reply::Body(body) => ReplyView::Body(body@),
            Reply::Completed { response, items } => ReplyView::Completed {
                response: response@,
                items: items_view(items@),
            },
        }
    }
}

/// What a reply holds: a body where it is no event stream, else the completed
/// response and the items that were done.
pub fn read_reply(raw: &str) -> (r: Result<Reply, ProviderError>)
    ensures
        match r {
            Ok(v) => reply_of(raw@) == Ok::<ReplyView, ProviderErrorView>(v@),
            Err(e) => reply_of(raw@) == Err::<ReplyView, ProviderErrorView>(e@),
        },
{
    if !contains(raw, "data:") {
        return match parse(raw) {
            Ok(body) => Ok(Reply::Body(body)),
            Err(e) => Err(
                ProviderError::Malformed(
                    "decode: ".to_owned().concat(e.as_str()).concat(" (body: ").concat(raw).concat(
                        ")",
                    ),
                ),
            ),
        };
    }
    let data = data_lines(raw);
    let ghost all = views(data@);
    let mut s = Stream::new();
    let mut i: usize = 0;
    proof {
        assert(all.take(0) =~= Seq::<Seq<char>>::empty());
    }
    while i < data.len()
        invariant
            holds(raw@, "data:"@),
            all == views(data@),
            all == payloads(lines(raw@)),
            i <= data@.len(),
            stream_state(all.take(i as int)) == Ok::<StreamView, ProviderErrorView>(s@),
        decreases data@.len() - i,
    {
        proof {
            lemma_step(all, i as int);
            assert(all[i as int] == data@[i as int]@);
        }
        let event = parse(data[i].as_str());
        match s.take(event) {
            Err(e) => {
                proof {
                    lemma_event_error(all, i as int);
                }
                return Err(e);
            },
            Ok(()) => {},
        }
        i += 1;
    }
    proof {
        assert(all.take(i as int) =~= all);
    }
    match s.completed {
        Some(response) => Ok(Reply::Completed { response, items: s.items }),
        None => Err(
            ProviderError::Failure("codex: stream ended without a completed response".to_owned()),
        ),
    }
}

/// What a reply says. The backend leaves `output` empty on the completed
/// response; it is filled from the items that were done. Where the server did
/// say its output, that is preferred.
pub fn assemble(reply: Reply) -> (r: Result<Response, ProviderError>)
    requires
        reply@.wf(),
    ensures
        outcome(r) == reply_response(reply@),
{
    match reply {
        Reply::Body(body) => to_response(&body),
        Reply::Completed { response, items } => {
            let has_output = match response.array_field("output") {
                Some(output) => output.len() > 0,
                None => false,
            };
            if has_output {
                to_response(&response)
            } else {
                let whole = response.with("output", Json::Array(items));
                to_response(&whole)
            }
        },
    }
}

/// What a reply says, or nothing where its completed response is neither an
/// object nor null and so cannot hold an output.
pub fn parse_stream(raw: &str) -> (r: Option<Result<Response, ProviderError>>)
    ensures
        match r {
            Some(v) => match reply_of(raw@) {
                Ok(reply) => reply.wf() && outcome(v) == reply_response(reply),
                Err(e) => outcome(v) == Err::<ResponseView, ProviderErrorView>(e),
            },
            None => reply_of(raw@) is Ok && !reply_of(raw@)->Ok_0.wf(),
        },
{
    let reply = match read_reply(raw) {
        Err(e) => {
            return Some(Err(e));
        },
        Ok(reply) => reply,
    };
    let ok = match &reply {
        Reply::Body(_) => true,
        Reply::Completed { response, items } => {
            let has_output = match response.array_field("output") {
                Some(output) => output.len() > 0,
                None => false,
            };
            has_output || response.is_object() || response.is_null()
        },
    };
    if ok {
        Some(assemble(reply))
    } else {
        None
    }
}

} // verus!
