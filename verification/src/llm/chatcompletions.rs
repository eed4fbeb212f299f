//! OpenAI-compatible Chat Completions adapter.
//!
//! Used for OpenRouter; any compatible host works by pointing the base URL
//! elsewhere. Wire conversion is pure: no network.
use vstd::prelude::*;
use vstd::string::*;

use super::{
    block_texts, outcome, texts_of, BlockView, ContentBlock, MessageView, ProviderError,
    ProviderErrorView, Request, RequestView, Response, ResponseView, Role, StopReason,
    StopReasonView, ToolSpec, ToolSpecView, Usage,
};
use crate::json::{items_view, json_of, json_text, parse, to_text, Json, JsonView, NumView};
use crate::text::{join, join_with, lemma_step, opt_view, same, trim, trimmed, views};

verus! {

pub const OPENROUTER_BASE_URL: &'static str = "https://openrouter.ai/api/v1";

/// OpenRouter's auto-router: picks a model per request.
pub const OPENROUTER_DEFAULT_MODEL: &'static str = "openrouter/auto";

/// A host that speaks Chat Completions.
#[derive(Debug)]
pub struct ChatCompletions {
    pub name: String,
    pub base_url: String,
    pub api_key: String,
}

impl ChatCompletions {
    /// OpenRouter.
    pub fn openrouter(api_key: &str) -> (r: Self)
        ensures
            r.name@ == "openrouter"@,
            r.base_url@ == OPENROUTER_BASE_URL@,
            r.api_key@ == api_key@,
    {
        Self::new("openrouter", OPENROUTER_BASE_URL, api_key)
    }

    /// A host by its name and address.
    pub fn new(name: &str, base_url: &str, api_key: &str) -> (r: Self)
        ensures
            r.name@ == name@,
            r.base_url@ == base_url@,
            r.api_key@ == api_key@,
    {
        ChatCompletions {
            name: name.to_owned(),
            base_url: base_url.to_owned(),
            api_key: api_key.to_owned(),
        }
    }

    /// The host's name.
    pub fn name(&self) -> (r: &str)
        ensures
            r@ == self.name@,
    {
        self.name.as_str()
    }

    /// Where requests go.
    pub fn url(&self) -> (r: String)
        ensures
            r@ == self.base_url@ + "/chat/completions"@,
    {
        self.base_url.clone().concat("/chat/completions")
    }
}

// ── Requests ────────────────────────────────────────────────────────────────

/// A tool call on the wire; its arguments are JSON in a string.
pub open spec fn wire_call(id: Seq<char>, name: Seq<char>, arguments: Seq<char>) -> JsonView {
    JsonView::object().with("id"@, JsonView::Str(id)).with("type"@, JsonView::Str("function"@)).with(
        "function"@,
        JsonView::object().with("name"@, JsonView::Str(name)).with(
            "arguments"@,
            JsonView::Str(arguments),
        ),
    )
}

/// The tool calls among blocks, on the wire.
pub open spec fn wire_calls(blocks: Seq<BlockView>) -> Seq<JsonView>
    decreases blocks.len(),
{
    if blocks.len() == 0 {
        Seq::empty()
    } else {
        let before = wire_calls(blocks.drop_last());
        match blocks.last() {
            BlockView::ToolUse { id, name, input } => before.push(
                wire_call(id, name, json_text(input)),
            ),
            _ => before,
        }
    }
}

/// What a tool result says on the wire.
pub open spec fn result_text(content: Seq<char>, is_error: bool) -> Seq<char> {
    if is_error {
        "ERROR: "@ + content
    } else {
        content
    }
}

/// A tool result on the wire.
pub open spec fn wire_result(id: Seq<char>, content: Seq<char>, is_error: bool) -> JsonView {
    JsonView::object().with("role"@, JsonView::Str("tool"@)).with(
        "content"@,
        JsonView::Str(result_text(content, is_error)),
    ).with("tool_call_id"@, JsonView::Str(id))
}

/// The tool results among blocks, on the wire.
pub open spec fn wire_results(blocks: Seq<BlockView>) -> Seq<JsonView>
    decreases blocks.len(),
{
    if blocks.len() == 0 {
        Seq::empty()
    } else {
        let before = wire_results(blocks.drop_last());
        match blocks.last() {
            BlockView::ToolResult { tool_use_id, content, is_error } => before.push(
                wire_result(tool_use_id, content, is_error),
            ),
            _ => before,
        }
    }
}

/// A message of text on the wire.
pub open spec fn wire_text(role: Seq<char>, content: Seq<char>) -> JsonView {
    JsonView::object().with("role"@, JsonView::Str(role)).with("content"@, JsonView::Str(content))
}

/// An assistant message on the wire: its texts joined, then its calls.
pub open spec fn wire_assistant(blocks: Seq<BlockView>) -> Seq<JsonView> {
    let texts = block_texts(blocks);
    let calls = wire_calls(blocks);
    if texts.len() == 0 && calls.len() == 0 {
        Seq::empty()
    } else {
        let bare = JsonView::object().with("role"@, JsonView::Str("assistant"@));
        let told = if texts.len() == 0 {
            bare
        } else {
            bare.with("content"@, JsonView::Str(join(texts, "\n"@)))
        };
        if calls.len() == 0 {
            seq![told]
        } else {
            seq![told.with("tool_calls"@, JsonView::Array(calls))]
        }
    }
}

/// A user message on the wire. Tool results become messages of their own, which
/// must directly follow the assistant's calls, so they come first.
pub open spec fn wire_user(blocks: Seq<BlockView>) -> Seq<JsonView> {
    let texts = block_texts(blocks);
    if texts.len() == 0 {
        wire_results(blocks)
    } else {
        wire_results(blocks).push(wire_text("user"@, join(texts, "\n"@)))
    }
}

/// A message on the wire.
pub open spec fn wire_message(m: MessageView) -> Seq<JsonView> {
    match m.role {
        Role::Assistant => wire_assistant(m.content),
        Role::User => wire_user(m.content),
    }
}

/// The messages on the wire, in order.
pub open spec fn wire_messages(messages: Seq<MessageView>) -> Seq<JsonView>
    decreases messages.len(),
{
    if messages.len() == 0 {
        Seq::empty()
    } else {
        wire_messages(messages.drop_last()) + wire_message(messages.last())
    }
}

/// A tool on the wire.
pub open spec fn wire_tool(t: ToolSpecView) -> JsonView {
    JsonView::object().with("type"@, JsonView::Str("function"@)).with(
        "function"@,
        JsonView::object().with("name"@, JsonView::Str(t.name)).with(
            "description"@,
            JsonView::Str(t.description),
        ).with("parameters"@, t.input_schema),
    )
}

/// A request on the wire.
pub open spec fn wire_request(req: RequestView) -> JsonView {
    let system = if req.system.len() == 0 {
        Seq::empty()
    } else {
        seq![wire_text("system"@, req.system)]
    };
    let base = JsonView::object().with("model"@, JsonView::Str(req.model)).with(
        "messages"@,
        JsonView::Array(system + wire_messages(req.messages)),
    ).with("max_tokens"@, JsonView::Num(NumView::Int(req.max_tokens as int)));
    if req.tools.len() == 0 {
        base
    } else {
        base.with("tools"@, JsonView::Array(req.tools.map_values(|t: ToolSpecView| wire_tool(t))))
    }
}

/// A tool call on the wire, its arguments printed.
pub fn call_to_wire(id: &str, name: &str, arguments: &str) -> (r: Json)
    ensures
        r@ == wire_call(id@, name@, arguments@),
{
    let function = Json::object().with("name", Json::text(name)).with(
        "arguments",
        Json::text(arguments),
    );
    Json::object().with("id", Json::text(id)).with("type", Json::text("function")).with(
        "function",
        function,
    )
}

fn calls_to_wire(blocks: &Vec<ContentBlock>) -> (r: Vec<Json>)
    ensures
        items_view(r@) == wire_calls(views(blocks@)),
{
    let ghost all = views(blocks@);
    let mut out: Vec<Json> = Vec::new();
    let mut i: usize = 0;
    proof {
        assert(items_view(out@) =~= wire_calls(all.take(0)));
    }
    while i < blocks.len()
        invariant
            all == views(blocks@),
            i <= blocks@.len(),
            items_view(out@) == wire_calls(all.take(i as int)),
        decreases blocks@.len() - i,
    {
        proof {
            lemma_step(all, i as int);
            assert(all[i as int] == blocks@[i as int]@);
        }
        match &blocks[i] {
            ContentBlock::ToolUse { id, name, input } => {
                let ghost before = out@;
                let arguments = to_text(input);
                let v = call_to_wire(id.as_str(), name.as_str(), arguments.as_str());
                let ghost vv = v@;
                out.push(v);
                proof {
                    assert(items_view(out@) =~= items_view(before).push(vv));
                }
            },
            _ => {},
        }
        i += 1;
    }
    proof {
        assert(all.take(i as int) =~= all);
    }
    out
}

fn push_results(out: &mut Vec<Json>, blocks: &Vec<ContentBlock>)
    ensures
        items_view(final(out)@) == items_view(old(out)@) + wire_results(views(blocks@)),
{
    let ghost all = views(blocks@);
    let ghost start = items_view(out@);
    let mut i: usize = 0;
    proof {
        assert(items_view(out@) =~= start + wire_results(all.take(0)));
    }
    while i < blocks.len()
        invariant
            all == views(blocks@),
            i <= blocks@.len(),
            items_view(out@) == start + wire_results(all.take(i as int)),
        decreases blocks@.len() - i,
    {
        proof {
            lemma_step(all, i as int);
            assert(all[i as int] == blocks@[i as int]@);
        }
        match &blocks[i] {
            ContentBlock::ToolResult { tool_use_id, content, is_error } => {
                let ghost before = out@;
                let said = if *is_error {
                    "ERROR: ".to_owned().concat(content.as_str())
                } else {
                    content.clone()
                };
                let v = Json::object().with("role", Json::text("tool")).with(
                    "content",
                    Json::text(said.as_str()),
                ).with("tool_call_id", Json::text(tool_use_id.as_str()));
                let ghost vv = v@;
                out.push(v);
                proof {
                    assert(items_view(out@) =~= items_view(before).push(vv));
                    assert(items_view(out@) =~= start + wire_results(all.take(i + 1)));
                }
            },
            _ => {},
        }
        i += 1;
    }
    proof {
        assert(all.take(i as int) =~= all);
    }
}

fn text_to_wire(role: &str, content: &str) -> (r: Json)
    ensures
        r@ == wire_text(role@, content@),
{
    Json::object().with("role", Json::text(role)).with("content", Json::text(content))
}

fn push_assistant(out: &mut Vec<Json>, blocks: &Vec<ContentBlock>)
    ensures
        items_view(final(out)@) == items_view(old(out)@) + wire_assistant(views(blocks@)),
{
    let ghost start = out@;
    let texts = texts_of(blocks);
    let calls = calls_to_wire(blocks);
    proof {
        assert(views(texts@).len() == texts@.len());
        assert(items_view(calls@).len() == calls@.len());
    }
    if texts.len() == 0 && calls.len() == 0 {
        proof {
            assert(items_view(start) + wire_assistant(views(blocks@)) =~= items_view(start));
        }
        return;
    }
    let mut v = Json::object().with("role", Json::text("assistant"));
    if texts.len() > 0 {
        let joined = join_with(&texts, "\n");
        v = v.with("content", Json::text(joined.as_str()));
    }
    if calls.len() > 0 {
        v = v.with("tool_calls", Json::Array(calls));
    }
    let ghost vv = v@;
    out.push(v);
    proof {
        assert(wire_assistant(views(blocks@)) == seq![vv]);
        assert(items_view(out@) =~= items_view(start) + seq![vv]);
    }
}

fn push_user(out: &mut Vec<Json>, blocks: &Vec<ContentBlock>)
    ensures
        items_view(final(out)@) == items_view(old(out)@) + wire_user(views(blocks@)),
{
    push_results(out, blocks);
    let texts = texts_of(blocks);
    proof {
        assert(views(texts@).len() == texts@.len());
    }
    if texts.len() > 0 {
        let ghost before = out@;
        let joined = join_with(&texts, "\n");
        let v = text_to_wire("user", joined.as_str());
        let ghost vv = v@;
        out.push(v);
        proof {
            assert(items_view(out@) =~= items_view(before).push(vv));
            assert(items_view(out@) =~= items_view(old(out)@) + wire_user(views(blocks@)));
        }
    }
}

fn tool_to_wire(t: &ToolSpec) -> (r: Json)
    ensures
        r@ == wire_tool(t@),
{
    let function = Json::object().with("name", Json::text(t.name.as_str())).with(
        "description",
        Json::text(t.description.as_str()),
    ).with("parameters", t.input_schema.clone());
    Json::object().with("type", Json::text("function")).with("function", function)
}

fn tools_to_wire(tools: &Vec<ToolSpec>) -> (r: Vec<Json>)
    ensures
        items_view(r@) == views(tools@).map_values(|t: ToolSpecView| wire_tool(t)),
{
    let mut out: Vec<Json> = Vec::new();
    let mut i: usize = 0;
    while i < tools.len()
        invariant
            i <= tools@.len(),
            out@.len() == i,
            forall|j: int| 0 <= j < i ==> #[trigger] out@[j]@ == wire_tool(tools@[j]@),
        decreases tools@.len() - i,
    {
        out.push(tool_to_wire(&tools[i]));
        i += 1;
    }
    proof {
        let want = views(tools@).map_values(|t: ToolSpecView| wire_tool(t));
        assert forall|j: int| 0 <= j < out@.len() implies #[trigger] items_view(out@)[j]
            == want[j] by {
            assert(out@[j]@ == wire_tool(tools@[j]@));
        }
        assert(items_view(out@) =~= want);
    }
    out
}

/// A request on the wire.
pub fn to_wire(req: &Request) -> (r: Json)
    ensures
        r@ == wire_request(req@),
{
    let mut messages: Vec<Json> = Vec::new();
    let ghost all = views(req.messages@);
    if !req.system.as_str().is_empty() {
        messages.push(text_to_wire("system", req.system.as_str()));
    }
    let ghost head = items_view(messages@);
    let mut i: usize = 0;
    proof {
        if req.system@.len() > 0 {
            assert(head =~= seq![wire_text("system"@, req.system@)]);
        } else {
            assert(head =~= Seq::empty());
        }
        assert(items_view(messages@) =~= head + wire_messages(all.take(0)));
    }
    while i < req.messages.len()
        invariant
            all == views(req.messages@),
            i <= req.messages@.len(),
            items_view(messages@) == head + wire_messages(all.take(i as int)),
        decreases req.messages@.len() - i,
    {
        proof {
            lemma_step(all, i as int);
            assert(all[i as int] == req.messages@[i as int]@);
        }
        let m = &req.messages[i];
        match m.role {
            Role::Assistant => {
                push_assistant(&mut messages, &m.content);
            },
            Role::User => {
                push_user(&mut messages, &m.content);
            },
        }
        proof {
            assert(items_view(messages@) =~= head + wire_messages(all.take(i + 1)));
        }
        i += 1;
    }
    proof {
        assert(all.take(i as int) =~= all);
    }
    let mut body = Json::object().with("model", Json::text(req.model.as_str())).with(
        "messages",
        Json::Array(messages),
    ).with("max_tokens", Json::number(req.max_tokens as u64));
    if req.tools.len() > 0 {
        let tools = tools_to_wire(&req.tools);
        body = body.with("tools", Json::Array(tools));
    }
    body
}

// ── Responses ───────────────────────────────────────────────────────────────

/// A tool call of a response on the wire.
#[derive(Debug)]
pub struct WireToolCall {
    pub id: String,
    pub name: String,
    /// JSON in a string.
    pub arguments: String,
}

/// A tool call of a response on the wire, as a value.
pub struct WireToolCallView {
    pub id: Seq<char>,
    pub name: Seq<char>,
    pub arguments: Seq<char>,
}

impl View for WireToolCall {
    type V = WireToolCallView;

    open spec fn view(&self) -> WireToolCallView {
        WireToolCallView { id: self.id@, name: self.name@, arguments: self.arguments@ }
    }
}

/// A choice of a response on the wire.
#[derive(Debug)]
pub struct WireChoice {
    pub content: Option<String>,
    pub tool_calls: Vec<WireToolCall>,
    pub finish_reason: Option<String>,
}

/// A choice of a response on the wire, as a value.
pub struct WireChoiceView {
    pub content: Option<Seq<char>>,
    pub tool_calls: Seq<WireToolCallView>,
    pub finish_reason: Option<Seq<char>>,
}

impl View for WireChoice {
    type V = WireChoiceView;

    open spec fn view(&self) -> WireChoiceView {
        WireChoiceView {
            content: opt_view(self.content),
            tool_calls: views(self.tool_calls@),
            finish_reason: opt_view(self.finish_reason),
        }
    }
}

/// A response on the wire.
#[derive(Debug)]
pub struct WireResponse {
    pub choices: Vec<WireChoice>,
    pub usage: Option<Usage>,
}

/// A response on the wire, as a value.
pub struct WireResponseView {
    pub choices: Seq<WireChoiceView>,
    pub usage: Option<Usage>,
}

impl View for WireResponse {
    type V = WireResponseView;

    open spec fn view(&self) -> WireResponseView {
        WireResponseView { choices: views(self.choices@), usage: self.usage }
    }
}

/// What a call's arguments hold; blank ones are an empty object.
pub open spec fn arguments_of(arguments: Seq<char>) -> Result<JsonView, Seq<char>> {
    if trim(arguments).len() == 0 {
        Ok(JsonView::object())
    } else {
        json_of(arguments)
    }
}

/// The block of a call whose arguments were read.
pub open spec fn call_block(
    id: Seq<char>,
    name: Seq<char>,
    input: Result<JsonView, Seq<char>>,
) -> Result<BlockView, ProviderErrorView> {
    match input {
        Ok(input) => Ok(BlockView::ToolUse { id, name, input }),
        Err(e) => Err(
            ProviderErrorView::Malformed(
                "tool arguments for "@ + name + " are not JSON: "@ + e,
            ),
        ),
    }
}

/// The blocks of a response: its text, then its calls.
pub open spec fn read_calls(first: Seq<BlockView>, calls: Seq<WireToolCallView>) -> Result<
    Seq<BlockView>,
    ProviderErrorView,
>
    decreases calls.len(),
{
    if calls.len() == 0 {
        Ok(first)
    } else {
        match read_calls(first, calls.drop_last()) {
            Err(e) => Err(e),
            Ok(before) => {
                let c = calls.last();
                match call_block(c.id, c.name, arguments_of(c.arguments)) {
                    Err(e) => Err(e),
                    Ok(b) => Ok(before.push(b)),
                }
            },
        }
    }
}

/// The text a choice opens with.
pub open spec fn read_text(content: Option<Seq<char>>) -> Seq<BlockView> {
    match content {
        Some(text) => if text.len() == 0 {
            Seq::empty()
        } else {
            seq![BlockView::Text { text }]
        },
        None => Seq::empty(),
    }
}

/// Why the model stopped; a call decides it, whatever the reason says.
pub open spec fn read_stop(called: bool, reason: Option<Seq<char>>) -> StopReasonView {
    if called {
        StopReasonView::ToolUse
    } else {
        match reason {
            None => StopReasonView::EndTurn,
            Some(r) => if r == "stop"@ {
                StopReasonView::EndTurn
            } else if r == "length"@ {
                StopReasonView::MaxTokens
            } else if r == "tool_calls"@ {
                StopReasonView::ToolUse
            } else {
                StopReasonView::Other(r)
            },
        }
    }
}

/// What a response on the wire says.
pub open spec fn read_response(wire: WireResponseView) -> Result<ResponseView, ProviderErrorView> {
    if wire.choices.len() == 0 {
        Err(ProviderErrorView::Malformed("response has no choices"@))
    } else {
        let choice = wire.choices[0];
        match read_calls(read_text(choice.content), choice.tool_calls) {
            Err(e) => Err(e),
            Ok(content) => Ok(
                ResponseView {
                    content,
                    stop_reason: read_stop(choice.tool_calls.len() > 0, choice.finish_reason),
                    usage: match wire.usage {
                        Some(u) => u,
                        None => Usage { input_tokens: 0, output_tokens: 0 },
                    },
                },
            ),
        }
    }
}

/// The block of a call whose arguments were read.
pub fn call_from_wire(id: &str, name: &str, input: Result<Json, String>) -> (r: Result<
    ContentBlock,
    ProviderError,
>)
    ensures
        match r {
            Ok(b) => call_block(
                id@,
                name@,
                match input {
                    Ok(v) => Ok(v@),
                    Err(e) => Err(e@),
                },
            ) == Ok::<BlockView, ProviderErrorView>(b@),
            Err(e) => call_block(
                id@,
                name@,
                match input {
                    Ok(v) => Ok(v@),
                    Err(e) => Err(e@),
                },
            ) == Err::<BlockView, ProviderErrorView>(e@),
        },
{
    match input {
        Ok(input) => Ok(ContentBlock::ToolUse { id: id.to_owned(), name: name.to_owned(), input }),
        Err(e) => Err(
            ProviderError::Malformed(
                "tool arguments for ".to_owned().concat(name).concat(" are not JSON: ").concat(
                    e.as_str(),
                ),
            ),
        ),
    }
}

/// A call that is wrong spoils the response.
proof fn lemma_call_error(first: Seq<BlockView>, calls: Seq<WireToolCallView>, i: int)
    requires
        0 <= i < calls.len(),
        read_calls(first, calls.take(i)) is Ok,
        call_block(calls[i].id, calls[i].name, arguments_of(calls[i].arguments)) is Err,
    ensures
        read_calls(first, calls) == Err::<Seq<BlockView>, ProviderErrorView>(
            call_block(calls[i].id, calls[i].name, arguments_of(calls[i].arguments))->Err_0,
        ),
    decreases calls.len(),
{
    if i == calls.len() - 1 {
        assert(calls.take(i) =~= calls.drop_last());
    } else {
        assert(calls.drop_last().take(i) =~= calls.take(i));
        lemma_call_error(first, calls.drop_last(), i);
    }
}

/// What a response on the wire says.
pub fn from_wire(wire: &WireResponse) -> (r: Result<Response, ProviderError>)
    ensures
        outcome(r) == read_response(wire@),
{
    if wire.choices.len() == 0 {
        return Err(ProviderError::Malformed("response has no choices".to_owned()));
    }
    let choice = &wire.choices[0];
    proof {
        assert(wire@.choices[0] == choice@);
    }
    let mut content: Vec<ContentBlock> = Vec::new();
    match &choice.content {
        Some(text) => {
            if !text.as_str().is_empty() {
                content.push(ContentBlock::Text { text: text.clone() });
            }
        },
        None => {},
    }
    let ghost first = views(content@);
    let ghost all = views(choice.tool_calls@);
    proof {
        assert(first =~= read_text(choice@.content));
        assert(views(content@) =~= first);
        assert(all.take(0) =~= Seq::<WireToolCallView>::empty());
    }
    let mut i: usize = 0;
    while i < choice.tool_calls.len()
        invariant
            all == views(choice.tool_calls@),
            i <= choice.tool_calls@.len(),
            read_calls(first, all.take(i as int)) == Ok::<Seq<BlockView>, ProviderErrorView>(
                views(content@),
            ),
            first == read_text(choice@.content),
            wire@.choices.len() > 0,
            wire@.choices[0] == choice@,
        decreases choice.tool_calls@.len() - i,
    {
        let call = &choice.tool_calls[i];
        proof {
            lemma_step(all, i as int);
            assert(all[i as int] == call@);
        }
        let blank = trimmed(call.arguments.as_str());
        let input = if blank.as_str().is_empty() {
            Ok(Json::object())
        } else {
            parse(call.arguments.as_str())
        };
        match call_from_wire(call.id.as_str(), call.name.as_str(), input) {
            Err(e) => {
                proof {
                    lemma_call_error(first, all, i as int);
                }
                return Err(e);
            },
            Ok(b) => {
                let ghost before = content@;
                let ghost bv = b@;
                content.push(b);
                proof {
                    assert(views(content@) =~= views(before).push(bv));
                }
            },
        }
        i += 1;
    }
    proof {
        assert(all.take(i as int) =~= all);
    }
    let stop_reason = if choice.tool_calls.len() > 0 {
        StopReason::ToolUse
    } else {
        match &choice.finish_reason {
            None => StopReason::EndTurn,
            Some(r) => {
                if same(r.as_str(), "stop") {
                    StopReason::EndTurn
                } else if same(r.as_str(), "length") {
                    StopReason::MaxTokens
                } else if same(r.as_str(), "tool_calls") {
                    StopReason::ToolUse
                } else {
                    StopReason::Other(r.clone())
                }
            },
        }
    };
    let usage = match wire.usage {
        Some(u) => u,
        None => Usage { input_tokens: 0, output_tokens: 0 },
    };
    Ok(Response { content, stop_reason, usage })
}

} // verus!
