//! Anthropic Messages API adapter.
//!
//! Translates the shared conversation types into Anthropic wire format and
//! normalizes stop reasons and usage. Wire conversion is pure: no network.
use vstd::prelude::*;
use vstd::string::*;

use super::{
    BlockView, ContentBlock, Message, MessageView, ProviderError, ProviderErrorView, Request,
    RequestView, Response, ResponseView, Role, StopReason, StopReasonView, ToolSpec, ToolSpecView,
    Usage,
};
use crate::json::{items_view, Json, JsonView, NumView};
use crate::text::{lemma_step, opt_view, same, views};

verus! {

pub const API_URL: &'static str = "https://api.anthropic.com/v1/messages";

pub const API_VERSION: &'static str = "2023-06-01";

pub const GLM_URL: &'static str = "https://api.z.ai/api/anthropic/v1/messages";

pub const GLM_DEFAULT_MODEL: &'static str = "glm-4.6";

pub const KIMI_URL: &'static str = "https://api.moonshot.ai/anthropic/v1/messages";

pub const KIMI_DEFAULT_MODEL: &'static str = "kimi-k2-0905-preview";

/// How the API key is presented. Anthropic proper uses `x-api-key`; Moonshot's
/// Anthropic-compatible endpoint uses a bearer token.
#[derive(Debug, Clone, Copy, PartialEq, Eq, Structural)]
pub enum AuthStyle {
    XApiKey,
    Bearer,
}

/// An endpoint that speaks the Messages API. GLM (Z.ai) and Kimi (Moonshot)
/// both expose one, so only the endpoint, the auth header and the default
/// model differ.
#[derive(Debug)]
pub struct Anthropic {
    pub name: String,
    pub api_key: String,
    pub base_url: String,
    pub auth: AuthStyle,
    /// Whether to advertise prompt-cache breakpoints on the wire.
    pub caching: bool,
}

/// What an endpoint is.
pub struct AnthropicView {
    pub name: Seq<char>,
    pub api_key: Seq<char>,
    pub base_url: Seq<char>,
    pub auth: AuthStyle,
    pub caching: bool,
}

impl View for Anthropic {
    type V = AnthropicView;

    open spec fn view(&self) -> AnthropicView {
        AnthropicView {
            name: self.name@,
            api_key: self.api_key@,
            base_url: self.base_url@,
            auth: self.auth,
            caching: self.caching,
        }
    }
}

impl Anthropic {
    /// Anthropic proper.
    pub fn new(api_key: &str) -> (r: Self)
        ensures
            r@ == (AnthropicView {
                name: "anthropic"@,
                api_key: api_key@,
                base_url: API_URL@,
                auth: AuthStyle::XApiKey,
                caching: true,
            }),
    {
        Anthropic {
            name: "anthropic".to_owned(),
            api_key: api_key.to_owned(),
            base_url: API_URL.to_owned(),
            auth: AuthStyle::XApiKey,
            caching: true,
        }
    }

    /// GLM (Z.ai) via its Anthropic-compatible endpoint, which accepts
    /// `x-api-key`; caching semantics are not guaranteed there, so it is off.
    pub fn glm(api_key: &str) -> (r: Self)
        ensures
            r@ == (AnthropicView {
                name: "glm"@,
                api_key: api_key@,
                base_url: GLM_URL@,
                auth: AuthStyle::XApiKey,
                caching: false,
            }),
    {
        let mut p = Self::new(api_key);
        p.name = "glm".to_owned();
        p.base_url = GLM_URL.to_owned();
        p.caching = false;
        p
    }

    /// Kimi (Moonshot) via its Anthropic-compatible endpoint.
    pub fn kimi(api_key: &str) -> (r: Self)
        ensures
            r@ == (AnthropicView {
                name: "kimi"@,
                api_key: api_key@,
                base_url: KIMI_URL@,
                auth: AuthStyle::Bearer,
                caching: false,
            }),
    {
        let mut p = Self::new(api_key);
        p.name = "kimi".to_owned();
        p.base_url = KIMI_URL.to_owned();
        p.auth = AuthStyle::Bearer;
        p.caching = false;
        p
    }

    /// Override the endpoint.
    pub fn with_base_url(self, url: &str) -> (r: Self)
        ensures
            r@ == (AnthropicView { base_url: url@, ..self@ }),
    {
        let mut p = self;
        p.base_url = url.to_owned();
        p
    }

    /// The provider's name.
    pub fn name(&self) -> (r: &str)
        ensures
            r@ == self@.name,
    {
        self.name.as_str()
    }

    /// The header that carries the key.
    pub fn auth_header(&self) -> (r: (String, String))
        ensures
            (r.0@, r.1@) == match self@.auth {
                AuthStyle::XApiKey => ("x-api-key"@, self@.api_key),
                AuthStyle::Bearer => ("authorization"@, "Bearer "@ + self@.api_key),
            },
    {
        match self.auth {
            AuthStyle::XApiKey => ("x-api-key".to_owned(), self.api_key.clone()),
            AuthStyle::Bearer => (
                "authorization".to_owned(),
                "Bearer ".to_owned().concat(self.api_key.as_str()),
            ),
        }
    }
}

// ── Requests ────────────────────────────────────────────────────────────────

/// A block on the wire. Another provider's replay data is not sent.
pub open spec fn wire_block(b: BlockView) -> Option<JsonView> {
    match b {
        BlockView::Text { text } => Some(
            JsonView::object().with("type"@, JsonView::Str("text"@)).with(
                "text"@,
                JsonView::Str(text),
            ),
        ),
        BlockView::ToolUse { id, name, input } => Some(
            JsonView::object().with("type"@, JsonView::Str("tool_use"@)).with(
                "id"@,
                JsonView::Str(id),
            ).with("name"@, JsonView::Str(name)).with("input"@, input),
        ),
        BlockView::ToolResult { tool_use_id, content, is_error } => {
            let o = JsonView::object().with("type"@, JsonView::Str("tool_result"@)).with(
                "tool_use_id"@,
                JsonView::Str(tool_use_id),
            ).with("content"@, JsonView::Str(content));
            if is_error {
                Some(o.with("is_error"@, JsonView::Bool(true)))
            } else {
                Some(o)
            }
        },
        BlockView::Opaque { provider, data } => None,
    }
}

/// The blocks on the wire, in order.
pub open spec fn wire_blocks(blocks: Seq<BlockView>) -> Seq<JsonView>
    decreases blocks.len(),
{
    if blocks.len() == 0 {
        Seq::empty()
    } else {
        let before = wire_blocks(blocks.drop_last());
        match wire_block(blocks.last()) {
            Some(v) => before.push(v),
            None => before,
        }
    }
}

/// A role on the wire.
pub open spec fn wire_role(role: Role) -> Seq<char> {
    match role {
        Role::User => "user"@,
        Role::Assistant => "assistant"@,
    }
}

/// The messages on the wire. One left empty after dropping foreign replay data
/// would be rejected, so it is skipped entirely.
pub open spec fn wire_messages(messages: Seq<MessageView>) -> Seq<JsonView>
    decreases messages.len(),
{
    if messages.len() == 0 {
        Seq::empty()
    } else {
        let before = wire_messages(messages.drop_last());
        let m = messages.last();
        let content = wire_blocks(m.content);
        if content.len() == 0 {
            before
        } else {
            before.push(
                JsonView::object().with("role"@, JsonView::Str(wire_role(m.role))).with(
                    "content"@,
                    JsonView::Array(content),
                ),
            )
        }
    }
}

/// A tool on the wire.
pub open spec fn wire_tool(t: ToolSpecView) -> JsonView {
    JsonView::object().with("name"@, JsonView::Str(t.name)).with(
        "description"@,
        JsonView::Str(t.description),
    ).with("input_schema"@, t.input_schema)
}

/// The system prompt on the wire. Being the same on every turn of a session,
/// it is what a cache breakpoint marks.
pub open spec fn wire_system(system: Seq<char>, caching: bool) -> JsonView {
    if caching {
        JsonView::Array(
            seq![
                JsonView::object().with("type"@, JsonView::Str("text"@)).with(
                    "text"@,
                    JsonView::Str(system),
                ).with(
                    "cache_control"@,
                    JsonView::object().with("type"@, JsonView::Str("ephemeral"@)),
                ),
            ],
        )
    } else {
        JsonView::Str(system)
    }
}

/// A request on the wire.
pub open spec fn wire_request(req: RequestView, caching: bool) -> JsonView {
    let base = JsonView::object().with("model"@, JsonView::Str(req.model)).with(
        "max_tokens"@,
        JsonView::Num(NumView::Int(req.max_tokens as int)),
    ).with("messages"@, JsonView::Array(wire_messages(req.messages)));
    let tooled = if req.tools.len() == 0 {
        base
    } else {
        base.with("tools"@, JsonView::Array(req.tools.map_values(|t: ToolSpecView| wire_tool(t))))
    };
    if req.system.len() == 0 {
        tooled
    } else {
        tooled.with("system"@, wire_system(req.system, caching))
    }
}

/// A block on the wire, if it is sent.
pub fn block_to_wire(b: &ContentBlock) -> (r: Option<Json>)
    ensures
        match r {
            Some(v) => wire_block(b@) == Some(v@),
            None => wire_block(b@) is None,
        },
{
    match b {
        ContentBlock::Text { text } => Some(
            Json::object().with("type", Json::text("text")).with("text", Json::text(text.as_str())),
        ),
        ContentBlock::ToolUse { id, name, input } => Some(
            Json::object().with("type", Json::text("tool_use")).with(
                "id",
                Json::text(id.as_str()),
            ).with("name", Json::text(name.as_str())).with("input", input.clone()),
        ),
        ContentBlock::ToolResult { tool_use_id, content, is_error } => {
            let o = Json::object().with("type", Json::text("tool_result")).with(
                "tool_use_id",
                Json::text(tool_use_id.as_str()),
            ).with("content", Json::text(content.as_str()));
            if *is_error {
                Some(o.with("is_error", Json::Bool(true)))
            } else {
                Some(o)
            }
        },
        ContentBlock::Opaque { provider, data } => None,
    }
}

fn blocks_to_wire(blocks: &Vec<ContentBlock>) -> (r: Vec<Json>)
    ensures
        items_view(r@) == wire_blocks(views(blocks@)),
{
    let ghost all = views(blocks@);
    let mut out: Vec<Json> = Vec::new();
    let mut i: usize = 0;
    proof {
        assert(items_view(out@) =~= wire_blocks(all.take(0)));
    }
    while i < blocks.len()
        invariant
            all == views(blocks@),
            i <= blocks@.len(),
            items_view(out@) == wire_blocks(all.take(i as int)),
        decreases blocks@.len() - i,
    {
        proof {
            lemma_step(all, i as int);
            assert(all[i as int] == blocks@[i as int]@);
        }
        match block_to_wire(&blocks[i]) {
            Some(v) => {
                let ghost before = out@;
                let ghost vv = v@;
                out.push(v);
                proof {
                    assert(items_view(out@) =~= items_view(before).push(vv));
                }
            },
            None => {},
        }
        i += 1;
    }
    proof {
        assert(all.take(i as int) =~= all);
    }
    out
}

fn messages_to_wire(messages: &Vec<Message>) -> (r: Vec<Json>)
    ensures
        items_view(r@) == wire_messages(views(messages@)),
{
    let ghost all = views(messages@);
    let mut out: Vec<Json> = Vec::new();
    let mut i: usize = 0;
    proof {
        assert(items_view(out@) =~= wire_messages(all.take(0)));
    }
    while i < messages.len()
        invariant
            all == views(messages@),
            i <= messages@.len(),
            items_view(out@) == wire_messages(all.take(i as int)),
        decreases messages@.len() - i,
    {
        proof {
            lemma_step(all, i as int);
            assert(all[i as int] == messages@[i as int]@);
        }
        let m = &messages[i];
        let content = blocks_to_wire(&m.content);
        proof {
            assert(items_view(content@).len() == content@.len());
        }
        if content.len() > 0 {
            let role = match m.role {
                Role::User => "user",
                Role::Assistant => "assistant",
            };
            let v = Json::object().with("role", Json::text(role)).with(
                "content",
                Json::Array(content),
            );
            let ghost before = out@;
            let ghost vv = v@;
            out.push(v);
            proof {
                assert(items_view(out@) =~= items_view(before).push(vv));
            }
        }
        i += 1;
    }
    proof {
        assert(all.take(i as int) =~= all);
    }
    out
}

/// A tool on the wire.
pub fn tool_to_wire(t: &ToolSpec) -> (r: Json)
    ensures
        r@ == wire_tool(t@),
{
    Json::object().with("name", Json::text(t.name.as_str())).with(
        "description",
        Json::text(t.description.as_str()),
    ).with("input_schema", t.input_schema.clone())
}

fn tools_to_wire(tools: &Vec<ToolSpec>) -> (r: Vec<Json>)
    ensures
        items_view(r@) == views(tools@).map_values(|t: ToolSpecView| wire_tool(t)),
{
    let mut out: Vec<Json> = Vec::new();
    let mut i: usize = 0;
    while i < tools.len()
        invariant
            i <= tools@.len(),
            out@.len() == i,
            forall|j: int| 0 <= j < i ==> #[trigger] out@[j]@ == wire_tool(tools@[j]@),
        decreases tools@.len() - i,
    {
        out.push(tool_to_wire(&tools[i]));
        i += 1;
    }
    proof {
        let want = views(tools@).map_values(|t: ToolSpecView| wire_tool(t));
        assert forall|j: int| 0 <= j < out@.len() implies #[trigger] items_view(out@)[j]
            == want[j] by {
            assert(out@[j]@ == wire_tool(tools@[j]@));
        }
        assert(items_view(out@) =~= want);
    }
    out
}

/// A request on the wire.
pub fn to_wire(req: &Request, caching: bool) -> (r: Json)
    ensures
        r@ == wire_request(req@, caching),
{
    let messages = messages_to_wire(&req.messages);
    let mut body = Json::object().with("model", Json::text(req.model.as_str())).with(
        "max_tokens",
        Json::number(req.max_tokens as u64),
    ).with("messages", Json::Array(messages));
    if req.tools.len() > 0 {
        let tools = tools_to_wire(&req.tools);
        body = body.with("tools", Json::Array(tools));
    }
    if !req.system.as_str().is_empty() {
        let system = if caching {
            let mark = Json::object().with("type", Json::text("text")).with(
                "text",
                Json::text(req.system.as_str()),
            ).with("cache_control", Json::object().with("type", Json::text("ephemeral")));
            let ghost mv = mark@;
            let mut parts: Vec<Json> = Vec::new();
            parts.push(mark);
            proof {
                assert(items_view(parts@) =~= seq![mv]);
            }
            Json::Array(parts)
        } else {
            Json::text(req.system.as_str())
        };
        body = body.with("system", system);
    }
    body
}

// ── Responses ───────────────────────────────────────────────────────────────

/// A block of a response on the wire.
#[derive(Debug)]
pub enum WireBlock {
    Text { text: String },
    ToolUse { id: String, name: String, input: Json },
    ToolResult { tool_use_id: String, content: String, is_error: bool },
    /// Blocks this adapter does not model (server tool results, say) are
    /// accepted and dropped.
    Unknown,
}

/// A block of a response on the wire, as a value.
pub enum WireBlockView {
    Text { text: Seq<char> },
    ToolUse { id: Seq<char>, name: Seq<char>, input: JsonView },
    ToolResult { tool_use_id: Seq<char>, content: Seq<char>, is_error: bool },
    Unknown,
}

impl View for WireBlock {
    type V = WireBlockView;

    open spec fn view(&self) -> WireBlockView {
        match self {
            WireBlock::Text { text } => WireBlockView::Text { text: text@ },
            WireBlock::ToolUse { id, name, input } => WireBlockView::ToolUse {
                id: id@,
                name: name@,
                input: input@,
            },
            WireBlock::ToolResult { tool_use_id, content, is_error } => WireBlockView::ToolResult {
                tool_use_id: tool_use_id@,
                content: content@,
                is_error: *is_error,
            },
            WireBlock::Unknown => WireBlockView::Unknown,
        }
    }
}

/// A response on the wire.
#[derive(Debug)]
pub struct WireResponse {
    pub content: Vec<WireBlock>,
    pub stop_reason: Option<String>,
    pub usage: Usage,
}

/// A response on the wire, as a value.
pub struct WireResponseView {
    pub content: Seq<WireBlockView>,
    pub stop_reason: Option<Seq<char>>,
    pub usage: Usage,
}

impl View for WireResponse {
    type V = WireResponseView;

    open spec fn view(&self) -> WireResponseView {
        WireResponseView {
            content: views(self.content@),
            stop_reason: opt_view(self.stop_reason),
            usage: self.usage,
        }
    }
}

/// The blocks of a response: its texts and tool calls, in order.
pub open spec fn read_blocks(blocks: Seq<WireBlockView>) -> Seq<BlockView>
    decreases blocks.len(),
{
    if blocks.len() == 0 {
        Seq::empty()
    } else {
        let before = read_blocks(blocks.drop_last());
        match blocks.last() {
            WireBlockView::Text { text } => before.push(BlockView::Text { text }),
            WireBlockView::ToolUse { id, name, input } => before.push(
                BlockView::ToolUse { id, name, input },
            ),
            _ => before,
        }
    }
}

/// Why the model stopped.
pub open spec fn read_stop(reason: Seq<char>) -> StopReasonView {
    if reason == "end_turn"@ || reason == "stop_sequence"@ {
        StopReasonView::EndTurn
    } else if reason == "tool_use"@ {
        StopReasonView::ToolUse
    } else if reason == "max_tokens"@ {
        StopReasonView::MaxTokens
    } else {
        StopReasonView::Other(reason)
    }
}

/// What a response on the wire says.
pub open spec fn read_response(wire: WireResponseView) -> Result<ResponseView, ProviderErrorView> {
    match wire.stop_reason {
        None => Err(ProviderErrorView::Malformed("response missing stop_reason"@)),
        Some(reason) => Ok(
            ResponseView {
                content: read_blocks(wire.content),
                stop_reason: read_stop(reason),
                usage: wire.usage,
            },
        ),
    }
}

/// What a response on the wire says.
pub fn from_wire(wire: &WireResponse) -> (r: Result<Response, ProviderError>)
    ensures
        super::outcome(r) == read_response(wire@),
{
    let reason = match &wire.stop_reason {
        None => {
            return Err(ProviderError::Malformed("response missing stop_reason".to_owned()));
        },
        Some(reason) => reason.as_str(),
    };
    let stop_reason = if same(reason, "end_turn") || same(reason, "stop_sequence") {
        StopReason::EndTurn
    } else if same(reason, "tool_use") {
        StopReason::ToolUse
    } else if same(reason, "max_tokens") {
        StopReason::MaxTokens
    } else {
        StopReason::Other(reason.to_owned())
    };
    let ghost all = views(wire.content@);
    let mut content: Vec<ContentBlock> = Vec::new();
    let mut i: usize = 0;
    proof {
        assert(views(content@) =~= read_blocks(all.take(0)));
    }
    while i < wire.content.len()
        invariant
            all == views(wire.content@),
            i <= wire.content@.len(),
            views(content@) == read_blocks(all.take(i as int)),
        decreases wire.content@.len() - i,
    {
        proof {
            lemma_step(all, i as int);
            assert(all[i as int] == wire.content@[i as int]@);
        }
        let ghost before = content@;
        match &wire.content[i] {
            WireBlock::Text { text } => {
                content.push(ContentBlock::Text { text: text.clone() });
                proof {
                    assert(views(content@) =~= views(before).push(
                        BlockView::Text { text: text@ },
                    ));
                }
            },
            WireBlock::ToolUse { id, name, input } => {
                content.push(
                    ContentBlock::ToolUse {
                        id: id.clone(),
                        name: name.clone(),
                        input: input.clone(),
                    },
                );
                proof {
                    assert(views(content@) =~= views(before).push(
                        BlockView::ToolUse { id: id@, name: name@, input: input@ },
                    ));
                }
            },
            _ => {},
        }
        i += 1;
    }
    proof {
        assert(all.take(i as int) =~= all);
    }
    Ok(Response { content, stop_reason, usage: wire.usage })
}

} // verus!
