//! Provider-neutral conversation protocol.
//!
//! The shared message, tool and usage types. Adapters translate these into
//! vendor wire formats at the edge; nothing above knows what vendor is in use.
use vstd::prelude::*;
use vstd::string::*;

use crate::json::{alike, lemma_alike_itself, same_json, Json, JsonView};
use crate::text::{join, join_with, lemma_step, same, views};

pub mod anthropic;
pub mod chatcompletions;
pub mod codex;
pub mod laws;
pub mod reading_laws;
pub mod retry;
pub mod sse;
pub mod wire_laws;

verus! {

/// Who speaks.
#[derive(Debug, Clone, Copy, PartialEq, Eq, Structural)]
pub enum Role {
    User,
    Assistant,
}

/// One block of message content. Tool calls and their results are first-class
/// blocks, so that their pairing can be stated structurally.
#[derive(Debug)]
pub enum ContentBlock {
    Text { text: String },
    ToolUse { id: String, name: String, input: Json },
    ToolResult { tool_use_id: String, content: String, is_error: bool },
    /// Replay data of one provider, meaningless to the others.
    Opaque { provider: String, data: Json },
}

/// What a block is.
pub enum BlockView {
    Text { text: Seq<char> },
    ToolUse { id: Seq<char>, name: Seq<char>, input: JsonView },
    ToolResult { tool_use_id: Seq<char>, content: Seq<char>, is_error: bool },
    Opaque { provider: Seq<char>, data: JsonView },
}

impl View for ContentBlock {
    type V = BlockView;

    open spec fn view(&self) -> BlockView {
        match self {
            ContentBlock::Text { text } => BlockView::Text { text: text@ },
            ContentBlock::ToolUse { id, name, input } => BlockView::ToolUse {
                id: id@,
                name: name@,
                input: input@,
            },
            ContentBlock::ToolResult { tool_use_id, content, is_error } => BlockView::ToolResult {
                tool_use_id: tool_use_id@,
                content: content@,
                is_error: *is_error,
            },
            ContentBlock::Opaque { provider, data } => BlockView::Opaque {
                provider: provider@,
                data: data@,
            },
        }
    }
}

impl Clone for ContentBlock {
    fn clone(&self) -> (r: Self)
        ensures
            r@ == self@,
    {
        match self {
            ContentBlock::Text { text } => ContentBlock::Text { text: text.clone() },
            ContentBlock::ToolUse { id, name, input } => ContentBlock::ToolUse {
                id: id.clone(),
                name: name.clone(),
                input: input.clone(),
            },
            ContentBlock::ToolResult { tool_use_id, content, is_error } => ContentBlock::ToolResult {
                tool_use_id: tool_use_id.clone(),
                content: content.clone(),
                is_error: *is_error,
            },
            ContentBlock::Opaque { provider, data } => ContentBlock::Opaque {
                provider: provider.clone(),
                data: data.clone(),
            },
        }
    }
}

/// Whether two blocks compare as equal: the same block, with values in it that
/// compare as equal.
pub open spec fn alike_block(a: BlockView, b: BlockView) -> bool {
    match (a, b) {
        (
            BlockView::ToolUse { id: i, name: n, input: x },
            BlockView::ToolUse { id: j, name: m, input: y },
        ) => i == j && n == m && alike(x, y),
        (
            BlockView::Opaque { provider: p, data: x },
            BlockView::Opaque { provider: q, data: y },
        ) => p == q && alike(x, y),
        _ => a == b,
    }
}

/// Whether two blocks compare as equal.
pub fn same_block(a: &ContentBlock, b: &ContentBlock) -> (r: bool)
    ensures
        r == alike_block(a@, b@),
{
    match (a, b) {
        (ContentBlock::Text { text: s }, ContentBlock::Text { text: t }) => same(
            s.as_str(),
            t.as_str(),
        ),
        (
            ContentBlock::ToolUse { id: i, name: n, input: x },
            ContentBlock::ToolUse { id: j, name: m, input: y },
        ) => same(i.as_str(), j.as_str()) && same(n.as_str(), m.as_str()) && same_json(x, y),
        (
            ContentBlock::ToolResult { tool_use_id: i, content: s, is_error: x },
            ContentBlock::ToolResult { tool_use_id: j, content: t, is_error: y },
        ) => same(i.as_str(), j.as_str()) && same(s.as_str(), t.as_str()) && *x == *y,
        (
            ContentBlock::Opaque { provider: p, data: x },
            ContentBlock::Opaque { provider: q, data: y },
        ) => same(p.as_str(), q.as_str()) && same_json(x, y),
        _ => false,
    }
}

/// A message: who speaks, and the blocks in order.
#[derive(Debug)]
pub struct Message {
    pub role: Role,
    pub content: Vec<ContentBlock>,
}

/// What a message is.
pub struct MessageView {
    pub role: Role,
    pub content: Seq<BlockView>,
}

impl View for Message {
    type V = MessageView;

    open spec fn view(&self) -> MessageView {
        MessageView { role: self.role, content: views(self.content@) }
    }
}

/// A copy of a list of blocks.
pub fn clone_blocks(blocks: &Vec<ContentBlock>) -> (r: Vec<ContentBlock>)
    ensures
        views(r@) == views(blocks@),
{
    let mut out: Vec<ContentBlock> = Vec::new();
    let mut i: usize = 0;
    while i < blocks.len()
        invariant
            i <= blocks@.len(),
            views(out@) == views(blocks@).take(i as int),
        decreases blocks@.len() - i,
    {
        let ghost before = out@;
        let c = blocks[i].clone();
        let ghost cv = c@;
        out.push(c);
        proof {
            lemma_step(views(blocks@), i as int);
            assert(views(out@) =~= views(before).push(cv));
        }
        i += 1;
    }
    proof {
        assert(views(blocks@).take(i as int) =~= views(blocks@));
    }
    out
}

impl Clone for Message {
    fn clone(&self) -> (r: Self)
        ensures
            r@ == self@,
    {
        Message { role: self.role, content: clone_blocks(&self.content) }
    }
}

/// Whether two messages compare as equal: the same speaker, and blocks that
/// compare as equal.
pub open spec fn alike_message(a: MessageView, b: MessageView) -> bool {
    a.role == b.role && a.content.len() == b.content.len() && forall|i: int|
        0 <= i < a.content.len() ==> alike_block(#[trigger] a.content[i], b.content[i])
}

/// A message compares as equal to itself.
pub proof fn lemma_alike_message_itself(a: MessageView)
    ensures
        alike_message(a, a),
{
    assert forall|i: int| 0 <= i < a.content.len() implies alike_block(
        #[trigger] a.content[i],
        a.content[i],
    ) by {
        match a.content[i] {
            BlockView::ToolUse { input, .. } => lemma_alike_itself(input),
            BlockView::Opaque { data, .. } => lemma_alike_itself(data),
            _ => {},
        }
    }
}

/// Whether two messages compare as equal.
pub fn same_message(a: &Message, b: &Message) -> (r: bool)
    ensures
        r == alike_message(a@, b@),
{
    if a.role != b.role || a.content.len() != b.content.len() {
        proof {
            if a.content@.len() != b.content@.len() {
                assert(a@.content.len() != b@.content.len());
            }
        }
        return false;
    }
    let mut i: usize = 0;
    while i < a.content.len()
        invariant
            a.content@.len() == b.content@.len(),
            i <= a.content@.len(),
            forall|j: int|
                0 <= j < i ==> alike_block(#[trigger] a@.content[j], b@.content[j]),
        decreases a.content@.len() - i,
    {
        proof {
            assert(a@.content[i as int] == a.content@[i as int]@);
            assert(b@.content[i as int] == b.content@[i as int]@);
        }
        if !same_block(&a.content[i], &b.content[i]) {
            return false;
        }
        i += 1;
    }
    true
}

/// A copy of a list of messages.
pub fn clone_messages(messages: &Vec<Message>) -> (r: Vec<Message>)
    ensures
        views(r@) == views(messages@),
{
    let mut out: Vec<Message> = Vec::new();
    let mut i: usize = 0;
    while i < messages.len()
        invariant
            i <= messages@.len(),
            views(out@) == views(messages@).take(i as int),
        decreases messages@.len() - i,
    {
        let ghost before = out@;
        let c = messages[i].clone();
        let ghost cv = c@;
        out.push(c);
        proof {
            lemma_step(views(messages@), i as int);
            assert(views(out@) =~= views(before).push(cv));
        }
        i += 1;
    }
    proof {
        assert(views(messages@).take(i as int) =~= views(messages@));
    }
    out
}

/// The texts of the text blocks, in order.
pub open spec fn block_texts(blocks: Seq<BlockView>) -> Seq<Seq<char>>
    decreases blocks.len(),
{
    if blocks.len() == 0 {
        Seq::empty()
    } else {
        let before = block_texts(blocks.drop_last());
        match blocks.last() {
            BlockView::Text { text } => before.push(text),
            _ => before,
        }
    }
}

/// The texts of the text blocks, in order.
pub fn texts_of(blocks: &Vec<ContentBlock>) -> (r: Vec<String>)
    ensures
        views(r@) == block_texts(views(blocks@)),
{
    let mut out: Vec<String> = Vec::new();
    let mut i: usize = 0;
    let ghost all = views(blocks@);
    proof {
        assert(views(out@) =~= block_texts(all.take(0)));
    }
    while i < blocks.len()
        invariant
            i <= blocks@.len(),
            all == views(blocks@),
            views(out@) == block_texts(all.take(i as int)),
        decreases blocks@.len() - i,
    {
        proof {
            lemma_step(all, i as int);
            assert(all[i as int] == blocks@[i as int]@);
        }
        match &blocks[i] {
            ContentBlock::Text { text } => {
                let ghost before = out@;
                out.push(text.clone());
                proof {
                    assert(views(out@) =~= views(before).push(text@));
                }
            },
            _ => {},
        }
        i += 1;
    }
    proof {
        assert(all.take(i as int) =~= all);
    }
    out
}

impl MessageView {
    /// The text blocks joined by line feeds, ignoring tool traffic.
    pub open spec fn text(self) -> Seq<char> {
        join(block_texts(self.content), "\n"@)
    }
}

/// Whether a block is a tool result.
pub open spec fn is_result(b: BlockView) -> bool {
    b is ToolResult
}

impl Message {
    /// A user message of one text block.
    pub fn user_text(text: &str) -> (r: Self)
        ensures
            r@.role == Role::User,
            r@.content == seq![BlockView::Text { text: text@ }],
    {
        let mut content: Vec<ContentBlock> = Vec::new();
        content.push(ContentBlock::Text { text: text.to_owned() });
        proof {
            assert(views(content@) =~= seq![BlockView::Text { text: text@ }]);
        }
        Message { role: Role::User, content }
    }

    /// The user message that carries tool results.
    pub fn tool_results(results: Vec<ContentBlock>) -> (r: Self)
        requires
            forall|i: int| 0 <= i < results@.len() ==> is_result(#[trigger] results@[i]@),
        ensures
            r@ == (MessageView { role: Role::User, content: views(results@) }),
    {
        Message { role: Role::User, content: results }
    }

    /// Concatenated text blocks, ignoring tool traffic.
    pub fn text(&self) -> (r: String)
        ensures
            r@ == self@.text(),
    {
        let parts = texts_of(&self.content);
        join_with(&parts, "\n")
    }
}

/// A tool as it is offered to a model.
#[derive(Debug)]
pub struct ToolSpec {
    pub name: String,
    pub description: String,
    /// JSON Schema for the tool input.
    pub input_schema: Json,
}

/// What a tool offer is.
pub struct ToolSpecView {
    pub name: Seq<char>,
    pub description: Seq<char>,
    pub input_schema: JsonView,
}

impl View for ToolSpec {
    type V = ToolSpecView;

    open spec fn view(&self) -> ToolSpecView {
        ToolSpecView {
            name: self.name@,
            description: self.description@,
            input_schema: self.input_schema@,
        }
    }
}

impl Clone for ToolSpec {
    fn clone(&self) -> (r: Self)
        ensures
            r@ == self@,
    {
        ToolSpec {
            name: self.name.clone(),
            description: self.description.clone(),
            input_schema: self.input_schema.clone(),
        }
    }
}

/// One call to a model.
#[derive(Debug)]
pub struct Request {
    pub model: String,
    pub system: String,
    pub messages: Vec<Message>,
    pub tools: Vec<ToolSpec>,
    pub max_tokens: u32,
}

/// What a request is.
pub struct RequestView {
    pub model: Seq<char>,
    pub system: Seq<char>,
    pub messages: Seq<MessageView>,
    pub tools: Seq<ToolSpecView>,
    pub max_tokens: u32,
}

impl View for Request {
    type V = RequestView;

    open spec fn view(&self) -> RequestView {
        RequestView {
            model: self.model@,
            system: self.system@,
            messages: views(self.messages@),
            tools: views(self.tools@),
            max_tokens: self.max_tokens,
        }
    }
}

/// Why a model stopped.
#[derive(Debug)]
pub enum StopReason {
    EndTurn,
    ToolUse,
    MaxTokens,
    Other(String),
}

/// What a stop reason is.
pub enum StopReasonView {
    EndTurn,
    ToolUse,
    MaxTokens,
    Other(Seq<char>),
}

impl View for StopReason {
    type V = StopReasonView;

    open spec fn view(&self) -> StopReasonView {
        match self {
            StopReason::EndTurn => StopReasonView::EndTurn,
            StopReason::ToolUse => StopReasonView::ToolUse,
            StopReason::MaxTokens => StopReasonView::MaxTokens,
            StopReason::Other(s) => StopReasonView::Other(s@),
        }
    }
}

/// Tokens consumed.
#[derive(Debug, Clone, Copy, PartialEq, Eq, Structural)]
pub struct Usage {
    pub input_tokens: u64,
    pub output_tokens: u64,
}

impl Default for Usage {
    fn default() -> (r: Self)
        ensures
            r.input_tokens == 0,
            r.output_tokens == 0,
    {
        Usage { input_tokens: 0, output_tokens: 0 }
    }
}

impl Usage {
    /// Whether the sum of two counts can be held.
    pub open spec fn fits(self, rhs: Usage) -> bool {
        &&& self.input_tokens + rhs.input_tokens <= u64::MAX
        &&& self.output_tokens + rhs.output_tokens <= u64::MAX
    }

    /// The sum of two counts.
    pub open spec fn plus(self, rhs: Usage) -> Usage {
        Usage {
            input_tokens: (self.input_tokens + rhs.input_tokens) as u64,
            output_tokens: (self.output_tokens + rhs.output_tokens) as u64,
        }
    }

    /// Count `rhs` too.
    pub fn add_assign(&mut self, rhs: Usage)
        requires
            old(self).fits(rhs),
        ensures
            *final(self) == old(self).plus(rhs),
    {
        self.input_tokens = self.input_tokens + rhs.input_tokens;
        self.output_tokens = self.output_tokens + rhs.output_tokens;
    }
}

/// A model's answer.
#[derive(Debug)]
pub struct Response {
    pub content: Vec<ContentBlock>,
    pub stop_reason: StopReason,
    pub usage: Usage,
}

/// What an answer is.
pub struct ResponseView {
    pub content: Seq<BlockView>,
    pub stop_reason: StopReasonView,
    pub usage: Usage,
}

impl View for Response {
    type V = ResponseView;

    open spec fn view(&self) -> ResponseView {
        ResponseView {
            content: views(self.content@),
            stop_reason: self.stop_reason@,
            usage: self.usage,
        }
    }
}

/// A tool call: its id, the tool's name and the input.
#[derive(Debug)]
pub struct ToolUse {
    pub id: String,
    pub name: String,
    pub input: Json,
}

/// What a tool call is.
pub struct ToolUseView {
    pub id: Seq<char>,
    pub name: Seq<char>,
    pub input: JsonView,
}

impl View for ToolUse {
    type V = ToolUseView;

    open spec fn view(&self) -> ToolUseView {
        ToolUseView { id: self.id@, name: self.name@, input: self.input@ }
    }
}

/// The tool calls among blocks, in order.
pub open spec fn calls_in(blocks: Seq<BlockView>) -> Seq<ToolUseView>
    decreases blocks.len(),
{
    if blocks.len() == 0 {
        Seq::empty()
    } else {
        let before = calls_in(blocks.drop_last());
        match blocks.last() {
            BlockView::ToolUse { id, name, input } => before.push(ToolUseView { id, name, input }),
            _ => before,
        }
    }
}

impl Response {
    /// The tool calls of this answer, in request order.
    pub fn tool_uses(&self) -> (r: Vec<ToolUse>)
        ensures
            views(r@) == calls_in(self@.content),
    {
        let mut out: Vec<ToolUse> = Vec::new();
        let mut i: usize = 0;
        let ghost all = self@.content;
        proof {
            assert(views(out@) =~= calls_in(all.take(0)));
        }
        while i < self.content.len()
            invariant
                i <= self.content@.len(),
                all == self@.content,
                views(out@) == calls_in(all.take(i as int)),
            decreases self.content@.len() - i,
        {
            proof {
                lemma_step(all, i as int);
                assert(all[i as int] == self.content@[i as int]@);
            }
            match &self.content[i] {
                ContentBlock::ToolUse { id, name, input } => {
                    let ghost before = out@;
                    let call = ToolUse {
                        id: id.clone(),
                        name: name.clone(),
                        input: input.clone(),
                    };
                    let ghost cv = call@;
                    out.push(call);
                    proof {
                        assert(views(out@) =~= views(before).push(cv));
                    }
                },
                _ => {},
            }
            i += 1;
        }
        proof {
            assert(all.take(i as int) =~= all);
        }
        out
    }
}

/// Why a call to a model failed.
#[derive(Debug)]
pub enum ProviderError {
    /// The transport's own message.
    Transport(String),
    Api { status: u16, message: String },
    Malformed(String),
    /// A failure the provider reported, in its own words.
    Failure(String),
}

/// What an error says.
pub enum ProviderErrorView {
    Transport(Seq<char>),
    Api { status: u16, message: Seq<char> },
    Malformed(Seq<char>),
    Failure(Seq<char>),
}

impl View for ProviderError {
    type V = ProviderErrorView;

    open spec fn view(&self) -> ProviderErrorView {
        match self {
            ProviderError::Transport(m) => ProviderErrorView::Transport(m@),
            ProviderError::Api { status, message } => ProviderErrorView::Api {
                status: *status,
                message: message@,
            },
            ProviderError::Malformed(m) => ProviderErrorView::Malformed(m@),
            ProviderError::Failure(m) => ProviderErrorView::Failure(m@),
        }
    }
}

impl ProviderErrorView {
    /// The error in words.
    pub open spec fn words(self) -> Seq<char> {
        match self {
            ProviderErrorView::Transport(m) => "transport error: "@ + m,
            ProviderErrorView::Api { status, message } => "api error (status "@ + crate::text::dec(
                status as nat,
            ) + "): "@ + message,
            ProviderErrorView::Malformed(m) => "malformed response: "@ + m,
            ProviderErrorView::Failure(m) => m,
        }
    }
}

impl ProviderError {
    /// The error in words.
    pub fn to_string(&self) -> (r: String)
        ensures
            r@ == self@.words(),
    {
        match self {
            ProviderError::Transport(m) => "transport error: ".to_owned().concat(m.as_str()),
            ProviderError::Api { status, message } => {
                let code = crate::text::decimal(*status as u64);
                "api error (status ".to_owned().concat(code.as_str()).concat("): ").concat(
                    message.as_str(),
                )
            },
            ProviderError::Malformed(m) => "malformed response: ".to_owned().concat(m.as_str()),
            ProviderError::Failure(m) => m.clone(),
        }
    }
}

/// An answer or an error, as values.
pub open spec fn outcome(r: Result<Response, ProviderError>) -> Result<
    ResponseView,
    ProviderErrorView,
> {
    match r {
        Ok(v) => Ok(v@),
        Err(e) => Err(e@),
    }
}

} // verus!
