//! What the wire formats carry, field by field.
use vstd::prelude::*;
use vstd::string::*;

use super::{
    anthropic, block_texts, chatcompletions, codex, BlockView, MessageView, RequestView, Role,
    StopReasonView,
};
use super::chatcompletions::WireToolCallView;
use crate::json::{json_of, json_text, JsonView, NumView};
use crate::text::trim;

verus! {

/// How many of the first `k` items are of a sort.
pub open spec fn rank<A>(items: Seq<A>, k: int, sort: spec_fn(A) -> bool) -> nat
    decreases k,
{
    if k <= 0 {
        0
    } else if sort(items[k - 1]) {
        rank(items, k - 1, sort) + 1
    } else {
        rank(items, k - 1, sort)
    }
}

pub proof fn lemma_rank_of_front<A>(a: Seq<A>, b: Seq<A>, k: int, sort: spec_fn(A) -> bool)
    requires
        k <= a.len(),
        k <= b.len(),
        forall|i: int| 0 <= i < k ==> a[i] == b[i],
    ensures
        rank(a, k, sort) == rank(b, k, sort),
    decreases k,
{
    if k > 0 {
        lemma_rank_of_front(a, b, k - 1, sort);
    }
}

// ── Text ────────────────────────────────────────────────────────────────────

/// A message's text is its text blocks, one below the other; other blocks add
/// nothing.
pub proof fn law_text_blocks_stand_one_below_the_other(role: Role, before: Seq<BlockView>, b: BlockView)
    ensures
        ({
            let old_text = (MessageView { role, content: before }).text();
            let new_text = (MessageView { role, content: before.push(b) }).text();
            match b {
                BlockView::Text { text } => new_text == (if (exists|i: int|
                    0 <= i < before.len() && (#[trigger] before[i]) is Text) {
                    old_text + "\n"@ + text
                } else {
                    text
                }),
                _ => new_text == old_text,
            }
        }),
        (MessageView { role, content: Seq::empty() }).text() == Seq::<char>::empty(),
{
    let all = before.push(b);
    assert(all.drop_last() =~= before);
    lemma_texts(before);
    if let BlockView::Text { text } = b {
        let ts = block_texts(before);
        assert(ts.push(text).drop_last() =~= ts);
    }
}

proof fn lemma_texts(blocks: Seq<BlockView>)
    ensures
        (block_texts(blocks).len() > 0) == exists|i: int|
            0 <= i < blocks.len() && (#[trigger] blocks[i]) is Text,
    decreases blocks.len(),
{
    if blocks.len() > 0 {
        let front = blocks.drop_last();
        lemma_texts(front);
        if exists|i: int| 0 <= i < front.len() && (#[trigger] front[i]) is Text {
            let i = choose|i: int| 0 <= i < front.len() && (#[trigger] front[i]) is Text;
            assert(blocks[i] is Text);
        }
        if blocks.last() is Text {
            assert(blocks[blocks.len() - 1] is Text);
        }
        if exists|i: int| 0 <= i < blocks.len() && (#[trigger] blocks[i]) is Text {
            let i = choose|i: int| 0 <= i < blocks.len() && (#[trigger] blocks[i]) is Text;
            if i < front.len() {
                assert(front[i] is Text);
            }
        }
    }
}

// ── Chat completions ────────────────────────────────────────────────────────

proof fn lemma_chat_keys()
    ensures
        "role"@ != "content"@,
        "role"@ != "tool_call_id"@,
        "role"@ != "tool_calls"@,
        "content"@ != "tool_call_id"@,
        "content"@ != "tool_calls"@,
        "tool_call_id"@ != "tool_calls"@,
{
    reveal_strlit("role");
    reveal_strlit("content");
    reveal_strlit("tool_call_id");
    reveal_strlit("tool_calls");
    assert("role"@.len() == 4);
    assert("content"@.len() == 7);
    assert("tool_call_id"@.len() == 12);
    assert("tool_calls"@.len() == 10);
}

proof fn lemma_chat_call_keys()
    ensures
        "id"@ != "type"@,
        "id"@ != "function"@,
        "type"@ != "function"@,
{
    reveal_strlit("id");
    reveal_strlit("type");
    reveal_strlit("function");
    assert("id"@.len() == 2);
    assert("type"@.len() == 4);
    assert("function"@.len() == 8);
}

proof fn lemma_chat_function_keys()
    ensures
        "name"@ != "arguments"@,
        "name"@ != "description"@,
        "name"@ != "parameters"@,
        "arguments"@ != "description"@,
        "arguments"@ != "parameters"@,
        "description"@ != "parameters"@,
{
    reveal_strlit("name");
    reveal_strlit("arguments");
    reveal_strlit("description");
    reveal_strlit("parameters");
    assert("name"@.len() == 4);
    assert("arguments"@.len() == 9);
    assert("description"@.len() == 11);
    assert("parameters"@.len() == 10);
}

proof fn lemma_chat_request_keys()
    ensures
        "model"@ != "messages"@,
        "model"@ != "max_tokens"@,
        "model"@ != "tools"@,
        "messages"@ != "max_tokens"@,
        "messages"@ != "tools"@,
        "max_tokens"@ != "tools"@,
{
    reveal_strlit("model");
    reveal_strlit("messages");
    reveal_strlit("max_tokens");
    reveal_strlit("tools");
    assert("model"@.len() == 5);
    assert("messages"@.len() == 8);
    assert("max_tokens"@.len() == 10);
    assert("tools"@.len() == 5);
    assert("model"@[0] == 'm' && "tools"@[0] == 't');
}

proof fn lemma_chat_results_count(blocks: Seq<BlockView>)
    ensures
        chatcompletions::wire_results(blocks).len() == rank(blocks, blocks.len() as int, |b: BlockView| b is ToolResult),
    decreases blocks.len(),
{
    let f = |b: BlockView| b is ToolResult;
    if blocks.len() > 0 {
        lemma_chat_results_count(blocks.drop_last());
        lemma_rank_of_front(blocks, blocks.drop_last(), blocks.len() - 1, f);
    }
}

proof fn lemma_chat_results(blocks: Seq<BlockView>, k: int)
    requires
        0 <= k < blocks.len(),
        ({
            let b = blocks[k];
            b is ToolResult
        }),
    ensures
        ({
            let at = rank(blocks, k, |b: BlockView| b is ToolResult);
            let b = blocks[k];
            at < chatcompletions::wire_results(blocks).len() && chatcompletions::wire_results(blocks)[at as int] == chatcompletions::wire_result(b->tool_use_id, b->ToolResult_content, b->is_error)
        }),
    decreases blocks.len(),
{
    let f = |b: BlockView| b is ToolResult;
    let front = blocks.drop_last();
    lemma_chat_results_count(front);
    lemma_rank_of_front(blocks, front, k, f);
    if k < front.len() {
        lemma_chat_results(front, k);
    }
}

proof fn lemma_chat_calls_count(blocks: Seq<BlockView>)
    ensures
        chatcompletions::wire_calls(blocks).len() == rank(blocks, blocks.len() as int, |b: BlockView| b is ToolUse),
    decreases blocks.len(),
{
    let f = |b: BlockView| b is ToolUse;
    if blocks.len() > 0 {
        lemma_chat_calls_count(blocks.drop_last());
        lemma_rank_of_front(blocks, blocks.drop_last(), blocks.len() - 1, f);
    }
}

proof fn lemma_chat_calls(blocks: Seq<BlockView>, k: int)
    requires
        0 <= k < blocks.len(),
        ({
            let b = blocks[k];
            b is ToolUse
        }),
    ensures
        ({
            let at = rank(blocks, k, |b: BlockView| b is ToolUse);
            let b = blocks[k];
            at < chatcompletions::wire_calls(blocks).len() && chatcompletions::wire_calls(blocks)[at as int] == chatcompletions::wire_call(b->id, b->name, json_text(b->input))
        }),
    decreases blocks.len(),
{
    let f = |b: BlockView| b is ToolUse;
    let front = blocks.drop_last();
    lemma_chat_calls_count(front);
    lemma_rank_of_front(blocks, front, k, f);
    if k < front.len() {
        lemma_chat_calls(front, k);
    }
}

/// Each tool result of a user's message goes out as a message of its own, in
/// order: it names the call it answers, and says what the tool said, behind a
/// mark where the tool failed.
pub proof fn law_chat_sends_each_result(m: MessageView, k: int)
    requires
        m.role == Role::User,
        0 <= k < m.content.len(),
        m.content[k] is ToolResult,
    ensures
        ({
            let at = rank(m.content, k, |b: BlockView| b is ToolResult) as int;
            let sent = chatcompletions::wire_message(m);
            &&& at < sent.len()
            &&& sent[at].str_field("role"@) == Some("tool"@)
            &&& sent[at].str_field("tool_call_id"@) == Some(m.content[k]->tool_use_id)
            &&& !m.content[k]->is_error ==> sent[at].str_field("content"@) == Some(
                m.content[k]->ToolResult_content,
            )
            &&& m.content[k]->is_error ==> sent[at].str_field("content"@) == Some(
                "ERROR: "@ + m.content[k]->ToolResult_content,
            )
        }),
{
    lemma_chat_keys();
    lemma_chat_results(m.content, k);
}

/// A user's message goes out as one message for each tool result and, where it
/// has text, one more with that text behind them.
pub proof fn law_chat_sends_user_text(m: MessageView)
    requires
        m.role == Role::User,
    ensures
        ({
            let results = rank(
                m.content,
                m.content.len() as int,
                |b: BlockView| b is ToolResult,
            );
            let sent = chatcompletions::wire_message(m);
            if exists|i: int| 0 <= i < m.content.len() && (#[trigger] m.content[i]) is Text {
                &&& sent.len() == results + 1
                &&& sent.last().str_field("role"@) == Some("user"@)
                &&& sent.last().str_field("content"@) == Some(m.text())
            } else {
                sent.len() == results
            }
        }),
{
    lemma_chat_keys();
    lemma_chat_results_count(m.content);
    lemma_texts(m.content);
}

/// Two user messages that differ in what a tool said differ on the wire.
pub proof fn law_chat_tells_results_apart(a: MessageView, b: MessageView, k: int)
    requires
        a.role == Role::User,
        b.role == Role::User,
        a.content.len() == b.content.len(),
        0 <= k < a.content.len(),
        forall|i: int| 0 <= i < a.content.len() && i != k ==> a.content[i] == b.content[i],
        a.content[k] is ToolResult,
        b.content[k] is ToolResult,
        a.content[k]->is_error == b.content[k]->is_error,
        a.content[k]->ToolResult_content != b.content[k]->ToolResult_content,
    ensures
        chatcompletions::wire_message(a) != chatcompletions::wire_message(b),
{
    law_chat_sends_each_result(a, k);
    law_chat_sends_each_result(b, k);
    lemma_rank_of_front(a.content, b.content, k, |b: BlockView| b is ToolResult);
    let x = "ERROR: "@ + a.content[k]->ToolResult_content;
    let y = "ERROR: "@ + b.content[k]->ToolResult_content;
    if x == y {
        let n = "ERROR: "@.len() as int;
        assert(x.skip(n) =~= a.content[k]->ToolResult_content);
        assert(y.skip(n) =~= b.content[k]->ToolResult_content);
    }
}

/// An assistant's message goes out as one, with its text and each of its calls,
/// in order, under its id and name and with its input printed; a message with
/// neither is not sent.
pub proof fn law_chat_sends_assistant(m: MessageView)
    requires
        m.role == Role::Assistant,
    ensures
        ({
            let sent = chatcompletions::wire_message(m);
            let calls = rank(m.content, m.content.len() as int, |b: BlockView| b is ToolUse);
            let texts = exists|i: int| 0 <= i < m.content.len() && (#[trigger] m.content[i]) is Text;
            if calls == 0 && !texts {
                sent.len() == 0
            } else {
                &&& sent.len() == 1
                &&& sent[0].str_field("role"@) == Some("assistant"@)
                &&& texts ==> sent[0].str_field("content"@) == Some(m.text())
                &&& !texts ==> sent[0].get("content"@) is None
                &&& calls == 0 ==> sent[0].get("tool_calls"@) is None
                &&& calls > 0 ==> (sent[0].get("tool_calls"@) matches Some(v) && v is Array
                    && v->Array_0.len() == calls)
            }
        }),
{
    lemma_chat_keys();
    lemma_chat_calls_count(m.content);
    lemma_texts(m.content);
}

/// Each call of an assistant's message goes out in its place, under its id and
/// name and with its input printed.
pub proof fn law_chat_sends_each_call(m: MessageView, k: int)
    requires
        m.role == Role::Assistant,
        0 <= k < m.content.len(),
        m.content[k] is ToolUse,
    ensures
        ({
            let at = rank(m.content, k, |b: BlockView| b is ToolUse) as int;
            let sent = chatcompletions::wire_message(m);
            &&& sent.len() == 1
            &&& sent[0].get("tool_calls"@) matches Some(JsonView::Array(calls))
            &&& at < calls.len()
            &&& calls[at].str_field("id"@) == Some(m.content[k]->id)
            &&& calls[at].str_field("type"@) == Some("function"@)
            &&& calls[at].get("function"@) matches Some(f)
            &&& f.str_field("name"@) == Some(m.content[k]->name)
            &&& f.str_field("arguments"@) == Some(json_text(m.content[k]->input))
        }),
{
    lemma_chat_keys();
    lemma_chat_call_keys();
    lemma_chat_function_keys();
    lemma_chat_calls(m.content, k);
    lemma_chat_calls_count(m.content);
}

/// The conversation is sent whole and in order: two parts of it are sent one
/// after the other, and a message alone as that message.
pub proof fn law_chat_sends_messages_in_order(a: Seq<MessageView>, b: Seq<MessageView>, m: MessageView)
    ensures
        chatcompletions::wire_messages(a + b) == chatcompletions::wire_messages(a)
            + chatcompletions::wire_messages(b),
        chatcompletions::wire_messages(seq![m]) == chatcompletions::wire_message(m),
    decreases b.len(),
{
    assert(seq![m].drop_last() =~= Seq::<MessageView>::empty());
    assert(chatcompletions::wire_messages(seq![m]) =~= chatcompletions::wire_message(m)) by {
        reveal_with_fuel(chatcompletions::wire_messages, 2);
    }
    if b.len() == 0 {
        assert(a + b =~= a);
        assert(chatcompletions::wire_messages(a) + chatcompletions::wire_messages(b)
            =~= chatcompletions::wire_messages(a));
    } else {
        law_chat_sends_messages_in_order(a, b.drop_last(), m);
        assert((a + b).drop_last() =~= a + b.drop_last());
        assert(chatcompletions::wire_messages(a + b) =~= chatcompletions::wire_messages(a)
            + chatcompletions::wire_messages(b));
    }
}

/// A request names the model, the limit, the system prompt first and the whole
/// conversation behind it, and each tool with its schema.
pub proof fn law_chat_request_carries_all(req: RequestView)
    ensures
        ({
            let w = chatcompletions::wire_request(req);
            let lead = if req.system.len() == 0 {
                0int
            } else {
                1int
            };
            &&& w.str_field("model"@) == Some(req.model)
            &&& w.get("max_tokens"@) == Some(JsonView::Num(NumView::Int(req.max_tokens as int)))
            &&& w.get("messages"@) matches Some(JsonView::Array(ms))
            &&& ms.len() == lead + chatcompletions::wire_messages(req.messages).len()
            &&& ms.skip(lead) == chatcompletions::wire_messages(req.messages)
            &&& lead == 1 ==> ms[0].str_field("role"@) == Some("system"@) && ms[0].str_field(
                "content"@,
            ) == Some(req.system)
            &&& req.tools.len() == 0 ==> w.get("tools"@) is None
            &&& req.tools.len() > 0 ==> (w.get("tools"@) matches Some(v) && v is Array
                && v->Array_0.len() == req.tools.len())
        }),
{
    lemma_chat_request_keys();
    lemma_chat_keys();
    let w = chatcompletions::wire_request(req);
    let sent = chatcompletions::wire_messages(req.messages);
    if req.system.len() == 0 {
        assert((Seq::<JsonView>::empty() + sent).skip(0) =~= sent);
    } else {
        assert((seq![chatcompletions::wire_text("system"@, req.system)] + sent).skip(1) =~= sent);
    }
}

/// Each tool of a request is offered in its place under its name, with its
/// description and its schema.
pub proof fn law_chat_offers_each_tool(req: RequestView, i: int)
    requires
        0 <= i < req.tools.len(),
    ensures
        ({
            &&& chatcompletions::wire_request(req).get("tools"@) matches Some(JsonView::Array(ts))
            &&& ts[i].str_field("type"@) == Some("function"@)
            &&& ts[i].get("function"@) matches Some(f)
            &&& f.str_field("name"@) == Some(req.tools[i].name)
            &&& f.str_field("description"@) == Some(req.tools[i].description)
            &&& f.get("parameters"@) == Some(req.tools[i].input_schema)
        }),
{
    lemma_chat_request_keys();
    lemma_chat_call_keys();
    lemma_chat_function_keys();
}

proof fn lemma_chat_reads_calls(first: Seq<BlockView>, calls: Seq<WireToolCallView>, i: int)
    requires
        chatcompletions::read_calls(first, calls) is Ok,
        0 <= i < calls.len(),
    ensures
        ({
            let read = chatcompletions::read_calls(first, calls)->Ok_0;
            &&& read.len() == first.len() + calls.len()
            &&& read.take(first.len() as int) == first
            &&& read[first.len() + i] matches BlockView::ToolUse { id, name, input }
            &&& id == calls[i].id
            &&& name == calls[i].name
            &&& trim(calls[i].arguments).len() > 0 ==> json_of(calls[i].arguments) == Ok::<
                JsonView,
                Seq<char>,
            >(input)
            &&& trim(calls[i].arguments).len() == 0 ==> input == JsonView::Object(Map::empty())
        }),
    decreases calls.len(),
{
    let front = calls.drop_last();
    let before = chatcompletions::read_calls(first, front)->Ok_0;
    if front.len() > 0 {
        lemma_chat_reads_calls(first, front, if i < front.len() { i } else { 0 });
    } else {
        assert(first.take(first.len() as int) =~= first);
    }
    let read = chatcompletions::read_calls(first, calls)->Ok_0;
    assert(read.take(first.len() as int) =~= before.take(first.len() as int));
}

/// Of an answer the first choice is read: its text, if it has any, then each
/// call in order under its id and name, with its arguments parsed; the usage is
/// the one reported.
pub proof fn law_chat_answer_is_read(wire: chatcompletions::WireResponseView, i: int)
    requires
        wire.choices.len() > 0,
        chatcompletions::read_response(wire) is Ok,
    ensures
        ({
            let choice = wire.choices[0];
            let r = chatcompletions::read_response(wire)->Ok_0;
            let lead = if choice.content matches Some(t) && t.len() > 0 {
                1int
            } else {
                0int
            };
            &&& r.content.len() == lead + choice.tool_calls.len()
            &&& lead == 1 ==> r.content[0] == BlockView::Text { text: choice.content->0 }
            &&& 0 <= i < choice.tool_calls.len() ==> {
                &&& r.content[lead + i] matches BlockView::ToolUse { id, name, input }
                &&& id == choice.tool_calls[i].id
                &&& name == choice.tool_calls[i].name
                &&& trim(choice.tool_calls[i].arguments).len() > 0 ==> json_of(
                    choice.tool_calls[i].arguments,
                ) == Ok::<JsonView, Seq<char>>(input)
            }
            &&& wire.usage matches Some(u) ==> r.usage == u
            &&& choice.tool_calls.len() > 0 ==> r.stop_reason == StopReasonView::ToolUse
            &&& choice.tool_calls.len() == 0 ==> (choice.finish_reason == Some("length"@)
                <==> r.stop_reason == StopReasonView::MaxTokens)
            &&& choice.tool_calls.len() == 0 && choice.finish_reason == Some("stop"@)
                ==> r.stop_reason == StopReasonView::EndTurn
        }),
{
    reveal_strlit("stop");
    reveal_strlit("length");
    reveal_strlit("tool_calls");
    assert("stop"@.len() == 4 && "length"@.len() == 6 && "tool_calls"@.len() == 10);
    let choice = wire.choices[0];
    let first = chatcompletions::read_text(choice.content);
    if choice.tool_calls.len() > 0 {
        lemma_chat_reads_calls(
            first,
            choice.tool_calls,
            if 0 <= i < choice.tool_calls.len() {
                i
            } else {
                0
            },
        );
        let r = chatcompletions::read_response(wire)->Ok_0;
        if first.len() == 1 {
            assert(r.content.take(1)[0] == first[0]);
        }
    }
}

// ── The Messages API ────────────────────────────────────────────────────────

proof fn lemma_anthropic_block_keys()
    ensures
        "type"@ != "text"@,
        "type"@ != "id"@,
        "type"@ != "name"@,
        "type"@ != "input"@,
        "type"@ != "tool_use_id"@,
        "type"@ != "content"@,
        "type"@ != "is_error"@,
        "type"@ != "cache_control"@,
        "text"@ != "id"@,
        "text"@ != "name"@,
        "text"@ != "input"@,
        "text"@ != "tool_use_id"@,
        "text"@ != "content"@,
        "text"@ != "is_error"@,
        "text"@ != "cache_control"@,
        "id"@ != "name"@,
        "id"@ != "input"@,
        "id"@ != "tool_use_id"@,
        "id"@ != "content"@,
        "id"@ != "is_error"@,
        "id"@ != "cache_control"@,
        "name"@ != "input"@,
        "name"@ != "tool_use_id"@,
        "name"@ != "content"@,
        "name"@ != "is_error"@,
        "name"@ != "cache_control"@,
        "input"@ != "tool_use_id"@,
        "input"@ != "content"@,
        "input"@ != "is_error"@,
        "input"@ != "cache_control"@,
        "tool_use_id"@ != "content"@,
        "tool_use_id"@ != "is_error"@,
        "tool_use_id"@ != "cache_control"@,
        "content"@ != "is_error"@,
        "content"@ != "cache_control"@,
        "is_error"@ != "cache_control"@,
{
    reveal_strlit("type");
    reveal_strlit("text");
    reveal_strlit("id");
    reveal_strlit("name");
    reveal_strlit("input");
    reveal_strlit("tool_use_id");
    reveal_strlit("content");
    reveal_strlit("is_error");
    reveal_strlit("cache_control");
    assert("type"@.len() == 4);
    assert("text"@.len() == 4);
    assert("id"@.len() == 2);
    assert("name"@.len() == 4);
    assert("input"@.len() == 5);
    assert("tool_use_id"@.len() == 11);
    assert("content"@.len() == 7);
    assert("is_error"@.len() == 8);
    assert("cache_control"@.len() == 13);
    assert("type"@[1] == 'y' && "text"@[1] == 'e');
    assert("type"@[0] == 't' && "name"@[0] == 'n');
    assert("text"@[0] == 't' && "name"@[0] == 'n');
}

proof fn lemma_anthropic_request_keys()
    ensures
        "model"@ != "max_tokens"@,
        "model"@ != "messages"@,
        "model"@ != "tools"@,
        "model"@ != "system"@,
        "max_tokens"@ != "messages"@,
        "max_tokens"@ != "tools"@,
        "max_tokens"@ != "system"@,
        "messages"@ != "tools"@,
        "messages"@ != "system"@,
        "tools"@ != "system"@,
{
    reveal_strlit("model");
    reveal_strlit("max_tokens");
    reveal_strlit("messages");
    reveal_strlit("tools");
    reveal_strlit("system");
    assert("model"@.len() == 5);
    assert("max_tokens"@.len() == 10);
    assert("messages"@.len() == 8);
    assert("tools"@.len() == 5);
    assert("system"@.len() == 6);
    assert("model"@[0] == 'm' && "tools"@[0] == 't');
}

proof fn lemma_anthropic_tool_keys()
    ensures
        "name"@ != "description"@,
        "name"@ != "input_schema"@,
        "description"@ != "input_schema"@,
{
    reveal_strlit("name");
    reveal_strlit("description");
    reveal_strlit("input_schema");
    assert("name"@.len() == 4);
    assert("description"@.len() == 11);
    assert("input_schema"@.len() == 12);
}

proof fn lemma_anthropic_message_keys()
    ensures
        "role"@ != "content"@,
{
    reveal_strlit("role");
    reveal_strlit("content");
    assert("role"@.len() == 4);
    assert("content"@.len() == 7);
}

proof fn lemma_anthropic_blocks_count(blocks: Seq<BlockView>)
    ensures
        anthropic::wire_blocks(blocks).len() == rank(blocks, blocks.len() as int, |b: BlockView| !(b is Opaque)),
    decreases blocks.len(),
{
    let f = |b: BlockView| !(b is Opaque);
    if blocks.len() > 0 {
        lemma_anthropic_blocks_count(blocks.drop_last());
        lemma_rank_of_front(blocks, blocks.drop_last(), blocks.len() - 1, f);
    }
}

proof fn lemma_anthropic_blocks(blocks: Seq<BlockView>, k: int)
    requires
        0 <= k < blocks.len(),
        ({
            let b = blocks[k];
            !(b is Opaque)
        }),
    ensures
        ({
            let at = rank(blocks, k, |b: BlockView| !(b is Opaque));
            let b = blocks[k];
            at < anthropic::wire_blocks(blocks).len() && anthropic::wire_blocks(blocks)[at as int] == anthropic::wire_block(b)->Some_0
        }),
    decreases blocks.len(),
{
    let f = |b: BlockView| !(b is Opaque);
    let front = blocks.drop_last();
    lemma_anthropic_blocks_count(front);
    lemma_rank_of_front(blocks, front, k, f);
    if k < front.len() {
        lemma_anthropic_blocks(front, k);
    }
}

/// Each block of a message goes out in its place with all that it says; only
/// replay data stays behind.
pub proof fn law_anthropic_sends_each_block(blocks: Seq<BlockView>, k: int)
    requires
        0 <= k < blocks.len(),
        !(blocks[k] is Opaque),
    ensures
        ({
            let at = rank(blocks, k, |b: BlockView| !(b is Opaque)) as int;
            let sent = anthropic::wire_blocks(blocks);
            &&& sent.len() == rank(blocks, blocks.len() as int, |b: BlockView| !(b is Opaque))
            &&& at < sent.len()
            &&& blocks[k] matches BlockView::Text { text } ==> sent[at].str_field("type"@) == Some(
                "text"@,
            ) && sent[at].str_field("text"@) == Some(text)
            &&& blocks[k] matches BlockView::ToolUse { id, name, input } ==> sent[at].str_field(
                "type"@,
            ) == Some("tool_use"@) && sent[at].str_field("id"@) == Some(id) && sent[at].str_field(
                "name"@,
            ) == Some(name) && sent[at].get("input"@) == Some(input)
            &&& blocks[k] matches BlockView::ToolResult { tool_use_id, content, is_error }
                ==> sent[at].str_field("type"@) == Some("tool_result"@) && sent[at].str_field(
                "tool_use_id"@,
            ) == Some(tool_use_id) && sent[at].str_field("content"@) == Some(content) && (
            sent[at].bool_field("is_error"@) == Some(true)) == is_error
        }),
{
    lemma_anthropic_block_keys();
    lemma_anthropic_blocks(blocks, k);
    lemma_anthropic_blocks_count(blocks);
}

/// Whether a message has something to send.
pub open spec fn sayable(m: MessageView) -> bool {
    exists|i: int| 0 <= i < m.content.len() && !((#[trigger] m.content[i]) is Opaque)
}

proof fn lemma_sayable(m: MessageView)
    ensures
        sayable(m) == (anthropic::wire_blocks(m.content).len() > 0),
{
    lemma_sayable_blocks(m.content);
}

proof fn lemma_sayable_blocks(blocks: Seq<BlockView>)
    ensures
        (exists|i: int| 0 <= i < blocks.len() && !((#[trigger] blocks[i]) is Opaque)) == (
        anthropic::wire_blocks(blocks).len() > 0),
    decreases blocks.len(),
{
    if blocks.len() > 0 {
        let front = blocks.drop_last();
        lemma_sayable_blocks(front);
        if anthropic::wire_blocks(front).len() > 0 {
            let i = choose|i: int| 0 <= i < front.len() && !((#[trigger] front[i]) is Opaque);
            assert(!(blocks[i] is Opaque));
        }
        if !(blocks.last() is Opaque) {
            assert(!(blocks[blocks.len() - 1] is Opaque));
        }
        if exists|i: int| 0 <= i < blocks.len() && !((#[trigger] blocks[i]) is Opaque) {
            let i = choose|i: int| 0 <= i < blocks.len() && !((#[trigger] blocks[i]) is Opaque);
            if i < front.len() {
                assert(!(front[i] is Opaque));
            }
        }
    }
}

/// Each message that has something to send goes out in its place, under who
/// speaks and with its blocks.
pub proof fn law_anthropic_sends_each_message(messages: Seq<MessageView>, k: int)
    requires
        0 <= k < messages.len(),
        sayable(messages[k]),
    ensures
        ({
            let at = rank(messages, k, |m: MessageView| sayable(m)) as int;
            let sent = anthropic::wire_messages(messages);
            &&& at < sent.len()
            &&& sent[at].str_field("role"@) == Some(
                if messages[k].role == Role::User {
                    "user"@
                } else {
                    "assistant"@
                },
            )
            &&& sent[at].get("content"@) == Some(
                JsonView::Array(anthropic::wire_blocks(messages[k].content)),
            )
        }),
    decreases messages.len(),
{
    lemma_anthropic_message_keys();
    let f = |m: MessageView| sayable(m);
    let front = messages.drop_last();
    lemma_anthropic_message_count(front);
    lemma_rank_of_front(messages, front, k, f);
    lemma_sayable(messages[k]);
    if k < front.len() {
        law_anthropic_sends_each_message(front, k);
    }
}

proof fn lemma_anthropic_message_count(messages: Seq<MessageView>)
    ensures
        anthropic::wire_messages(messages).len() == rank(
            messages,
            messages.len() as int,
            |m: MessageView| sayable(m),
        ),
    decreases messages.len(),
{
    let f = |m: MessageView| sayable(m);
    if messages.len() > 0 {
        lemma_anthropic_message_count(messages.drop_last());
        lemma_rank_of_front(messages, messages.drop_last(), messages.len() - 1, f);
        lemma_sayable(messages.last());
    }
}

/// A request names the model and the limit, and carries the system prompt, the
/// conversation and each tool.
pub proof fn law_anthropic_request_carries_all(req: RequestView, caching: bool)
    ensures
        ({
            let w = anthropic::wire_request(req, caching);
            &&& w.str_field("model"@) == Some(req.model)
            &&& w.get("max_tokens"@) == Some(JsonView::Num(NumView::Int(req.max_tokens as int)))
            &&& w.get("messages"@) == Some(JsonView::Array(anthropic::wire_messages(req.messages)))
            &&& req.system.len() == 0 ==> w.get("system"@) is None
            &&& req.system.len() > 0 && !caching ==> w.str_field("system"@) == Some(req.system)
            &&& req.system.len() > 0 && caching ==> (w.get("system"@) matches Some(
                JsonView::Array(parts),
            ) && parts.len() == 1 && parts[0].str_field("text"@) == Some(req.system)
                && parts[0].str_field("type"@) == Some("text"@) && (parts[0].get(
                "cache_control"@,
            ) matches Some(c) && c.str_field("type"@) == Some("ephemeral"@)))
            &&& req.tools.len() == 0 ==> w.get("tools"@) is None
            &&& req.tools.len() > 0 ==> (w.get("tools"@) matches Some(v) && v is Array
                && v->Array_0.len() == req.tools.len())
        }),
{
    lemma_anthropic_request_keys();
    lemma_anthropic_block_keys();
}

/// Each tool of a request is offered in its place under its name, with its
/// description and its schema.
pub proof fn law_anthropic_offers_each_tool(req: RequestView, caching: bool, i: int)
    requires
        0 <= i < req.tools.len(),
    ensures
        ({
            &&& anthropic::wire_request(req, caching).get("tools"@) matches Some(
                JsonView::Array(ts),
            )
            &&& ts[i].str_field("name"@) == Some(req.tools[i].name)
            &&& ts[i].str_field("description"@) == Some(req.tools[i].description)
            &&& ts[i].get("input_schema"@) == Some(req.tools[i].input_schema)
        }),
{
    lemma_anthropic_request_keys();
    lemma_anthropic_tool_keys();
}

/// Whether a block of an answer is one that is kept.
pub open spec fn known_block(b: anthropic::WireBlockView) -> bool {
    b is Text || b is ToolUse
}

/// Each text and call of an answer is read in its place, word for word.
pub proof fn law_anthropic_reads_each_block(blocks: Seq<anthropic::WireBlockView>, k: int)
    requires
        0 <= k < blocks.len(),
        known_block(blocks[k]),
    ensures
        ({
            let at = rank(blocks, k, |b: anthropic::WireBlockView| known_block(b)) as int;
            let read = anthropic::read_blocks(blocks);
            &&& at < read.len()
            &&& blocks[k] matches anthropic::WireBlockView::Text { text } ==> read[at]
                == (BlockView::Text { text })
            &&& blocks[k] matches anthropic::WireBlockView::ToolUse { id, name, input }
                ==> read[at] == (BlockView::ToolUse { id, name, input })
        }),
    decreases blocks.len(),
{
    let f = |b: anthropic::WireBlockView| known_block(b);
    let front = blocks.drop_last();
    lemma_anthropic_read_count(front);
    lemma_rank_of_front(blocks, front, k, f);
    if k < front.len() {
        law_anthropic_reads_each_block(front, k);
    }
}

proof fn lemma_anthropic_read_count(blocks: Seq<anthropic::WireBlockView>)
    ensures
        anthropic::read_blocks(blocks).len() == rank(
            blocks,
            blocks.len() as int,
            |b: anthropic::WireBlockView| known_block(b),
        ),
    decreases blocks.len(),
{
    let f = |b: anthropic::WireBlockView| known_block(b);
    if blocks.len() > 0 {
        lemma_anthropic_read_count(blocks.drop_last());
        lemma_rank_of_front(blocks, blocks.drop_last(), blocks.len() - 1, f);
    }
}

/// An answer is read with its blocks, why it stopped and what it used; without
/// a reason it is malformed.
pub proof fn law_anthropic_answer_is_read(wire: anthropic::WireResponseView)
    ensures
        anthropic::read_response(wire) is Err <==> wire.stop_reason is None,
        anthropic::read_response(wire) matches Ok(r) ==> {
            &&& r.content == anthropic::read_blocks(wire.content)
            &&& r.content.len() == rank(
                wire.content,
                wire.content.len() as int,
                |b: anthropic::WireBlockView| known_block(b),
            )
            &&& r.usage == wire.usage
            &&& wire.stop_reason == Some("end_turn"@) ==> r.stop_reason == StopReasonView::EndTurn
            &&& wire.stop_reason == Some("tool_use"@) <==> r.stop_reason == StopReasonView::ToolUse
            &&& wire.stop_reason == Some("max_tokens"@) <==> r.stop_reason
                == StopReasonView::MaxTokens
        },
{
    lemma_anthropic_read_count(wire.content);
    reveal_strlit("end_turn");
    reveal_strlit("stop_sequence");
    reveal_strlit("tool_use");
    reveal_strlit("max_tokens");
    assert("end_turn"@.len() == 8 && "tool_use"@.len() == 8 && "max_tokens"@.len() == 10
        && "stop_sequence"@.len() == 13);
    assert("end_turn"@[0] == 'e' && "tool_use"@[0] == 't');
}

// ── The Responses API ───────────────────────────────────────────────────────

proof fn lemma_codex_item_keys()
    ensures
        "type"@ != "role"@,
        "type"@ != "content"@,
        "type"@ != "call_id"@,
        "type"@ != "name"@,
        "type"@ != "arguments"@,
        "type"@ != "output"@,
        "type"@ != "text"@,
        "type"@ != "description"@,
        "type"@ != "parameters"@,
        "role"@ != "content"@,
        "role"@ != "call_id"@,
        "role"@ != "name"@,
        "role"@ != "arguments"@,
        "role"@ != "output"@,
        "role"@ != "text"@,
        "role"@ != "description"@,
        "role"@ != "parameters"@,
        "content"@ != "call_id"@,
        "content"@ != "name"@,
        "content"@ != "arguments"@,
        "content"@ != "output"@,
        "content"@ != "text"@,
        "content"@ != "description"@,
        "content"@ != "parameters"@,
        "call_id"@ != "name"@,
        "call_id"@ != "arguments"@,
        "call_id"@ != "output"@,
        "call_id"@ != "text"@,
        "call_id"@ != "description"@,
        "call_id"@ != "parameters"@,
        "name"@ != "arguments"@,
        "name"@ != "output"@,
        "name"@ != "text"@,
        "name"@ != "description"@,
        "name"@ != "parameters"@,
        "arguments"@ != "output"@,
        "arguments"@ != "text"@,
        "arguments"@ != "description"@,
        "arguments"@ != "parameters"@,
        "output"@ != "text"@,
        "output"@ != "description"@,
        "output"@ != "parameters"@,
        "text"@ != "description"@,
        "text"@ != "parameters"@,
        "description"@ != "parameters"@,
{
    reveal_strlit("type");
    reveal_strlit("role");
    reveal_strlit("content");
    reveal_strlit("call_id");
    reveal_strlit("name");
    reveal_strlit("arguments");
    reveal_strlit("output");
    reveal_strlit("text");
    reveal_strlit("description");
    reveal_strlit("parameters");
    assert("type"@.len() == 4);
    assert("role"@.len() == 4);
    assert("content"@.len() == 7);
    assert("call_id"@.len() == 7);
    assert("name"@.len() == 4);
    assert("arguments"@.len() == 9);
    assert("output"@.len() == 6);
    assert("text"@.len() == 4);
    assert("description"@.len() == 11);
    assert("parameters"@.len() == 10);
    assert("type"@[0] == 't' && "role"@[0] == 'r');
    assert("type"@[0] == 't' && "name"@[0] == 'n');
    assert("type"@[1] == 'y' && "text"@[1] == 'e');
    assert("role"@[0] == 'r' && "name"@[0] == 'n');
    assert("role"@[0] == 'r' && "text"@[0] == 't');
    assert("content"@[1] == 'o' && "call_id"@[1] == 'a');
    assert("name"@[0] == 'n' && "text"@[0] == 't');
}

proof fn lemma_codex_request_keys()
    ensures
        "model"@ != "instructions"@,
        "model"@ != "input"@,
        "model"@ != "tools"@,
        "model"@ != "tool_choice"@,
        "model"@ != "include"@,
        "model"@ != "store"@,
        "model"@ != "stream"@,
        "instructions"@ != "input"@,
        "instructions"@ != "tools"@,
        "instructions"@ != "tool_choice"@,
        "instructions"@ != "include"@,
        "instructions"@ != "store"@,
        "instructions"@ != "stream"@,
        "input"@ != "tools"@,
        "input"@ != "tool_choice"@,
        "input"@ != "include"@,
        "input"@ != "store"@,
        "input"@ != "stream"@,
        "tools"@ != "tool_choice"@,
        "tools"@ != "include"@,
        "tools"@ != "store"@,
        "tools"@ != "stream"@,
        "tool_choice"@ != "include"@,
        "tool_choice"@ != "store"@,
        "tool_choice"@ != "stream"@,
        "include"@ != "store"@,
        "include"@ != "stream"@,
        "store"@ != "stream"@,
{
    reveal_strlit("model");
    reveal_strlit("instructions");
    reveal_strlit("input");
    reveal_strlit("tools");
    reveal_strlit("tool_choice");
    reveal_strlit("include");
    reveal_strlit("store");
    reveal_strlit("stream");
    assert("model"@.len() == 5);
    assert("instructions"@.len() == 12);
    assert("input"@.len() == 5);
    assert("tools"@.len() == 5);
    assert("tool_choice"@.len() == 11);
    assert("include"@.len() == 7);
    assert("store"@.len() == 5);
    assert("stream"@.len() == 6);
    assert("model"@[0] == 'm' && "input"@[0] == 'i');
    assert("model"@[0] == 'm' && "tools"@[0] == 't');
    assert("model"@[0] == 'm' && "store"@[0] == 's');
    assert("input"@[0] == 'i' && "tools"@[0] == 't');
    assert("input"@[0] == 'i' && "store"@[0] == 's');
    assert("tools"@[0] == 't' && "store"@[0] == 's');
}

proof fn lemma_codex_results_count(blocks: Seq<BlockView>)
    ensures
        codex::user_items(blocks).0.len() == rank(blocks, blocks.len() as int, |b: BlockView| b is ToolResult),
    decreases blocks.len(),
{
    let f = |b: BlockView| b is ToolResult;
    if blocks.len() > 0 {
        lemma_codex_results_count(blocks.drop_last());
        lemma_rank_of_front(blocks, blocks.drop_last(), blocks.len() - 1, f);
    }
}

proof fn lemma_codex_results(blocks: Seq<BlockView>, k: int)
    requires
        0 <= k < blocks.len(),
        ({
            let b = blocks[k];
            b is ToolResult
        }),
    ensures
        ({
            let at = rank(blocks, k, |b: BlockView| b is ToolResult);
            let b = blocks[k];
            at < codex::user_items(blocks).0.len() && codex::user_items(blocks).0[at as int] == codex::wire_output(
                b->tool_use_id,
                chatcompletions::result_text(b->ToolResult_content, b->is_error),
            )
        }),
    decreases blocks.len(),
{
    let f = |b: BlockView| b is ToolResult;
    let front = blocks.drop_last();
    lemma_codex_results_count(front);
    lemma_rank_of_front(blocks, front, k, f);
    if k < front.len() {
        lemma_codex_results(front, k);
    }
}

proof fn lemma_codex_user_texts_count(blocks: Seq<BlockView>)
    ensures
        codex::user_items(blocks).1.len() == rank(blocks, blocks.len() as int, |b: BlockView| (b is Text && b->text.len() > 0)),
    decreases blocks.len(),
{
    let f = |b: BlockView| (b is Text && b->text.len() > 0);
    if blocks.len() > 0 {
        lemma_codex_user_texts_count(blocks.drop_last());
        lemma_rank_of_front(blocks, blocks.drop_last(), blocks.len() - 1, f);
    }
}

proof fn lemma_codex_user_texts(blocks: Seq<BlockView>, k: int)
    requires
        0 <= k < blocks.len(),
        ({
            let b = blocks[k];
            (b is Text && b->text.len() > 0)
        }),
    ensures
        ({
            let at = rank(blocks, k, |b: BlockView| (b is Text && b->text.len() > 0));
            let b = blocks[k];
            at < codex::user_items(blocks).1.len() && codex::user_items(blocks).1[at as int] == codex::wire_part("input_text"@, b->text)
        }),
    decreases blocks.len(),
{
    let f = |b: BlockView| (b is Text && b->text.len() > 0);
    let front = blocks.drop_last();
    lemma_codex_user_texts_count(front);
    lemma_rank_of_front(blocks, front, k, f);
    if k < front.len() {
        lemma_codex_user_texts(front, k);
    }
}

/// Each tool result of a user's message goes out as an item of its own, in
/// order: it names the call it answers, and says what the tool said, behind a
/// mark where the tool failed.
pub proof fn law_codex_sends_each_result(m: MessageView, k: int)
    requires
        m.role == Role::User,
        0 <= k < m.content.len(),
        m.content[k] is ToolResult,
    ensures
        ({
            let at = rank(m.content, k, |b: BlockView| b is ToolResult) as int;
            let sent = codex::wire_message(m);
            &&& at < sent.len()
            &&& sent[at].str_field("type"@) == Some("function_call_output"@)
            &&& sent[at].str_field("call_id"@) == Some(m.content[k]->tool_use_id)
            &&& !m.content[k]->is_error ==> sent[at].str_field("output"@) == Some(
                m.content[k]->ToolResult_content,
            )
            &&& m.content[k]->is_error ==> sent[at].str_field("output"@) == Some(
                "ERROR: "@ + m.content[k]->ToolResult_content,
            )
        }),
{
    lemma_codex_item_keys();
    lemma_codex_results(m.content, k);
}

/// The texts of a user's message go out together behind the results, each as it
/// is.
pub proof fn law_codex_sends_user_text(m: MessageView, k: int)
    requires
        m.role == Role::User,
        0 <= k < m.content.len(),
        m.content[k] matches BlockView::Text { text } && text.len() > 0,
    ensures
        ({
            let f = |b: BlockView| (b is Text && b->text.len() > 0);
            let at = rank(m.content, k, f) as int;
            let sent = codex::wire_message(m);
            &&& sent.len() == rank(
                m.content,
                m.content.len() as int,
                |b: BlockView| b is ToolResult,
            ) + 1
            &&& sent.last().str_field("type"@) == Some("message"@)
            &&& sent.last().str_field("role"@) == Some("user"@)
            &&& sent.last().get("content"@) matches Some(JsonView::Array(parts))
            &&& parts.len() == rank(m.content, m.content.len() as int, f)
            &&& at < parts.len()
            &&& parts[at].str_field("type"@) == Some("input_text"@)
            &&& parts[at].str_field("text"@) == Some(m.content[k]->text)
        }),
{
    lemma_codex_item_keys();
    lemma_codex_results_count(m.content);
    lemma_codex_user_texts_count(m.content);
    lemma_codex_user_texts(m.content, k);
}

/// An assistant's text goes out as a part of the message it belongs to, behind
/// the texts since the last call.
pub proof fn law_codex_sends_assistant_text(before: Seq<BlockView>, text: Seq<char>)
    requires
        text.len() > 0,
    ensures
        ({
            let m = MessageView {
                role: Role::Assistant,
                content: before.push(BlockView::Text { text }),
            };
            let item = codex::wire_message(m).last();
            &&& codex::wire_message(m).len() > 0
            &&& item.str_field("type"@) == Some("message"@)
            &&& item.str_field("role"@) == Some("assistant"@)
            &&& item.get("content"@) matches Some(JsonView::Array(parts))
            &&& parts.len() > 0
            &&& parts.last().str_field("type"@) == Some("output_text"@)
            &&& parts.last().str_field("text"@) == Some(text)
        }),
{
    lemma_codex_item_keys();
    let all = before.push(BlockView::Text { text });
    assert(all.drop_last() =~= before);
}

/// An assistant's call goes out last under its id and name, with its input
/// printed.
pub proof fn law_codex_sends_call(before: Seq<BlockView>, id: Seq<char>, name: Seq<char>, input: JsonView)
    ensures
        ({
            let m = MessageView {
                role: Role::Assistant,
                content: before.push(BlockView::ToolUse { id, name, input }),
            };
            let item = codex::wire_message(m).last();
            &&& codex::wire_message(m).len() > 0
            &&& item.str_field("type"@) == Some("function_call"@)
            &&& item.str_field("call_id"@) == Some(id)
            &&& item.str_field("name"@) == Some(name)
            &&& item.str_field("arguments"@) == Some(json_text(input))
        }),
{
    lemma_codex_item_keys();
    let all = before.push(BlockView::ToolUse { id, name, input });
    assert(all.drop_last() =~= before);
}

/// The conversation is sent whole and in order: two parts of it are sent one
/// after the other, and a message alone as that message.
pub proof fn law_codex_sends_messages_in_order(a: Seq<MessageView>, b: Seq<MessageView>, m: MessageView)
    ensures
        codex::wire_input(a + b) == codex::wire_input(a) + codex::wire_input(b),
        codex::wire_input(seq![m]) == codex::wire_message(m),
    decreases b.len(),
{
    assert(seq![m].drop_last() =~= Seq::<MessageView>::empty());
    assert(codex::wire_input(seq![m]) =~= codex::wire_message(m)) by {
        reveal_with_fuel(codex::wire_input, 2);
    }
    if b.len() == 0 {
        assert(a + b =~= a);
        assert(codex::wire_input(a) + codex::wire_input(b) =~= codex::wire_input(a));
    } else {
        law_codex_sends_messages_in_order(a, b.drop_last(), m);
        assert((a + b).drop_last() =~= a + b.drop_last());
        assert(codex::wire_input(a + b) =~= codex::wire_input(a) + codex::wire_input(b));
    }
}

/// A request names the model and the system prompt, carries the conversation
/// and each tool, asks for the reasoning to replay, and is neither stored nor
/// answered in one piece.
pub proof fn law_codex_request_carries_all(req: RequestView)
    ensures
        ({
            let w = codex::wire_request(req);
            &&& w.str_field("model"@) == Some(req.model)
            &&& req.system.len() > 0 ==> w.str_field("instructions"@) == Some(req.system)
            &&& w.str_field("instructions"@) matches Some(s) && s.len() > 0
            &&& w.get("input"@) == Some(JsonView::Array(codex::wire_input(req.messages)))
            &&& w.get("tools"@) matches Some(JsonView::Array(ts))
            &&& ts.len() == req.tools.len()
            &&& w.get("include"@) == Some(
                JsonView::Array(seq![JsonView::Str("reasoning.encrypted_content"@)]),
            )
            &&& w.str_field("tool_choice"@) == Some("auto"@)
            &&& w.bool_field("store"@) == Some(false)
            &&& w.bool_field("stream"@) == Some(true)
        }),
{
    lemma_codex_request_keys();
    reveal_strlit("You are a helpful assistant.");
}

/// Each tool of a request is offered in its place under its name, with its
/// description and its schema.
pub proof fn law_codex_offers_each_tool(req: RequestView, i: int)
    requires
        0 <= i < req.tools.len(),
    ensures
        ({
            &&& codex::wire_request(req).get("tools"@) matches Some(JsonView::Array(ts))
            &&& ts[i].str_field("type"@) == Some("function"@)
            &&& ts[i].str_field("name"@) == Some(req.tools[i].name)
            &&& ts[i].str_field("description"@) == Some(req.tools[i].description)
            &&& ts[i].get("parameters"@) == Some(req.tools[i].input_schema)
        }),
{
    lemma_codex_request_keys();
    lemma_codex_item_keys();
}

/// Whether the arguments of a call can be read: there are none, or they are
/// JSON.
pub open spec fn readable_arguments(call: WireToolCallView) -> bool {
    trim(call.arguments).len() == 0 || json_of(call.arguments) is Ok
}

proof fn lemma_chat_calls_are_accepted(first: Seq<BlockView>, calls: Seq<WireToolCallView>)
    ensures
        chatcompletions::read_calls(first, calls) is Ok <==> forall|i: int|
            0 <= i < calls.len() ==> readable_arguments(#[trigger] calls[i]),
    decreases calls.len(),
{
    if calls.len() > 0 {
        let front = calls.drop_last();
        lemma_chat_calls_are_accepted(first, front);
        if chatcompletions::read_calls(first, calls) is Ok {
            assert forall|i: int| 0 <= i < calls.len() implies readable_arguments(
                #[trigger] calls[i],
            ) by {
                if i < front.len() {
                    assert(readable_arguments(front[i]));
                }
            }
        }
        if forall|i: int| 0 <= i < calls.len() ==> readable_arguments(#[trigger] calls[i]) {
            assert forall|i: int| 0 <= i < front.len() implies readable_arguments(
                #[trigger] front[i],
            ) by {
                assert(front[i] == calls[i]);
            }
            assert(readable_arguments(calls[calls.len() - 1]));
        }
    }
}

/// An answer is accepted just where it has a choice, and the arguments of every
/// call in it can be read.
pub proof fn law_chat_answer_is_accepted(wire: chatcompletions::WireResponseView)
    ensures
        chatcompletions::read_response(wire) is Ok <==> wire.choices.len() > 0 && forall|i: int|
            0 <= i < wire.choices[0].tool_calls.len() ==> readable_arguments(
                #[trigger] wire.choices[0].tool_calls[i],
            ),
{
    if wire.choices.len() > 0 {
        let choice = wire.choices[0];
        lemma_chat_calls_are_accepted(chatcompletions::read_text(choice.content), choice.tool_calls);
    }
}

} // verus!
