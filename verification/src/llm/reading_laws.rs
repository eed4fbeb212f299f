//! What replies come to, field by field, and when a request is tried again.
use vstd::prelude::*;
use vstd::string::*;

use super::{BlockView, ProviderErrorView, ResponseView};
use super::codex::{
    after_event, body_response, filled, item_block, items_of, output_blocks, parts_text, reply_of,
    reply_response, stream_state, ReplyView, StreamView,
};
use super::retry::{asked_wait, delay_of, pow2, worth_retrying, Attempt, Duration};
use super::sse::{payload, payloads};
use crate::json::{json_of, JsonView, NumView};
use crate::text::{holds, is_space, lines, trim, trim_start};

verus! {

proof fn lemma_item_kinds_differ()
    ensures
        "message"@ != "function_call"@,
        "message"@ != "reasoning"@,
        "message"@ != "output_text"@,
        "message"@ != "refusal"@,
        "function_call"@ != "reasoning"@,
        "function_call"@ != "output_text"@,
        "function_call"@ != "refusal"@,
        "reasoning"@ != "output_text"@,
        "reasoning"@ != "refusal"@,
        "output_text"@ != "refusal"@,
{
    reveal_strlit("message");
    reveal_strlit("function_call");
    reveal_strlit("reasoning");
    reveal_strlit("output_text");
    reveal_strlit("refusal");
    assert("message"@.len() == 7);
    assert("function_call"@.len() == 13);
    assert("reasoning"@.len() == 9);
    assert("output_text"@.len() == 11);
    assert("refusal"@.len() == 7);
    assert("message"@[0] == 'm' && "refusal"@[0] == 'r');
}

/// The text of a message is its parts put together: what was said, or how it was
/// refused.
pub proof fn law_codex_reads_each_part(parts: Seq<JsonView>, part: JsonView, said: Seq<char>)
    ensures
        parts_text(Seq::empty()) == Seq::<char>::empty(),
        part.get("type"@) == Some(JsonView::Str("output_text"@)) && part.get("text"@) == Some(
            JsonView::Str(said),
        ) ==> parts_text(parts.push(part)) == parts_text(parts) + said,
        part.get("type"@) == Some(JsonView::Str("refusal"@)) && part.get("refusal"@) == Some(
            JsonView::Str(said),
        ) && said.len() > 0 ==> parts_text(parts.push(part)) == parts_text(parts) + said,
        part.get("type"@) matches Some(JsonView::Str(kind)) ==> kind != "output_text"@ && kind
            != "refusal"@ ==> parts_text(parts.push(part)) == parts_text(parts),
{
    lemma_item_kinds_differ();
    assert(parts.push(part).drop_last() =~= parts);
    assert(parts_text(parts) + Seq::<char>::empty() =~= parts_text(parts));
}

/// A message is read as its text, a call as the call, reasoning as it came, and
/// nothing else is read.
pub proof fn law_codex_reads_each_item(
    item: JsonView,
    parts: Seq<JsonView>,
    id: Seq<char>,
    name: Seq<char>,
    arguments: Seq<char>,
)
    ensures
        item.get("type"@) == Some(JsonView::Str("message"@)) && item.get("content"@) == Some(
            JsonView::Array(parts),
        ) ==> item_block(item) == Ok::<Option<BlockView>, ProviderErrorView>(
            if parts_text(parts).len() == 0 {
                None
            } else {
                Some(BlockView::Text { text: parts_text(parts) })
            },
        ),
        item.get("type"@) == Some(JsonView::Str("function_call"@)) && item.get("call_id"@) == Some(
            JsonView::Str(id),
        ) && item.get("name"@) == Some(JsonView::Str(name)) && item.get("arguments"@) == Some(
            JsonView::Str(arguments),
        ) ==> {
            &&& trim(arguments).len() == 0 ==> item_block(item) == Ok::<
                Option<BlockView>,
                ProviderErrorView,
            >(Some(BlockView::ToolUse { id, name, input: JsonView::Object(Map::empty()) }))
            &&& trim(arguments).len() > 0 ==> match json_of(arguments) {
                Ok(input) => item_block(item) == Ok::<Option<BlockView>, ProviderErrorView>(
                    Some(BlockView::ToolUse { id, name, input }),
                ),
                Err(_) => item_block(item) is Err,
            }
        },
        item.get("type"@) == Some(JsonView::Str("reasoning"@)) ==> item_block(item) == Ok::<
            Option<BlockView>,
            ProviderErrorView,
        >(Some(BlockView::Opaque { provider: "codex"@, data: item })),
        item.get("type"@) matches Some(JsonView::Str(kind)) ==> kind != "message"@ && kind
            != "function_call"@ && kind != "reasoning"@ ==> item_block(item) == Ok::<
            Option<BlockView>,
            ProviderErrorView,
        >(None),
{
    lemma_item_kinds_differ();
}

/// Items are read in order; one that cannot be read fails the whole.
pub proof fn law_codex_reads_items_in_order(
    items: Seq<JsonView>,
    item: JsonView,
    before: Seq<BlockView>,
    called: bool,
)
    requires
        output_blocks(items) == Ok::<(Seq<BlockView>, bool), ProviderErrorView>((before, called)),
    ensures
        match item_block(item) {
            Ok(None) => output_blocks(items.push(item)) == output_blocks(items),
            Ok(Some(b)) => {
                &&& output_blocks(items.push(item)) is Ok
                &&& output_blocks(items.push(item))->Ok_0.0 == before.push(b)
                &&& output_blocks(items.push(item))->Ok_0.1 == (called || b is ToolUse)
            },
            Err(e) => output_blocks(items.push(item)) is Err,
        },
{
    assert(items.push(item).drop_last() =~= items);
}

/// A reply is its items, why it stopped and what it used: for tool calls where
/// it makes any, for its length where it says so, and otherwise at its end.
pub proof fn law_codex_reply_is_read(
    body: JsonView,
    items: Seq<JsonView>,
    content: Seq<BlockView>,
    called: bool,
    usage: JsonView,
    input_tokens: u64,
    output_tokens: u64,
)
    requires
        body.get("error"@) is None,
        body.get("output"@) == Some(JsonView::Array(items)),
        output_blocks(items) == Ok::<(Seq<BlockView>, bool), ProviderErrorView>((content, called)),
        body.get("usage"@) == Some(usage),
        usage.get("input_tokens"@) == Some(JsonView::Num(NumView::Int(input_tokens as int))),
        usage.get("output_tokens"@) == Some(JsonView::Num(NumView::Int(output_tokens as int))),
    ensures
        body_response(body) matches Ok(r) && {
            &&& r.content == content
            &&& r.usage.input_tokens == input_tokens
            &&& r.usage.output_tokens == output_tokens
            &&& called ==> r.stop_reason is ToolUse
            &&& !called && body.get("status"@) == Some(JsonView::Str("completed"@))
                ==> r.stop_reason is EndTurn
            &&& !called && body.get("status"@) == Some(JsonView::Str("incomplete"@)) ==> match body.get(
                "incomplete_details"@,
            ) {
                Some(d) => (r.stop_reason is MaxTokens) == (d.get("reason"@) == Some(
                    JsonView::Str("max_output_tokens"@),
                )),
                None => r.stop_reason is EndTurn,
            }
        },
{
    reveal_strlit("completed");
    reveal_strlit("incomplete");
    assert("completed"@.len() != "incomplete"@.len());
}

/// A reply that holds an error is that error.
pub proof fn law_codex_error_is_reported(body: JsonView, error: JsonView, message: Seq<char>)
    requires
        body.get("error"@) == Some(error),
        error.get("message"@) == Some(JsonView::Str(message)),
    ensures
        body_response(body) == Err::<ResponseView, ProviderErrorView>(
            ProviderErrorView::Failure("codex: "@ + message),
        ),
{
}

proof fn lemma_event_kinds_differ()
    ensures
        "response.output_item.done"@ != "response.completed"@,
        "response.output_item.done"@ != "response.incomplete"@,
        "response.output_item.done"@ != "response.failed"@,
        "response.output_item.done"@ != "error"@,
        "response.completed"@ != "response.incomplete"@,
        "response.completed"@ != "response.failed"@,
        "response.completed"@ != "error"@,
        "response.incomplete"@ != "response.failed"@,
        "response.incomplete"@ != "error"@,
        "response.failed"@ != "error"@,
{
    reveal_strlit("response.output_item.done");
    reveal_strlit("response.completed");
    reveal_strlit("response.incomplete");
    reveal_strlit("response.failed");
    reveal_strlit("error");
    assert("response.output_item.done"@.len() == 25);
    assert("response.completed"@.len() == 18);
    assert("response.incomplete"@.len() == 19);
    assert("response.failed"@.len() == 15);
    assert("error"@.len() == 5);
}

/// A stream is read event by event: an item that is done joins the items, the
/// response at the end is kept, a failure ends the reading with its message, and
/// nothing else counts.
pub proof fn law_codex_stream_is_read(
    s: StreamView,
    ev: JsonView,
    kind: Seq<char>,
    item: JsonView,
    error: JsonView,
    message: Seq<char>,
)
    requires
        ev.get("type"@) == Some(JsonView::Str(kind)),
    ensures
        ({
            let after = after_event(s, Ok(ev));
            &&& kind == "response.output_item.done"@ && ev.get("item"@) == Some(item) ==> {
                &&& after is Ok
                &&& after->Ok_0.items == s.items.push(item)
                &&& after->Ok_0.completed == s.completed
            }
            &&& kind == "response.completed"@ || kind == "response.incomplete"@ ==> {
                &&& after is Ok
                &&& after->Ok_0.items == s.items
                &&& after->Ok_0.completed == ev.get("response"@)
            }
            &&& kind == "response.failed"@ || kind == "error"@ ==> after is Err
            &&& (kind == "response.failed"@ || kind == "error"@) && ev.get("error"@) == Some(error)
                && error.get("message"@) == Some(JsonView::Str(message)) ==> after == Err::<
                StreamView,
                ProviderErrorView,
            >(ProviderErrorView::Failure("codex: "@ + message))
            &&& kind != "response.output_item.done"@ && kind != "response.completed"@ && kind
                != "response.incomplete"@ && kind != "response.failed"@ && kind != "error"@
                ==> after == Ok::<StreamView, ProviderErrorView>(s)
        }),
        forall|e: Seq<char>| (#[trigger] after_event(s, Err(e))) == Ok::<
            StreamView,
            ProviderErrorView,
        >(s),
{
    lemma_event_kinds_differ();
}

/// Events are read in the order in which they came; a failure stays.
pub proof fn law_codex_events_in_order(data: Seq<Seq<char>>, d: Seq<char>)
    ensures
        stream_state(data) matches Ok(s) ==> stream_state(data.push(d)) == after_event(
            s,
            json_of(d),
        ),
        stream_state(data) is Err ==> stream_state(data.push(d)) == stream_state(data),
        stream_state(Seq::empty()) is Ok,
        stream_state(Seq::empty())->Ok_0.items.len() == 0,
        stream_state(Seq::empty())->Ok_0.completed is None,
{
    assert(data.push(d).drop_last() =~= data);
}

/// What came as a stream is read as one, anything else as one body; a stream
/// that never completes is an error.
pub proof fn law_codex_reply_is_told(raw: Seq<char>, body: JsonView)
    ensures
        !holds(raw, "data:"@) && json_of(raw) == Ok::<JsonView, Seq<char>>(body) ==> reply_of(raw)
            == Ok::<ReplyView, ProviderErrorView>(ReplyView::Body(body)),
        !holds(raw, "data:"@) && json_of(raw) is Err ==> reply_of(raw) is Err,
        holds(raw, "data:"@) ==> match stream_state(payloads(lines(raw))) {
            Ok(s) => match s.completed {
                Some(response) => reply_of(raw) == Ok::<ReplyView, ProviderErrorView>(
                    ReplyView::Completed { response, items: s.items },
                ),
                None => reply_of(raw) is Err,
            },
            Err(e) => reply_of(raw) == Err::<ReplyView, ProviderErrorView>(e),
        },
        reply_response(ReplyView::Body(body)) == body_response(body),
{
}

/// A response that lists its own output keeps it; one that does not gets the
/// items that the stream brought.
pub proof fn law_codex_items_fill_the_response(
    response: Map<Seq<char>, JsonView>,
    items: Seq<JsonView>,
    own: Seq<JsonView>,
)
    ensures
        JsonView::Object(response).get("output"@) == Some(JsonView::Array(own)) && own.len() > 0
            ==> filled(JsonView::Object(response), items) == JsonView::Object(response),
        JsonView::Object(response).get("output"@) is None ==> {
            &&& items_of(filled(JsonView::Object(response), items), "output"@) == items
            &&& forall|k: Seq<char>|
                k != "output"@ ==> (#[trigger] filled(JsonView::Object(response), items).get(k))
                    == JsonView::Object(response).get(k)
        },
{
}

// ── Lines of a stream ───────────────────────────────────────────────────────

proof fn lemma_kept_by_trim(s: Seq<char>)
    requires
        s.len() > 0,
        !is_space(s[0]),
        !is_space(s.last()),
    ensures
        trim(s) == s,
{
}

proof fn lemma_trimmed_ends(s: Seq<char>)
    requires
        trim(s) == s,
        s.len() > 0,
    ensures
        !is_space(s[0]),
        !is_space(s.last()),
{
    crate::text_laws::law_trimming_takes_only_space(s);
}

/// A line of data carries its data, whether or not a space follows the colon;
/// the closing mark carries none, and neither does any other line.
pub proof fn law_data_line_carries_its_data(data: Seq<char>, line: Seq<char>)
    requires
        trim(data) == data,
        data.len() > 0,
    ensures
        data != "[DONE]"@ ==> payload("data:"@ + data) == Some(data),
        data != "[DONE]"@ ==> payload("data: "@ + data) == Some(data),
        payload("data: [DONE]"@) is None,
        !"data:"@.is_prefix_of(trim(line)) ==> payload(line) is None,
{
    reveal_strlit("data:");
    reveal_strlit("data: ");
    reveal_strlit("data: [DONE]");
    reveal_strlit("[DONE]");
    lemma_trimmed_ends(data);
    let a = "data:"@ + data;
    let b = "data: "@ + data;
    let c = "data: [DONE]"@;
    assert(a[0] == 'd' && b[0] == 'd' && c[0] == 'd');
    assert(c.last() == ']');
    lemma_kept_by_trim(a);
    lemma_kept_by_trim(b);
    lemma_kept_by_trim(c);
    assert("data:"@ =~= a.subrange(0, 5));
    assert("data:"@ =~= b.subrange(0, 5));
    assert("data:"@ =~= c.subrange(0, 5));
    assert(a.skip(5) =~= data);
    let spaced = b.skip(5);
    assert(spaced[0] == ' ');
    assert(spaced.drop_first() =~= data);
    assert(trim_start(spaced) == trim_start(data));
    let done = c.skip(5);
    assert(done[0] == ' ');
    assert(done.drop_first() =~= "[DONE]"@);
    assert("[DONE]"@[0] == '[' && "[DONE]"@.last() == ']');
    lemma_kept_by_trim("[DONE]"@);
    assert(trim_start(done) == trim_start("[DONE]"@));
}

/// Data is taken from the lines in order, one for each line that carries any.
pub proof fn law_data_in_order(ls: Seq<Seq<char>>, line: Seq<char>)
    ensures
        payload(line) matches Some(d) ==> payloads(ls.push(line)) == payloads(ls).push(d),
        payload(line) is None ==> payloads(ls.push(line)) == payloads(ls),
        payloads(Seq::empty()).len() == 0,
{
    assert(ls.push(line).drop_last() =~= ls);
}

// ── Trying again ────────────────────────────────────────────────────────────

/// A request is worth another try where the server is busy or broken, or the
/// connection failed for the moment; never where it succeeded or was refused.
pub proof fn law_what_is_worth_retrying(status: u16, wait: Option<u64>)
    ensures
        !worth_retrying(Attempt::Success),
        worth_retrying(Attempt::Status { status, retry_after: wait }) <==> status == 429 || (500
            <= status < 600),
        worth_retrying(Attempt::NoResponse { transient: true }),
        !worth_retrying(Attempt::NoResponse { transient: false }),
{
}

/// The wait that a server asks for is kept, up to four times the longest of the
/// loop's own; without one each wait is twice the one before, from half a second
/// to sixteen.
pub proof fn law_waits_double(attempt: u32, status: u16, secs: u64)
    ensures
        asked_wait(Attempt::Status { status, retry_after: Some(secs) }) matches Some(d)
            && d.total() == secs * 1_000_000_000,
        asked_wait(Attempt::Status { status, retry_after: None }) is None,
        secs <= 64 ==> delay_of(attempt, Some(Duration { secs, nanos: 0 })) == secs * 1_000_000_000,
        secs > 64 ==> delay_of(attempt, Some(Duration { secs, nanos: 0 })) == 64_000_000_000,
        delay_of(0, None) == 500_000_000,
        attempt < 5 ==> delay_of((attempt + 1) as u32, None) == 2 * delay_of(attempt, None),
        attempt >= 5 ==> delay_of(attempt, None) == 16_000_000_000,
{
    reveal_with_fuel(pow2, 7);
    if attempt >= 5 {
        let n: nat = if attempt < 10 {
            attempt as nat
        } else {
            10
        };
        lemma_pow2_from_five(n);
    }
}

proof fn lemma_pow2_from_five(n: nat)
    requires
        n >= 5,
    ensures
        pow2(n) >= 32,
    decreases n,
{
    reveal_with_fuel(pow2, 6);
    if n > 5 {
        lemma_pow2_from_five((n - 1) as nat);
    }
}

} // verus!
