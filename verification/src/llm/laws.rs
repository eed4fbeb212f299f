//! What holds of the adapters as a whole.
use vstd::prelude::*;

use super::{
    anthropic, block_texts, chatcompletions, BlockView, MessageView, ProviderErrorView, Role,
};
use super::chatcompletions::arguments_of;
use super::codex::{
    self, assistant_items, body_response, closed, item_block, items_of, output_blocks, replayable,
    text_or_empty, wire_call, OPAQUE_PROVIDER,
};
use crate::json::{json_text, JsonView};

verus! {

/// Blocks without any replay data.
pub open spec fn without_opaque(blocks: Seq<BlockView>) -> Seq<BlockView>
    decreases blocks.len(),
{
    if blocks.len() == 0 {
        Seq::empty()
    } else {
        let before = without_opaque(blocks.drop_last());
        if blocks.last() is Opaque {
            before
        } else {
            before.push(blocks.last())
        }
    }
}

/// Blocks without the replay data that is not this adapter's to send.
pub open spec fn without_foreign(blocks: Seq<BlockView>) -> Seq<BlockView>
    decreases blocks.len(),
{
    if blocks.len() == 0 {
        Seq::empty()
    } else {
        let before = without_foreign(blocks.drop_last());
        match blocks.last() {
            BlockView::Opaque { provider, data } => if provider == OPAQUE_PROVIDER@ && replayable(
                data,
            ) {
                before.push(blocks.last())
            } else {
                before
            },
            _ => before.push(blocks.last()),
        }
    }
}

/// The Messages adapter sends no replay data: a message reads on the wire as
/// if its opaque blocks were not there.
pub proof fn law_messages_sends_no_opaque(blocks: Seq<BlockView>)
    ensures
        anthropic::wire_blocks(blocks) == anthropic::wire_blocks(without_opaque(blocks)),
    decreases blocks.len(),
{
    if blocks.len() > 0 {
        law_messages_sends_no_opaque(blocks.drop_last());
        let rest = without_opaque(blocks.drop_last());
        if !(blocks.last() is Opaque) {
            assert(rest.push(blocks.last()).drop_last() =~= rest);
        }
    }
}

proof fn lemma_chat_parts(blocks: Seq<BlockView>)
    ensures
        block_texts(blocks) == block_texts(without_opaque(blocks)),
        chatcompletions::wire_calls(blocks) == chatcompletions::wire_calls(without_opaque(blocks)),
        chatcompletions::wire_results(blocks) == chatcompletions::wire_results(
            without_opaque(blocks),
        ),
    decreases blocks.len(),
{
    if blocks.len() > 0 {
        lemma_chat_parts(blocks.drop_last());
        let rest = without_opaque(blocks.drop_last());
        if !(blocks.last() is Opaque) {
            assert(rest.push(blocks.last()).drop_last() =~= rest);
        }
    }
}

/// The Chat Completions adapter sends no replay data: a message reads on the
/// wire as if its opaque blocks were not there.
pub proof fn law_chat_sends_no_opaque(m: MessageView)
    ensures
        chatcompletions::wire_message(m) == chatcompletions::wire_message(
            MessageView { role: m.role, content: without_opaque(m.content) },
        ),
{
    lemma_chat_parts(m.content);
}

proof fn lemma_codex_parts(blocks: Seq<BlockView>)
    ensures
        codex::assistant_items(blocks) == codex::assistant_items(without_foreign(blocks)),
        codex::user_items(blocks) == codex::user_items(without_foreign(blocks)),
    decreases blocks.len(),
{
    if blocks.len() > 0 {
        lemma_codex_parts(blocks.drop_last());
        let rest = without_foreign(blocks.drop_last());
        if without_foreign(blocks) != rest {
            assert(rest.push(blocks.last()).drop_last() =~= rest);
        }
    }
}

/// The Codex adapter sends no replay data but its own, and of that only what
/// the backend accepts: a message reads on the wire as if other opaque blocks
/// were not there.
pub proof fn law_codex_sends_no_foreign_opaque(m: MessageView)
    ensures
        codex::wire_message(m) == codex::wire_message(
            MessageView { role: m.role, content: without_foreign(m.content) },
        ),
{
    lemma_codex_parts(m.content);
}

/// A reasoning item is replayed verbatim: what an answer's item becomes in the
/// transcript is sent on the next turn as the very same item.
pub proof fn law_reasoning_is_replayed_verbatim(item: JsonView)
    requires
        replayable(item),
    ensures
        item_block(item) == Ok::<Option<BlockView>, ProviderErrorView>(
            Some(BlockView::Opaque { provider: OPAQUE_PROVIDER@, data: item }),
        ),
        codex::wire_message(
            MessageView {
                role: Role::Assistant,
                content: seq![BlockView::Opaque { provider: OPAQUE_PROVIDER@, data: item }],
            },
        ) == seq![item],
{
    reveal_strlit("reasoning");
    reveal_strlit("message");
    reveal_strlit("function_call");
    assert("reasoning"@.len() == 9);
    assert("message"@.len() == 7);
    assert("function_call"@.len() == 13);
    let b = BlockView::Opaque { provider: OPAQUE_PROVIDER@, data: item };
    let one = seq![b];
    assert(one.drop_last() =~= Seq::<BlockView>::empty());
    assert(one.last() == b);
    assert(assistant_items(one) == (
        closed(Seq::empty(), Seq::empty(), "assistant"@).push(item),
        Seq::<JsonView>::empty(),
    )) by {
        reveal_with_fuel(assistant_items, 2);
    }
    assert(Seq::<JsonView>::empty().push(item) =~= seq![item]);
}

/// What an answer's content is sent as on the next turn.
pub open spec fn resent(content: Seq<BlockView>) -> Seq<JsonView> {
    codex::wire_message(MessageView { role: Role::Assistant, content })
}

/// The content of an answer with these output items.
pub open spec fn content_of(items: Seq<JsonView>) -> Seq<BlockView> {
    output_blocks(items)->Ok_0.0
}

/// The item that a block closes what came before it with, if it does.
pub open spec fn own_item(b: BlockView) -> Option<JsonView> {
    match b {
        BlockView::ToolUse { id, name, input } => Some(wire_call(id, name, json_text(input))),
        BlockView::Opaque { provider, data } => if provider == OPAQUE_PROVIDER@ && replayable(
            data,
        ) {
            Some(data)
        } else {
            None
        },
        _ => None,
    }
}

proof fn lemma_output_join(x: Seq<JsonView>, y: Seq<JsonView>)
    ensures
        output_blocks(x + y) is Ok <==> output_blocks(x) is Ok && output_blocks(y) is Ok,
        output_blocks(x + y) is Ok ==> content_of(x + y) == content_of(x) + content_of(y),
    decreases y.len(),
{
    if y.len() == 0 {
        assert(x + y =~= x);
        if output_blocks(x) is Ok {
            assert(content_of(x) + content_of(y) =~= content_of(x));
        }
    } else {
        lemma_output_join(x, y.drop_last());
        assert((x + y).drop_last() =~= x + y.drop_last());
        if output_blocks(x + y) is Ok {
            assert(content_of(x + y) =~= content_of(x) + content_of(y));
        }
    }
}

proof fn lemma_output_one(item: JsonView, b: BlockView)
    requires
        item_block(item) == Ok::<Option<BlockView>, ProviderErrorView>(Some(b)),
    ensures
        output_blocks(seq![item]) is Ok,
        content_of(seq![item]) == seq![b],
{
    let one = seq![item];
    assert(one.drop_last() =~= Seq::<JsonView>::empty());
    assert(one.last() == item);
    reveal_with_fuel(output_blocks, 2);
    assert(content_of(one) =~= seq![b]);
}

proof fn lemma_items_join(a: Seq<BlockView>, b: BlockView, c: Seq<BlockView>)
    requires
        own_item(b) is Some,
    ensures
        assistant_items(a.push(b) + c) == (
            resent(a).push(own_item(b)->0) + assistant_items(c).0,
            assistant_items(c).1,
        ),
    decreases c.len(),
{
    let whole = a.push(b) + c;
    let lead = resent(a).push(own_item(b)->0);
    if c.len() == 0 {
        assert(whole =~= a.push(b));
        assert(whole.drop_last() =~= a);
        assert(assistant_items(whole).0 =~= lead + assistant_items(c).0);
    } else {
        lemma_items_join(a, b, c.drop_last());
        assert(whole.drop_last() =~= a.push(b) + c.drop_last());
        let (items, parts) = assistant_items(c.drop_last());
        assert(closed(lead + items, parts, "assistant"@) =~= lead + closed(
            items,
            parts,
            "assistant"@,
        ));
        assert(assistant_items(whole).0 =~= lead + assistant_items(c).0);
    }
}

proof fn lemma_nothing_added(a: Seq<BlockView>, provider: Seq<char>, data: JsonView, c: Seq<BlockView>)
    requires
        !(provider == OPAQUE_PROVIDER@ && replayable(data)),
    ensures
        assistant_items(a.push(BlockView::Opaque { provider, data }) + c) == assistant_items(a + c),
    decreases c.len(),
{
    let with = a.push(BlockView::Opaque { provider, data }) + c;
    if c.len() == 0 {
        assert(with =~= a.push(BlockView::Opaque { provider, data }));
        assert(with.drop_last() =~= a);
        assert(a + c =~= a);
    } else {
        lemma_nothing_added(a, provider, data, c.drop_last());
        assert(with.drop_last() =~= a.push(BlockView::Opaque { provider, data }) + c.drop_last());
        assert((a + c).drop_last() =~= a + c.drop_last());
    }
}

proof fn lemma_own_item_keeps_its_place(a: Seq<BlockView>, b: BlockView, c: Seq<BlockView>)
    requires
        own_item(b) is Some,
    ensures
        resent(a.push(b) + c) == resent(a).push(own_item(b)->0) + resent(c),
{
    lemma_items_join(a, b, c);
    let (items, parts) = assistant_items(c);
    let lead = resent(a).push(own_item(b)->0);
    assert(closed(lead + items, parts, "assistant"@) =~= lead + closed(
        items,
        parts,
        "assistant"@,
    ));
}

/// A reasoning item keeps its place on replay: of an answer, what came before
/// the item is sent as it would be alone, then the very item, then what came
/// after it.
pub proof fn law_reasoning_keeps_its_place(
    body: JsonView,
    before: Seq<JsonView>,
    item: JsonView,
    after: Seq<JsonView>,
)
    requires
        items_of(body, "output"@) == before.push(item) + after,
        body_response(body) is Ok,
        replayable(item),
    ensures
        output_blocks(before) is Ok && output_blocks(after) is Ok,
        resent(body_response(body)->Ok_0.content) == resent(content_of(before)).push(item) + resent(
            content_of(after),
        ),
{
    law_reasoning_is_replayed_verbatim(item);
    let b = BlockView::Opaque { provider: OPAQUE_PROVIDER@, data: item };
    lemma_output_one(item, b);
    lemma_output_join(before, seq![item]);
    assert(before + seq![item] =~= before.push(item));
    lemma_output_join(before.push(item), after);
    assert(content_of(before) + seq![b] =~= content_of(before).push(b));
    lemma_own_item_keeps_its_place(content_of(before), b, content_of(after));
}

/// A call keeps its place on replay, between what came before it and what came
/// after it.
pub proof fn law_call_keeps_its_place(
    body: JsonView,
    before: Seq<JsonView>,
    item: JsonView,
    after: Seq<JsonView>,
)
    requires
        items_of(body, "output"@) == before.push(item) + after,
        body_response(body) is Ok,
        text_or_empty(item, "type"@) == "function_call"@,
    ensures
        output_blocks(before) is Ok && output_blocks(after) is Ok,
        arguments_of(text_or_empty(item, "arguments"@)) is Ok,
        resent(body_response(body)->Ok_0.content) == resent(content_of(before)).push(
            wire_call(
                text_or_empty(item, "call_id"@),
                text_or_empty(item, "name"@),
                json_text(arguments_of(text_or_empty(item, "arguments"@))->Ok_0),
            ),
        ) + resent(content_of(after)),
{
    reveal_strlit("message");
    reveal_strlit("function_call");
    assert("message"@.len() == 7);
    assert("function_call"@.len() == 13);
    assert(before + seq![item] =~= before.push(item));
    lemma_output_join(before, seq![item]);
    lemma_output_join(before.push(item), after);
    let one = seq![item];
    assert(one.drop_last() =~= Seq::<JsonView>::empty());
    assert(one.last() == item);
    assert(item_block(item) is Ok) by {
        reveal_with_fuel(output_blocks, 2);
    }
    let b = item_block(item)->Ok_0->Some_0;
    lemma_output_one(item, b);
    assert(content_of(before) + seq![b] =~= content_of(before).push(b));
    lemma_own_item_keeps_its_place(content_of(before), b, content_of(after));
}

/// A reasoning item that the backend would not accept is not sent: the answer
/// reads on the next turn as if the item had not been there.
pub proof fn law_unacceptable_reasoning_adds_nothing(
    body: JsonView,
    before: Seq<JsonView>,
    item: JsonView,
    after: Seq<JsonView>,
)
    requires
        items_of(body, "output"@) == before.push(item) + after,
        body_response(body) is Ok,
        text_or_empty(item, "type"@) == "reasoning"@,
        !replayable(item),
    ensures
        output_blocks(before + after) is Ok,
        resent(body_response(body)->Ok_0.content) == resent(content_of(before + after)),
{
    reveal_strlit("message");
    reveal_strlit("function_call");
    reveal_strlit("reasoning");
    assert("message"@.len() == 7);
    assert("function_call"@.len() == 13);
    assert("reasoning"@.len() == 9);
    let b = BlockView::Opaque { provider: OPAQUE_PROVIDER@, data: item };
    lemma_output_one(item, b);
    lemma_output_join(before, seq![item]);
    assert(before + seq![item] =~= before.push(item));
    lemma_output_join(before.push(item), after);
    lemma_output_join(before, after);
    assert(content_of(before) + seq![b] =~= content_of(before).push(b));
    lemma_nothing_added(content_of(before), OPAQUE_PROVIDER@, item, content_of(after));
}

/// Replay data of another provider is not sent, wherever it stands.
pub proof fn law_foreign_opaque_adds_nothing(
    before: Seq<BlockView>,
    provider: Seq<char>,
    data: JsonView,
    after: Seq<BlockView>,
)
    requires
        provider != OPAQUE_PROVIDER@,
    ensures
        resent(before.push(BlockView::Opaque { provider, data }) + after) == resent(before + after),
{
    lemma_nothing_added(before, provider, data, after);
}

} // verus!
