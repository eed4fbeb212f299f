//! What holds of JSON values as they are built, read and compared.
use vstd::prelude::*;
use vstd::string::*;

use crate::json::{alike, texts_in, JsonView, NumView};
use crate::llm::{alike_block, alike_message, BlockView, MessageView};

verus! {

/// A field that is set is there, with its value; the others stay as they were.
pub proof fn law_set_field_is_there(
    fields: Map<Seq<char>, JsonView>,
    key: Seq<char>,
    value: JsonView,
    other: Seq<char>,
)
    ensures
        JsonView::Object(fields).with(key, value).get(key) == Some(value),
        other != key ==> JsonView::Object(fields).with(key, value).get(other) == JsonView::Object(
            fields,
        ).get(other),
        JsonView::object().get(key) is None,
{
}

/// A value is read as what it is, and as nothing else.
pub proof fn law_values_are_read_as_they_are(
    fields: Map<Seq<char>, JsonView>,
    key: Seq<char>,
    value: JsonView,
    items: Seq<JsonView>,
    text: Seq<char>,
    n: int,
    b: bool,
)
    requires
        fields.dom().contains(key),
        fields[key] == value,
    ensures
        ({
            let v = JsonView::Object(fields);
            &&& v.get(key) == Some(value)
            &&& value == JsonView::Str(text) ==> v.str_field(key) == Some(text)
            &&& value == JsonView::Bool(b) ==> v.bool_field(key) == Some(b)
            &&& value == JsonView::Num(NumView::Int(n)) && 0 <= n ==> v.nat_field(key) == Some(n)
            &&& value == JsonView::Num(NumView::Int(n)) && n < 0 ==> v.nat_field(key) is None
            &&& value == JsonView::Array(items) ==> v.array_field(key) == Some(items)
            &&& !(value is Str) ==> v.str_field(key) is None
            &&& !(value is Bool) ==> v.bool_field(key) is None
            &&& !(value is Num) ==> v.nat_field(key) is None
            &&& !(value is Array) ==> v.array_field(key) is None && v.texts_field(key).len() == 0
            &&& value == JsonView::Array(items) ==> v.texts_field(key) == texts_in(items)
        }),
{
}

/// The texts of a list are those of its items that are texts, in order.
pub proof fn law_texts_are_taken_in_order(items: Seq<JsonView>, item: JsonView)
    ensures
        texts_in(Seq::empty()).len() == 0,
        item matches JsonView::Str(t) ==> texts_in(items.push(item)) == texts_in(items).push(t),
        !(item is Str) ==> texts_in(items.push(item)) == texts_in(items),
{
    assert(items.push(item).drop_last() =~= items);
}

/// Whether a value holds no floating number.
pub open spec fn exact(v: JsonView) -> bool
    decreases v,
{
    match v {
        JsonView::Num(n) => n is Int,
        JsonView::Array(items) => forall|i: int|
            0 <= i < items.len() ==> exact(#[trigger] items[i]),
        JsonView::Object(m) => forall|k: Seq<char>|
            m.dom().contains(k) ==> exact(#[trigger] m[k]),
        _ => true,
    }
}

/// Values without floating numbers are alike just where they are the same.
pub proof fn law_exact_values_are_alike_where_equal(a: JsonView, b: JsonView)
    requires
        exact(a),
    ensures
        alike(a, b) <==> a == b,
    decreases a,
{
    match (a, b) {
        (JsonView::Array(x), JsonView::Array(y)) => {
            if alike(a, b) {
                assert forall|i: int| 0 <= i < x.len() implies x[i] == y[i] by {
                    assert(alike(x[i], y[i]));
                    law_exact_values_are_alike_where_equal(x[i], y[i]);
                }
                assert(x =~= y);
            }
            if a == b {
                crate::json::lemma_alike_itself(a);
            }
        },
        (JsonView::Object(m), JsonView::Object(n)) => {
            if alike(a, b) {
                assert forall|k: Seq<char>| m.dom().contains(k) implies m[k] == n[k] by {
                    assert(alike(m[k], n[k]));
                    law_exact_values_are_alike_where_equal(m[k], n[k]);
                }
                assert(m =~= n);
            }
            if a == b {
                crate::json::lemma_alike_itself(a);
            }
        },
        _ => {},
    }
}

/// Messages are alike just where they have the same role and their blocks are
/// alike, one by one.
pub proof fn law_alike_messages_say_the_same(a: MessageView, b: MessageView, i: int)
    requires
        alike_message(a, b),
        0 <= i < a.content.len(),
    ensures
        a.role == b.role,
        a.content.len() == b.content.len(),
        a.content[i] matches BlockView::Text { text } ==> b.content[i] == (BlockView::Text { text }),
        a.content[i] is ToolResult ==> b.content[i] == a.content[i],
        a.content[i] matches BlockView::ToolUse { id, name, input } ==> {
            &&& b.content[i] matches BlockView::ToolUse { id: j, name: m, input: other }
            &&& j == id
            &&& m == name
            &&& exact(input) ==> other == input
        },
{
    assert(alike_block(a.content[i], b.content[i]));
    if let BlockView::ToolUse { id, name, input } = a.content[i] {
        if let BlockView::ToolUse { id: j, name: m, input: other } = b.content[i] {
            if exact(input) {
                law_exact_values_are_alike_where_equal(input, other);
            }
        }
    }
}

} // verus!
