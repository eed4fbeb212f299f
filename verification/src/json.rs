//! JSON values as the library reads and builds them.
use vstd::prelude::*;
use vstd::string::*;

use crate::text::{lemma_step, same, views};

verus! {

/// A number of the `serde_json` crate.
#[verifier::external_type_specification]
#[verifier::external_body]
pub struct ExNumber(serde_json::Number);

/// What `serde_json::Number`'s `Display` prints.
pub uninterp spec fn number_text(n: serde_json::Number) -> Seq<char>;

/// `serde_json::Number`'s `Display`.
#[verifier::external_body]
fn print_number(n: &serde_json::Number) -> (r: String)
    ensures
        r@ == number_text(*n),
{
    n.to_string()
}

/// `serde_json::Number`'s `Clone`: the copy prints as the number does.
#[verifier::external_body]
fn clone_number(n: &serde_json::Number) -> (r: serde_json::Number)
    ensures
        number_text(r) == number_text(*n),
{
    n.clone()
}

/// A JSON number: an integer, or a number with a fraction or an exponent.
#[derive(Debug)]
pub enum Num {
    Unsigned(u64),
    Negative(i64),
    Float(Real),
}

/// A number with a fraction or an exponent, known by its text.
#[derive(Debug)]
pub struct Real {
    number: serde_json::Number,
}

impl View for Real {
    type V = Seq<char>;

    closed spec fn view(&self) -> Seq<char> {
        number_text(self.number)
    }
}

/// What a number is.
pub enum NumView {
    Int(int),
    Float(Seq<char>),
}

impl View for Num {
    type V = NumView;

    open spec fn view(&self) -> NumView {
        match self {
            Num::Unsigned(n) => NumView::Int(*n as int),
            Num::Negative(n) => NumView::Int(*n as int),
            Num::Float(t) => NumView::Float(t@),
        }
    }
}

/// A JSON value. An object lists its fields; of two fields with one name the
/// later counts.
#[derive(Debug)]
pub enum Json {
    Null,
    Bool(bool),
    Num(Num),
    Str(String),
    Array(Vec<Json>),
    Object(Vec<(String, Json)>),
}

/// What a JSON value is: an object is a map, so the order of its fields does
/// not matter.
pub enum JsonView {
    Null,
    Bool(bool),
    Num(NumView),
    Str(Seq<char>),
    Array(Seq<JsonView>),
    Object(Map<Seq<char>, JsonView>),
}

/// The values of a list, in order.
pub open spec fn items_view(items: Seq<Json>) -> Seq<JsonView>
    decreases items,
{
    Seq::new(
        items.len(),
        |i: int|
            if 0 <= i < items.len() {
                items[i].model()
            } else {
                JsonView::Null
            },
    )
}

/// The fields of an object as a map.
pub open spec fn fields_view(fields: Seq<(String, Json)>) -> Map<Seq<char>, JsonView>
    decreases fields,
{
    if fields.len() == 0 {
        Map::empty()
    } else {
        fields_view(fields.drop_last()).insert(fields.last().0@, fields.last().1.model())
    }
}

impl Json {
    /// What this value is.
    pub open spec fn model(&self) -> JsonView
        decreases self,
    {
        match self {
            Json::Null => JsonView::Null,
            Json::Bool(b) => JsonView::Bool(*b),
            Json::Num(n) => JsonView::Num(n@),
            Json::Str(s) => JsonView::Str(s@),
            Json::Array(items) => JsonView::Array(items_view(items@)),
            Json::Object(fields) => JsonView::Object(fields_view(fields@)),
        }
    }
}

impl View for Json {
    type V = JsonView;

    open spec fn view(&self) -> JsonView {
        self.model()
    }
}

// ── Reading ─────────────────────────────────────────────────────────────────

impl JsonView {
    /// The field `key` of an object.
    pub open spec fn get(self, key: Seq<char>) -> Option<JsonView> {
        match self {
            JsonView::Object(m) => if m.dom().contains(key) {
                Some(m[key])
            } else {
                None
            },
            _ => None,
        }
    }

    /// The text of a string.
    pub open spec fn as_str(self) -> Option<Seq<char>> {
        match self {
            JsonView::Str(s) => Some(s),
            _ => None,
        }
    }

    /// A boolean's value.
    pub open spec fn as_bool(self) -> Option<bool> {
        match self {
            JsonView::Bool(b) => Some(b),
            _ => None,
        }
    }

    /// A natural number's value.
    pub open spec fn as_nat(self) -> Option<int> {
        match self {
            JsonView::Num(NumView::Int(n)) => if 0 <= n {
                Some(n)
            } else {
                None
            },
            _ => None,
        }
    }

    /// The items of a list.
    pub open spec fn as_array(self) -> Option<Seq<JsonView>> {
        match self {
            JsonView::Array(items) => Some(items),
            _ => None,
        }
    }

    /// The text of the string field `key`.
    pub open spec fn str_field(self, key: Seq<char>) -> Option<Seq<char>> {
        match self.get(key) {
            Some(v) => v.as_str(),
            None => None,
        }
    }

    /// The value of the boolean field `key`.
    pub open spec fn bool_field(self, key: Seq<char>) -> Option<bool> {
        match self.get(key) {
            Some(v) => v.as_bool(),
            None => None,
        }
    }

    /// The value of the natural-number field `key`.
    pub open spec fn nat_field(self, key: Seq<char>) -> Option<int> {
        match self.get(key) {
            Some(v) => v.as_nat(),
            None => None,
        }
    }

    /// The items of the list field `key`.
    pub open spec fn array_field(self, key: Seq<char>) -> Option<Seq<JsonView>> {
        match self.get(key) {
            Some(v) => v.as_array(),
            None => None,
        }
    }
}

/// Where the value that counts for `key` stands.
spec fn field_at(fields: Seq<(String, Json)>, key: Seq<char>) -> Option<int>
    decreases fields.len(),
{
    if fields.len() == 0 {
        None
    } else if fields.last().0@ == key {
        Some(fields.len() - 1)
    } else {
        field_at(fields.drop_last(), key)
    }
}

/// The map holds what the list says, and nothing else.
proof fn lemma_fields(fields: Seq<(String, Json)>, key: Seq<char>)
    ensures
        match field_at(fields, key) {
            Some(i) => 0 <= i < fields.len() && fields[i].0@ == key && fields_view(
                fields,
            ).dom().contains(key) && fields_view(fields)[key] == fields[i].1@,
            None => !fields_view(fields).dom().contains(key),
        },
    decreases fields.len(),
{
    if fields.len() > 0 {
        lemma_fields(fields.drop_last(), key);
    }
}

/// A name in the map stands in the list.
pub proof fn lemma_in_list(fields: Seq<(String, Json)>, key: Seq<char>)
    requires
        fields_view(fields).dom().contains(key),
    ensures
        exists|i: int| 0 <= i < fields.len() && #[trigger] fields[i].0@ == key,
{
    lemma_fields(fields, key);
    assert(fields[field_at(fields, key)->0].0@ == key);
}

/// A name that stands in the list is found.
pub proof fn lemma_listed(fields: Seq<(String, Json)>, i: int)
    requires
        0 <= i < fields.len(),
    ensures
        fields_view(fields).dom().contains(fields[i].0@),
    decreases fields.len(),
{
    if i < fields.len() - 1 {
        lemma_listed(fields.drop_last(), i);
    }
}

/// Where `key`'s value stands in a list of fields.
fn find_field(fields: &Vec<(String, Json)>, key: &str) -> (r: Option<usize>)
    ensures
        match r {
            Some(i) => i < fields@.len() && fields@[i as int].0@ == key@ && fields_view(
                fields@,
            ).dom().contains(key@) && fields_view(fields@)[key@] == fields@[i as int].1@,
            None => !fields_view(fields@).dom().contains(key@),
        },
{
    let mut n: usize = fields.len();
    proof {
        assert(fields@.take(n as int) =~= fields@);
        lemma_fields(fields@, key@);
    }
    while n > 0
        invariant
            n <= fields@.len(),
            field_at(fields@, key@) == field_at(fields@.take(n as int), key@),
            match field_at(fields@, key@) {
                Some(i) => 0 <= i < fields@.len() && fields@[i].0@ == key@ && fields_view(
                    fields@,
                ).dom().contains(key@) && fields_view(fields@)[key@] == fields@[i].1@,
                None => !fields_view(fields@).dom().contains(key@),
            },
        decreases n,
    {
        n -= 1;
        proof {
            crate::text::lemma_step(fields@, n as int);
        }
        if same(fields[n].0.as_str(), key) {
            return Some(n);
        }
    }
    None
}

impl Json {
    /// The field `key` of an object.
    pub fn get(&self, key: &str) -> (r: Option<&Json>)
        ensures
            match r {
                Some(v) => self@.get(key@) == Some(v@) && decreases_to!(*self => *v),
                None => self@.get(key@) is None,
            },
    {
        match self {
            Json::Object(fields) => match find_field(fields, key) {
                Some(i) => Some(&fields[i].1),
                None => None,
            },
            _ => None,
        }
    }

    /// The text of a string.
    pub fn as_str(&self) -> (r: Option<&str>)
        ensures
            match r {
                Some(s) => self@.as_str() == Some(s@),
                None => self@.as_str() is None,
            },
    {
        match self {
            Json::Str(s) => Some(s.as_str()),
            _ => None,
        }
    }

    /// A boolean's value.
    pub fn as_bool(&self) -> (r: Option<bool>)
        ensures
            r == self@.as_bool(),
    {
        match self {
            Json::Bool(b) => Some(*b),
            _ => None,
        }
    }

    /// A natural number's value.
    pub fn as_u64(&self) -> (r: Option<u64>)
        ensures
            match r {
                Some(n) => self@.as_nat() == Some(n as int),
                None => self@.as_nat() is None,
            },
    {
        match self {
            Json::Num(Num::Unsigned(n)) => Some(*n),
            Json::Num(Num::Negative(n)) => if *n >= 0 {
                Some(*n as u64)
            } else {
                None
            },
            _ => None,
        }
    }

    /// The items of a list.
    pub fn as_array(&self) -> (r: Option<&Vec<Json>>)
        ensures
            match r {
                Some(items) => self@.as_array() == Some(items_view(items@)) && decreases_to!(
                    *self => *items
                ),
                None => self@.as_array() is None,
            },
    {
        match self {
            Json::Array(items) => Some(items),
            _ => None,
        }
    }

    /// Whether this is an object.
    pub fn is_object(&self) -> (r: bool)
        ensures
            r == (self@ is Object),
    {
        match self {
            Json::Object(_) => true,
            _ => false,
        }
    }

    /// Whether this is null.
    pub fn is_null(&self) -> (r: bool)
        ensures
            r == (self@ is Null),
    {
        match self {
            Json::Null => true,
            _ => false,
        }
    }

    /// The text of the string field `key`.
    pub fn str_field(&self, key: &str) -> (r: Option<&str>)
        ensures
            match r {
                Some(s) => self@.str_field(key@) == Some(s@),
                None => self@.str_field(key@) is None,
            },
    {
        match self.get(key) {
            Some(v) => v.as_str(),
            None => None,
        }
    }

    /// The value of the boolean field `key`.
    pub fn bool_field(&self, key: &str) -> (r: Option<bool>)
        ensures
            r == self@.bool_field(key@),
    {
        match self.get(key) {
            Some(v) => v.as_bool(),
            None => None,
        }
    }

    /// The value of the natural-number field `key`.
    pub fn u64_field(&self, key: &str) -> (r: Option<u64>)
        ensures
            match r {
                Some(n) => self@.nat_field(key@) == Some(n as int),
                None => self@.nat_field(key@) is None,
            },
    {
        match self.get(key) {
            Some(v) => v.as_u64(),
            None => None,
        }
    }

    /// The items of the list field `key`.
    pub fn array_field(&self, key: &str) -> (r: Option<&Vec<Json>>)
        ensures
            match r {
                Some(items) => self@.array_field(key@) == Some(items_view(items@)),
                None => self@.array_field(key@) is None,
            },
    {
        match self.get(key) {
            Some(v) => v.as_array(),
            None => None,
        }
    }
}

// ── Building ────────────────────────────────────────────────────────────────

impl JsonView {
    /// The object without fields.
    pub open spec fn object() -> JsonView {
        JsonView::Object(Map::empty())
    }

    /// This object with `key` set to `value`.
    pub open spec fn with(self, key: Seq<char>, value: JsonView) -> JsonView {
        match self {
            JsonView::Object(m) => JsonView::Object(m.insert(key, value)),
            _ => JsonView::Object(Map::empty().insert(key, value)),
        }
    }
}

impl Json {
    /// The object without fields.
    pub fn object() -> (r: Json)
        ensures
            r@ == JsonView::object(),
    {
        let fields: Vec<(String, Json)> = Vec::new();
        Json::Object(fields)
    }

    /// This object with `key` set to `value`; a value that is no object gives
    /// way to one.
    pub fn with(self, key: &str, value: Json) -> (r: Json)
        ensures
            r@ == self@.with(key@, value@),
    {
        let ghost whole = self@;
        let mut fields = match self {
            Json::Object(fields) => fields,
            _ => Vec::new(),
        };
        let ghost before = fields@;
        proof {
            assert(whole is Object ==> whole->Object_0 == fields_view(before));
            assert(!(whole is Object) ==> fields_view(before) =~= Map::<Seq<char>, JsonView>::empty());
        }
        fields.push((key.to_owned(), value));
        proof {
            assert(fields@.drop_last() =~= before);
            assert(fields@.last().0@ == key@);
        }
        Json::Object(fields)
    }

    /// A string.
    pub fn text(s: &str) -> (r: Json)
        ensures
            r@ == JsonView::Str(s@),
    {
        Json::Str(s.to_owned())
    }

    /// A natural number.
    pub fn number(n: u64) -> (r: Json)
        ensures
            r@ == JsonView::Num(NumView::Int(n as int)),
    {
        Json::Num(Num::Unsigned(n))
    }
}

// ── Lists of texts ──────────────────────────────────────────────────────────

/// The texts among values, in order.
pub open spec fn texts_in(items: Seq<JsonView>) -> Seq<Seq<char>>
    decreases items.len(),
{
    if items.len() == 0 {
        Seq::empty()
    } else {
        match items.last().as_str() {
            Some(s) => texts_in(items.drop_last()).push(s),
            None => texts_in(items.drop_last()),
        }
    }
}

impl JsonView {
    /// The texts of an array field, in order; none where there is no array.
    pub open spec fn texts_field(self, key: Seq<char>) -> Seq<Seq<char>> {
        match self.array_field(key) {
            Some(items) => texts_in(items),
            None => Seq::empty(),
        }
    }
}

impl Json {
    /// The texts of an array field, in order; none where there is no array.
    pub fn texts_field(&self, key: &str) -> (r: Vec<String>)
        ensures
            views(r@) == self@.texts_field(key@),
            r@.len() == self@.texts_field(key@).len(),
    {
        let mut out: Vec<String> = Vec::new();
        match self.array_field(key) {
            None => {
                proof {
                    assert(views(out@) =~= Seq::<Seq<char>>::empty());
                }
            },
            Some(items) => {
                let ghost all = items_view(items@);
                let mut i: usize = 0;
                proof {
                    assert(views(out@) =~= texts_in(all.take(0)));
                }
                while i < items.len()
                    invariant
                        all == items_view(items@),
                        i <= items@.len(),
                        views(out@) == texts_in(all.take(i as int)),
                    decreases items@.len() - i,
                {
                    proof {
                        lemma_step(all, i as int);
                        assert(all[i as int] == items@[i as int]@);
                    }
                    if let Some(s) = items[i].as_str() {
                        let ghost before = out@;
                        out.push(s.to_owned());
                        proof {
                            assert(views(out@) =~= views(before).push(s@));
                        }
                    }
                    i += 1;
                }
                proof {
                    assert(all.take(i as int) =~= all);
                }
            },
        }
        proof {
            assert(views(out@).len() == out@.len());
        }
        out
    }
}

// ── Copies and comparison ───────────────────────────────────────────────────

impl Clone for Real {
    fn clone(&self) -> (r: Self)
        ensures
            r@ == self@,
    {
        Real { number: clone_number(&self.number) }
    }
}

impl Clone for Num {
    fn clone(&self) -> (r: Self)
        ensures
            r@ == self@,
    {
        match self {
            Num::Unsigned(n) => Num::Unsigned(*n),
            Num::Negative(n) => Num::Negative(*n),
            Num::Float(t) => Num::Float(t.clone()),
        }
    }
}

fn clone_items(items: &Vec<Json>) -> (r: Vec<Json>)
    ensures
        items_view(r@) == items_view(items@),
        r@.len() == items@.len(),
    decreases items,
{
    let mut out: Vec<Json> = Vec::new();
    let mut i: usize = 0;
    while i < items.len()
        invariant
            i <= items@.len(),
            out@.len() == i,
            forall|j: int| 0 <= j < i ==> #[trigger] out@[j]@ == items@[j]@,
        decreases items@.len() - i,
    {
        proof {
            assert(decreases_to!(items => items@));
            assert(decreases_to!(items@ => items@[i as int]));
        }
        let c = items[i].clone();
        out.push(c);
        i += 1;
    }
    proof {
        assert(items_view(out@) =~= items_view(items@)) by {
            assert forall|j: int| 0 <= j < items@.len() implies #[trigger] items_view(out@)[j]
                == items_view(items@)[j] by {
                assert(out@[j]@ == items@[j]@);
            }
        }
    }
    out
}

fn clone_fields(fields: &Vec<(String, Json)>) -> (r: Vec<(String, Json)>)
    ensures
        fields_view(r@) == fields_view(fields@),
    decreases fields,
{
    let mut out: Vec<(String, Json)> = Vec::new();
    let mut i: usize = 0;
    while i < fields.len()
        invariant
            i <= fields@.len(),
            fields_view(out@) == fields_view(fields@.take(i as int)),
        decreases fields@.len() - i,
    {
        proof {
            assert(decreases_to!(fields => fields@));
            assert(decreases_to!(fields@ => fields@[i as int]));
            assert(decreases_to!(fields@[i as int] => fields@[i as int].1));
            crate::text::lemma_step(fields@, i as int);
        }
        let ghost before = out@;
        let k = fields[i].0.clone();
        let c = fields[i].1.clone();
        out.push((k, c));
        proof {
            assert(out@.drop_last() =~= before);
        }
        i += 1;
    }
    proof {
        assert(fields@.take(fields@.len() as int) =~= fields@);
    }
    out
}

impl Clone for Json {
    fn clone(&self) -> (r: Self)
        ensures
            r@ == self@,
        decreases self,
    {
        match self {
            Json::Null => Json::Null,
            Json::Bool(b) => Json::Bool(*b),
            Json::Num(n) => Json::Num(n.clone()),
            Json::Str(s) => Json::Str(s.clone()),
            Json::Array(items) => Json::Array(clone_items(items)),
            Json::Object(fields) => Json::Object(clone_fields(fields)),
        }
    }
}

/// Whether a number is a floating zero, of either sign.
pub open spec fn floating_zero(n: NumView) -> bool {
    n == NumView::Float("0.0"@) || n == NumView::Float("-0.0"@)
}

/// Whether two numbers compare as equal: the same number, or a floating zero
/// each.
pub open spec fn alike_number(a: NumView, b: NumView) -> bool {
    a == b || (floating_zero(a) && floating_zero(b))
}

/// Whether two values compare as equal: the same value, but for the signs of
/// floating zeros in it.
pub open spec fn alike(a: JsonView, b: JsonView) -> bool
    decreases a,
{
    match (a, b) {
        (JsonView::Num(x), JsonView::Num(y)) => alike_number(x, y),
        (JsonView::Array(x), JsonView::Array(y)) => x.len() == y.len() && forall|i: int|
            0 <= i < x.len() ==> alike(#[trigger] x[i], y[i]),
        (JsonView::Object(m), JsonView::Object(n)) => m.dom() == n.dom() && forall|k: Seq<char>|
            m.dom().contains(k) ==> alike(#[trigger] m[k], n[k]),
        _ => a == b,
    }
}

/// A value compares as equal to itself.
pub proof fn lemma_alike_itself(a: JsonView)
    ensures
        alike(a, a),
    decreases a,
{
    match a {
        JsonView::Array(x) => {
            assert forall|i: int| 0 <= i < x.len() implies alike(#[trigger] x[i], x[i]) by {
                lemma_alike_itself(x[i]);
            }
        },
        JsonView::Object(m) => {
            assert forall|k: Seq<char>| m.dom().contains(k) implies alike(#[trigger] m[k], m[k]) by {
                lemma_alike_itself(m[k]);
            }
        },
        _ => {},
    }
}

/// Whether two numbers compare as equal.
fn same_number(a: &Num, b: &Num) -> (r: bool)
    ensures
        r == alike_number(a@, b@),
{
    match (a, b) {
        (Num::Float(s), Num::Float(t)) => {
            let x = print_number(&s.number);
            let y = print_number(&t.number);
            same(x.as_str(), y.as_str()) || ((same(x.as_str(), "0.0") || same(x.as_str(), "-0.0"))
                && (same(y.as_str(), "0.0") || same(y.as_str(), "-0.0")))
        },
        (Num::Float(_), _) => false,
        (_, Num::Float(_)) => false,
        (Num::Unsigned(m), Num::Unsigned(n)) => *m == *n,
        (Num::Negative(m), Num::Negative(n)) => *m == *n,
        (Num::Unsigned(m), Num::Negative(n)) => *n >= 0 && *m == *n as u64,
        (Num::Negative(m), Num::Unsigned(n)) => *m >= 0 && *m as u64 == *n,
    }
}

/// Whether every field that `a` lists compares as equal to the one in `b`.
fn fields_within(a: &Vec<(String, Json)>, b: &Vec<(String, Json)>) -> (r: bool)
    ensures
        r == (forall|k: Seq<char>| #[trigger]
            fields_view(a@).dom().contains(k) ==> fields_view(b@).dom().contains(k) && alike(
                fields_view(a@)[k],
                fields_view(b@)[k],
            )),
    decreases a,
{
    let ghost m = fields_view(a@);
    let ghost n = fields_view(b@);
    let mut i: usize = 0;
    while i < a.len()
        invariant
            i <= a@.len(),
            m == fields_view(a@),
            n == fields_view(b@),
            forall|j: int|
                0 <= j < i ==> n.dom().contains(#[trigger] a@[j].0@) && alike(
                    m[a@[j].0@],
                    n[a@[j].0@],
                ),
        decreases a@.len() - i,
    {
        let k = a[i].0.as_str();
        proof {
            lemma_listed(a@, i as int);
        }
        match (find_field(a, k), find_field(b, k)) {
            (Some(x), Some(y)) => {
                proof {
                    assert(decreases_to!(a => a@));
                    assert(decreases_to!(a@ => a@[x as int]));
                    assert(decreases_to!(a@[x as int] => a@[x as int].1));
                }
                if !same_json(&a[x].1, &b[y].1) {
                    return false;
                }
            },
            _ => {
                return false;
            },
        }
        i += 1;
    }
    proof {
        assert forall|k: Seq<char>| #[trigger] m.dom().contains(k) implies n.dom().contains(k)
            && alike(m[k], n[k]) by {
            lemma_fields(a@, k);
            let j = field_at(a@, k)->0;
            assert(n.dom().contains(a@[j].0@));
        }
    }
    true
}

/// Whether every field name that `b` lists stands in `a`.
fn names_within(b: &Vec<(String, Json)>, a: &Vec<(String, Json)>) -> (r: bool)
    ensures
        r == (forall|k: Seq<char>| #[trigger]
            fields_view(b@).dom().contains(k) ==> fields_view(a@).dom().contains(k)),
{
    let mut i: usize = 0;
    while i < b.len()
        invariant
            i <= b@.len(),
            forall|j: int| 0 <= j < i ==> fields_view(a@).dom().contains(#[trigger] b@[j].0@),
        decreases b@.len() - i,
    {
        let k = b[i].0.as_str();
        if find_field(a, k).is_none() {
            proof {
                lemma_listed(b@, i as int);
            }
            return false;
        }
        i += 1;
    }
    proof {
        assert forall|k: Seq<char>| #[trigger] fields_view(b@).dom().contains(k) implies fields_view(
            a@,
        ).dom().contains(k) by {
            lemma_fields(b@, k);
            let j = field_at(b@, k)->0;
            assert(fields_view(a@).dom().contains(b@[j].0@));
        }
    }
    true
}

fn same_items(a: &Vec<Json>, b: &Vec<Json>) -> (r: bool)
    ensures
        r == alike(JsonView::Array(items_view(a@)), JsonView::Array(items_view(b@))),
    decreases a,
{
    if a.len() != b.len() {
        proof {
            assert(items_view(a@).len() != items_view(b@).len());
        }
        return false;
    }
    let mut i: usize = 0;
    while i < a.len()
        invariant
            i <= a@.len() == b@.len(),
            forall|j: int|
                0 <= j < i ==> alike(#[trigger] items_view(a@)[j], items_view(b@)[j]),
        decreases a@.len() - i,
    {
        proof {
            assert(decreases_to!(a => a@));
            assert(decreases_to!(a@ => a@[i as int]));
            assert(items_view(a@)[i as int] == a@[i as int]@);
            assert(items_view(b@)[i as int] == b@[i as int]@);
        }
        if !same_json(&a[i], &b[i]) {
            return false;
        }
        i += 1;
    }
    true
}

/// Whether two values compare as equal.
pub fn same_json(a: &Json, b: &Json) -> (r: bool)
    ensures
        r == alike(a@, b@),
    decreases a,
{
    match (a, b) {
        (Json::Null, Json::Null) => true,
        (Json::Bool(x), Json::Bool(y)) => *x == *y,
        (Json::Num(x), Json::Num(y)) => same_number(x, y),
        (Json::Str(x), Json::Str(y)) => same(x.as_str(), y.as_str()),
        (Json::Array(x), Json::Array(y)) => same_items(x, y),
        (Json::Object(x), Json::Object(y)) => {
            let r = fields_within(x, y) && names_within(y, x);
            proof {
                let m = fields_view(x@);
                let n = fields_view(y@);
                if r {
                    assert(m.dom() =~= n.dom());
                    assert forall|k: Seq<char>| m.dom().contains(k) implies alike(
                        #[trigger] m[k],
                        n[k],
                    ) by {}
                } else if alike(a@, b@) {
                    assert forall|k: Seq<char>| #[trigger] m.dom().contains(k) implies n.dom().contains(
                        k,
                    ) && alike(m[k], n[k]) by {
                        assert(alike(m[k], n[k]));
                    }
                }
            }
            r
        },
        _ => false,
    }
}

// ── Text ────────────────────────────────────────────────────────────────────

#[verifier::external_type_specification]
#[verifier::external_body]
pub struct ExValue(serde_json::Value);

/// What a `serde_json::Value` holds.
pub uninterp spec fn value_model(v: serde_json::Value) -> JsonView;

/// What `serde_json::from_str` makes of a text: the value, or the message of
/// the error.
pub uninterp spec fn json_of(text: Seq<char>) -> Result<JsonView, Seq<char>>;

/// What `serde_json`'s compact `Display` prints for a value.
pub uninterp spec fn json_text(v: JsonView) -> Seq<char>;

/// `serde_json::from_str` on a text, into a `Value`. Which texts it takes and
/// what it reads from them is left to `json_of`.
#[verifier::external_body]
fn parse_value(text: &str) -> (r: Result<serde_json::Value, String>)
    ensures
        match r {
            Ok(v) => json_of(text@) == Ok::<JsonView, Seq<char>>(value_model(v)),
            Err(e) => json_of(text@) == Err::<JsonView, Seq<char>>(e@),
        },
{
    serde_json::from_str::<serde_json::Value>(text).map_err(|e| e.to_string())
}

/// What `serde_json::from_slice` makes of some bytes: the value, or the message
/// of the error.
pub uninterp spec fn json_of_bytes(bytes: Seq<u8>) -> Result<JsonView, Seq<char>>;

/// `serde_json::from_slice` on some bytes, into a `Value`. Which bytes it takes
/// and what it reads from them is left to `json_of_bytes`.
#[verifier::external_body]
fn parse_slice(bytes: &[u8]) -> (r: Result<serde_json::Value, String>)
    ensures
        match r {
            Ok(v) => json_of_bytes(bytes@) == Ok::<JsonView, Seq<char>>(value_model(v)),
            Err(e) => json_of_bytes(bytes@) == Err::<JsonView, Seq<char>>(e@),
        },
{
    serde_json::from_slice::<serde_json::Value>(bytes).map_err(|e| e.to_string())
}

/// A `serde_json::Value` as a value of this library, variant by variant. A
/// number that is neither a `u64` nor an `i64` stays as it is.
#[verifier::external_body]
fn from_value(v: serde_json::Value) -> (r: Json)
    ensures
        r@ == value_model(v),
{
    match v {
        serde_json::Value::Null => Json::Null,
        serde_json::Value::Bool(b) => Json::Bool(b),
        serde_json::Value::Number(n) => Json::Num(match (n.as_u64(), n.as_i64()) {
            (Some(u), _) => Num::Unsigned(u),
            (None, Some(i)) => Num::Negative(i),
            (None, None) => Num::Float(Real { number: n }),
        }),
        serde_json::Value::String(s) => Json::Str(s),
        serde_json::Value::Array(a) => Json::Array(a.into_iter().map(from_value).collect()),
        serde_json::Value::Object(m) => Json::Object(
            m.into_iter().map(|(k, x)| (k, from_value(x))).collect()
        ),
    }
}

/// A value of this library as a `serde_json::Value`, variant by variant; of two
/// fields with one name the later goes in.
#[verifier::external_body]
fn to_value(v: &Json) -> (r: serde_json::Value)
    ensures
        value_model(r) == v@,
{
    match v {
        Json::Null => serde_json::Value::Null,
        Json::Bool(b) => serde_json::Value::Bool(*b),
        Json::Num(Num::Unsigned(n)) => serde_json::Value::from(*n),
        Json::Num(Num::Negative(n)) => serde_json::Value::from(*n),
        Json::Num(Num::Float(t)) => serde_json::Value::Number(t.number.clone()),
        Json::Str(s) => serde_json::Value::from(s.as_str()),
        Json::Array(a) => serde_json::Value::Array(a.iter().map(to_value).collect()),
        Json::Object(m) => serde_json::Value::Object(
            m.iter().map(|f| (f.0.clone(), to_value(&f.1))).collect()
        ),
    }
}

/// `serde_json`'s compact rendering of a `Value`.
#[verifier::external_body]
fn print_value(v: &serde_json::Value) -> (r: String)
    ensures
        r@ == json_text(value_model(*v)),
{
    v.to_string()
}

/// What reading JSON gave, as a value.
pub open spec fn result_view(r: Result<Json, String>) -> Result<JsonView, Seq<char>> {
    match r {
        Ok(v) => Ok(v@),
        Err(e) => Err(e@),
    }
}

/// The value that a JSON text holds, or what is wrong with the text.
pub fn parse(text: &str) -> (r: Result<Json, String>)
    ensures
        match r {
            Ok(v) => json_of(text@) == Ok::<JsonView, Seq<char>>(v@),
            Err(e) => json_of(text@) == Err::<JsonView, Seq<char>>(e@),
        },
{
    match parse_value(text) {
        Ok(v) => Ok(from_value(v)),
        Err(e) => Err(e),
    }
}

/// The value that JSON bytes hold, or what is wrong with them.
pub fn parse_bytes(bytes: &[u8]) -> (r: Result<Json, String>)
    ensures
        match r {
            Ok(v) => json_of_bytes(bytes@) == Ok::<JsonView, Seq<char>>(v@),
            Err(e) => json_of_bytes(bytes@) == Err::<JsonView, Seq<char>>(e@),
        },
{
    match parse_slice(bytes) {
        Ok(v) => Ok(from_value(v)),
        Err(e) => Err(e),
    }
}

/// A value as compact JSON text.
pub fn to_text(v: &Json) -> (r: String)
    ensures
        r@ == json_text(v@),
{
    let value = to_value(v);
    print_value(&value)
}

} // verus!
