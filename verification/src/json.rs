//! The document tree that the flattener walks, and its mathematical model.

use vstd::prelude::*;
use vstd::string::StringExecFns;

verus! {

/// A JSON value. Object members keep the order in which the document lists
/// them; a number is held as its canonical decimal text.
#[derive(Debug, PartialEq, Eq)]
pub enum Json {
    Null,
    Bool(bool),
    Number(String),
    String(String),
    Array(Vec<Json>),
    Object(Vec<(String, Json)>),
}

/// The model of one member of an object.
pub ghost struct MemberView {
    pub key: Seq<char>,
    pub value: JsonView,
}

/// The model of a [`Json`] value: the same tree over sequences.
pub ghost enum JsonView {
    Null,
    Bool(bool),
    Number(Seq<char>),
    String(Seq<char>),
    Array(Seq<JsonView>),
    Object(Seq<MemberView>),
}

impl View for Json {
    type V = JsonView;

    open spec fn view(&self) -> JsonView
        decreases self,
    {
        match *self {
            Json::Null => JsonView::Null,
            Json::Bool(b) => JsonView::Bool(b),
            Json::Number(n) => JsonView::Number(n@),
            Json::String(s) => JsonView::String(s@),
            Json::Array(items) => JsonView::Array(
                Seq::new(
                    items@.len(),
                    |i: int|
                        if 0 <= i < items@.len() {
                            items@[i].view()
                        } else {
                            JsonView::Null
                        },
                ),
            ),
            Json::Object(members) => JsonView::Object(
                Seq::new(
                    members@.len(),
                    |i: int|
                        if 0 <= i < members@.len() {
                            MemberView { key: members@[i].0@, value: members@[i].1.view() }
                        } else {
                            MemberView { key: Seq::empty(), value: JsonView::Null }
                        },
                ),
            ),
        }
    }
}

/// The elements of an array's model, or nothing for another value.
pub open spec fn items_of(v: JsonView) -> Seq<JsonView> {
    match v {
        JsonView::Array(items) => items,
        _ => Seq::empty(),
    }
}

/// The members of an object's model, or nothing for another value.
pub open spec fn members_of(v: JsonView) -> Seq<MemberView> {
    match v {
        JsonView::Object(members) => members,
        _ => Seq::empty(),
    }
}

/// The model of an array holds the models of its elements, in order.
pub proof fn lemma_array_view(items: Vec<Json>)
    ensures
        Json::Array(items)@ is Array,
        items_of(Json::Array(items)@).len() == items@.len(),
        forall|i: int|
            0 <= i < items@.len() ==> (#[trigger] items_of(Json::Array(items)@)[i]) == items@[i]@,
{
}

/// The model of an object holds the keys and the models of its members,
/// in order.
pub proof fn lemma_object_view(members: Vec<(String, Json)>)
    ensures
        Json::Object(members)@ is Object,
        members_of(Json::Object(members)@).len() == members@.len(),
        forall|i: int|
            0 <= i < members@.len() ==> (#[trigger] members_of(Json::Object(members)@)[i])
                == (MemberView { key: members@[i].0@, value: members@[i].1@ }),
{
}

/// Whether a value is an object or an array.
pub open spec fn is_container(v: JsonView) -> bool {
    v is Object || v is Array
}

/// The text a leaf is rendered as: a string verbatim, a number as its
/// decimal text, a boolean as `true` or `false`, null as `null`.
pub open spec fn leaf_text(v: JsonView) -> Seq<char> {
    match v {
        JsonView::String(s) => s,
        JsonView::Number(n) => n,
        JsonView::Bool(b) => if b {
            "true"@
        } else {
            "false"@
        },
        JsonView::Null => "null"@,
        _ => Seq::empty(),
    }
}

/// The number of children of a container; none for a leaf.
pub open spec fn children_of(v: JsonView) -> nat {
    match v {
        JsonView::Array(items) => items.len(),
        JsonView::Object(members) => members.len(),
        _ => 0,
    }
}

/// The number of values in a tree, the root included.
pub open spec fn json_size(v: JsonView) -> nat
    decreases v, 0nat,
{
    match v {
        JsonView::Array(items) => 1 + items_size(items, items.len()),
        JsonView::Object(members) => 1 + members_size(members, members.len()),
        _ => 1,
    }
}

/// The number of values in the first `n` elements of an array.
pub open spec fn items_size(items: Seq<JsonView>, n: nat) -> nat
    decreases items, n,
{
    if n == 0 || n > items.len() {
        0
    } else {
        items_size(items, (n - 1) as nat) + json_size(items[n - 1])
    }
}

/// The number of values in the first `n` members of an object.
pub open spec fn members_size(members: Seq<MemberView>, n: nat) -> nat
    decreases members, n,
{
    if n == 0 || n > members.len() {
        0
    } else {
        members_size(members, (n - 1) as nat) + json_size(members[n - 1].value)
    }
}

/// Whether no two members of one object share a key, at any depth.
pub open spec fn distinct_keys(v: JsonView) -> bool
    decreases v,
{
    match v {
        JsonView::Array(items) => forall|i: int|
            0 <= i < items.len() ==> distinct_keys(#[trigger] items[i]),
        JsonView::Object(members) => (forall|i: int, j: int|
            0 <= i < j < members.len() ==> (#[trigger] members[i]).key != (
            #[trigger] members[j]).key) && (forall|i: int|
            0 <= i < members.len() ==> distinct_keys((#[trigger] members[i]).value)),
        _ => true,
    }
}

/// `serde_json::Value`, a parsed document, carried as it is from the
/// parser to the function that takes it apart.
#[verifier::external_type_specification]
#[verifier::external_body]
pub struct ExValue(serde_json::Value);

/// What `serde_json::from_slice` makes of `bytes`: the document they hold,
/// or, where they hold no single well-formed JSON document, the message of
/// the failure.
pub uninterp spec fn json_parse(bytes: Seq<u8>) -> Result<JsonView, Seq<char>>;

/// The tree that a `serde_json::Value` holds: its variants one for one,
/// the members of an object in the order in which its map iterates them,
/// a number as the text that its `Display` prints.
pub uninterp spec fn value_model(value: serde_json::Value) -> JsonView;

/// `serde_json::from_slice` at type `serde_json::Value`, a failure turned
/// into its message by `Display`. It fails exactly where the bytes hold no
/// document; what it returns depends on the bytes alone.
#[verifier::external_body]
fn parse_value(bytes: &[u8]) -> (r: Result<serde_json::Value, String>)
    ensures
        match r {
            Ok(value) => json_parse(bytes@) == Ok::<JsonView, Seq<char>>(value_model(value)),
            Err(message) => json_parse(bytes@) == Err::<JsonView, Seq<char>>(message@),
        },
{
    serde_json::from_slice(bytes).map_err(|e: serde_json::Error| e.to_string())
}

/// `serde_json::Value::as_bool`: the boolean that the value is, if it is
/// one.
#[verifier::external_body]
fn value_bool(value: &serde_json::Value) -> (r: Option<bool>)
    ensures
        r == match value_model(*value) {
            JsonView::Bool(b) => Some(b),
            _ => None,
        },
{
    value.as_bool()
}

/// `serde_json::Value::as_str`: the text that the value is, if it is a
/// string.
#[verifier::external_body]
fn value_str<'a>(value: &'a serde_json::Value) -> (r: Option<&'a str>)
    ensures
        match value_model(*value) {
            JsonView::String(s) => r matches Some(t) && t@ == s,
            _ => r is None,
        },
{
    value.as_str()
}

/// `serde_json::Value::as_number`, then `Display` of `serde_json::Number`:
/// the decimal text of the number that the value is, if it is one.
#[verifier::external_body]
fn value_number(value: &serde_json::Value) -> (r: Option<String>)
    ensures
        match value_model(*value) {
            JsonView::Number(n) => r matches Some(t) && t@ == n,
            _ => r is None,
        },
{
    value.as_number().map(|n| n.to_string())
}

/// `serde_json::Value::as_array`: the elements of the array that the value
/// is, if it is one, in order.
#[verifier::external_body]
fn value_items<'a>(value: &'a serde_json::Value) -> (r: Option<&'a Vec<serde_json::Value>>)
    ensures
        match value_model(*value) {
            JsonView::Array(items) => r matches Some(v) && v@.len() == items.len() && forall|
                i: int,
            |
                0 <= i < items.len() ==> value_model(#[trigger] v@[i]) == items[i],
            _ => r is None,
        },
{
    value.as_array()
}

/// `serde_json::Value::as_object`, then `serde_json::Map::iter`: the keys
/// and values of the object that the value is, if it is one, in the order
/// of the map. A map holds each key once.
#[verifier::external_body]
fn value_members<'a>(value: &'a serde_json::Value) -> (r: Option<
    Vec<(&'a String, &'a serde_json::Value)>,
>)
    ensures
        match value_model(*value) {
            JsonView::Object(members) => r matches Some(v) && v@.len() == members.len() && (
            forall|i: int|
                0 <= i < members.len() ==> (#[trigger] v@[i]).0@ == members[i].key && value_model(
                    *v@[i].1,
                ) == members[i].value) && (forall|i: int, j: int|
                0 <= i < j < v@.len() ==> (#[trigger] v@[i]).0@ != (#[trigger] v@[j]).0@),
            _ => r is None,
        },
{
    value.as_object().map(|m| m.iter().collect())
}

/// An element of an array is smaller than the array.
proof fn lemma_item_smaller(items: Seq<JsonView>, n: nat, i: int)
    requires
        0 <= i < n <= items.len(),
    ensures
        json_size(items[i]) <= items_size(items, n),
    decreases n,
{
    if i < n - 1 {
        lemma_item_smaller(items, (n - 1) as nat, i);
    }
}

/// A member of an object is smaller than the object.
proof fn lemma_member_smaller(members: Seq<MemberView>, n: nat, i: int)
    requires
        0 <= i < n <= members.len(),
    ensures
        json_size(members[i].value) <= members_size(members, n),
    decreases n,
{
    if i < n - 1 {
        lemma_member_smaller(members, (n - 1) as nat, i);
    }
}

/// Takes a parsed value apart into a [`Json`] with the same content.
fn json_of_value(value: &serde_json::Value) -> (json: Json)
    ensures
        json@ == value_model(*value),
        distinct_keys(json@),
    decreases json_size(value_model(*value)),
{
    let ghost model = value_model(*value);
    if let Some(b) = value_bool(value) {
        return Json::Bool(b);
    }
    if let Some(s) = value_str(value) {
        return Json::String(String::from_str(s));
    }
    if let Some(n) = value_number(value) {
        return Json::Number(n);
    }
    if let Some(items) = value_items(value) {
        let ghost wanted = items_of(model);
        let mut out: Vec<Json> = Vec::new();
        let mut i: usize = 0;
        while i < items.len()
            invariant
                i <= items.len(),
                out@.len() == i,
                model == JsonView::Array(wanted),
                model == value_model(*value),
                items@.len() == wanted.len(),
                forall|k: int| 0 <= k < wanted.len() ==> value_model(#[trigger] items@[k]) == wanted[k],
                forall|k: int|
                    0 <= k < i ==> (#[trigger] out@[k])@ == wanted[k] && distinct_keys(out@[k]@),
            decreases items.len() - i,
        {
            proof {
                lemma_item_smaller(wanted, wanted.len(), i as int);
            }
            let item = json_of_value(&items[i]);
            out.push(item);
            i += 1;
        }
        proof {
            lemma_array_view(out);
            assert(items_of(Json::Array(out)@) =~= wanted);
            assert forall|k: int| 0 <= k < wanted.len() implies distinct_keys(
                #[trigger] wanted[k],
            ) by {
                assert(out@[k]@ == wanted[k]);
            }
        }
        return Json::Array(out);
    }
    if let Some(members) = value_members(value) {
        let ghost wanted = members_of(model);
        let mut out: Vec<(String, Json)> = Vec::new();
        let mut i: usize = 0;
        while i < members.len()
            invariant
                i <= members.len(),
                out@.len() == i,
                model == JsonView::Object(wanted),
                model == value_model(*value),
                members@.len() == wanted.len(),
                forall|k: int|
                    0 <= k < wanted.len() ==> (#[trigger] members@[k]).0@ == wanted[k].key
                        && value_model(*members@[k].1) == wanted[k].value,
                forall|k: int|
                    0 <= k < i ==> (#[trigger] out@[k]).0@ == wanted[k].key && out@[k].1@
                        == wanted[k].value && distinct_keys(out@[k].1@),
            decreases members.len() - i,
        {
            proof {
                lemma_member_smaller(wanted, wanted.len(), i as int);
            }
            let key = members[i].0.clone();
            let member = json_of_value(members[i].1);
            out.push((key, member));
            i += 1;
        }
        proof {
            lemma_object_view(out);
            assert(members_of(Json::Object(out)@) =~= wanted);
            assert forall|k: int| 0 <= k < wanted.len() implies distinct_keys(
                (#[trigger] wanted[k]).value,
            ) by {
                assert(out@[k].1@ == wanted[k].value);
            }
            assert forall|k: int, l: int| 0 <= k < l < wanted.len() implies (
            #[trigger] wanted[k]).key != (#[trigger] wanted[l]).key by {
                assert(members@[k].0@ == wanted[k].key);
                assert(members@[l].0@ == wanted[l].key);
            }
        }
        return Json::Object(out);
    }
    Json::Null
}

impl Json {
    /// Reads the one JSON document that `bytes` hold. Where they hold
    /// none, the error is the parser's message.
    pub fn parse(bytes: &[u8]) -> (r: Result<Json, String>)
        ensures
            match r {
                Ok(json) => json_parse(bytes@) == Ok::<JsonView, Seq<char>>(json@) && distinct_keys(
                    json@,
                ),
                Err(message) => json_parse(bytes@) == Err::<JsonView, Seq<char>>(message@),
            },
    {
        match parse_value(bytes) {
            Ok(value) => Ok(json_of_value(&value)),
            Err(message) => Err(message),
        }
    }

    /// How many children a container has; none for a leaf.
    pub fn child_count(&self) -> (n: usize)
        ensures
            n == children_of(self@),
    {
        match self {
            Json::Array(items) => {
                proof {
                    lemma_array_view(*items);
                }
                items.len()
            },
            Json::Object(members) => {
                proof {
                    lemma_object_view(*members);
                }
                members.len()
            },
            _ => 0,
        }
    }

    /// The text this value is rendered as in a record, if it is a leaf.
    pub fn render(&self) -> (r: Option<String>)
        ensures
            match r {
                Some(s) => !is_container(self@) && s@ == leaf_text(self@),
                None => is_container(self@),
            },
    {
        match self {
            Json::String(s) => Some(s.clone()),
            Json::Number(n) => Some(n.clone()),
            Json::Bool(b) => Some(
                if *b {
                    String::from_str("true")
                } else {
                    String::from_str("false")
                },
            ),
            Json::Null => Some(String::from_str("null")),
            _ => None,
        }
    }
}

} // verus!
