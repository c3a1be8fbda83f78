//! Documents as JSON text, written and read by `serde_json`.
//!
//! The library's own [`JsonValue`] is converted, node by node, to and from
//! `serde_json::Value`. What `serde_json` writes and reads is named here,
//! not stated.

use vstd::prelude::*;
use crate::json::{
    items_of, key_names, lemma_array_view, lemma_object_view, members_of, number_text, Json,
    JsonNumber, JsonValue, Num,
};
use crate::order::{lemma_chain_ascends, strictly_ascending, text_lt, text_precedes};
use crate::text::{chars_of, same_text, string_of};

verus! {

/// `serde_json::Value`, carried through as an opaque value.
#[verifier::external_type_specification]
#[verifier::external_body]
pub struct ExValue(serde_json::Value);

/// The document that a `serde_json::Value` holds. An object is the sequence
/// of its members in the order in which the value's map hands them out.
pub uninterp spec fn value_model(v: serde_json::Value) -> Json;

/// The text that `serde_json::to_string` writes for a value that holds the
/// document `doc`.
pub uninterp spec fn json_text(doc: Json) -> Seq<char>;

/// The models of a vector of values.
pub open spec fn value_models(items: Seq<serde_json::Value>) -> Seq<Json> {
    Seq::new(items.len(), |i: int| value_model(items[i]))
}

/// The models of a vector of keys and values.
pub open spec fn member_models(members: Seq<(String, serde_json::Value)>) -> Seq<
    (Seq<char>, Json),
> {
    Seq::new(members.len(), |i: int| (members[i].0@, value_model(members[i].1)))
}

/// `serde_json::Value::Null`.
#[verifier::external_body]
fn value_null() -> (out: serde_json::Value)
    ensures
        value_model(out) == Json::Null,
{
    serde_json::Value::Null
}

/// `serde_json::Value::Bool` of `b`.
#[verifier::external_body]
fn value_bool(b: bool) -> (out: serde_json::Value)
    ensures
        value_model(out) == Json::Bool(b),
{
    serde_json::Value::Bool(b)
}

/// The number that `serde_json::Number::from` makes of a `u64`.
#[verifier::external_body]
fn value_unsigned(n: u64) -> (out: serde_json::Value)
    ensures
        value_model(out) == Json::Number(Num::Integer(n as int)),
{
    serde_json::Value::Number(serde_json::Number::from(n))
}

/// The number that `serde_json::Number::from` makes of an `i64`.
#[verifier::external_body]
fn value_signed(n: i64) -> (out: serde_json::Value)
    ensures
        value_model(out) == Json::Number(Num::Integer(n as int)),
{
    serde_json::Value::Number(serde_json::Number::from(n))
}

/// `serde_json::Value::String` of `text`.
#[verifier::external_body]
fn value_text(text: String) -> (out: serde_json::Value)
    ensures
        value_model(out) == Json::String(text@),
{
    serde_json::Value::String(text)
}

/// `serde_json::Value::Array` of `items`.
#[verifier::external_body]
fn value_array(items: Vec<serde_json::Value>) -> (out: serde_json::Value)
    ensures
        value_model(out) == Json::Array(value_models(items@)),
{
    serde_json::Value::Array(items)
}

/// `serde_json::Value::Object` of a map that is filled with `members` in
/// their order.
///
/// The keys must come in strictly ascending order. The map then hands the
/// members out in that same order, whether it keeps its keys sorted or in
/// the order of insertion.
#[verifier::external_body]
fn value_object(members: Vec<(String, serde_json::Value)>) -> (out: serde_json::Value)
    requires
        strictly_ascending(key_names(member_models(members@))),
    ensures
        value_model(out) == Json::Object(member_models(members@)),
{
    serde_json::Value::Object(members.into_iter().collect())
}

/// The compact JSON text of a value.
///
/// Wraps `serde_json::to_string`. Writing a `Value` into a string does not
/// fail: its keys are strings and its numbers are finite.
#[verifier::external_body]
fn write_json(value: &serde_json::Value) -> (out: String)
    ensures
        out@ == json_text(value_model(*value)),
{
    serde_json::to_string(value).unwrap_or_default()
}

/// A document that can be written: in each of its objects the keys come in
/// strictly ascending order, and each of its numbers is an integer that is
/// held as one.
pub open spec fn is_writable(doc: Json) -> bool
    decreases doc,
{
    match doc {
        Json::Null => true,
        Json::Bool(_) => true,
        Json::Number(n) => n is Integer,
        Json::String(_) => true,
        Json::Array(items) => forall|i: int|
            0 <= i < items.len() ==> is_writable(#[trigger] items[i]),
        Json::Object(members) => strictly_ascending(key_names(members)) && forall|i: int|
            0 <= i < members.len() ==> is_writable((#[trigger] members[i]).1),
    }
}

/// An array with an item that cannot be written cannot be written.
pub proof fn lemma_unwritable_item(items: Seq<Json>, i: int)
    requires
        0 <= i < items.len(),
        !is_writable(items[i]),
    ensures
        !is_writable(Json::Array(items)),
{
    if is_writable(Json::Array(items)) {
        let held = Json::Array(items)->Array_0;
        assert(held == items);
        assert(is_writable(held[i]));
    }
}

/// An object with a member whose value cannot be written cannot be written.
pub proof fn lemma_unwritable_member(members: Seq<(Seq<char>, Json)>, i: int)
    requires
        0 <= i < members.len(),
        !is_writable(members[i].1),
    ensures
        !is_writable(Json::Object(members)),
{
}

/// Whether the keys of `members` come in strictly ascending order.
fn keys_ascend(members: &Vec<(String, JsonValue)>) -> (ok: bool)
    ensures
        ok == strictly_ascending(key_names(members_of(members@))),
{
    let ghost keys = key_names(members_of(members@));
    let mut i: usize = 1;
    while i < members.len()
        invariant
            1 <= i,
            keys == key_names(members_of(members@)),
            forall|j: int| 0 < j < i && j < keys.len() ==> text_lt(keys[j - 1], #[trigger] keys[j]),
        decreases members.len() - i,
    {
        let a = chars_of(members[i - 1].0.as_str());
        let b = chars_of(members[i].0.as_str());
        assert(a@ == keys[i - 1] && b@ == keys[i as int]);
        if !text_precedes(&a, &b) || same_text(&a, &b) {
            assert(!text_lt(keys[i - 1], keys[i as int]));
            return false;
        }
        i += 1;
    }
    proof {
        assert forall|x: int, y: int| 0 <= x < y < keys.len() implies text_lt(
            #[trigger] keys[x],
            #[trigger] keys[y],
        ) by {
            lemma_chain_ascends(keys, x, y);
        }
    }
    true
}

/// The `serde_json::Value` that holds the same document as `value`; `None`
/// where the document cannot be written.
fn to_serde(value: &JsonValue) -> (out: Option<serde_json::Value>)
    ensures
        match out {
            Some(v) => is_writable(value@) && value_model(v) == value@,
            None => !is_writable(value@),
        },
    decreases value,
{
    match value {
        JsonValue::Null => Some(value_null()),
        JsonValue::Bool(b) => Some(value_bool(*b)),
        JsonValue::Number(JsonNumber::Unsigned(n)) => Some(value_unsigned(*n)),
        JsonValue::Number(JsonNumber::Signed(n)) => Some(value_signed(*n)),
        JsonValue::Number(JsonNumber::Real(_)) => None,
        JsonValue::String(text) => Some(value_text(text.clone())),
        JsonValue::Array(items) => {
            proof {
                lemma_array_view(*items);
            }
            let mut out: Vec<serde_json::Value> = Vec::new();
            let mut i: usize = 0;
            while i < items.len()
                invariant
                    i <= items.len(),
                    out.len() == i,
                    value@ == Json::Array(items_of(items@)),
                    forall|j: int| 0 <= j < i ==> is_writable(#[trigger] items_of(items@)[j]),
                    forall|j: int|
                        0 <= j < i ==> value_model(#[trigger] out@[j]) == items_of(items@)[j],
                    forall|j: int| 0 <= j < items.len() ==> decreases_to!(value => items@[j]),
                decreases items.len() - i,
            {
                assert(items_of(items@)[i as int] == items@[i as int]@);
                match to_serde(&items[i]) {
                    Some(v) => {
                        out.push(v);
                    },
                    None => {
                        proof {
                            lemma_unwritable_item(items_of(items@), i as int);
                        }
                        return None;
                    },
                }
                i += 1;
            }
            assert(value_models(out@) =~= items_of(items@));
            Some(value_array(out))
        },
        JsonValue::Object(members) => {
            proof {
                lemma_object_view(*members);
            }
            if !keys_ascend(members) {
                return None;
            }
            let mut out: Vec<(String, serde_json::Value)> = Vec::new();
            let mut i: usize = 0;
            while i < members.len()
                invariant
                    i <= members.len(),
                    out.len() == i,
                    value@ == Json::Object(members_of(members@)),
                    forall|j: int|
                        0 <= j < i ==> is_writable((#[trigger] members_of(members@)[j]).1),
                    forall|j: int|
                        0 <= j < i ==> (#[trigger] out@[j]).0@ == members_of(members@)[j].0
                            && value_model(out@[j].1) == members_of(members@)[j].1,
                    forall|j: int| 0 <= j < members.len() ==> decreases_to!(value => members@[j].1),
                decreases members.len() - i,
            {
                assert(members_of(members@)[i as int] == (
                    members@[i as int].0@,
                    members@[i as int].1@,
                ));
                match to_serde(&members[i].1) {
                    Some(v) => {
                        out.push((members[i].0.clone(), v));
                    },
                    None => {
                        proof {
                            lemma_unwritable_member(members_of(members@), i as int);
                        }
                        return None;
                    },
                }
                i += 1;
            }
            assert(member_models(out@) =~= members_of(members@));
            Some(value_object(out))
        },
    }
}

impl JsonValue {
    /// The compact JSON text of this document; `None` where the document
    /// cannot be written.
    pub fn to_text(&self) -> (out: Option<String>)
        ensures
            match out {
                Some(text) => is_writable(self@) && text@ == json_text(self@),
                None => !is_writable(self@),
            },
    {
        match to_serde(self) {
            Some(v) => Some(write_json(&v)),
            None => None,
        }
    }
}

/// The compact JSON text of `doc` with the members of each object in the
/// order in which `doc` holds them. A string is written as `serde_json`
/// writes it, a key as a string; a number is written by its text.
pub open spec fn held_text(doc: Json) -> Seq<char>
    decreases doc, 1nat, 0nat,
{
    match doc {
        Json::Null => "null"@,
        Json::Bool(b) => if b {
            "true"@
        } else {
            "false"@
        },
        Json::Number(n) => number_text(n),
        Json::String(_) => json_text(doc),
        Json::Array(items) => "["@ + held_list(doc, items.len()) + "]"@,
        Json::Object(members) => "{"@ + held_list(doc, members.len()) + "}"@,
    }
}

/// The texts of the first `n` items of an array, or members of an object,
/// with commas between them.
pub open spec fn held_list(doc: Json, n: nat) -> Seq<char>
    decreases doc, 0nat, n,
{
    if n == 0 {
        Seq::empty()
    } else {
        let earlier = held_list(doc, (n - 1) as nat);
        let comma = if n == 1 {
            Seq::empty()
        } else {
            ","@
        };
        match doc {
            Json::Array(items) => if n <= items.len() {
                earlier + comma + held_text(items[n - 1])
            } else {
                earlier
            },
            Json::Object(members) => if n <= members.len() {
                earlier + comma + json_text(Json::String(members[n - 1].0)) + ":"@ + held_text(
                    members[n - 1].1,
                )
            } else {
                earlier
            },
            _ => earlier,
        }
    }
}

impl JsonValue {
    /// The compact JSON text of this document with the members of each
    /// object in the order in which it holds them.
    pub fn to_held_text(&self) -> (out: String)
        ensures
            out@ == held_text(self@),
        decreases self,
    {
        match self {
            JsonValue::Null => "null".to_owned(),
            JsonValue::Bool(b) => if *b {
                "true".to_owned()
            } else {
                "false".to_owned()
            },
            JsonValue::Number(n) => string_of(&n.to_text()),
            JsonValue::String(_) => match self.to_text() {
                Some(text) => text,
                None => vstd::pervasive::unreached(),
            },
            JsonValue::Array(items) => {
                proof {
                    lemma_array_view(*items);
                }
                let ghost doc = self@;
                let mut text = "[".to_owned();
                let mut i: usize = 0;
                while i < items.len()
                    invariant
                        i <= items.len(),
                        doc == Json::Array(items_of(items@)),
                        text@ == "["@ + held_list(doc, i as nat),
                        forall|j: int| 0 <= j < items.len() ==> decreases_to!(self => items@[j]),
                    decreases items.len() - i,
                {
                    let piece = items[i].to_held_text();
                    let ghost before = text@;
                    if i > 0 {
                        text = text.concat(",");
                    }
                    text = text.concat(piece.as_str());
                    proof {
                        assert(items_of(items@)[i as int] == items@[i as int]@);
                        let earlier = held_list(doc, i as nat);
                        let comma = if i == 0 {
                            Seq::<char>::empty()
                        } else {
                            ","@
                        };
                        assert(held_list(doc, (i + 1) as nat) == earlier + comma + piece@);
                        assert(text@ =~= "["@ + (earlier + comma + piece@));
                    }
                    i += 1;
                }
                text.concat("]")
            },
            JsonValue::Object(members) => {
                proof {
                    lemma_object_view(*members);
                }
                let ghost doc = self@;
                let mut text = "{".to_owned();
                let mut i: usize = 0;
                while i < members.len()
                    invariant
                        i <= members.len(),
                        doc == Json::Object(members_of(members@)),
                        text@ == "{"@ + held_list(doc, i as nat),
                        forall|j: int|
                            0 <= j < members.len() ==> decreases_to!(self => members@[j].1),
                    decreases members.len() - i,
                {
                    let key = match JsonValue::String(members[i].0.clone()).to_text() {
                        Some(key) => key,
                        None => vstd::pervasive::unreached(),
                    };
                    let piece = members[i].1.to_held_text();
                    if i > 0 {
                        text = text.concat(",");
                    }
                    text = text.concat(key.as_str()).concat(":").concat(piece.as_str());
                    proof {
                        assert(members_of(members@)[i as int] == (
                            members@[i as int].0@,
                            members@[i as int].1@,
                        ));
                        let earlier = held_list(doc, i as nat);
                        let comma = if i == 0 {
                            Seq::<char>::empty()
                        } else {
                            ","@
                        };
                        assert(held_list(doc, (i + 1) as nat) == earlier + comma + key@ + ":"@
                            + piece@);
                        assert(text@ =~= "{"@ + (earlier + comma + key@ + ":"@ + piece@));
                    }
                    i += 1;
                }
                text.concat("}")
            },
        }
    }
}

// ---------------------------------------------------------------------------
// Reading
// ---------------------------------------------------------------------------

/// `serde_json::Error`, carried through as an opaque value.
#[verifier::external_type_specification]
#[verifier::external_body]
pub struct ExError(serde_json::Error);

/// `serde_json::Number`, carried through as an opaque value.
#[verifier::external_type_specification]
#[verifier::external_body]
pub struct ExNumber(serde_json::Number);

/// The document that `serde_json::from_str` reads from a text; `None` where
/// it reads none.
pub uninterp spec fn parsed_json(text: Seq<char>) -> Option<Json>;

/// The number that a `serde_json::Number` holds: an integer, or another
/// number by the text that the number's `Display` writes.
pub uninterp spec fn number_model(n: serde_json::Number) -> Num;

/// A value taken apart one level deep.
pub enum Node<'a> {
    Null,
    Bool(bool),
    Number(&'a serde_json::Number),
    Text(&'a str),
    Array(&'a Vec<serde_json::Value>),
    Object(Vec<(&'a String, &'a serde_json::Value)>),
}

/// The models of borrowed keys and values.
pub open spec fn borrowed_models(members: Seq<(&String, &serde_json::Value)>) -> Seq<
    (Seq<char>, Json),
> {
    Seq::new(members.len(), |i: int| (members[i].0@, value_model(*members[i].1)))
}

/// The document that a node stands for.
pub open spec fn node_model(node: Node) -> Json {
    match node {
        Node::Null => Json::Null,
        Node::Bool(b) => Json::Bool(b),
        Node::Number(n) => Json::Number(number_model(*n)),
        Node::Text(text) => Json::String(text@),
        Node::Array(items) => Json::Array(value_models(items@)),
        Node::Object(members) => Json::Object(borrowed_models(members@)),
    }
}

/// Reads a JSON text.
///
/// Wraps `serde_json::from_str` at the type `serde_json::Value`. What it
/// reads is a function of the text alone; it is named, not stated.
#[verifier::external_body]
fn parse_json(text: &str) -> (out: Result<serde_json::Value, serde_json::Error>)
    ensures
        match out {
            Ok(v) => parsed_json(text@) == Some(value_model(v)),
            Err(_) => parsed_json(text@) is None,
        },
{
    serde_json::from_str::<serde_json::Value>(text)
}

/// Takes a value apart one level deep: its variant with what the variant
/// holds, the members of an object in the order in which its map hands them
/// out.
#[verifier::external_body]
fn node_of<'a>(value: &'a serde_json::Value) -> (node: Node<'a>)
    ensures
        node_model(node) == value_model(*value),
{
    match value {
        serde_json::Value::Null => Node::Null,
        serde_json::Value::Bool(b) => Node::Bool(*b),
        serde_json::Value::Number(n) => Node::Number(n),
        serde_json::Value::String(text) => Node::Text(text.as_str()),
        serde_json::Value::Array(items) => Node::Array(items),
        serde_json::Value::Object(map) => Node::Object(map.iter().collect()),
    }
}

/// `serde_json::Number::as_u64`: the number, where it is an integer from 0
/// to `u64::MAX`.
#[verifier::external_body]
fn number_as_u64(n: &serde_json::Number) -> (out: Option<u64>)
    ensures
        match out {
            Some(u) => number_model(*n) == Num::Integer(u as int),
            None => !(number_model(*n) matches Num::Integer(i) && i >= 0),
        },
{
    n.as_u64()
}

/// `serde_json::Number::as_i64`: the number, where it is an integer from
/// `i64::MIN` to `i64::MAX`. No integer below 0 is outside that range.
#[verifier::external_body]
fn number_as_i64(n: &serde_json::Number) -> (out: Option<i64>)
    ensures
        match out {
            Some(i) => number_model(*n) == Num::Integer(i as int),
            None => !(number_model(*n) matches Num::Integer(i) && i < 0),
        },
{
    n.as_i64()
}

/// The text that the `Display` of `serde_json::Number` writes.
#[verifier::external_body]
fn number_display(n: &serde_json::Number) -> (out: String)
    ensures
        out@ == number_text(number_model(*n)),
{
    n.to_string()
}

/// The number of the library that holds what `n` holds.
fn number_from_serde(n: &serde_json::Number) -> (out: JsonNumber)
    ensures
        out@ == number_model(*n),
{
    match number_as_u64(n) {
        Some(u) => JsonNumber::Unsigned(u),
        None => match number_as_i64(n) {
            Some(i) => JsonNumber::Signed(i),
            None => JsonNumber::Real(number_display(n)),
        },
    }
}

/// The document of the library that holds what `value` holds.
fn from_serde(value: &serde_json::Value) -> (out: JsonValue)
    ensures
        out@ == value_model(*value),
    decreases value_model(*value),
{
    match node_of(value) {
        Node::Null => JsonValue::Null,
        Node::Bool(b) => JsonValue::Bool(b),
        Node::Number(n) => JsonValue::Number(number_from_serde(n)),
        Node::Text(text) => JsonValue::String(text.to_owned()),
        Node::Array(items) => {
            let ghost models = value_models(items@);
            let mut out: Vec<JsonValue> = Vec::new();
            let mut i: usize = 0;
            while i < items.len()
                invariant
                    i <= items.len(),
                    out.len() == i,
                    models == value_models(items@),
                    value_model(*value) == Json::Array(models),
                    forall|j: int| 0 <= j < i ==> (#[trigger] out@[j])@ == models[j],
                decreases items.len() - i,
            {
                assert(models[i as int] == value_model(items@[i as int]));
                proof {
                    let whole = value_model(*value);
                    assert(whole->Array_0 == models);
                    assert(decreases_to!(whole => whole->Array_0));
                    assert(decreases_to!(whole->Array_0 => whole->Array_0[i as int]));
                    assert(decreases_to!(whole => value_model(items@[i as int])));
                }
                out.push(from_serde(&items[i]));
                i += 1;
            }
            proof {
                lemma_array_view(out);
                assert(items_of(out@) =~= models);
            }
            JsonValue::Array(out)
        },
        Node::Object(members) => {
            let ghost models = borrowed_models(members@);
            let mut out: Vec<(String, JsonValue)> = Vec::new();
            let mut i: usize = 0;
            while i < members.len()
                invariant
                    i <= members.len(),
                    out.len() == i,
                    models == borrowed_models(members@),
                    value_model(*value) == Json::Object(models),
                    forall|j: int|
                        0 <= j < i ==> (#[trigger] out@[j]).0@ == models[j].0 && out@[j].1@
                            == models[j].1,
                decreases members.len() - i,
            {
                assert(models[i as int] == (
                    members@[i as int].0@,
                    value_model(*members@[i as int].1),
                ));
                proof {
                    let whole = value_model(*value);
                    assert(whole->Object_0 == models);
                    assert(decreases_to!(whole => whole->Object_0));
                    assert(decreases_to!(whole->Object_0 => whole->Object_0[i as int]));
                    assert(decreases_to!(whole->Object_0[i as int] => whole->Object_0[i as int].1));
                    assert(decreases_to!(whole => value_model(*members@[i as int].1)));
                }
                let key: String = members[i].0.clone();
                let held = from_serde(members[i].1);
                out.push((key, held));
                i += 1;
            }
            proof {
                lemma_object_view(out);
                assert(members_of(out@) =~= models);
            }
            JsonValue::Object(out)
        },
    }
}

impl JsonValue {
    /// Reads a document from a JSON text; `None` where the text is no JSON
    /// text.
    pub fn from_text(text: &str) -> (out: Option<JsonValue>)
        ensures
            match out {
                Some(value) => parsed_json(text@) == Some(value@),
                None => parsed_json(text@) is None,
            },
    {
        match parse_json(text) {
            Ok(v) => Some(from_serde(&v)),
            Err(_) => None,
        }
    }
}

} // verus!
