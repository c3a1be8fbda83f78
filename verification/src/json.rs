//! The untyped document that is canonicalized, and its mathematical model.

use vstd::prelude::*;
use crate::decimal::{int_text, signed_text, unsigned_text};
use crate::text::chars_of;

verus! {

/// A JSON number, as a mathematical value.
pub enum Num {
    /// An integer.
    Integer(int),
    /// Any other number, by its literal text.
    Real(Seq<char>),
}

/// A JSON document, as a mathematical value. An object is the sequence of
/// its members, in the order in which they are held.
pub enum Json {
    Null,
    Bool(bool),
    Number(Num),
    String(Seq<char>),
    Array(Seq<Json>),
    Object(Seq<(Seq<char>, Json)>),
}

/// A JSON number.
#[derive(Debug, PartialEq, Eq)]
pub enum JsonNumber {
    /// A non-negative integer.
    Unsigned(u64),
    /// An integer of either sign.
    Signed(i64),
    /// Any other number, held as its literal text.
    Real(String),
}

/// A JSON document.
#[derive(Debug, PartialEq, Eq)]
pub enum JsonValue {
    Null,
    Bool(bool),
    Number(JsonNumber),
    String(String),
    Array(Vec<JsonValue>),
    Object(Vec<(String, JsonValue)>),
}

impl View for JsonNumber {
    type V = Num;

    open spec fn view(&self) -> Num {
        match self {
            JsonNumber::Unsigned(n) => Num::Integer(*n as int),
            JsonNumber::Signed(n) => Num::Integer(*n as int),
            JsonNumber::Real(text) => Num::Real(text@),
        }
    }
}

/// The document that a value holds.
pub open spec fn document_of(value: JsonValue) -> Json
    decreases value,
{
    match value {
        JsonValue::Null => Json::Null,
        JsonValue::Bool(b) => Json::Bool(b),
        JsonValue::Number(n) => Json::Number(n@),
        JsonValue::String(s) => Json::String(s@),
        JsonValue::Array(items) => Json::Array(
            Seq::new(
                items.len() as nat,
                |i: int|
                    if 0 <= i < items.len() {
                        document_of(items[i])
                    } else {
                        Json::Null
                    },
            ),
        ),
        JsonValue::Object(members) => Json::Object(
            Seq::new(
                members.len() as nat,
                |i: int|
                    if 0 <= i < members.len() {
                        (members[i].0@, document_of(members[i].1))
                    } else {
                        (Seq::<char>::empty(), Json::Null)
                    },
            ),
        ),
    }
}

impl View for JsonValue {
    type V = Json;

    open spec fn view(&self) -> Json {
        document_of(*self)
    }
}

/// The members held by a vector of keys and values.
pub open spec fn members_of(v: Seq<(String, JsonValue)>) -> Seq<(Seq<char>, Json)> {
    Seq::new(v.len(), |i: int| (v[i].0@, v[i].1@))
}

/// The documents held by a vector of values.
pub open spec fn items_of(v: Seq<JsonValue>) -> Seq<Json> {
    Seq::new(v.len(), |i: int| v[i]@)
}

/// The view of an object is the view of its members.
pub broadcast proof fn lemma_object_view(members: Vec<(String, JsonValue)>)
    ensures
        #[trigger] JsonValue::Object(members)@ == Json::Object(members_of(members@)),
{
    assert(JsonValue::Object(members)@ is Object);
    let held = JsonValue::Object(members)@->Object_0;
    assert(held.len() == members.len());
    assert(held.len() == members@.len());
    assert forall|i: int| 0 <= i < held.len() implies held[i] == members_of(members@)[i] by {
        assert(held[i] == (members[i].0@, members[i].1@));
    }
    assert(held =~= members_of(members@));
}

/// The view of an array is the view of its items.
pub broadcast proof fn lemma_array_view(items: Vec<JsonValue>)
    ensures
        #[trigger] JsonValue::Array(items)@ == Json::Array(items_of(items@)),
{
    let held = JsonValue::Array(items)@->Array_0;
    assert(held.len() == items.len());
    assert(document_of(JsonValue::Array(items))->Array_0 =~= items_of(items@));
}

/// The text that writes a number.
pub open spec fn number_text(n: Num) -> Seq<char> {
    match n {
        Num::Integer(i) => int_text(i),
        Num::Real(text) => text,
    }
}

/// The value of the first member of `members` whose key is `key`.
pub open spec fn lookup(members: Seq<(Seq<char>, Json)>, key: Seq<char>) -> Option<Json>
    decreases members.len(),
{
    if members.len() == 0 {
        None
    } else if members.first().0 == key {
        Some(members.first().1)
    } else {
        lookup(members.drop_first(), key)
    }
}

/// The keys of `members`, in the order in which they are held.
pub open spec fn key_names(members: Seq<(Seq<char>, Json)>) -> Seq<Seq<char>> {
    Seq::new(members.len(), |i: int| members[i].0)
}

/// What `lookup` finds: nothing where no member has the key, else the value
/// of the first member that has it.
pub proof fn lemma_lookup(members: Seq<(Seq<char>, Json)>, key: Seq<char>)
    ensures
        lookup(members, key) is None <==> !key_names(members).contains(key),
        lookup(members, key) is Some ==> exists|i: int|
            0 <= i < members.len() && #[trigger] members[i].0 == key && lookup(members, key)
                == Some(members[i].1) && forall|j: int| 0 <= j < i ==> members[j].0 != key,
    decreases members.len(),
{
    let keys = key_names(members);
    if members.len() == 0 {
    } else if members.first().0 == key {
        assert(keys[0] == key);
        assert(members[0].0 == key && lookup(members, key) == Some(members[0].1));
    } else {
        let rest = members.drop_first();
        lemma_lookup(rest, key);
        let rest_keys = key_names(rest);
        if lookup(rest, key) is Some {
            let i = choose|i: int|
                0 <= i < rest.len() && #[trigger] rest[i].0 == key && lookup(rest, key) == Some(
                    rest[i].1,
                ) && forall|j: int| 0 <= j < i ==> rest[j].0 != key;
            assert(rest_keys.contains(key));
            assert(members[i + 1].0 == key);
            assert(keys[i + 1] == key);
            assert forall|j: int| 0 <= j < i + 1 implies members[j].0 != key by {
                if j > 0 {
                    assert(members[j] == rest[j - 1]);
                }
            }
        } else {
            if keys.contains(key) {
                let i = choose|i: int| 0 <= i < keys.len() && keys[i] == key;
                assert(i > 0);
                assert(rest_keys[i - 1] == key);
            }
        }
    }
}

impl Json {
    /// The text of a string.
    pub open spec fn as_text(self) -> Option<Seq<char>> {
        match self {
            Json::String(s) => Some(s),
            _ => None,
        }
    }

    /// The members of an object.
    pub open spec fn as_members(self) -> Option<Seq<(Seq<char>, Json)>> {
        match self {
            Json::Object(members) => Some(members),
            _ => None,
        }
    }

    /// The items of an array.
    pub open spec fn as_items(self) -> Option<Seq<Json>> {
        match self {
            Json::Array(items) => Some(items),
            _ => None,
        }
    }

    /// The value of an integer between 0 and `u64::MAX`.
    pub open spec fn as_unsigned(self) -> Option<u64> {
        match self {
            Json::Number(Num::Integer(i)) => if 0 <= i <= u64::MAX {
                Some(i as u64)
            } else {
                None
            },
            _ => None,
        }
    }

    /// The value of the first member with the given key, for an object.
    pub open spec fn member(self, key: Seq<char>) -> Option<Json> {
        match self {
            Json::Object(members) => lookup(members, key),
            _ => None,
        }
    }
}

impl JsonNumber {
    /// The text that writes this number.
    pub fn to_text(&self) -> (out: Vec<char>)
        ensures
            out@ == number_text(self@),
    {
        match self {
            JsonNumber::Unsigned(n) => unsigned_text(*n),
            JsonNumber::Signed(n) => signed_text(*n),
            JsonNumber::Real(text) => chars_of(text.as_str()),
        }
    }
}

/// The value of the first member of `members` whose key is `key`.
pub fn find<'a>(members: &'a Vec<(String, JsonValue)>, key: &str) -> (found: Option<&'a JsonValue>)
    ensures
        match found {
            Some(value) => lookup(members_of(members@), key@) == Some(value@),
            None => lookup(members_of(members@), key@) is None,
        },
{
    let wanted = chars_of(key);
    let mut i: usize = 0;
    assert(members_of(members@).skip(0) =~= members_of(members@));
    while i < members.len()
        invariant
            i <= members.len(),
            wanted@ == key@,
            lookup(members_of(members@), key@) == lookup(members_of(members@).skip(i as int), key@),
        decreases members.len() - i,
    {
        let name = chars_of(members[i].0.as_str());
        proof {
            let rest = members_of(members@).skip(i as int);
            assert(rest.first() == (members@[i as int].0@, members@[i as int].1@));
            assert(rest.drop_first() =~= members_of(members@).skip(i + 1));
        }
        if crate::text::same_text(&name, &wanted) {
            return Some(&members[i].1);
        }
        i += 1;
    }
    None
}

impl JsonValue {
    /// The text of a string.
    pub fn as_str(&self) -> (out: Option<&str>)
        ensures
            match out {
                Some(s) => self@.as_text() == Some(s@),
                None => self@.as_text() is None,
            },
    {
        match self {
            JsonValue::String(s) => Some(s.as_str()),
            _ => None,
        }
    }

    /// The members of an object.
    pub fn as_object(&self) -> (out: Option<&Vec<(String, JsonValue)>>)
        ensures
            match out {
                Some(members) => self@.as_members() == Some(members_of(members@)),
                None => self@.as_members() is None,
            },
    {
        match self {
            JsonValue::Object(members) => {
                proof {
                    lemma_object_view(*members);
                }
                Some(members)
            },
            _ => None,
        }
    }

    /// The items of an array.
    pub fn as_array(&self) -> (out: Option<&Vec<JsonValue>>)
        ensures
            match out {
                Some(items) => self@.as_items() == Some(items_of(items@)),
                None => self@.as_items() is None,
            },
    {
        match self {
            JsonValue::Array(items) => {
                proof {
                    lemma_array_view(*items);
                }
                Some(items)
            },
            _ => None,
        }
    }

    /// The value of an integer between 0 and `u64::MAX`.
    pub fn as_u64(&self) -> (out: Option<u64>)
        ensures
            out == self@.as_unsigned(),
    {
        match self {
            JsonValue::Number(JsonNumber::Unsigned(n)) => Some(*n),
            JsonValue::Number(JsonNumber::Signed(n)) => if *n >= 0 {
                Some(*n as u64)
            } else {
                None
            },
            _ => None,
        }
    }

    /// The value of the first member with the given key, for an object.
    pub fn get(&self, key: &str) -> (out: Option<&JsonValue>)
        ensures
            match out {
                Some(value) => self@.member(key@) == Some(value@),
                None => self@.member(key@) is None,
            },
    {
        match self {
            JsonValue::Object(members) => {
                proof {
                    lemma_object_view(*members);
                }
                find(members, key)
            },
            _ => None,
        }
    }
}

} // verus!
