//! The field-set validator: which keys an object must and may have.

use vstd::prelude::*;
use crate::error::{names, CanonError, Failure};
use crate::json::{key_names, members_of, Json, JsonValue};
use crate::order::{sort_texts, sorted, texts};
use crate::text::{chars_of, same_text, string_of};

verus! {

/// The texts of a list of words.
pub open spec fn words(list: Seq<&'static str>) -> Seq<Seq<char>> {
    Seq::new(list.len(), |i: int| list[i]@)
}

/// The keys of an object match its schema: no key occurs twice, every
/// required key occurs, and every key that occurs is allowed.
pub open spec fn keys_match(
    keys: Seq<Seq<char>>,
    required: Seq<Seq<char>>,
    allowed: Seq<Seq<char>>,
) -> bool {
    &&& keys.no_duplicates()
    &&& forall|i: int| 0 <= i < required.len() ==> keys.contains(#[trigger] required[i])
    &&& forall|i: int| 0 <= i < keys.len() ==> allowed.contains(#[trigger] keys[i])
}

/// The rejection of an object whose keys do not match its schema: it names
/// the object, the allowed keys and, in ascending order, the keys found. `None` where
/// the keys match.
pub open spec fn schema_violation(
    object: Seq<char>,
    members: Seq<(Seq<char>, Json)>,
    required: Seq<Seq<char>>,
    allowed: Seq<Seq<char>>,
) -> Option<Failure> {
    if keys_match(key_names(members), required, allowed) {
        None
    } else {
        Some(
            Failure::SchemaViolation {
                object,
                expected: allowed,
                actual: sorted(key_names(members)),
            },
        )
    }
}

/// Whether `wanted` is among `list`.
pub fn holds_text(list: &Vec<Vec<char>>, wanted: &Vec<char>) -> (found: bool)
    ensures
        found == texts(list@).contains(wanted@),
{
    let mut i: usize = 0;
    while i < list.len()
        invariant
            i <= list.len(),
            forall|j: int| 0 <= j < i ==> texts(list@)[j] != wanted@,
        decreases list.len() - i,
    {
        if same_text(&list[i], wanted) {
            assert(texts(list@)[i as int] == wanted@);
            return true;
        }
        i += 1;
    }
    false
}

/// Whether every text of `list` is among `within`.
pub fn all_held(list: &Vec<Vec<char>>, within: &Vec<Vec<char>>) -> (ok: bool)
    ensures
        ok == (forall|i: int|
            0 <= i < texts(list@).len() ==> texts(within@).contains(#[trigger] texts(list@)[i])),
{
    let mut i: usize = 0;
    while i < list.len()
        invariant
            i <= list.len(),
            forall|j: int| 0 <= j < i ==> texts(within@).contains(#[trigger] texts(list@)[j]),
        decreases list.len() - i,
    {
        if !holds_text(within, &list[i]) {
            assert(!texts(within@).contains(texts(list@)[i as int]));
            return false;
        }
        i += 1;
    }
    true
}

/// Whether no text occurs twice in `list`.
pub fn all_distinct(list: &Vec<Vec<char>>) -> (ok: bool)
    ensures
        ok == texts(list@).no_duplicates(),
{
    let mut i: usize = 0;
    while i < list.len()
        invariant
            i <= list.len(),
            forall|a: int, b: int|
                0 <= a < b < list.len() && a < i ==> texts(list@)[a] != texts(list@)[b],
        decreases list.len() - i,
    {
        let mut j: usize = i + 1;
        while j < list.len()
            invariant
                i < j <= list.len(),
                forall|b: int| i < b < j ==> texts(list@)[i as int] != texts(list@)[b],
            decreases list.len() - j,
        {
            if same_text(&list[i], &list[j]) {
                assert(texts(list@)[i as int] == texts(list@)[j as int]);
                return false;
            }
            j += 1;
        }
        i += 1;
    }
    assert forall|a: int, b: int|
        0 <= a < texts(list@).len() && 0 <= b < texts(list@).len() && a != b implies texts(
        list@,
    )[a] != texts(list@)[b] by {
        if a < b {
            assert(texts(list@)[a] != texts(list@)[b]);
        } else {
            assert(texts(list@)[b] != texts(list@)[a]);
        }
    }
    true
}

/// The characters of each word of `list`.
pub fn word_texts(list: &Vec<&'static str>) -> (out: Vec<Vec<char>>)
    ensures
        texts(out@) == words(list@),
{
    let mut out: Vec<Vec<char>> = Vec::new();
    let mut i: usize = 0;
    while i < list.len()
        invariant
            i <= list.len(),
            texts(out@) == words(list@).subrange(0, i as int),
        decreases list.len() - i,
    {
        let ghost before = texts(out@);
        out.push(chars_of(list[i]));
        assert(texts(out@) =~= before.push(list@[i as int]@));
        i += 1;
    }
    assert(words(list@).subrange(0, list.len() as int) =~= words(list@));
    out
}

/// The characters of each key of `members`.
pub fn key_texts(members: &Vec<(String, JsonValue)>) -> (out: Vec<Vec<char>>)
    ensures
        texts(out@) == key_names(members_of(members@)),
{
    let mut out: Vec<Vec<char>> = Vec::new();
    let mut i: usize = 0;
    while i < members.len()
        invariant
            i <= members.len(),
            texts(out@) == key_names(members_of(members@)).subrange(0, i as int),
        decreases members.len() - i,
    {
        let ghost before = texts(out@);
        out.push(chars_of(members[i].0.as_str()));
        assert(texts(out@) =~= before.push(members@[i as int].0@));
        i += 1;
    }
    assert(key_names(members_of(members@)).subrange(0, members.len() as int) =~= key_names(
        members_of(members@),
    ));
    out
}

/// A string for each text of `list`.
pub fn strings_of(list: &Vec<Vec<char>>) -> (out: Vec<String>)
    ensures
        names(out@) == texts(list@),
{
    let mut out: Vec<String> = Vec::new();
    let mut i: usize = 0;
    while i < list.len()
        invariant
            i <= list.len(),
            names(out@) == texts(list@).subrange(0, i as int),
        decreases list.len() - i,
    {
        let ghost before = names(out@);
        out.push(string_of(&list[i]));
        assert(names(out@) =~= before.push(list@[i as int]@));
        i += 1;
    }
    assert(texts(list@).subrange(0, list.len() as int) =~= texts(list@));
    out
}

/// Checks the keys of an object against its schema.
///
/// With `required` equal to `allowed` the keys must be exactly those listed.
pub fn check_fields(
    object: &'static str,
    members: &Vec<(String, JsonValue)>,
    required: &Vec<&'static str>,
    allowed: &Vec<&'static str>,
) -> (out: Result<(), CanonError>)
    ensures
        match out {
            Ok(_) => schema_violation(
                object@,
                members_of(members@),
                words(required@),
                words(allowed@),
            )
                is None,
            Err(e) => schema_violation(
                object@,
                members_of(members@),
                words(required@),
                words(allowed@),
            )
                == Some(e@),
        },
{
    let keys = key_texts(members);
    let need = word_texts(required);
    let may = word_texts(allowed);
    if all_distinct(&keys) && all_held(&need, &keys) && all_held(&keys, &may) {
        Ok(())
    } else {
        let actual = sort_texts(keys);
        Err(
            CanonError::SchemaViolation {
                object: object.to_owned(),
                expected: strings_of(&may),
                actual: strings_of(&actual),
            },
        )
    }
}

} // verus!
