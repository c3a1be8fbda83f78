//! The canonical form of a derivatives intent.
//!
//! Every rule is stated as a function on the document model ([`Json`]); the
//! executable functions are proved to compute those functions. A rule reads
//! its input in a fixed order and stops at the first rejection.

use vstd::prelude::*;
use crate::decimal::{
    is_plain_decimal, lemma_point_index_is, nat_text, normalize_decimal, normalized_decimal,
    unsigned_text,
};
use crate::error::{CanonError, Failure};
use crate::fields::{check_fields, holds_text, schema_violation, word_texts, words};
use crate::json::{
    find, items_of, lemma_array_view, lemma_object_view, lookup, members_of, number_text, Json,
    JsonNumber, JsonValue, Num,
};
use crate::order::{drop_repeats, sort_texts, sorted, texts, without_repeats};
use crate::text::{
    chars_of, has_char, lowercase, string_of, to_lowercase, to_uppercase, trim, trimmed, uppercase,
};
use crate::timestamp::{normalize_timestamp_text, normalized_timestamp};

verus! {

/// The rules that bring an intent into its canonical form.
pub struct Canonicalizer;

/// What an executable rule returned, as a mathematical value.
pub open spec fn text_outcome(out: Result<String, CanonError>) -> Result<Seq<char>, Failure> {
    match out {
        Ok(text) => Ok(text@),
        Err(e) => Err(e@),
    }
}

/// What an executable rule returned, as a mathematical value.
pub open spec fn json_outcome(out: Result<JsonValue, CanonError>) -> Result<Json, Failure> {
    match out {
        Ok(value) => Ok(value@),
        Err(e) => Err(e@),
    }
}

// ---------------------------------------------------------------------------
// Reading members
// ---------------------------------------------------------------------------

/// The text of the member `key`, where it is there and is a string.
pub open spec fn text_member(members: Seq<(Seq<char>, Json)>, key: Seq<char>) -> Option<
    Seq<char>,
> {
    match lookup(members, key) {
        Some(Json::String(text)) => Some(text),
        _ => None,
    }
}

/// The members of the member `key`, where it is there and is an object.
pub open spec fn object_member(members: Seq<(Seq<char>, Json)>, key: Seq<char>) -> Option<
    Seq<(Seq<char>, Json)>,
> {
    match lookup(members, key) {
        Some(Json::Object(inner)) => Some(inner),
        _ => None,
    }
}

/// The text of the member `key`, or the rejection for its absence.
fn read_text<'a>(members: &'a Vec<(String, JsonValue)>, key: &'static str) -> (out: Result<
    &'a str,
    CanonError,
>)
    ensures
        match out {
            Ok(text) => text_member(members_of(members@), key@) == Some(text@),
            Err(e) => text_member(members_of(members@), key@) is None && e@
                == (Failure::MissingField { field: key@ }),
        },
{
    match find(members, key) {
        Some(JsonValue::String(text)) => Ok(text.as_str()),
        _ => Err(CanonError::MissingField { field: key.to_owned() }),
    }
}

/// The members of the member `key`, or the rejection for its absence.
fn read_object<'a>(members: &'a Vec<(String, JsonValue)>, key: &'static str) -> (out: Result<
    &'a Vec<(String, JsonValue)>,
    CanonError,
>)
    ensures
        match out {
            Ok(inner) => object_member(members_of(members@), key@) == Some(members_of(inner@)),
            Err(e) => object_member(members_of(members@), key@) is None && e@
                == (Failure::MissingField { field: key@ }),
        },
{
    match find(members, key) {
        Some(JsonValue::Object(inner)) => {
            proof {
                lemma_object_view(*inner);
            }
            Ok(inner)
        },
        _ => Err(CanonError::MissingField { field: key.to_owned() }),
    }
}

// ---------------------------------------------------------------------------
// Words from a fixed set
// ---------------------------------------------------------------------------

/// The instruments.
pub open spec fn instruments() -> Seq<Seq<char>> {
    seq!["perp"@, "option"@]
}

/// The sides of a trade.
pub open spec fn sides() -> Seq<Seq<char>> {
    seq!["long"@, "short"@, "buy"@, "sell"@]
}

/// The chains on which collateral may lie.
pub open spec fn chains() -> Seq<Seq<char>> {
    seq!["near"@, "ethereum"@, "arbitrum"@, "base"@, "solana"@]
}

/// The kinds of option.
pub open spec fn option_kinds() -> Seq<Seq<char>> {
    seq!["call"@, "put"@]
}

/// A word in its canonical writing: trimmed and in lower case.
pub open spec fn canonical_word(raw: Seq<char>) -> Seq<char> {
    lowercase(trimmed(raw))
}

/// The member `key` as a word of the set `permitted`: its canonical writing,
/// which must be in the set.
pub open spec fn permitted_word(
    members: Seq<(Seq<char>, Json)>,
    key: Seq<char>,
    permitted: Seq<Seq<char>>,
) -> Result<Seq<char>, Failure> {
    match text_member(members, key) {
        None => Err(Failure::MissingField { field: key }),
        Some(raw) => if permitted.contains(canonical_word(raw)) {
            Ok(canonical_word(raw))
        } else {
            Err(Failure::InvalidEnum { field: key, value: canonical_word(raw) })
        },
    }
}

/// Reads the member `key` as a word of the set `permitted`.
fn read_word(
    members: &Vec<(String, JsonValue)>,
    key: &'static str,
    permitted: &Vec<&'static str>,
) -> (out: Result<String, CanonError>)
    ensures
        text_outcome(out) == permitted_word(members_of(members@), key@, words(permitted@)),
{
    let raw = match read_text(members, key) {
        Ok(raw) => raw,
        Err(e) => {
            return Err(e);
        },
    };
    let word = to_lowercase(&trim(&chars_of(raw)));
    let set = word_texts(permitted);
    if holds_text(&set, &word) {
        Ok(string_of(&word))
    } else {
        Err(CanonError::InvalidEnum { field: key.to_owned(), value: string_of(&word) })
    }
}

// ---------------------------------------------------------------------------
// Signer, nonce, symbol
// ---------------------------------------------------------------------------

/// The signer normalizer: trimmed and in lower case, between 1 and 64
/// characters long.
pub open spec fn normalized_signer_id(raw: Seq<char>) -> Result<Seq<char>, Failure> {
    let id = lowercase(trimmed(raw));
    if id.len() == 0 || id.len() > 64 {
        Err(Failure::OutOfRange { literal: raw })
    } else {
        Ok(id)
    }
}

/// The nonce normalizer: a string trimmed, a number by its text.
pub open spec fn normalized_nonce(nonce: Json) -> Result<Seq<char>, Failure> {
    match nonce {
        Json::String(text) => Ok(trimmed(text)),
        Json::Number(n) => Ok(number_text(n)),
        _ => Err(Failure::InvalidNonce),
    }
}

/// The symbol normalizer: trimmed and in upper case, with at least one `-`.
pub open spec fn normalized_symbol(raw: Seq<char>) -> Result<Seq<char>, Failure> {
    let symbol = uppercase(trimmed(raw));
    if symbol.contains('-') {
        Ok(symbol)
    } else {
        Err(Failure::InvalidEnum { field: "symbol"@, value: symbol })
    }
}

/// Normalizes a trading symbol.
pub fn normalize_symbol(raw: &str) -> (out: Result<String, CanonError>)
    ensures
        text_outcome(out) == normalized_symbol(raw@),
{
    let symbol = to_uppercase(&trim(&chars_of(raw)));
    if has_char(&symbol, '-') {
        Ok(string_of(&symbol))
    } else {
        Err(CanonError::InvalidEnum { field: "symbol".to_owned(), value: string_of(&symbol) })
    }
}

// ---------------------------------------------------------------------------
// Decimals
// ---------------------------------------------------------------------------

/// The literal that a decimal field holds: a string trimmed, a number by its
/// text.
pub open spec fn decimal_literal(value: Json) -> Option<Seq<char>> {
    match value {
        Json::String(text) => Some(trimmed(text)),
        Json::Number(n) => Some(number_text(n)),
        _ => None,
    }
}

/// The decimal normalizer on a value: the canonical decimal as a string.
pub open spec fn canonical_decimal_value(
    value: Json,
    min: Seq<char>,
    max: Seq<char>,
    precision: nat,
) -> Result<Json, Failure> {
    match decimal_literal(value) {
        None => Err(Failure::MalformedDecimal { literal: Seq::empty() }),
        Some(literal) => match normalized_decimal(literal, min, max, precision) {
            Ok(canonical) => Ok(Json::String(canonical)),
            Err(f) => Err(f),
        },
    }
}

/// The member `key` as a decimal; the rejection for its absence where it is
/// not there.
pub open spec fn decimal_member(
    members: Seq<(Seq<char>, Json)>,
    key: Seq<char>,
    min: Seq<char>,
    max: Seq<char>,
    precision: nat,
) -> Result<Json, Failure> {
    match lookup(members, key) {
        None => Err(Failure::MissingField { field: key }),
        Some(value) => canonical_decimal_value(value, min, max, precision),
    }
}

/// A text with digits before index `p`, and either nothing more or a point
/// at `p` and digits after it, is a plain decimal literal.
pub proof fn lemma_plain_decimal(s: Seq<char>, p: int)
    requires
        0 <= p <= s.len(),
        s.len() > 0,
        p == 0 ==> s.len() > 1,
        forall|i: int| 0 <= i < s.len() && i != p ==> '0' <= #[trigger] s[i] <= '9',
        p < s.len() ==> s[p] == '.',
    ensures
        is_plain_decimal(s),
{
    lemma_point_index_is(s, p);
}

impl Canonicalizer {
    /// Normalizes a timestamp to second precision.
    pub fn normalize_timestamp(ts: &str) -> (out: Result<String, CanonError>)
        ensures
            text_outcome(out) == normalized_timestamp(ts@),
    {
        normalize_timestamp_text(ts)
    }

    /// Normalizes the identifier of the signer.
    pub fn normalize_signer_id(signer_id: &str) -> (out: Result<String, CanonError>)
        ensures
            text_outcome(out) == normalized_signer_id(signer_id@),
    {
        let id = to_lowercase(&trim(&chars_of(signer_id)));
        if id.len() == 0 || id.len() > 64 {
            Err(CanonError::OutOfRange { literal: signer_id.to_owned() })
        } else {
            Ok(string_of(&id))
        }
    }

    /// Normalizes a nonce to a string.
    pub fn normalize_nonce(nonce: &JsonValue) -> (out: Result<String, CanonError>)
        ensures
            text_outcome(out) == normalized_nonce(nonce@),
    {
        match nonce {
            JsonValue::String(text) => Ok(string_of(&trim(&chars_of(text.as_str())))),
            JsonValue::Number(n) => Ok(string_of(&n.to_text())),
            _ => Err(CanonError::InvalidNonce),
        }
    }

    /// Brings a decimal into its canonical writing, after checking it against
    /// the inclusive bounds `min` and `max` and the number `precision` of
    /// fractional digits allowed.
    pub fn canonicalize_decimal(value: &JsonValue, min: &str, max: &str, precision: usize) -> (out:
        Result<JsonValue, CanonError>)
        requires
            is_plain_decimal(min@),
            is_plain_decimal(max@),
        ensures
            json_outcome(out) == canonical_decimal_value(value@, min@, max@, precision as nat),
    {
        let literal = match value {
            JsonValue::String(text) => trim(&chars_of(text.as_str())),
            JsonValue::Number(n) => n.to_text(),
            _ => {
                return Err(CanonError::MalformedDecimal { literal: String::new() });
            },
        };
        match normalize_decimal(&literal, &chars_of(min), &chars_of(max), precision) {
            Ok(canonical) => Ok(JsonValue::String(string_of(&canonical))),
            Err(e) => Err(e),
        }
    }
}

// ---------------------------------------------------------------------------
// Collateral
// ---------------------------------------------------------------------------

/// The keys of a collateral object.
pub open spec fn collateral_keys() -> Seq<Seq<char>> {
    seq!["chain"@, "token"@]
}

/// The canonical collateral: the chain as a word of [`chains`], the token
/// trimmed with its case kept.
pub open spec fn canonical_collateral(members: Seq<(Seq<char>, Json)>) -> Result<Json, Failure> {
    match schema_violation("collateral"@, members, collateral_keys(), collateral_keys()) {
        Some(f) => Err(f),
        None => match permitted_word(members, "chain"@, chains()) {
            Err(f) => Err(f),
            Ok(chain) => match text_member(members, "token"@) {
                None => Err(Failure::MissingField { field: "token"@ }),
                Some(token) => Ok(
                    Json::Object(
                        seq![
                            ("chain"@, Json::String(chain)),
                            ("token"@, Json::String(trimmed(token))),
                        ],
                    ),
                ),
            },
        },
    }
}

impl Canonicalizer {
    /// Brings a collateral object into its canonical form.
    pub fn canonicalize_collateral(collateral: &Vec<(String, JsonValue)>) -> (out: Result<
        JsonValue,
        CanonError,
    >)
        ensures
            json_outcome(out) == canonical_collateral(members_of(collateral@)),
    {
        let keys: Vec<&'static str> = vec!["chain", "token"];
        assert(words(keys@) =~= collateral_keys());
        match check_fields("collateral", collateral, &keys, &keys) {
            Err(e) => {
                return Err(e);
            },
            Ok(_) => {},
        }
        let permitted: Vec<&'static str> = vec!["near", "ethereum", "arbitrum", "base", "solana"];
        assert(words(permitted@) =~= chains());
        let chain = match read_word(collateral, "chain", &permitted) {
            Ok(chain) => chain,
            Err(e) => {
                return Err(e);
            },
        };
        let token = match read_text(collateral, "token") {
            Ok(token) => string_of(&trim(&chars_of(token))),
            Err(e) => {
                return Err(e);
            },
        };
        let mut members: Vec<(String, JsonValue)> = Vec::new();
        members.push(("chain".to_owned(), JsonValue::String(chain)));
        members.push(("token".to_owned(), JsonValue::String(token)));
        proof {
            lemma_object_view(members);
            assert(members_of(members@) =~= seq![
                ("chain"@, Json::String(chain@)),
                ("token"@, Json::String(token@)),
            ]);
        }
        Ok(JsonValue::Object(members))
    }
}

// ---------------------------------------------------------------------------
// Option parameters
// ---------------------------------------------------------------------------

/// The keys of an option object.
pub open spec fn option_keys() -> Seq<Seq<char>> {
    seq!["expiry"@, "kind"@, "strike"@]
}

/// The member `key` as a timestamp.
pub open spec fn timestamp_member(members: Seq<(Seq<char>, Json)>, key: Seq<char>) -> Result<
    Seq<char>,
    Failure,
> {
    match text_member(members, key) {
        None => Err(Failure::MissingField { field: key }),
        Some(raw) => normalized_timestamp(raw),
    }
}

/// The canonical option parameters: the expiry as a timestamp, the kind as a
/// word of [`option_kinds`], the strike as a decimal between 0.01 and
/// 1000000000 with at most 2 fractional digits.
pub open spec fn canonical_option(members: Seq<(Seq<char>, Json)>) -> Result<Json, Failure> {
    match schema_violation("option"@, members, option_keys(), option_keys()) {
        Some(f) => Err(f),
        None => match timestamp_member(members, "expiry"@) {
            Err(f) => Err(f),
            Ok(expiry) => match permitted_word(members, "kind"@, option_kinds()) {
                Err(f) => Err(f),
                Ok(kind) => match decimal_member(
                    members,
                    "strike"@,
                    "0.01"@,
                    "1000000000"@,
                    2,
                ) {
                    Err(f) => Err(f),
                    Ok(strike) => Ok(
                        Json::Object(
                            seq![
                                ("expiry"@, Json::String(expiry)),
                                ("kind"@, Json::String(kind)),
                                ("strike"@, strike),
                            ],
                        ),
                    ),
                },
            },
        },
    }
}

/// Reads the member `key` as a timestamp.
fn read_timestamp(members: &Vec<(String, JsonValue)>, key: &'static str) -> (out: Result<
    String,
    CanonError,
>)
    ensures
        text_outcome(out) == timestamp_member(members_of(members@), key@),
{
    match read_text(members, key) {
        Ok(raw) => normalize_timestamp_text(raw),
        Err(e) => Err(e),
    }
}

/// Reads the member `key` as a decimal.
fn read_decimal(
    members: &Vec<(String, JsonValue)>,
    key: &'static str,
    min: &str,
    max: &str,
    precision: usize,
) -> (out: Result<JsonValue, CanonError>)
    requires
        is_plain_decimal(min@),
        is_plain_decimal(max@),
    ensures
        json_outcome(out) == decimal_member(
            members_of(members@),
            key@,
            min@,
            max@,
            precision as nat,
        ),
{
    match find(members, key) {
        None => Err(CanonError::MissingField { field: key.to_owned() }),
        Some(value) => Canonicalizer::canonicalize_decimal(value, min, max, precision),
    }
}

impl Canonicalizer {
    /// Brings the parameters of an option into their canonical form.
    pub fn canonicalize_option(option: &Vec<(String, JsonValue)>) -> (out: Result<
        JsonValue,
        CanonError,
    >)
        ensures
            json_outcome(out) == canonical_option(members_of(option@)),
    {
        let keys: Vec<&'static str> = vec!["expiry", "kind", "strike"];
        assert(words(keys@) =~= option_keys());
        match check_fields("option", option, &keys, &keys) {
            Err(e) => {
                return Err(e);
            },
            Ok(_) => {},
        }
        let expiry = match read_timestamp(option, "expiry") {
            Ok(expiry) => expiry,
            Err(e) => {
                return Err(e);
            },
        };
        let permitted: Vec<&'static str> = vec!["call", "put"];
        assert(words(permitted@) =~= option_kinds());
        let kind = match read_word(option, "kind", &permitted) {
            Ok(kind) => kind,
            Err(e) => {
                return Err(e);
            },
        };
        proof {
            reveal_strlit("0.01");
            reveal_strlit("1000000000");
            lemma_plain_decimal("0.01"@, 1);
            lemma_plain_decimal("1000000000"@, 10);
        }
        let strike = match read_decimal(option, "strike", "0.01", "1000000000", 2) {
            Ok(strike) => strike,
            Err(e) => {
                return Err(e);
            },
        };
        let mut members: Vec<(String, JsonValue)> = Vec::new();
        members.push(("expiry".to_owned(), JsonValue::String(expiry)));
        members.push(("kind".to_owned(), JsonValue::String(kind)));
        members.push(("strike".to_owned(), strike));
        proof {
            lemma_object_view(members);
            assert(members_of(members@) =~= seq![
                ("expiry"@, Json::String(expiry@)),
                ("kind"@, Json::String(kind@)),
                ("strike"@, strike@),
            ]);
        }
        Ok(JsonValue::Object(members))
    }
}

// ---------------------------------------------------------------------------
// Constraints
// ---------------------------------------------------------------------------

/// The keys that a constraints object may have.
pub open spec fn constraint_keys() -> Seq<Seq<char>> {
    seq!["max_fee_bps"@, "max_funding_bps_8h"@, "max_slippage_bps"@, "venue_allowlist"@]
}

/// A limit in basis points: `default` where the constraints or the member
/// are absent, else the member, an integer from 0 to `limit`.
pub open spec fn bps_member(
    members: Option<Seq<(Seq<char>, Json)>>,
    key: Seq<char>,
    default: u64,
    limit: u64,
) -> Result<u64, Failure> {
    match members {
        None => Ok(default),
        Some(held) => match lookup(held, key) {
            None => Ok(default),
            Some(value) => match value.as_unsigned() {
                None => Err(Failure::MissingField { field: key }),
                Some(n) => if n > limit {
                    Err(Failure::OutOfRange { literal: nat_text(n as nat) })
                } else {
                    Ok(n)
                },
            },
        },
    }
}

/// The canonical words of a list of strings; `None` where an item is not a
/// string.
pub open spec fn venue_words(items: Seq<Json>) -> Option<Seq<Seq<char>>> {
    if forall|i: int| 0 <= i < items.len() ==> #[trigger] items[i] is String {
        Some(Seq::new(items.len(), |i: int| canonical_word(items[i]->String_0)))
    } else {
        None
    }
}

/// The venue allowlist: empty where the constraints or the member are
/// absent, else the canonical words of the member's items, in ascending
/// order and without repeats.
pub open spec fn venue_allowlist(members: Option<Seq<(Seq<char>, Json)>>) -> Result<
    Seq<Seq<char>>,
    Failure,
> {
    match members {
        None => Ok(Seq::empty()),
        Some(held) => match lookup(held, "venue_allowlist"@) {
            None => Ok(Seq::empty()),
            Some(Json::Array(items)) => match venue_words(items) {
                None => Err(Failure::MissingField { field: "venue_allowlist"@ }),
                Some(list) => Ok(without_repeats(sorted(list))),
            },
            Some(_) => Err(Failure::MissingField { field: "venue_allowlist"@ }),
        },
    }
}

/// An array of strings.
pub open spec fn text_items(list: Seq<Seq<char>>) -> Seq<Json> {
    Seq::new(list.len(), |i: int| Json::String(list[i]))
}

/// The rejection of a constraints object for its keys.
pub open spec fn constraints_violation(members: Option<Seq<(Seq<char>, Json)>>) -> Option<
    Failure,
> {
    match members {
        None => None,
        Some(held) => schema_violation("constraints"@, held, Seq::empty(), constraint_keys()),
    }
}

/// The canonical constraints: the three limits with their defaults 30, 50
/// and 100 basis points and their ceilings 100, 100 and 1000, and the venue
/// allowlist.
pub open spec fn canonical_constraints(members: Option<Seq<(Seq<char>, Json)>>) -> Result<
    Json,
    Failure,
> {
    match constraints_violation(members) {
        Some(f) => Err(f),
        None => match bps_member(members, "max_fee_bps"@, 30, 100) {
            Err(f) => Err(f),
            Ok(fee) => match bps_member(members, "max_funding_bps_8h"@, 50, 100) {
                Err(f) => Err(f),
                Ok(funding) => match bps_member(members, "max_slippage_bps"@, 100, 1000) {
                    Err(f) => Err(f),
                    Ok(slippage) => match venue_allowlist(members) {
                        Err(f) => Err(f),
                        Ok(venues) => Ok(
                            Json::Object(
                                seq![
                                    ("max_fee_bps"@, Json::Number(Num::Integer(fee as int))),
                                    (
                                        "max_funding_bps_8h"@,
                                        Json::Number(Num::Integer(funding as int)),
                                    ),
                                    (
                                        "max_slippage_bps"@,
                                        Json::Number(Num::Integer(slippage as int)),
                                    ),
                                    ("venue_allowlist"@, Json::Array(text_items(venues))),
                                ],
                            ),
                        ),
                    },
                },
            },
        },
    }
}

/// Reads a limit in basis points.
fn read_bps(
    members: Option<&Vec<(String, JsonValue)>>,
    key: &'static str,
    default: u64,
    limit: u64,
) -> (out: Result<u64, CanonError>)
    ensures
        match out {
            Ok(n) => bps_member(members_model(members), key@, default, limit) == Ok::<
                u64,
                Failure,
            >(n),
            Err(e) => bps_member(members_model(members), key@, default, limit) == Err::<
                u64,
                Failure,
            >(e@),
        },
{
    let held = match members {
        None => {
            return Ok(default);
        },
        Some(held) => held,
    };
    match find(held, key) {
        None => Ok(default),
        Some(value) => match value.as_u64() {
            None => Err(CanonError::MissingField { field: key.to_owned() }),
            Some(n) => if n > limit {
                Err(CanonError::OutOfRange { literal: string_of(&unsigned_text(n)) })
            } else {
                Ok(n)
            },
        },
    }
}

/// The members of an object that may be absent.
pub open spec fn members_model(members: Option<&Vec<(String, JsonValue)>>) -> Option<
    Seq<(Seq<char>, Json)>,
> {
    match members {
        None => None,
        Some(held) => Some(members_of(held@)),
    }
}

/// The canonical word of each item of a list of strings; `None` where an
/// item is not a string.
fn canonical_words(items: &Vec<JsonValue>) -> (out: Option<Vec<Vec<char>>>)
    ensures
        match out {
            Some(list) => venue_words(items_of(items@)) == Some(texts(list@)),
            None => venue_words(items_of(items@)) is None,
        },
{
    let mut list: Vec<Vec<char>> = Vec::new();
    let mut i: usize = 0;
    while i < items.len()
        invariant
            i <= items.len(),
            list.len() == i,
            forall|j: int| 0 <= j < i ==> #[trigger] items_of(items@)[j] is String,
            forall|j: int|
                0 <= j < i ==> #[trigger] texts(list@)[j] == canonical_word(
                    items_of(items@)[j]->String_0,
                ),
        decreases items.len() - i,
    {
        let ghost before = texts(list@);
        assert(items_of(items@)[i as int] == items@[i as int]@);
        match &items[i] {
            JsonValue::String(text) => {
                list.push(to_lowercase(&trim(&chars_of(text.as_str()))));
                assert(texts(list@) =~= before.push(canonical_word(text@)));
            },
            _ => {
                assert(!(items_of(items@)[i as int] is String));
                return None;
            },
        }
        i += 1;
    }
    assert(texts(list@) =~= venue_words(items_of(items@))->Some_0);
    Some(list)
}

/// Reads the venue allowlist.
fn read_venues(members: Option<&Vec<(String, JsonValue)>>) -> (out: Result<
    Vec<Vec<char>>,
    CanonError,
>)
    ensures
        match out {
            Ok(list) => venue_allowlist(members_model(members)) == Ok::<Seq<Seq<char>>, Failure>(
                texts(list@),
            ),
            Err(e) => venue_allowlist(members_model(members)) == Err::<Seq<Seq<char>>, Failure>(
                e@,
            ),
        },
{
    let held = match members {
        None => {
            assert(texts(Seq::<Vec<char>>::empty()) =~= Seq::<Seq<char>>::empty());
            return Ok(Vec::new());
        },
        Some(held) => held,
    };
    let items = match find(held, "venue_allowlist") {
        None => {
            assert(texts(Seq::<Vec<char>>::empty()) =~= Seq::<Seq<char>>::empty());
            return Ok(Vec::new());
        },
        Some(JsonValue::Array(items)) => {
            proof {
                lemma_array_view(*items);
            }
            items
        },
        Some(_) => {
            return Err(CanonError::MissingField { field: "venue_allowlist".to_owned() });
        },
    };
    let list = match canonical_words(items) {
        Some(list) => list,
        None => {
            return Err(CanonError::MissingField { field: "venue_allowlist".to_owned() });
        },
    };
    Ok(drop_repeats(sort_texts(list)))
}

impl Canonicalizer {
    /// Brings the constraints into their canonical form; `None` stands for
    /// constraints that are absent.
    pub fn canonicalize_constraints(constraints: Option<&Vec<(String, JsonValue)>>) -> (out: Result<
        JsonValue,
        CanonError,
    >)
        ensures
            json_outcome(out) == canonical_constraints(members_model(constraints)),
    {
        match constraints {
            None => {},
            Some(held) => {
                let none: Vec<&'static str> = Vec::new();
                let keys: Vec<&'static str> = vec![
                    "max_fee_bps",
                    "max_funding_bps_8h",
                    "max_slippage_bps",
                    "venue_allowlist",
                ];
                assert(words(none@) =~= Seq::<Seq<char>>::empty());
                assert(words(keys@) =~= constraint_keys());
                match check_fields("constraints", held, &none, &keys) {
                    Err(e) => {
                        return Err(e);
                    },
                    Ok(_) => {},
                }
            },
        }
        let fee = match read_bps(constraints, "max_fee_bps", 30, 100) {
            Ok(n) => n,
            Err(e) => {
                return Err(e);
            },
        };
        let funding = match read_bps(constraints, "max_funding_bps_8h", 50, 100) {
            Ok(n) => n,
            Err(e) => {
                return Err(e);
            },
        };
        let slippage = match read_bps(constraints, "max_slippage_bps", 100, 1000) {
            Ok(n) => n,
            Err(e) => {
                return Err(e);
            },
        };
        let venues = match read_venues(constraints) {
            Ok(list) => list,
            Err(e) => {
                return Err(e);
            },
        };
        let mut items: Vec<JsonValue> = Vec::new();
        let mut i: usize = 0;
        while i < venues.len()
            invariant
                i <= venues.len(),
                items_of(items@) == text_items(texts(venues@)).subrange(0, i as int),
            decreases venues.len() - i,
        {
            let ghost before = items_of(items@);
            items.push(JsonValue::String(string_of(&venues[i])));
            assert(items_of(items@) =~= before.push(Json::String(venues@[i as int]@)));
            i += 1;
        }
        assert(text_items(texts(venues@)).subrange(0, venues.len() as int) =~= text_items(
            texts(venues@),
        ));
        let mut members: Vec<(String, JsonValue)> = Vec::new();
        members.push(("max_fee_bps".to_owned(), JsonValue::Number(JsonNumber::Unsigned(fee))));
        members.push(
            ("max_funding_bps_8h".to_owned(), JsonValue::Number(JsonNumber::Unsigned(funding))),
        );
        members.push(
            ("max_slippage_bps".to_owned(), JsonValue::Number(JsonNumber::Unsigned(slippage))),
        );
        proof {
            lemma_array_view(items);
        }
        members.push(("venue_allowlist".to_owned(), JsonValue::Array(items)));
        proof {
            lemma_object_view(members);
            assert(members_of(members@) =~= seq![
                ("max_fee_bps"@, Json::Number(Num::Integer(fee as int))),
                ("max_funding_bps_8h"@, Json::Number(Num::Integer(funding as int))),
                ("max_slippage_bps"@, Json::Number(Num::Integer(slippage as int))),
                ("venue_allowlist"@, Json::Array(text_items(texts(venues@)))),
            ]);
        }
        Ok(JsonValue::Object(members))
    }
}

// ---------------------------------------------------------------------------
// Derivatives
// ---------------------------------------------------------------------------

/// The keys that a derivatives object must have.
pub open spec fn derivatives_required() -> Seq<Seq<char>> {
    seq!["collateral"@, "instrument"@, "side"@, "size"@, "symbol"@]
}

/// The keys that a derivatives object may have.
pub open spec fn derivatives_keys() -> Seq<Seq<char>> {
    seq![
        "collateral"@,
        "constraints"@,
        "instrument"@,
        "leverage"@,
        "option"@,
        "side"@,
        "size"@,
        "symbol"@,
    ]
}

/// The collateral of a derivatives object, in canonical form.
pub open spec fn collateral_member(members: Seq<(Seq<char>, Json)>) -> Result<Json, Failure> {
    match object_member(members, "collateral"@) {
        None => Err(Failure::MissingField { field: "collateral"@ }),
        Some(inner) => canonical_collateral(inner),
    }
}

/// The constraints of a derivatives object, in canonical form: the defaults
/// where the member is absent. A member that is there and is no object is
/// rejected.
pub open spec fn constraints_member(members: Seq<(Seq<char>, Json)>) -> Result<Json, Failure> {
    match lookup(members, "constraints"@) {
        None => canonical_constraints(None),
        Some(Json::Object(inner)) => canonical_constraints(Some(inner)),
        Some(_) => Err(Failure::MissingField { field: "constraints"@ }),
    }
}

/// The leverage of a derivatives object: `1` where the member is absent,
/// else a decimal between 1 and 100 with at most 2 fractional digits.
pub open spec fn leverage_member(members: Seq<(Seq<char>, Json)>) -> Result<Json, Failure> {
    match lookup(members, "leverage"@) {
        None => Ok(Json::String("1"@)),
        Some(value) => canonical_decimal_value(value, "1"@, "100"@, 2),
    }
}

/// The option parameters of a derivatives object: required and brought into
/// canonical form where the instrument is `option`, else null whatever the
/// member holds.
pub open spec fn option_member(members: Seq<(Seq<char>, Json)>, instrument: Seq<char>) -> Result<
    Json,
    Failure,
> {
    if instrument == "option"@ {
        match object_member(members, "option"@) {
            None => Err(Failure::MissingField { field: "option"@ }),
            Some(inner) => canonical_option(inner),
        }
    } else {
        Ok(Json::Null)
    }
}

/// The symbol of a derivatives object.
pub open spec fn symbol_member(members: Seq<(Seq<char>, Json)>) -> Result<Seq<char>, Failure> {
    match text_member(members, "symbol"@) {
        None => Err(Failure::MissingField { field: "symbol"@ }),
        Some(raw) => normalized_symbol(raw),
    }
}

/// The canonical derivatives object. Its members are read in the order of
/// their keys; the size is a decimal between 0.00000001 and 1000000 with at
/// most 8 fractional digits.
pub open spec fn canonical_derivatives(members: Seq<(Seq<char>, Json)>) -> Result<Json, Failure> {
    match schema_violation("derivatives"@, members, derivatives_required(), derivatives_keys()) {
        Some(f) => Err(f),
        None => match collateral_member(members) {
            Err(f) => Err(f),
            Ok(collateral) => match constraints_member(members) {
                Err(f) => Err(f),
                Ok(constraints) => match permitted_word(members, "instrument"@, instruments()) {
                    Err(f) => Err(f),
                    Ok(instrument) => match leverage_member(members) {
                        Err(f) => Err(f),
                        Ok(leverage) => match option_member(members, instrument) {
                            Err(f) => Err(f),
                            Ok(option) => match permitted_word(members, "side"@, sides()) {
                                Err(f) => Err(f),
                                Ok(side) => match decimal_member(
                                    members,
                                    "size"@,
                                    "0.00000001"@,
                                    "1000000"@,
                                    8,
                                ) {
                                    Err(f) => Err(f),
                                    Ok(size) => match symbol_member(members) {
                                        Err(f) => Err(f),
                                        Ok(symbol) => Ok(
                                            Json::Object(
                                                seq![
                                                    ("collateral"@, collateral),
                                                    ("constraints"@, constraints),
                                                    ("instrument"@, Json::String(instrument)),
                                                    ("leverage"@, leverage),
                                                    ("option"@, option),
                                                    ("side"@, Json::String(side)),
                                                    ("size"@, size),
                                                    ("symbol"@, Json::String(symbol)),
                                                ],
                                            ),
                                        ),
                                    },
                                },
                            },
                        },
                    },
                },
            },
        },
    }
}

/// Reads the collateral.
fn read_collateral(members: &Vec<(String, JsonValue)>) -> (out: Result<JsonValue, CanonError>)
    ensures
        json_outcome(out) == collateral_member(members_of(members@)),
{
    match read_object(members, "collateral") {
        Ok(inner) => Canonicalizer::canonicalize_collateral(inner),
        Err(e) => Err(e),
    }
}

/// Reads the constraints.
fn read_constraints(members: &Vec<(String, JsonValue)>) -> (out: Result<JsonValue, CanonError>)
    ensures
        json_outcome(out) == constraints_member(members_of(members@)),
{
    match find(members, "constraints") {
        None => Canonicalizer::canonicalize_constraints(None),
        Some(JsonValue::Object(inner)) => {
            proof {
                lemma_object_view(*inner);
            }
            Canonicalizer::canonicalize_constraints(Some(inner))
        },
        Some(_) => Err(CanonError::MissingField { field: "constraints".to_owned() }),
    }
}

/// Reads the leverage.
fn read_leverage(members: &Vec<(String, JsonValue)>) -> (out: Result<JsonValue, CanonError>)
    ensures
        json_outcome(out) == leverage_member(members_of(members@)),
{
    match find(members, "leverage") {
        None => Ok(JsonValue::String("1".to_owned())),
        Some(value) => {
            proof {
                reveal_strlit("1");
                reveal_strlit("100");
                lemma_plain_decimal("1"@, 1);
                lemma_plain_decimal("100"@, 3);
            }
            Canonicalizer::canonicalize_decimal(value, "1", "100", 2)
        },
    }
}

/// Reads the option parameters.
fn read_option(members: &Vec<(String, JsonValue)>, instrument: &str) -> (out: Result<
    JsonValue,
    CanonError,
>)
    ensures
        json_outcome(out) == option_member(members_of(members@), instrument@),
{
    if crate::text::is_word(&chars_of(instrument), "option") {
        match read_object(members, "option") {
            Ok(inner) => Canonicalizer::canonicalize_option(inner),
            Err(e) => Err(e),
        }
    } else {
        Ok(JsonValue::Null)
    }
}

/// Reads the symbol.
fn read_symbol(members: &Vec<(String, JsonValue)>) -> (out: Result<String, CanonError>)
    ensures
        text_outcome(out) == symbol_member(members_of(members@)),
{
    match read_text(members, "symbol") {
        Ok(raw) => normalize_symbol(raw),
        Err(e) => Err(e),
    }
}

impl Canonicalizer {
    /// Brings a derivatives object into its canonical form.
    #[verifier::rlimit(40)]
    pub fn canonicalize_derivatives(deriv: &Vec<(String, JsonValue)>) -> (out: Result<
        JsonValue,
        CanonError,
    >)
        ensures
            json_outcome(out) == canonical_derivatives(members_of(deriv@)),
    {
        let required: Vec<&'static str> = vec!["collateral", "instrument", "side", "size", "symbol"];
        let allowed: Vec<&'static str> = vec![
            "collateral",
            "constraints",
            "instrument",
            "leverage",
            "option",
            "side",
            "size",
            "symbol",
        ];
        assert(words(required@) =~= derivatives_required());
        assert(words(allowed@) =~= derivatives_keys());
        match check_fields("derivatives", deriv, &required, &allowed) {
            Err(e) => {
                return Err(e);
            },
            Ok(_) => {},
        }
        let collateral = match read_collateral(deriv) {
            Ok(v) => v,
            Err(e) => {
                return Err(e);
            },
        };
        let constraints = match read_constraints(deriv) {
            Ok(v) => v,
            Err(e) => {
                return Err(e);
            },
        };
        let kinds: Vec<&'static str> = vec!["perp", "option"];
        assert(words(kinds@) =~= instruments());
        let instrument = match read_word(deriv, "instrument", &kinds) {
            Ok(v) => v,
            Err(e) => {
                return Err(e);
            },
        };
        let leverage = match read_leverage(deriv) {
            Ok(v) => v,
            Err(e) => {
                return Err(e);
            },
        };
        let option = match read_option(deriv, instrument.as_str()) {
            Ok(v) => v,
            Err(e) => {
                return Err(e);
            },
        };
        let directions: Vec<&'static str> = vec!["long", "short", "buy", "sell"];
        assert(words(directions@) =~= sides());
        let side = match read_word(deriv, "side", &directions) {
            Ok(v) => v,
            Err(e) => {
                return Err(e);
            },
        };
        proof {
            reveal_strlit("0.00000001");
            reveal_strlit("1000000");
            lemma_plain_decimal("0.00000001"@, 1);
            lemma_plain_decimal("1000000"@, 7);
        }
        let size = match read_decimal(deriv, "size", "0.00000001", "1000000", 8) {
            Ok(v) => v,
            Err(e) => {
                return Err(e);
            },
        };
        let symbol = match read_symbol(deriv) {
            Ok(v) => v,
            Err(e) => {
                return Err(e);
            },
        };
        let mut members: Vec<(String, JsonValue)> = Vec::new();
        members.push(("collateral".to_owned(), collateral));
        members.push(("constraints".to_owned(), constraints));
        members.push(("instrument".to_owned(), JsonValue::String(instrument)));
        members.push(("leverage".to_owned(), leverage));
        members.push(("option".to_owned(), option));
        members.push(("side".to_owned(), JsonValue::String(side)));
        members.push(("size".to_owned(), size));
        members.push(("symbol".to_owned(), JsonValue::String(symbol)));
        proof {
            lemma_object_view(members);
            assert(members_of(members@) =~= seq![
                ("collateral"@, collateral@),
                ("constraints"@, constraints@),
                ("instrument"@, Json::String(instrument@)),
                ("leverage"@, leverage@),
                ("option"@, option@),
                ("side"@, Json::String(side@)),
                ("size"@, size@),
                ("symbol"@, Json::String(symbol@)),
            ]);
        }
        Ok(JsonValue::Object(members))
    }
}

// ---------------------------------------------------------------------------
// The intent
// ---------------------------------------------------------------------------

/// The keys of an intent.
pub open spec fn intent_keys() -> Seq<Seq<char>> {
    seq!["deadline"@, "derivatives"@, "intent_type"@, "nonce"@, "signer_id"@, "version"@]
}

/// The rejection of a member that must hold exactly the text `pinned`.
pub open spec fn pinned_violation(
    members: Seq<(Seq<char>, Json)>,
    key: Seq<char>,
    pinned: Seq<char>,
) -> Option<Failure> {
    match text_member(members, key) {
        None => Some(Failure::MissingField { field: key }),
        Some(text) => if text == pinned {
            None
        } else {
            Some(Failure::InvalidEnum { field: key, value: text })
        },
    }
}

/// The derivatives of an intent, in canonical form.
pub open spec fn derivatives_member(members: Seq<(Seq<char>, Json)>) -> Result<Json, Failure> {
    match object_member(members, "derivatives"@) {
        None => Err(Failure::MissingField { field: "derivatives"@ }),
        Some(inner) => canonical_derivatives(inner),
    }
}

/// The nonce of an intent.
pub open spec fn nonce_member(members: Seq<(Seq<char>, Json)>) -> Result<Seq<char>, Failure> {
    match lookup(members, "nonce"@) {
        None => Err(Failure::MissingField { field: "nonce"@ }),
        Some(value) => normalized_nonce(value),
    }
}

/// The signer of an intent.
pub open spec fn signer_member(members: Seq<(Seq<char>, Json)>) -> Result<Seq<char>, Failure> {
    match text_member(members, "signer_id"@) {
        None => Err(Failure::MissingField { field: "signer_id"@ }),
        Some(raw) => normalized_signer_id(raw),
    }
}

/// The canonical intent from the members of the document.
///
/// The order of the checks: the keys; the version, which must be `1.0.0`;
/// the intent type, which must be `derivatives`; that the derivatives are an
/// object; the deadline; the derivatives; the nonce; the signer.
pub open spec fn canonical_intent_members(members: Seq<(Seq<char>, Json)>) -> Result<
    Json,
    Failure,
> {
    match schema_violation("intent"@, members, intent_keys(), intent_keys()) {
        Some(f) => Err(f),
        None => match pinned_violation(members, "version"@, "1.0.0"@) {
            Some(f) => Err(f),
            None => match pinned_violation(members, "intent_type"@, "derivatives"@) {
                Some(f) => Err(f),
                None => if object_member(members, "derivatives"@) is None {
                    Err(Failure::MissingField { field: "derivatives"@ })
                } else {
                    match timestamp_member(members, "deadline"@) {
                        Err(f) => Err(f),
                        Ok(deadline) => match derivatives_member(members) {
                            Err(f) => Err(f),
                            Ok(derivatives) => match nonce_member(members) {
                                Err(f) => Err(f),
                                Ok(nonce) => match signer_member(members) {
                                    Err(f) => Err(f),
                                    Ok(signer) => Ok(
                                        Json::Object(
                                            seq![
                                                ("deadline"@, Json::String(deadline)),
                                                ("derivatives"@, derivatives),
                                                ("intent_type"@, Json::String("derivatives"@)),
                                                ("nonce"@, Json::String(nonce)),
                                                ("signer_id"@, Json::String(signer)),
                                                ("version"@, Json::String("1.0.0"@)),
                                            ],
                                        ),
                                    ),
                                },
                            },
                        },
                    }
                },
            },
        },
    }
}

/// The canonical intent for a document, or the rejection of the document. A
/// document that is no object is rejected as one without keys.
pub open spec fn canonical_intent(intent: Json) -> Result<Json, Failure> {
    match intent {
        Json::Object(members) => canonical_intent_members(members),
        _ => Err(
            Failure::SchemaViolation {
                object: "intent"@,
                expected: intent_keys(),
                actual: Seq::empty(),
            },
        ),
    }
}

/// Checks a member that must hold exactly the text `pinned`.
fn check_pinned(members: &Vec<(String, JsonValue)>, key: &'static str, pinned: &'static str) -> (out:
    Result<(), CanonError>)
    ensures
        match out {
            Ok(_) => pinned_violation(members_of(members@), key@, pinned@) is None,
            Err(e) => pinned_violation(members_of(members@), key@, pinned@) == Some(e@),
        },
{
    let text = match read_text(members, key) {
        Ok(text) => text,
        Err(e) => {
            return Err(e);
        },
    };
    if crate::text::is_word(&chars_of(text), pinned) {
        Ok(())
    } else {
        Err(CanonError::InvalidEnum { field: key.to_owned(), value: text.to_owned() })
    }
}

/// Reads the nonce.
fn read_nonce(members: &Vec<(String, JsonValue)>) -> (out: Result<String, CanonError>)
    ensures
        text_outcome(out) == nonce_member(members_of(members@)),
{
    match find(members, "nonce") {
        None => Err(CanonError::MissingField { field: "nonce".to_owned() }),
        Some(value) => Canonicalizer::normalize_nonce(value),
    }
}

/// Reads the signer.
fn read_signer(members: &Vec<(String, JsonValue)>) -> (out: Result<String, CanonError>)
    ensures
        text_outcome(out) == signer_member(members_of(members@)),
{
    match read_text(members, "signer_id") {
        Ok(raw) => Canonicalizer::normalize_signer_id(raw),
        Err(e) => Err(e),
    }
}

/// Brings the members of an intent into canonical form.
#[verifier::rlimit(40)]
fn canonicalize_members(members: &Vec<(String, JsonValue)>) -> (out: Result<JsonValue, CanonError>)
    ensures
        json_outcome(out) == canonical_intent_members(members_of(members@)),
{
    let keys: Vec<&'static str> = vec![
        "deadline",
        "derivatives",
        "intent_type",
        "nonce",
        "signer_id",
        "version",
    ];
    assert(words(keys@) =~= intent_keys());
    match check_fields("intent", members, &keys, &keys) {
        Err(e) => {
            return Err(e);
        },
        Ok(_) => {},
    }
    match check_pinned(members, "version", "1.0.0") {
        Err(e) => {
            return Err(e);
        },
        Ok(_) => {},
    }
    match check_pinned(members, "intent_type", "derivatives") {
        Err(e) => {
            return Err(e);
        },
        Ok(_) => {},
    }
    let inner = match read_object(members, "derivatives") {
        Ok(inner) => inner,
        Err(e) => {
            return Err(e);
        },
    };
    let deadline = match read_timestamp(members, "deadline") {
        Ok(v) => v,
        Err(e) => {
            return Err(e);
        },
    };
    let derivatives = match Canonicalizer::canonicalize_derivatives(inner) {
        Ok(v) => v,
        Err(e) => {
            return Err(e);
        },
    };
    let nonce = match read_nonce(members) {
        Ok(v) => v,
        Err(e) => {
            return Err(e);
        },
    };
    let signer = match read_signer(members) {
        Ok(v) => v,
        Err(e) => {
            return Err(e);
        },
    };
    let mut out: Vec<(String, JsonValue)> = Vec::new();
    out.push(("deadline".to_owned(), JsonValue::String(deadline)));
    out.push(("derivatives".to_owned(), derivatives));
    out.push(("intent_type".to_owned(), JsonValue::String("derivatives".to_owned())));
    out.push(("nonce".to_owned(), JsonValue::String(nonce)));
    out.push(("signer_id".to_owned(), JsonValue::String(signer)));
    out.push(("version".to_owned(), JsonValue::String("1.0.0".to_owned())));
    proof {
        lemma_object_view(out);
        assert(members_of(out@) =~= seq![
            ("deadline"@, Json::String(deadline@)),
            ("derivatives"@, derivatives@),
            ("intent_type"@, Json::String("derivatives"@)),
            ("nonce"@, Json::String(nonce@)),
            ("signer_id"@, Json::String(signer@)),
            ("version"@, Json::String("1.0.0"@)),
        ]);
    }
    Ok(JsonValue::Object(out))
}

impl Canonicalizer {
    /// Validates a derivatives intent and brings it into its canonical form.
    pub fn canonicalize_intent(intent: &JsonValue) -> (out: Result<JsonValue, CanonError>)
        ensures
            json_outcome(out) == canonical_intent(intent@),
    {
        match intent {
            JsonValue::Object(members) => {
                proof {
                    lemma_object_view(*members);
                }
                canonicalize_members(members)
            },
            _ => {
                let keys: Vec<&'static str> = vec![
                    "deadline",
                    "derivatives",
                    "intent_type",
                    "nonce",
                    "signer_id",
                    "version",
                ];
                assert(words(keys@) =~= intent_keys());
                let expected = crate::fields::strings_of(&word_texts(&keys));
                let actual: Vec<String> = Vec::new();
                assert(crate::error::names(actual@) =~= Seq::<Seq<char>>::empty());
                Err(CanonError::SchemaViolation { object: "intent".to_owned(), expected, actual })
            },
        }
    }
}

impl Canonicalizer {
    /// Computes the digest of a canonical serialization: the SHA-256 hash of
    /// its UTF-8 bytes as 64 lower-case hexadecimal characters.
    pub fn compute_hash(canonical_json: &str) -> (out: String)
        ensures
            out@ == crate::digest::digest_of(canonical_json@),
            out@.len() == 64,
            forall|i: int| 0 <= i < 64 ==> crate::digest::is_lower_hex(#[trigger] out@[i]),
    {
        crate::digest::digest_text(canonical_json)
    }
}

} // verus!
