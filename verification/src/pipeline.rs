//! From a document to its identity: canonical form, canonical text, digest.

use vstd::prelude::*;
use crate::canonicalization::{
    canonical_collateral, canonical_constraints, canonical_derivatives, canonical_intent,
    canonical_intent_members, canonical_option, Canonicalizer,
};
use crate::codec::{held_text, is_writable, json_text, parsed_json};
use crate::digest::{digest_of, is_lower_hex};
use crate::error::{CanonError, Failure};
use crate::host::SimulationData;
use crate::json::{key_names, lemma_object_view, members_of, Json, JsonNumber, JsonValue, Num};
use crate::order::{lemma_keys_ascend, lemma_text_before};

verus! {

/// A canonical collateral can be written.
pub proof fn lemma_collateral_writable(members: Seq<(Seq<char>, Json)>)
    requires
        canonical_collateral(members) is Ok,
    ensures
        is_writable(canonical_collateral(members)->Ok_0),
{
    let out = canonical_collateral(members)->Ok_0;
    let held = out->Object_0;
    let keys = key_names(held);
    reveal_strlit("chain");
    reveal_strlit("token");
    assert(keys =~= seq!["chain"@, "token"@]);
    lemma_text_before("chain"@, "token"@, 0);
    lemma_keys_ascend(keys);
    assert forall|i: int| 0 <= i < held.len() implies is_writable((#[trigger] held[i]).1) by {
        if i == 0 {
        } else {
        }
    }
}

/// A canonical option can be written.
pub proof fn lemma_option_writable(members: Seq<(Seq<char>, Json)>)
    requires
        canonical_option(members) is Ok,
    ensures
        is_writable(canonical_option(members)->Ok_0),
{
    let out = canonical_option(members)->Ok_0;
    let held = out->Object_0;
    let keys = key_names(held);
    reveal_strlit("expiry");
    reveal_strlit("kind");
    reveal_strlit("strike");
    assert(keys =~= seq!["expiry"@, "kind"@, "strike"@]);
    lemma_text_before("expiry"@, "kind"@, 0);
    lemma_text_before("kind"@, "strike"@, 0);
    lemma_keys_ascend(keys);
    assert forall|i: int| 0 <= i < held.len() implies is_writable((#[trigger] held[i]).1) by {
        if i == 0 {
        } else if i == 1 {
        } else {
        }
    }
}

/// A canonical constraints object can be written.
pub proof fn lemma_constraints_writable(members: Option<Seq<(Seq<char>, Json)>>)
    requires
        canonical_constraints(members) is Ok,
    ensures
        is_writable(canonical_constraints(members)->Ok_0),
{
    let out = canonical_constraints(members)->Ok_0;
    let held = out->Object_0;
    let keys = key_names(held);
    reveal_strlit("max_fee_bps");
    reveal_strlit("max_funding_bps_8h");
    reveal_strlit("max_slippage_bps");
    reveal_strlit("venue_allowlist");
    assert(keys =~= seq![
        "max_fee_bps"@,
        "max_funding_bps_8h"@,
        "max_slippage_bps"@,
        "venue_allowlist"@,
    ]);
    lemma_text_before("max_fee_bps"@, "max_funding_bps_8h"@, 5);
    lemma_text_before("max_funding_bps_8h"@, "max_slippage_bps"@, 4);
    lemma_text_before("max_slippage_bps"@, "venue_allowlist"@, 0);
    lemma_keys_ascend(keys);
    let venues = held[3].1;
    assert(is_writable(venues)) by {
        let items = venues->Array_0;
        assert forall|i: int| 0 <= i < items.len() implies is_writable(#[trigger] items[i]) by {
            assert(items[i] is String);
        }
    }
    assert forall|i: int| 0 <= i < held.len() implies is_writable((#[trigger] held[i]).1) by {
        if i == 0 {
        } else if i == 1 {
        } else if i == 2 {
        } else {
        }
    }
}

/// A canonical derivatives object can be written.
pub proof fn lemma_derivatives_writable(members: Seq<(Seq<char>, Json)>)
    requires
        canonical_derivatives(members) is Ok,
    ensures
        is_writable(canonical_derivatives(members)->Ok_0),
{
    let out = canonical_derivatives(members)->Ok_0;
    let held = out->Object_0;
    let keys = key_names(held);
    reveal_strlit("collateral");
    reveal_strlit("constraints");
    reveal_strlit("instrument");
    reveal_strlit("leverage");
    reveal_strlit("option");
    reveal_strlit("side");
    reveal_strlit("size");
    reveal_strlit("symbol");
    assert(keys =~= seq![
        "collateral"@,
        "constraints"@,
        "instrument"@,
        "leverage"@,
        "option"@,
        "side"@,
        "size"@,
        "symbol"@,
    ]);
    lemma_text_before("collateral"@, "constraints"@, 2);
    lemma_text_before("constraints"@, "instrument"@, 0);
    lemma_text_before("instrument"@, "leverage"@, 0);
    lemma_text_before("leverage"@, "option"@, 0);
    lemma_text_before("option"@, "side"@, 0);
    lemma_text_before("side"@, "size"@, 2);
    lemma_text_before("size"@, "symbol"@, 1);
    lemma_keys_ascend(keys);
    let collateral = crate::canonicalization::object_member(members, "collateral"@)->Some_0;
    lemma_collateral_writable(collateral);
    match crate::json::lookup(members, "constraints"@) {
        None => {
            lemma_constraints_writable(None);
        },
        Some(Json::Object(inner)) => {
            lemma_constraints_writable(Some(inner));
        },
        Some(_) => {},
    }
    let instrument = held[2].1->String_0;
    if instrument == "option"@ {
        lemma_option_writable(crate::canonicalization::object_member(members, "option"@)->Some_0);
    }
    assert forall|i: int| 0 <= i < held.len() implies is_writable((#[trigger] held[i]).1) by {
        if i == 0 {
        } else if i == 1 {
        } else if i == 2 {
        } else if i == 3 {
        } else if i == 4 {
        } else if i == 5 {
        } else if i == 6 {
        } else {
        }
    }
}

/// A canonical intent can be written.
pub proof fn lemma_intent_writable(intent: Json)
    requires
        canonical_intent(intent) is Ok,
    ensures
        is_writable(canonical_intent(intent)->Ok_0),
{
    let members = intent->Object_0;
    let out = canonical_intent_members(members)->Ok_0;
    let held = out->Object_0;
    let keys = key_names(held);
    reveal_strlit("deadline");
    reveal_strlit("derivatives");
    reveal_strlit("intent_type");
    reveal_strlit("nonce");
    reveal_strlit("signer_id");
    reveal_strlit("version");
    assert(keys =~= seq![
        "deadline"@,
        "derivatives"@,
        "intent_type"@,
        "nonce"@,
        "signer_id"@,
        "version"@,
    ]);
    lemma_text_before("deadline"@, "derivatives"@, 2);
    lemma_text_before("derivatives"@, "intent_type"@, 0);
    lemma_text_before("intent_type"@, "nonce"@, 0);
    lemma_text_before("nonce"@, "signer_id"@, 0);
    lemma_text_before("signer_id"@, "version"@, 0);
    lemma_keys_ascend(keys);
    lemma_derivatives_writable(crate::canonicalization::object_member(members, "derivatives"@)->Some_0);
    assert forall|i: int| 0 <= i < held.len() implies is_writable((#[trigger] held[i]).1) by {
        if i == 0 {
        } else if i == 1 {
        } else if i == 2 {
        } else if i == 3 {
        } else if i == 4 {
        } else {
        }
    }
}

/// The identity of an intent: the digest of the canonical text of its
/// canonical form.
pub open spec fn intent_identity(intent: Json) -> Result<Seq<char>, Failure> {
    match canonical_intent(intent) {
        Ok(canonical) => Ok(digest_of(json_text(canonical))),
        Err(f) => Err(f),
    }
}

impl Canonicalizer {
    /// The canonical text of an intent: its canonical form, written as
    /// compact JSON.
    pub fn canonical_text(intent: &JsonValue) -> (out: Result<String, CanonError>)
        ensures
            match out {
                Ok(text) => canonical_intent(intent@) is Ok && text@ == json_text(
                    canonical_intent(intent@)->Ok_0,
                ),
                Err(e) => canonical_intent(intent@) == Err::<Json, Failure>(e@),
            },
    {
        let canonical = match Canonicalizer::canonicalize_intent(intent) {
            Ok(canonical) => canonical,
            Err(e) => {
                return Err(e);
            },
        };
        proof {
            lemma_intent_writable(intent@);
        }
        match canonical.to_text() {
            Some(text) => Ok(text),
            None => vstd::pervasive::unreached(),
        }
    }

    /// The identity of an intent: 64 lower-case hexadecimal characters.
    pub fn intent_digest(intent: &JsonValue) -> (out: Result<String, CanonError>)
        ensures
            match out {
                Ok(digest) => intent_identity(intent@) == Ok::<Seq<char>, Failure>(digest@)
                    && digest@.len() == 64 && forall|i: int|
                    0 <= i < 64 ==> is_lower_hex(#[trigger] digest@[i]),
                Err(e) => intent_identity(intent@) == Err::<Seq<char>, Failure>(e@),
            },
    {
        match Canonicalizer::canonical_text(intent) {
            Ok(text) => Ok(Canonicalizer::compute_hash(text.as_str())),
            Err(e) => Err(e),
        }
    }
}

/// Why a text has no identity as an intent.
#[derive(Debug, PartialEq, Eq)]
pub enum HashRefusal {
    /// The text is not the JSON text that is asked for.
    NotJson,
    /// The document is rejected.
    Rejected(CanonError),
}

/// The identity of the intent that a JSON text writes.
pub open spec fn text_identity(text: Seq<char>) -> Option<Result<Seq<char>, Failure>> {
    match parsed_json(text) {
        Some(document) => Some(intent_identity(document)),
        None => None,
    }
}

/// The document of which the simulation hash is the digest: the intent's
/// identity with venue, estimated fill, estimated fees and time of the
/// simulation.
pub open spec fn simulation_document(intent_hash: Seq<char>, data: SimulationData) -> Json {
    Json::Object(
        seq![
            ("intent_hash"@, Json::String(intent_hash)),
            ("venue"@, Json::String(data.venue@)),
            ("estimated_fill"@, Json::String(data.estimated_fill@)),
            ("estimated_fees"@, Json::String(data.estimated_fees@)),
            ("timestamp"@, Json::Number(Num::Integer(data.timestamp as int))),
        ],
    )
}

impl Canonicalizer {
    /// The identity of the intent that a JSON text writes.
    pub fn compute_intent_hash(intent_json: &str) -> (out: Result<String, HashRefusal>)
        ensures
            match out {
                Ok(digest) => text_identity(intent_json@) == Some(
                    Ok::<Seq<char>, Failure>(digest@),
                ) && digest@.len() == 64,
                Err(HashRefusal::NotJson) => text_identity(intent_json@) is None,
                Err(HashRefusal::Rejected(e)) => text_identity(intent_json@) == Some(
                    Err::<Seq<char>, Failure>(e@),
                ),
            },
    {
        let document = match JsonValue::from_text(intent_json) {
            Some(document) => document,
            None => {
                return Err(HashRefusal::NotJson);
            },
        };
        match Canonicalizer::intent_digest(&document) {
            Ok(digest) => Ok(digest),
            Err(e) => Err(HashRefusal::Rejected(e)),
        }
    }

    /// The hash of a simulation of the intent with the identity
    /// `intent_hash`: the digest of the simulation document, written with
    /// its members in the order in which it holds them.
    pub fn compute_simulation_hash(intent_hash: &str, data: &SimulationData) -> (out: String)
        ensures
            out@ == digest_of(held_text(simulation_document(intent_hash@, *data))),
            out@.len() == 64,
    {
        let mut members: Vec<(String, JsonValue)> = Vec::new();
        members.push(("intent_hash".to_owned(), JsonValue::String(intent_hash.to_owned())));
        members.push(("venue".to_owned(), JsonValue::String(data.venue.clone())));
        members.push(("estimated_fill".to_owned(), JsonValue::String(data.estimated_fill.clone())));
        members.push(("estimated_fees".to_owned(), JsonValue::String(data.estimated_fees.clone())));
        members.push(
            ("timestamp".to_owned(), JsonValue::Number(JsonNumber::Unsigned(data.timestamp))),
        );
        proof {
            lemma_object_view(members);
            assert(members_of(members@) =~= simulation_document(intent_hash@, *data)->Object_0);
        }
        Canonicalizer::compute_hash(JsonValue::Object(members).to_held_text().as_str())
    }
}

} // verus!
