//! The typed form of an intent, and the document that it stands for.

use vstd::prelude::*;

use crate::json::{items_of, lemma_array_view, lemma_object_view, members_of, Json, JsonNumber, JsonValue, Num};

verus! {

/// Where the collateral of a trade lies.
#[derive(Clone, Debug, PartialEq, Eq)]
pub struct CollateralInfo {
    pub token: String,
    pub chain: String,
}

/// The parameters of an option.
#[derive(Clone, Debug, PartialEq, Eq)]
pub struct OptionParams {
    pub kind: String,
    pub strike: String,
    pub expiry: String,
}

/// The limits that the signer sets on an execution. A limit that is `None`
/// takes its default when the intent is brought into canonical form.
#[derive(Clone, Debug, PartialEq, Eq)]
pub struct Constraints {
    pub max_slippage_bps: Option<u16>,
    pub max_funding_bps_8h: Option<u16>,
    pub max_fee_bps: Option<u16>,
    pub venue_allowlist: Option<Vec<String>>,
}

/// The trade that an intent asks for.
#[derive(Clone, Debug, PartialEq, Eq)]
pub struct DerivativesAction {
    pub instrument: String,
    pub symbol: String,
    pub side: String,
    pub size: String,
    pub leverage: Option<String>,
    pub option: Option<OptionParams>,
    pub constraints: Option<Constraints>,
    pub collateral: CollateralInfo,
}

/// A derivatives intent.
#[derive(Clone, Debug, PartialEq, Eq)]
pub struct DerivativesIntent {
    pub version: String,
    pub intent_type: String,
    pub derivatives: DerivativesAction,
    pub signer_id: String,
    pub deadline: String,
    pub nonce: String,
}

/// One member, where there is a value for it.
pub open spec fn optional_member(key: Seq<char>, value: Option<Json>) -> Seq<(Seq<char>, Json)> {
    match value {
        Some(v) => seq![(key, v)],
        None => Seq::empty(),
    }
}

/// A limit in basis points as a document.
pub open spec fn bps_document(limit: Option<u16>) -> Option<Json> {
    match limit {
        Some(n) => Some(Json::Number(Num::Integer(n as int))),
        None => None,
    }
}

/// A text that may be absent as a document.
pub open spec fn text_document(text: Option<String>) -> Option<Json> {
    match text {
        Some(t) => Some(Json::String(t@)),
        None => None,
    }
}

/// A list of texts as an array of strings.
pub open spec fn list_document(list: Seq<String>) -> Json {
    Json::Array(Seq::new(list.len(), |i: int| Json::String(list[i]@)))
}

impl CollateralInfo {
    /// The document that this collateral stands for.
    pub open spec fn document(self) -> Json {
        Json::Object(
            seq![("chain"@, Json::String(self.chain@)), ("token"@, Json::String(self.token@))],
        )
    }

    /// The document that this collateral stands for.
    pub fn to_document(&self) -> (out: JsonValue)
        ensures
            out@ == self.document(),
    {
        let mut members: Vec<(String, JsonValue)> = Vec::new();
        members.push(("chain".to_owned(), JsonValue::String(self.chain.clone())));
        members.push(("token".to_owned(), JsonValue::String(self.token.clone())));
        proof {
            lemma_object_view(members);
            assert(members_of(members@) =~= self.document()->Object_0);
        }
        JsonValue::Object(members)
    }
}

impl OptionParams {
    /// The document that these parameters stand for.
    pub open spec fn document(self) -> Json {
        Json::Object(
            seq![
                ("expiry"@, Json::String(self.expiry@)),
                ("kind"@, Json::String(self.kind@)),
                ("strike"@, Json::String(self.strike@)),
            ],
        )
    }

    /// The document that these parameters stand for.
    pub fn to_document(&self) -> (out: JsonValue)
        ensures
            out@ == self.document(),
    {
        let mut members: Vec<(String, JsonValue)> = Vec::new();
        members.push(("expiry".to_owned(), JsonValue::String(self.expiry.clone())));
        members.push(("kind".to_owned(), JsonValue::String(self.kind.clone())));
        members.push(("strike".to_owned(), JsonValue::String(self.strike.clone())));
        proof {
            lemma_object_view(members);
            assert(members_of(members@) =~= self.document()->Object_0);
        }
        JsonValue::Object(members)
    }
}

/// An array of strings for a list of texts.
fn list_value(list: &Vec<String>) -> (out: JsonValue)
    ensures
        out@ == list_document(list@),
{
    let mut items: Vec<JsonValue> = Vec::new();
    let mut i: usize = 0;
    while i < list.len()
        invariant
            i <= list.len(),
            items.len() == i,
            forall|j: int| 0 <= j < i ==> #[trigger] items_of(items@)[j] == Json::String(list@[j]@),
        decreases list.len() - i,
    {
        let ghost before = items_of(items@);
        items.push(JsonValue::String(list[i].clone()));
        assert(items_of(items@) =~= before.push(Json::String(list@[i as int]@)));
        i += 1;
    }
    proof {
        lemma_array_view(items);
        assert(items_of(items@) =~= list_document(list@)->Array_0);
    }
    JsonValue::Array(items)
}

impl Constraints {
    /// The members of the document that these constraints stand for: one for
    /// each limit that is set.
    pub open spec fn members(self) -> Seq<(Seq<char>, Json)> {
        optional_member("max_fee_bps"@, bps_document(self.max_fee_bps)) + optional_member(
            "max_funding_bps_8h"@,
            bps_document(self.max_funding_bps_8h),
        ) + optional_member("max_slippage_bps"@, bps_document(self.max_slippage_bps))
            + optional_member(
            "venue_allowlist"@,
            match self.venue_allowlist {
                Some(list) => Some(list_document(list@)),
                None => None,
            },
        )
    }

    /// The document that these constraints stand for.
    pub open spec fn document(self) -> Json {
        Json::Object(self.members())
    }

    /// The document that these constraints stand for.
    pub fn to_document(&self) -> (out: JsonValue)
        ensures
            out@ == self.document(),
    {
        let mut members: Vec<(String, JsonValue)> = Vec::new();
        assert(members_of(members@) =~= Seq::empty());
        if let Some(n) = self.max_fee_bps {
            let ghost before = members_of(members@);
            members.push(("max_fee_bps".to_owned(), JsonValue::Number(JsonNumber::Unsigned(n as u64))));
            assert(members_of(members@) =~= before + optional_member(
                "max_fee_bps"@,
                bps_document(self.max_fee_bps),
            ));
        }
        let ghost one = members_of(members@);
        assert(one =~= optional_member("max_fee_bps"@, bps_document(self.max_fee_bps)));
        if let Some(n) = self.max_funding_bps_8h {
            members.push(
                ("max_funding_bps_8h".to_owned(), JsonValue::Number(JsonNumber::Unsigned(n as u64))),
            );
        }
        let ghost two = members_of(members@);
        assert(two =~= one + optional_member(
            "max_funding_bps_8h"@,
            bps_document(self.max_funding_bps_8h),
        ));
        if let Some(n) = self.max_slippage_bps {
            members.push(
                ("max_slippage_bps".to_owned(), JsonValue::Number(JsonNumber::Unsigned(n as u64))),
            );
        }
        let ghost three = members_of(members@);
        assert(three =~= two + optional_member(
            "max_slippage_bps"@,
            bps_document(self.max_slippage_bps),
        ));
        if let Some(list) = &self.venue_allowlist {
            members.push(("venue_allowlist".to_owned(), list_value(list)));
        }
        proof {
            lemma_object_view(members);
            assert(members_of(members@) =~= self.members());
        }
        JsonValue::Object(members)
    }
}

impl DerivativesAction {
    /// The members of the document that this trade stands for: one for each
    /// field that is set.
    pub open spec fn members(self) -> Seq<(Seq<char>, Json)> {
        seq![("collateral"@, self.collateral.document())] + optional_member(
            "constraints"@,
            match self.constraints {
                Some(c) => Some(c.document()),
                None => None,
            },
        ) + seq![("instrument"@, Json::String(self.instrument@))] + optional_member(
            "leverage"@,
            text_document(self.leverage),
        ) + optional_member(
            "option"@,
            match self.option {
                Some(o) => Some(o.document()),
                None => None,
            },
        ) + seq![
            ("side"@, Json::String(self.side@)),
            ("size"@, Json::String(self.size@)),
            ("symbol"@, Json::String(self.symbol@)),
        ]
    }

    /// The document that this trade stands for.
    pub open spec fn document(self) -> Json {
        Json::Object(self.members())
    }

    /// The document that this trade stands for.
    pub fn to_document(&self) -> (out: JsonValue)
        ensures
            out@ == self.document(),
    {
        let mut members: Vec<(String, JsonValue)> = Vec::new();
        members.push(("collateral".to_owned(), self.collateral.to_document()));
        let ghost a = members_of(members@);
        assert(a =~= seq![("collateral"@, self.collateral.document())]);
        if let Some(c) = &self.constraints {
            members.push(("constraints".to_owned(), c.to_document()));
        }
        let ghost b = members_of(members@);
        assert(b =~= a + optional_member(
            "constraints"@,
            match self.constraints {
                Some(c) => Some(c.document()),
                None => None,
            },
        ));
        members.push(("instrument".to_owned(), JsonValue::String(self.instrument.clone())));
        let ghost c = members_of(members@);
        assert(c =~= b + seq![("instrument"@, Json::String(self.instrument@))]);
        if let Some(l) = &self.leverage {
            members.push(("leverage".to_owned(), JsonValue::String(l.clone())));
        }
        let ghost d = members_of(members@);
        assert(d =~= c + optional_member("leverage"@, text_document(self.leverage)));
        if let Some(o) = &self.option {
            members.push(("option".to_owned(), o.to_document()));
        }
        let ghost e = members_of(members@);
        assert(e =~= d + optional_member(
            "option"@,
            match self.option {
                Some(o) => Some(o.document()),
                None => None,
            },
        ));
        members.push(("side".to_owned(), JsonValue::String(self.side.clone())));
        members.push(("size".to_owned(), JsonValue::String(self.size.clone())));
        members.push(("symbol".to_owned(), JsonValue::String(self.symbol.clone())));
        proof {
            lemma_object_view(members);
            assert(members_of(members@) =~= e + seq![
                ("side"@, Json::String(self.side@)),
                ("size"@, Json::String(self.size@)),
                ("symbol"@, Json::String(self.symbol@)),
            ]);
        }
        JsonValue::Object(members)
    }
}

impl DerivativesIntent {
    /// The document that this intent stands for.
    pub open spec fn document(self) -> Json {
        Json::Object(
            seq![
                ("deadline"@, Json::String(self.deadline@)),
                ("derivatives"@, self.derivatives.document()),
                ("intent_type"@, Json::String(self.intent_type@)),
                ("nonce"@, Json::String(self.nonce@)),
                ("signer_id"@, Json::String(self.signer_id@)),
                ("version"@, Json::String(self.version@)),
            ],
        )
    }

    /// The document that this intent stands for.
    pub fn to_document(&self) -> (out: JsonValue)
        ensures
            out@ == self.document(),
    {
        let mut members: Vec<(String, JsonValue)> = Vec::new();
        members.push(("deadline".to_owned(), JsonValue::String(self.deadline.clone())));
        members.push(("derivatives".to_owned(), self.derivatives.to_document()));
        members.push(("intent_type".to_owned(), JsonValue::String(self.intent_type.clone())));
        members.push(("nonce".to_owned(), JsonValue::String(self.nonce.clone())));
        members.push(("signer_id".to_owned(), JsonValue::String(self.signer_id.clone())));
        members.push(("version".to_owned(), JsonValue::String(self.version.clone())));
        proof {
            lemma_object_view(members);
            assert(members_of(members@) =~= self.document()->Object_0);
        }
        JsonValue::Object(members)
    }
}

} // verus!
